//! Reaching a daemon to report what it shows, and keeping nothing of it.

use vstd::prelude::*;

use crate::client::forward::RemoteTarget;
use crate::text;
use crate::text::opt_text;

verus! {

/// What one probe observed. That a daemon cannot be reached and that it refused the token are two
/// answers, not two failures.
#[derive(Debug, Clone, PartialEq, Eq)]
pub struct ProbeResult {
    pub reachable: bool,
    /// The fingerprint of the server's certificate. None without TLS, or where the handshake failed.
    pub fingerprint: Option<String>,
    /// Whether the daemon accepted our token. A daemon without TLS accepts any.
    pub authenticated: bool,
    pub error: Option<String>,
}

/// What one probe observed.
pub struct ProbeResultView {
    pub reachable: bool,
    pub fingerprint: Option<Seq<char>>,
    pub authenticated: bool,
    pub error: Option<Seq<char>>,
}

impl View for ProbeResult {
    type V = ProbeResultView;

    open spec fn view(&self) -> ProbeResultView {
        ProbeResultView {
            reachable: self.reachable,
            fingerprint: opt_text(self.fingerprint),
            authenticated: self.authenticated,
            error: opt_text(self.error),
        }
    }
}

/// What a probe may meet, in the order in which it can.
#[derive(Debug, PartialEq, Eq)]
pub enum ProbeEvent {
    /// The connection was not there in the time allowed.
    DialTimedOut,
    /// The connection failed, for this reason.
    DialFailed(String),
    Dialed,
    /// The TLS handshake was not done in the time allowed.
    HandshakeTimedOut,
    /// The TLS handshake failed, for this reason.
    HandshakeFailed(String),
    HandshakeDone,
    /// The hello could not be sent, for this reason.
    HelloFailed(String),
    HelloSent,
    /// The daemon said nothing in the time allowed.
    GreetingTimedOut,
    /// The daemon's first line could not be read, for this reason.
    GreetingFailed(String),
    /// The daemon closed the connection before it said anything.
    GreetingClosed,
    /// The daemon sent its first line.
    Greeted,
}

/// What the probe does next.
#[derive(Debug, PartialEq, Eq)]
pub enum ProbeAction {
    /// Start a TLS handshake that accepts any certificate.
    Handshake,
    /// Send a hello for the control channel with this token.
    SendHello(Option<String>),
    /// Wait for the first line of the daemon.
    AwaitGreeting,
    /// Report this.
    Report(ProbeResult),
}

/// What the probe does next.
pub enum ProbeActionView {
    Handshake,
    SendHello(Option<Seq<char>>),
    AwaitGreeting,
    Report(ProbeResultView),
}

impl View for ProbeAction {
    type V = ProbeActionView;

    open spec fn view(&self) -> ProbeActionView {
        match *self {
            ProbeAction::Handshake => ProbeActionView::Handshake,
            ProbeAction::SendHello(t) => ProbeActionView::SendHello(opt_text(t)),
            ProbeAction::AwaitGreeting => ProbeActionView::AwaitGreeting,
            ProbeAction::Report(r) => ProbeActionView::Report(r@),
        }
    }
}

/// A report that the daemon cannot be reached.
pub open spec fn unreachable_report(why: Seq<char>) -> ProbeActionView {
    ProbeActionView::Report(
        ProbeResultView { reachable: false, fingerprint: None, authenticated: false, error: Some(why) },
    )
}

/// A report that the daemon was reached, but did not accept us. `seen` is the fingerprint of its
/// certificate, where the handshake was done.
pub open spec fn refused_report(seen: Option<Seq<char>>, why: Seq<char>) -> ProbeActionView {
    ProbeActionView::Report(
        ProbeResultView { reachable: true, fingerprint: seen, authenticated: false, error: Some(why) },
    )
}

/// The fingerprint that is reported once the hello goes out: none without TLS.
pub open spec fn shown_fingerprint(target: RemoteTarget, seen: Option<Seq<char>>) -> Option<Seq<char>> {
    if target.tls {
        seen
    } else {
        None
    }
}

/// What a probe does: a dial is followed by a handshake where the target wants TLS and by the hello
/// where it does not, and the hello by the daemon's first line, which means that the token was
/// accepted: a daemon that refuses it closes the connection before. `timeout` is the time allowed,
/// as text.
pub open spec fn next_action(
    event: ProbeEvent,
    target: RemoteTarget,
    seen: Option<Seq<char>>,
    timeout: Seq<char>,
) -> ProbeActionView {
    let shown = shown_fingerprint(target, seen);
    match event {
        ProbeEvent::DialTimedOut => unreachable_report("timed out after "@ + timeout),
        ProbeEvent::DialFailed(e) => unreachable_report(e@),
        ProbeEvent::Dialed => if target.tls {
            ProbeActionView::Handshake
        } else {
            ProbeActionView::SendHello(target.shown_token())
        },
        ProbeEvent::HandshakeTimedOut => refused_report(
            None,
            "TLS handshake timed out after "@ + timeout,
        ),
        ProbeEvent::HandshakeFailed(e) => refused_report(None, "TLS handshake failed: "@ + e@),
        ProbeEvent::HandshakeDone => ProbeActionView::SendHello(target.shown_token()),
        ProbeEvent::HelloFailed(e) => refused_report(shown, "sending hello: "@ + e@),
        ProbeEvent::HelloSent => ProbeActionView::AwaitGreeting,
        ProbeEvent::GreetingTimedOut => refused_report(
            shown,
            "the daemon accepted the connection but sent nothing (bad or missing token?)"@,
        ),
        ProbeEvent::GreetingFailed(e) => refused_report(shown, "reading the daemon's greeting: "@ + e@),
        ProbeEvent::GreetingClosed => refused_report(
            shown,
            "the daemon closed the connection (bad or missing token)"@,
        ),
        ProbeEvent::Greeted => ProbeActionView::Report(
            ProbeResultView { reachable: true, fingerprint: shown, authenticated: true, error: None },
        ),
    }
}

impl ProbeResult {
    /// The report that the daemon cannot be reached.
    pub fn unreachable(why: String) -> (r: ProbeResult)
        ensures
            unreachable_report(why@) == ProbeActionView::Report(r@),
    {
        ProbeResult { reachable: false, fingerprint: None, authenticated: false, error: Some(why) }
    }
}

fn prefixed(head: &str, tail: &str) -> (s: String)
    ensures
        s@ == head@ + tail@,
{
    let mut s = head.to_owned();
    s.append(tail);
    s
}

fn refused(seen: Option<String>, why: String) -> (a: ProbeAction)
    ensures
        a@ == refused_report(opt_text(seen), why@),
{
    ProbeAction::Report(
        ProbeResult { reachable: true, fingerprint: seen, authenticated: false, error: Some(why) },
    )
}

/// Decide what a probe does next. `seen` is the fingerprint of the certificate that the handshake
/// has shown so far, `timeout` the time allowed, as text.
pub fn probe(event: ProbeEvent, target: &RemoteTarget, seen: Option<String>, timeout: &str) -> (a:
    ProbeAction)
    ensures
        a@ == next_action(event, *target, opt_text(seen), timeout@),
{
    let shown = if target.tls {
        seen
    } else {
        None
    };
    match event {
        ProbeEvent::DialTimedOut => ProbeAction::Report(
            ProbeResult::unreachable(prefixed("timed out after ", timeout)),
        ),
        ProbeEvent::DialFailed(e) => ProbeAction::Report(ProbeResult::unreachable(e)),
        ProbeEvent::Dialed => if target.tls {
            ProbeAction::Handshake
        } else {
            ProbeAction::SendHello(text::owned(target.hello_token()))
        },
        ProbeEvent::HandshakeTimedOut => refused(
            None,
            prefixed("TLS handshake timed out after ", timeout),
        ),
        ProbeEvent::HandshakeFailed(e) => refused(
            None,
            prefixed("TLS handshake failed: ", e.as_str()),
        ),
        ProbeEvent::HandshakeDone => ProbeAction::SendHello(text::owned(target.hello_token())),
        ProbeEvent::HelloFailed(e) => refused(shown, prefixed("sending hello: ", e.as_str())),
        ProbeEvent::HelloSent => ProbeAction::AwaitGreeting,
        ProbeEvent::GreetingTimedOut => refused(
            shown,
            "the daemon accepted the connection but sent nothing (bad or missing token?)".to_owned(),
        ),
        ProbeEvent::GreetingFailed(e) => refused(
            shown,
            prefixed("reading the daemon's greeting: ", e.as_str()),
        ),
        ProbeEvent::GreetingClosed => refused(
            shown,
            "the daemon closed the connection (bad or missing token)".to_owned(),
        ),
        ProbeEvent::Greeted => ProbeAction::Report(
            ProbeResult { reachable: true, fingerprint: shown, authenticated: true, error: None },
        ),
    }
}

/// A probe reports success only when the daemon has sent its first line, and then no error.
pub proof fn law_authenticated_only_after_greeting(
    event: ProbeEvent,
    target: RemoteTarget,
    seen: Option<Seq<char>>,
    timeout: Seq<char>,
)
    ensures
        next_action(event, target, seen, timeout) matches ProbeActionView::Report(r) ==> {
            &&& r.authenticated <==> event is Greeted
            &&& r.authenticated <==> r.error is None
            &&& r.authenticated ==> r.reachable
        },
{
}

/// A probe reports a fingerprint only of a daemon whose TLS handshake was done, and then the one that
/// the handshake has shown.
pub proof fn law_fingerprint_only_after_handshake(
    event: ProbeEvent,
    target: RemoteTarget,
    seen: Option<Seq<char>>,
    timeout: Seq<char>,
)
    ensures
        next_action(event, target, seen, timeout) matches ProbeActionView::Report(r) ==> (
        r.fingerprint is Some ==> {
            &&& target.tls
            &&& r.fingerprint == seen
            &&& !(event is HandshakeTimedOut)
            &&& !(event is HandshakeFailed)
        }),
{
}

/// A probe sends no token unless the connection is wrapped in TLS.
pub proof fn law_probe_sends_no_token_in_clear(
    event: ProbeEvent,
    target: RemoteTarget,
    seen: Option<Seq<char>>,
    timeout: Seq<char>,
)
    ensures
        next_action(event, target, seen, timeout) matches ProbeActionView::SendHello(t) ==> (t is Some
            ==> target.tls),
{
}

/// A probe shakes hands where the target wants TLS and only there, says hello with the target's token
/// once it has, waits for the daemon's first line, and reports whatever stops it: as an error, of a
/// daemon that was reached unless the dial itself failed.
pub proof fn law_a_probe_goes_step_by_step(
    event: ProbeEvent,
    target: RemoteTarget,
    seen: Option<Seq<char>>,
    timeout: Seq<char>,
)
    ensures
        ({
            let next = next_action(event, target, seen, timeout);
            &&& next is Handshake <==> event is Dialed && target.tls
            &&& next is SendHello <==> event is HandshakeDone || (event is Dialed && !target.tls)
            &&& next matches ProbeActionView::SendHello(token) ==> target.tls ==> token == opt_text(
                target.token,
            )
            &&& next is AwaitGreeting <==> event is HelloSent
            &&& next matches ProbeActionView::Report(r) ==> {
                &&& r.authenticated <==> event is Greeted
                &&& r.error is None <==> event is Greeted
                &&& !r.reachable <==> event is DialTimedOut || event is DialFailed
                &&& !target.tls ==> r.fingerprint is None
                &&& target.tls && (event is Greeted || event is HelloFailed || event is GreetingTimedOut
                    || event is GreetingFailed || event is GreetingClosed) ==> r.fingerprint == seen
            }
        }),
{
}

} // verus!
