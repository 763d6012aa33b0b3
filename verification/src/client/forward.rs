//! Reaching one remote daemon.

use vstd::prelude::*;

use crate::client::tofu;
use crate::client::tofu::Trust;
use crate::config::vars::Vars;
use crate::path;
use crate::text::{opt_str, opt_text};

verus! {

/// Where a remote daemon is, how to show who we are, and how to know that it is the right one.
#[derive(Debug, Clone, PartialEq, Eq)]
pub struct RemoteTarget {
    /// The name of the host.
    pub label: String,
    /// What is dialled, and the key of the known hosts where nothing is pinned.
    pub address: String,
    pub token: Option<String>,
    /// Whether the connection is wrapped in TLS. A token does not decide it.
    pub tls: bool,
    /// The pinned fingerprint of the server's certificate.
    pub fingerprint: Option<String>,
}

/// What a target says.
pub struct RemoteTargetView {
    pub label: Seq<char>,
    pub address: Seq<char>,
    pub token: Option<Seq<char>>,
    pub tls: bool,
    pub fingerprint: Option<Seq<char>>,
}

impl View for RemoteTarget {
    type V = RemoteTargetView;

    open spec fn view(&self) -> RemoteTargetView {
        RemoteTargetView {
            label: self.label@,
            address: self.address@,
            token: opt_text(self.token),
            tls: self.tls,
            fingerprint: opt_text(self.fingerprint),
        }
    }
}

impl RemoteTarget {
    /// How one dial decides about the certificate.
    pub open spec fn is_trusted_by(&self, env: Vars, t: Trust) -> bool {
        match opt_text(self.fingerprint) {
            Some(fp) => t matches Trust::Pinned(p) && p@ == fp,
            None => t matches Trust::Tofu { host, known_hosts } && host@ == self.address@ && known_hosts@
                == tofu::known_hosts_file(env),
        }
    }

    /// How one dial decides about the certificate: a pin wins, else the known hosts, by the address
    /// that is dialled.
    pub fn trust(&self, env: &Vars) -> (t: Trust)
        ensures
            self.is_trusted_by(*env, t),
    {
        match &self.fingerprint {
            Some(fp) => Trust::Pinned(fp.clone()),
            None => Trust::Tofu {
                host: self.address.clone(),
                known_hosts: tofu::known_hosts_path(env),
            },
        }
    }

    /// The token that the hello carries: none where the connection is not wrapped in TLS.
    pub open spec fn shown_token(&self) -> Option<Seq<char>> {
        if self.tls {
            opt_text(self.token)
        } else {
            None
        }
    }

    /// The token that the hello carries: none where the connection is not wrapped in TLS, since a
    /// token in clear is worse than none.
    pub fn hello_token(&self) -> (token: Option<&str>)
        ensures
            opt_str(token) == self.shown_token(),
            !self.tls ==> token is None,
    {
        if !self.tls {
            return None;
        }
        match &self.token {
            Some(t) => Some(t.as_str()),
            None => None,
        }
    }
}

/// How many times a remote daemon is dialled before giving up.
pub const DIAL_ATTEMPTS: u32 = 6;

/// The wait before the second attempt.
pub const FIRST_DELAY_MS: u64 = 500;

/// The longest wait.
pub const MAX_DELAY_MS: u64 = 8000;

/// The wait after the given number of failed attempts: it doubles, up to the longest.
pub open spec fn delay_after(failures: nat) -> nat
    decreases failures,
{
    if failures <= 1 {
        FIRST_DELAY_MS as nat
    } else if 2 * delay_after((failures - 1) as nat) > MAX_DELAY_MS {
        MAX_DELAY_MS as nat
    } else {
        2 * delay_after((failures - 1) as nat)
    }
}

/// The wait never exceeds the longest.
pub proof fn law_delay_is_bounded(failures: nat)
    ensures
        FIRST_DELAY_MS <= delay_after(failures) <= MAX_DELAY_MS,
        failures > 0 ==> delay_after(failures) <= delay_after(failures + 1),
    decreases failures,
{
    if failures > 1 {
        law_delay_is_bounded((failures - 1) as nat);
    }
}

/// The wait doubles from one attempt to the next until it is the longest, and stays there.
pub proof fn law_delay_doubles(failures: nat)
    requires
        failures > 0,
    ensures
        delay_after(failures + 1) == 2 * delay_after(failures) || delay_after(failures + 1) == MAX_DELAY_MS,
        2 * delay_after(failures) <= MAX_DELAY_MS ==> delay_after(failures + 1) == 2 * delay_after(failures),
        delay_after(1) == FIRST_DELAY_MS,
{
}

/// A host that is pinned is known by its pin alone; one that is not, by what is known of the address that is
/// dialled. Neither is ever dialled with any certificate.
pub proof fn law_a_pin_is_never_passed_over(target: RemoteTarget, env: Vars, t: Trust)
    requires
        target.is_trusted_by(env, t),
    ensures
        target.fingerprint matches Some(fp) ==> t is Pinned && t->Pinned_0@ == fp@,
        target.fingerprint is None ==> t is Tofu && t->host@ == target.address@,
        !(t is Capture),
{
}

/// A token is shown where there is TLS, and never without.
pub proof fn law_a_token_is_shown_over_tls_alone(target: RemoteTarget)
    ensures
        target.shown_token() is Some ==> target.tls && target.token is Some && target.shown_token()->0
            == target.token->0@,
        target.tls && target.token is Some ==> target.shown_token() is Some,
{
}

/// What to do after this many failed attempts: wait, or give up.
pub open spec fn is_wait(failures: u32, wait_ms: Option<u64>) -> bool {
    match wait_ms {
        Some(ms) => failures < DIAL_ATTEMPTS && ms == delay_after(failures as nat),
        None => failures >= DIAL_ATTEMPTS,
    }
}

/// What to do after this many failed attempts: wait, or give up.
pub fn backoff(failures: u32) -> (wait_ms: Option<u64>)
    requires
        failures > 0,
    ensures
        is_wait(failures, wait_ms),
{
    if failures >= DIAL_ATTEMPTS {
        return None;
    }
    let mut ms: u64 = FIRST_DELAY_MS;
    let mut n: u32 = 1;
    while n < failures
        invariant
            1 <= n <= failures,
            ms == delay_after(n as nat),
            ms <= MAX_DELAY_MS,
        decreases failures - n,
    {
        ms = if 2 * ms > MAX_DELAY_MS {
            MAX_DELAY_MS
        } else {
            2 * ms
        };
        n = n + 1;
    }
    Some(ms)
}

/// The message when no attempt succeeded.
pub fn dial_failure(host: &str, last_error: &str) -> (m: String)
    ensures
        m@ == "could not connect to remote "@ + host@ + ": "@ + last_error@,
{
    let mut m = "could not connect to remote ".to_owned();
    m.append(host);
    m.append(": ");
    m.append(last_error);
    m
}

/// The two sockets of a forwarder, and the lines that announce it.
pub struct ForwarderSockets {
    pub render: String,
    pub control: String,
    pub announcement: Vec<String>,
}

impl ForwarderSockets {
    /// The sockets stand in a directory, and the announcement names the target and them.
    pub open spec fn are_in(&self, target: RemoteTarget, dir: Seq<char>) -> bool {
        &&& self.render@ == path::joined(dir, "clowder.sock"@)
        &&& self.control@ == path::joined(dir, "clowder-control.sock"@)
        &&& self.announcement@.len() == 3
        &&& self.announcement@[0]@ == "clowder connect: forwarding to "@ + target.label@ + " ("@
            + target.address@ + ")"@
        &&& self.announcement@[1]@ == "  export CLOWDER_SOCK="@ + self.render@
        &&& self.announcement@[2]@ == "  export CLOWDER_CONTROL_SOCK="@ + self.control@
    }
}

/// The sockets of a forwarder in a directory.
pub fn forwarder_sockets(target: &RemoteTarget, dir: &str) -> (s: ForwarderSockets)
    ensures
        s.are_in(*target, dir@),
{
    let render = path::join(dir, "clowder.sock");
    let control = path::join(dir, "clowder-control.sock");
    let mut first = "clowder connect: forwarding to ".to_owned();
    first.append(target.label.as_str());
    first.append(" (");
    first.append(target.address.as_str());
    first.append(")");
    let mut second = "  export CLOWDER_SOCK=".to_owned();
    second.append(render.as_str());
    let mut third = "  export CLOWDER_CONTROL_SOCK=".to_owned();
    third.append(control.as_str());
    let mut announcement: Vec<String> = Vec::new();
    announcement.push(first);
    announcement.push(second);
    announcement.push(third);
    ForwarderSockets { render, control, announcement }
}

/// Where the forwarder puts its sockets.
pub open spec fn is_forwarder_dir(
    asked: Option<Seq<char>>,
    control_sock: Seq<char>,
    dir: Result<String, String>,
) -> bool {
    match asked {
        Some(d) => dir matches Ok(x) && x@ == d,
        None => match path::parent_of(control_sock) {
            Some(p) => dir matches Ok(x) && x@ == path::joined(p, "remote"@),
            None => dir matches Err(e) && e@ == "cannot derive forwarder socket dir"@,
        },
    }
}

/// Where the forwarder puts its sockets: the directory that was asked for, else `remote` beside the
/// control socket.
pub fn forwarder_dir(asked: Option<&str>, control_sock: &str) -> (dir: Result<String, String>)
    ensures
        is_forwarder_dir(crate::text::opt_str(asked), control_sock@, dir),
{
    match asked {
        Some(d) => Ok(d.to_owned()),
        None => match path::parent(control_sock) {
            Some(p) => Ok(path::join(p.as_str(), "remote")),
            None => Err("cannot derive forwarder socket dir".to_owned()),
        },
    }
}

/// A dial is tried six times, with a wait after each failure but the last: half a second at first, and
/// each time twice as long as before.
pub proof fn law_a_dial_is_tried_a_few_times(failures: u32, wait_ms: Option<u64>)
    requires
        failures > 0,
        is_wait(failures, wait_ms),
    ensures
        wait_ms is None <==> failures >= 6,
        failures == 1 ==> wait_ms == Some(500u64),
        failures == 2 ==> wait_ms == Some(1000u64),
        failures == 3 ==> wait_ms == Some(2000u64),
        failures == 4 ==> wait_ms == Some(4000u64),
        failures == 5 ==> wait_ms == Some(8000u64),
{
    reveal_with_fuel(delay_after, 6);
}

/// A client that takes the announced variables for its own finds the forwarder: what it would resolve
/// for each of its two sockets is the socket of that kind, in the directory that was asked for, or else
/// beside the daemon's own.
pub proof fn law_the_announced_sockets_are_those_of_the_forwarder(
    s: ForwarderSockets,
    target: RemoteTarget,
    asked: Option<Seq<char>>,
    control_sock: Seq<char>,
    dir: Result<String, String>,
)
    requires
        is_forwarder_dir(asked, control_sock, dir),
        dir is Ok ==> s.are_in(target, dir->Ok_0@),
    ensures
        asked matches Some(d) ==> dir is Ok && s.render@ == path::joined(d, "clowder.sock"@) && s.control@
            == path::joined(d, "clowder-control.sock"@),
        asked is None && path::parent_of(control_sock) is Some ==> dir is Ok && s.control@ == path::joined(
            path::joined(path::parent_of(control_sock)->0, "remote"@),
            "clowder-control.sock"@,
        ),
        dir is Ok ==> {
            &&& "  export CLOWDER_SOCK="@ + s.render@ == s.announcement@[1]@
            &&& "  export CLOWDER_CONTROL_SOCK="@ + s.control@ == s.announcement@[2]@
        },
{
}

} // verus!
