//! The program that agents call to report to the daemon.

use vstd::prelude::*;

use crate::proto::message::{HookEvent, HookKind, PaneId};
use crate::text;
use crate::text::{number_up_to, opt_str, quoted, texts};

verus! {

/// What a report says.
pub open spec fn kind_named(name: Seq<char>) -> Option<HookKind> {
    if name == "notification"@ {
        Some(HookKind::Notification)
    } else if name == "stop"@ {
        Some(HookKind::Stop)
    } else if name == "active"@ {
        Some(HookKind::Active)
    } else {
        None
    }
}

/// What the arguments from index `from` on say is to be reported, where `kind` was said before: the last
/// `--event` counts, and other arguments do not.
pub open spec fn report_kind(args: Seq<Seq<char>>, from: int, kind: Option<HookKind>) -> Result<
    HookKind,
    Seq<char>,
>
    decreases args.len() - from,
{
    if from < 0 || from >= args.len() {
        match kind {
            Some(k) => Ok(k),
            None => Err("--event <notification|stop> is required"@),
        }
    } else if args[from] != "--event"@ {
        report_kind(args, from + 1, kind)
    } else if from + 1 >= args.len() {
        Err("unknown --event value: None"@)
    } else {
        match kind_named(args[from + 1]) {
            Some(k) => report_kind(args, from + 2, Some(k)),
            None => Err("unknown --event value: Some("@ + quoted(args[from + 1]) + ")"@),
        }
    }
}

fn named_kind(name: &str) -> (k: Option<HookKind>)
    ensures
        k == kind_named(name@),
{
    if text::same(name, "notification") {
        Some(HookKind::Notification)
    } else if text::same(name, "stop") {
        Some(HookKind::Stop)
    } else if text::same(name, "active") {
        Some(HookKind::Active)
    } else {
        None
    }
}

/// What the arguments say is to be reported.
pub fn parse_args(args: &[String]) -> (r: Result<HookKind, String>)
    ensures
        match r {
            Ok(k) => report_kind(texts(args@), 0, None) == Ok::<HookKind, Seq<char>>(k),
            Err(e) => report_kind(texts(args@), 0, None) == Err::<HookKind, Seq<char>>(e@),
        },
{
    let ghost all = texts(args@);
    let mut kind: Option<HookKind> = None;
    let n: usize = args.len();
    let mut i: usize = 0;
    while i < n
        invariant
            n == args@.len(),
            i <= n,
            all == texts(args@),
            report_kind(all, 0, None) == report_kind(all, i as int, kind),
        decreases n - i,
    {
        assert(all[i as int] == args@[i as int]@);
        if !text::same(args[i].as_str(), "--event") {
            i = i + 1;
        } else if i + 1 >= n {
            return Err("unknown --event value: None".to_owned());
        } else {
            assert(all[i + 1] == args@[i + 1]@);
            match named_kind(args[i + 1].as_str()) {
                Some(k) => kind = Some(k),
                None => {
                    let mut m = "unknown --event value: Some(".to_owned();
                    m.append(text::quote(args[i + 1].as_str()).as_str());
                    m.append(")");
                    return Err(m);
                },
            }
            i = i + 2;
        }
    }
    match kind {
        Some(k) => Ok(k),
        None => Err("--event <notification|stop> is required".to_owned()),
    }
}

/// What a report comes to, given the two variables that the daemon has set for the agent.
pub open spec fn is_report(
    kind: HookKind,
    agent_id: Option<Seq<char>>,
    sock: Option<Seq<char>>,
    r: Result<(HookEvent, String), String>,
) -> bool {
    match agent_id {
        None => r matches Err(e) && e@ == "CLOWDER_AGENT_ID not set"@,
        Some(id) => match number_up_to(id, u64::MAX as nat) {
            None => r matches Err(e) && e@ == "CLOWDER_AGENT_ID not a u64"@,
            Some(n) => match sock {
                None => r matches Err(e) && e@ == "CLOWDER_HOOK_SOCK not set"@,
                Some(s) => {
                    &&& r matches Ok((event, path))
                    &&& event.agent_id.0 == n
                    &&& event.kind == kind
                    &&& path@ == s
                },
            },
        },
    }
}

/// The report of an agent and the socket that it goes to, given the two variables that the daemon has set
/// for the agent.
pub fn report(kind: HookKind, agent_id: Option<&str>, sock: Option<&str>) -> (r: Result<
    (HookEvent, String),
    String,
>)
    ensures
        is_report(kind, opt_str(agent_id), opt_str(sock), r),
{
    let id = match agent_id {
        Some(id) => id,
        None => return Err("CLOWDER_AGENT_ID not set".to_owned()),
    };
    let n = match text::parse_up_to(id, u64::MAX) {
        Some(n) => n,
        None => return Err("CLOWDER_AGENT_ID not a u64".to_owned()),
    };
    match sock {
        Some(s) => Ok((HookEvent { agent_id: PaneId(n), kind }, s.to_owned())),
        None => Err("CLOWDER_HOOK_SOCK not set".to_owned()),
    }
}

proof fn lemma_no_more_events(args: Seq<Seq<char>>, from: int, kind: HookKind)
    requires
        0 <= from,
        forall|k: int| from <= k < args.len() ==> #[trigger] args[k] != "--event"@,
    ensures
        report_kind(args, from, Some(kind)) == Ok::<HookKind, Seq<char>>(kind),
    decreases args.len() - from,
{
    if from < args.len() {
        lemma_no_more_events(args, from + 1, kind);
    }
}

/// What is reported is what the last `--event` names, by one of three names; without one, or with another
/// name, nothing is.
pub proof fn law_the_named_event_is_reported(
    args: Seq<Seq<char>>,
    from: int,
    before: Option<HookKind>,
)
    requires
        0 <= from,
        from + 1 < args.len(),
        args[from] == "--event"@,
        forall|k: int| from + 1 < k < args.len() ==> #[trigger] args[k] != "--event"@,
    ensures
        report_kind(args, from, before) == Ok::<HookKind, Seq<char>>(HookKind::Notification) <==> args[from + 1]
            == "notification"@,
        report_kind(args, from, before) == Ok::<HookKind, Seq<char>>(HookKind::Stop) <==> args[from + 1]
            == "stop"@,
        report_kind(args, from, before) == Ok::<HookKind, Seq<char>>(HookKind::Active) <==> args[from + 1]
            == "active"@,
{
    reveal_strlit("notification");
    reveal_strlit("stop");
    reveal_strlit("active");
    assert("notification"@.len() == 12 && "stop"@.len() == 4 && "active"@.len() == 6);
    if let Some(k) = kind_named(args[from + 1]) {
        lemma_no_more_events(args, from + 2, k);
    }
}

/// An agent that the daemon has started reports under the number that it was started with, what it was
/// asked to report, on the socket that it was given; without either variable there is no report.
pub proof fn law_an_agent_reports_as_itself(
    kind: HookKind,
    id: u64,
    sock: Seq<char>,
    other: Option<Seq<char>>,
    r: Result<(HookEvent, String), String>,
)
    ensures
        is_report(kind, Some(text::decimal(id as nat)), Some(sock), r) ==> {
            &&& r is Ok
            &&& r->Ok_0.0.agent_id.0 == id
            &&& r->Ok_0.0.kind == kind
            &&& r->Ok_0.1@ == sock
        },
        is_report(kind, None, other, r) ==> r is Err,
        is_report(kind, other, None, r) ==> r is Err,
{
    text::law_a_number_is_read_back(id as nat, u64::MAX as nat, seq![], 0);
}

/// A later `--event` takes the place of an earlier one: what it names is reported, whatever was named before.
pub proof fn law_the_last_event_counts(args: Seq<Seq<char>>, name: Seq<char>)
    requires
        report_kind(args, 0, None) is Ok,
    ensures
        ({
            let r = report_kind(args + seq!["--event"@, name], 0, None);
            &&& name == "notification"@ ==> r == Ok::<HookKind, Seq<char>>(HookKind::Notification)
            &&& name == "stop"@ ==> r == Ok::<HookKind, Seq<char>>(HookKind::Stop)
            &&& name == "active"@ ==> r == Ok::<HookKind, Seq<char>>(HookKind::Active)
            &&& name != "notification"@ && name != "stop"@ && name != "active"@ ==> r is Err
        }),
{
    reveal_strlit("notification");
    reveal_strlit("stop");
    reveal_strlit("active");
    assert("notification"@.len() == 12 && "stop"@.len() == 4 && "active"@.len() == 6);
    lemma_event_behind(args, name, 0, None);
}

proof fn lemma_event_behind(args: Seq<Seq<char>>, name: Seq<char>, from: int, kind: Option<HookKind>)
    requires
        0 <= from <= args.len(),
        report_kind(args, from, kind) is Ok,
    ensures
        match kind_named(name) {
            Some(k) => report_kind(args + seq!["--event"@, name], from, kind) == Ok::<HookKind, Seq<char>>(k),
            None => report_kind(args + seq!["--event"@, name], from, kind) is Err,
        },
    decreases args.len() - from,
{
    let all = args + seq!["--event"@, name];
    if from == args.len() {
        assert(all[from] == "--event"@);
        assert(all[from + 1] == name);
        if let Some(k) = kind_named(name) {
            assert(report_kind(all, from + 2, Some(k)) == Ok::<HookKind, Seq<char>>(k));
        }
    } else {
        assert(all[from] == args[from]);
        if args[from] != "--event"@ {
            lemma_event_behind(args, name, from + 1, kind);
        } else {
            assert(all[from + 1] == args[from + 1]);
            lemma_event_behind(args, name, from + 2, kind_named(args[from + 1]));
        }
    }
}

} // verus!
