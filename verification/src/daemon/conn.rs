//! The connection of a client that shows a pane, and the one that lists agents in the same protocol.

use vstd::prelude::*;

use crate::daemon::state::lists::is_listing;
use crate::daemon::state::{Daemon, DaemonState};
use crate::proto::message::{AttentionState, ClientToDaemon, DaemonToClient, PaneId};

verus! {

/// What the messages before a session come to.
#[derive(Debug, Clone, Copy, PartialEq, Eq, Structural)]
pub enum Attach {
    /// A session with this pane.
    Session(PaneId),
    /// A list of the agents instead.
    List,
    /// Nothing yet.
    Wait,
    /// The end of the connection.
    End,
}

/// Something that happens during a session.
pub enum SessionEvent {
    /// The pane has written.
    Output(Vec<u8>),
    /// Some output came too fast to be told.
    OutputMissed,
    /// There will be no more output.
    OutputEnded,
    /// The client has sent a message, or is gone.
    Client(Option<ClientToDaemon>),
    /// An agent is in another state.
    Attention(PaneId, AttentionState),
    /// Some of that came too fast, or will come no more.
    AttentionMissed,
    /// The process of the pane has ended, with this output not told yet.
    Exited(Vec<Vec<u8>>, Option<i32>),
}

/// What is done about it.
pub enum SessionAction {
    Go,
    Send(DaemonToClient),
    /// Hand the bytes to the pane; the user has typed.
    Write(Vec<u8>),
    Resize(u16, u16),
    /// Send these, and end the session.
    Finish(Vec<DaemonToClient>),
}

/// What a session does about an event.
pub open spec fn is_session_step(pane: PaneId, event: SessionEvent, action: SessionAction) -> bool {
    match event {
        SessionEvent::Output(bytes) => action == SessionAction::Send(
            DaemonToClient::Output { pane, bytes },
        ),
        SessionEvent::OutputMissed | SessionEvent::AttentionMissed => action is Go,
        SessionEvent::OutputEnded => action matches SessionAction::Finish(m) && m@.len() == 0,
        SessionEvent::Client(None) => action matches SessionAction::Finish(m) && m@.len() == 0,
        SessionEvent::Client(Some(ClientToDaemon::Detach)) => action matches SessionAction::Finish(m)
            && m@.len() == 0,
        SessionEvent::Client(Some(ClientToDaemon::Input { pane: _, bytes })) => action
            == SessionAction::Write(bytes),
        SessionEvent::Client(Some(ClientToDaemon::Resize { pane: _, cols, rows })) => action
            == SessionAction::Resize(cols, rows),
        SessionEvent::Client(Some(ClientToDaemon::Attach { .. })) => action is Go,
        SessionEvent::Client(Some(ClientToDaemon::ListWorktrees)) => action is Go,
        SessionEvent::Attention(p, state) => if p == pane {
            action == SessionAction::Send(DaemonToClient::AttentionChanged { pane, state })
        } else {
            action is Go
        },
        SessionEvent::Exited(rest, code) => {
            &&& action matches SessionAction::Finish(m)
            &&& m@.len() == rest@.len() + 1
            &&& forall|k: int|
                0 <= k < rest@.len() ==> #[trigger] m@[k] == (DaemonToClient::Output {
                    pane,
                    bytes: rest@[k],
                })
            &&& m@.last() == (DaemonToClient::PaneExited { pane, code })
        },
    }
}

/// What a session does about an event. The last lines of a program are told before its end is.
pub fn session(pane: PaneId, event: SessionEvent) -> (action: SessionAction)
    ensures
        is_session_step(pane, event, action),
{
    match event {
        SessionEvent::Output(bytes) => SessionAction::Send(DaemonToClient::Output { pane, bytes }),
        SessionEvent::OutputMissed => SessionAction::Go,
        SessionEvent::AttentionMissed => SessionAction::Go,
        SessionEvent::OutputEnded => SessionAction::Finish(Vec::new()),
        SessionEvent::Client(message) => match message {
            None => SessionAction::Finish(Vec::new()),
            Some(ClientToDaemon::Detach) => SessionAction::Finish(Vec::new()),
            Some(ClientToDaemon::Input { bytes, .. }) => SessionAction::Write(bytes),
            Some(ClientToDaemon::Resize { cols, rows, .. }) => SessionAction::Resize(cols, rows),
            Some(ClientToDaemon::Attach { .. }) => SessionAction::Go,
            Some(ClientToDaemon::ListWorktrees) => SessionAction::Go,
        },
        SessionEvent::Attention(p, state) => if p.0 == pane.0 {
            SessionAction::Send(DaemonToClient::AttentionChanged { pane, state })
        } else {
            SessionAction::Go
        },
        SessionEvent::Exited(rest, code) => {
            let ghost all = rest@;
            let mut rest = rest;
            let mut back: Vec<DaemonToClient> = Vec::new();
            back.push(DaemonToClient::PaneExited { pane, code });
            while rest.len() > 0
                invariant
                    rest@ == all.take(rest@.len() as int),
                    rest@.len() <= all.len(),
                    back@.len() == all.len() - rest@.len() + 1,
                    back@[0] == (DaemonToClient::PaneExited { pane, code }),
                    forall|k: int|
                        rest@.len() <= k < all.len() ==> #[trigger] back@[all.len() - k] == (
                        DaemonToClient::Output { pane, bytes: all[k] }),
                decreases rest.len(),
            {
                match rest.pop() {
                    Some(bytes) => back.push(DaemonToClient::Output { pane, bytes }),
                    None => {},
                }
                assert(rest@ =~= all.take(rest@.len() as int));
            }
            let mut messages: Vec<DaemonToClient> = Vec::new();
            let ghost kept = back@;
            while back.len() > 0
                invariant
                    back@ == kept.take(back@.len() as int),
                    back@.len() <= kept.len(),
                    messages@.len() == kept.len() - back@.len(),
                    forall|k: int|
                        0 <= k < messages@.len() ==> #[trigger] messages@[k] == kept[kept.len() - 1 - k],
                decreases back.len(),
            {
                match back.pop() {
                    Some(m) => messages.push(m),
                    None => {},
                }
                assert(back@ =~= kept.take(back@.len() as int));
            }
            proof {
                assert forall|k: int| 0 <= k < all.len() implies #[trigger] messages@[k] == (
                DaemonToClient::Output { pane, bytes: all[k] }) by {
                    assert(kept[all.len() - k] == (DaemonToClient::Output { pane, bytes: all[k] }));
                }
            }
            SessionAction::Finish(messages)
        },
    }
}

/// Something that happens on a connection that lists agents.
pub enum ListEvent {
    Attention(PaneId, AttentionState),
    Removed(PaneId),
    /// Some news came too fast to be told.
    Missed,
    /// There will be no more news.
    Ended,
    /// The client has sent a message, or is gone.
    Client(Option<ClientToDaemon>),
}

/// What is done about it.
pub enum ListAction {
    Go,
    Send(DaemonToClient),
    End,
}

/// What a message before a session comes to; none is the end of the connection.
pub open spec fn attached(s: DaemonState, message: Option<&ClientToDaemon>) -> Attach {
    match message {
        None => Attach::End,
        Some(ClientToDaemon::Attach { pane }) => if s.panes.contains(pane.0) {
            Attach::Session(*pane)
        } else {
            Attach::End
        },
        Some(ClientToDaemon::ListWorktrees) => Attach::List,
        Some(_) => Attach::Wait,
    }
}

/// What a session starts with.
pub open spec fn greeting(
    s: DaemonState,
    pane: PaneId,
    cols: u16,
    rows: u16,
    backlog: Vec<u8>,
) -> Seq<DaemonToClient> {
    seq![DaemonToClient::Attached { pane, cols, rows }] + (if s.attention.dom().contains(pane.0) {
        seq![DaemonToClient::AttentionChanged { pane, state: s.attention[pane.0] }]
    } else {
        seq![]
    }) + seq![DaemonToClient::Output { pane, bytes: backlog }]
}

/// What a connection that lists agents does about an event.
pub open spec fn is_list_step(s: DaemonState, event: ListEvent, action: ListAction) -> bool {
    match event {
        ListEvent::Attention(pane, state) => action == ListAction::Send(
            DaemonToClient::AttentionChanged { pane, state },
        ),
        ListEvent::Removed(pane) => action == ListAction::Send(
            DaemonToClient::AgentRemoved { pane },
        ),
        ListEvent::Missed => action is Go,
        ListEvent::Ended | ListEvent::Client(None) => action is End,
        ListEvent::Client(Some(ClientToDaemon::ListWorktrees)) => {
            &&& action matches ListAction::Send(DaemonToClient::WorktreeList { worktrees })
            &&& is_listing(s, s.agents.dom(), worktrees@)
        },
        ListEvent::Client(Some(_)) => action is Go,
    }
}

impl Daemon {
    /// What a message before a session comes to; none is the end of the connection.
    pub fn attach(&self, message: Option<&ClientToDaemon>) -> (a: Attach)
        ensures
            a == attached(self.state(), message),
    {
        match message {
            None => Attach::End,
            Some(ClientToDaemon::Attach { pane }) => if self.is_live(*pane) {
                Attach::Session(*pane)
            } else {
                Attach::End
            },
            Some(ClientToDaemon::ListWorktrees) => Attach::List,
            Some(_) => Attach::Wait,
        }
    }

    /// What a session starts with: the size of the pane, the state of the agent where it has one, and
    /// what the pane has written so far.
    pub fn session_greeting(&self, pane: PaneId, cols: u16, rows: u16, backlog: Vec<u8>) -> (messages:
        Vec<DaemonToClient>)
        ensures
            messages@ == greeting(self.state(), pane, cols, rows, backlog),
    {
        let mut messages: Vec<DaemonToClient> = Vec::new();
        messages.push(DaemonToClient::Attached { pane, cols, rows });
        match self.attention_of(pane) {
            Some(state) => messages.push(DaemonToClient::AttentionChanged { pane, state }),
            None => {},
        }
        messages.push(DaemonToClient::Output { pane, bytes: backlog });
        messages
    }

    /// The list of the agents, as a message.
    pub fn worktree_message(&self) -> (m: DaemonToClient)
        ensures
            m matches DaemonToClient::WorktreeList { worktrees } && is_listing(
                self.state(),
                self.state().agents.dom(),
                worktrees@,
            ),
    {
        DaemonToClient::WorktreeList { worktrees: self.list_worktrees() }
    }

    /// What a connection that lists agents does about an event. It has no pane, so it passes over what
    /// is meant for one.
    pub fn list_step(&self, event: ListEvent) -> (action: ListAction)
        ensures
            is_list_step(self.state(), event, action),
    {
        match event {
            ListEvent::Attention(pane, state) => ListAction::Send(
                DaemonToClient::AttentionChanged { pane, state },
            ),
            ListEvent::Removed(pane) => ListAction::Send(DaemonToClient::AgentRemoved { pane }),
            ListEvent::Missed => ListAction::Go,
            ListEvent::Ended => ListAction::End,
            ListEvent::Client(None) => ListAction::End,
            ListEvent::Client(Some(ClientToDaemon::ListWorktrees)) => ListAction::Send(
                self.worktree_message(),
            ),
            ListEvent::Client(Some(_)) => ListAction::Go,
        }
    }
}

/// How a connection task ended badly.
pub open spec fn error_line(kind: Seq<char>, error: Seq<char>) -> Seq<char> {
    kind + " connection task ended with error: "@ + error
}

/// What is logged of a connection task that has ended; nothing where it ended well.
pub fn conn_error_line(kind: &str, result: Result<(), String>) -> (line: Option<String>)
    ensures
        match result {
            Ok(_) => line is None,
            Err(e) => line matches Some(l) && l@ == error_line(kind@, e@),
        },
{
    match result {
        Ok(_) => None,
        Err(e) => {
            let mut l = kind.to_owned();
            l.append(" connection task ended with error: ");
            l.append(e.as_str());
            Some(l)
        },
    }
}

/// The last `cap` of the bytes that a pane has written.
pub open spec fn kept(written: Seq<u8>, cap: int) -> Seq<u8> {
    if written.len() > cap {
        written.skip(written.len() - cap)
    } else {
        written
    }
}

/// Take more output of a pane down, and drop the oldest where there is too much of it.
pub fn take_output(backlog: &mut Vec<u8>, chunk: &[u8], cap: usize)
    ensures
        final(backlog)@ == kept(old(backlog)@ + chunk@, cap as int),
{
    let ghost before = backlog@;
    let mut i: usize = 0;
    assert(before + chunk@.take(0) =~= before);
    while i < chunk.len()
        invariant
            i <= chunk.len(),
            backlog@ == before + chunk@.take(i as int),
        decreases chunk.len() - i,
    {
        backlog.push(chunk[i]);
        assert(before + chunk@.take(i + 1) =~= (before + chunk@.take(i as int)).push(chunk@[i as int]));
        i = i + 1;
    }
    assert(chunk@.take(chunk@.len() as int) =~= chunk@);
    if backlog.len() > cap {
        let at: usize = backlog.len() - cap;
        let tail = backlog.split_off(at);
        *backlog = tail;
        assert(backlog@ =~= kept(before + chunk@, cap as int));
    }
}

/// Output that is taken down in two goes is kept as if it had come in one.
pub proof fn law_backlog_is_the_last_output(written: Seq<u8>, a: Seq<u8>, b: Seq<u8>, cap: int)
    requires
        cap >= 0,
    ensures
        kept(kept(written + a, cap) + b, cap) == kept(written + a + b, cap),
        kept(written, cap).len() <= cap,
{
    assert(kept(kept(written + a, cap) + b, cap) =~= kept(written + a + b, cap));
}

/// A client gets the pane that it asks for, where there is such a pane, and no other; where there is none,
/// the connection ends. What it sends before is passed over.
pub proof fn law_a_client_gets_the_pane_it_asks_for(s: DaemonState, message: ClientToDaemon, pane: PaneId)
    ensures
        attached(s, Some(&message)) == Attach::Session(pane) <==> message == (ClientToDaemon::Attach {
            pane,
        }) && s.panes.contains(pane.0),
        attached(s, Some(&message)) == Attach::End <==> message is Attach && !s.panes.contains(
            message->Attach_pane.0,
        ),
        attached(s, Some(&message)) == Attach::List <==> message is ListWorktrees,
        attached(s, None) == Attach::End,
{
}

/// A session starts with the size of its pane and ends its start with all that the pane has written; between
/// the two it tells the state of the agent, where the pane has one. Every message is of that pane.
pub proof fn law_a_session_starts_with_what_was_written(
    s: DaemonState,
    pane: PaneId,
    cols: u16,
    rows: u16,
    backlog: Vec<u8>,
)
    ensures
        ({
            let m = greeting(s, pane, cols, rows, backlog);
            &&& m[0] == (DaemonToClient::Attached { pane, cols, rows })
            &&& m.last() == (DaemonToClient::Output { pane, bytes: backlog })
            &&& !s.attention.dom().contains(pane.0) ==> m.len() == 2
            &&& s.attention.dom().contains(pane.0) ==> m.len() == 3 && m[1] == (
            DaemonToClient::AttentionChanged { pane, state: s.attention[pane.0] })
        }),
{
}

/// In a session what the pane writes goes to the client, and what the client types goes to the pane, byte for
/// byte; the client hears of no other pane. When the program has ended, what it wrote last is told before its
/// end is.
pub proof fn law_a_session_carries_both_ways(pane: PaneId, event: SessionEvent, action: SessionAction)
    requires
        is_session_step(pane, event, action),
    ensures
        event matches SessionEvent::Output(bytes) ==> action is Send && action->Send_0
            == (DaemonToClient::Output { pane, bytes }),
        action is Write ==> (event matches SessionEvent::Client(Some(ClientToDaemon::Input { pane: p, bytes }))
            && action->Write_0 == bytes),
        event matches SessionEvent::Client(Some(ClientToDaemon::Input { pane: p, bytes })) ==> action is Write,
        action matches SessionAction::Resize(c, r) ==> (event matches SessionEvent::Client(
            Some(ClientToDaemon::Resize { pane: p, cols, rows }),
        ) && c == cols && r == rows),
        event matches SessionEvent::Client(Some(ClientToDaemon::Resize { pane: p, cols, rows }))
            ==> action is Resize,
        event matches SessionEvent::Attention(p, state) ==> (p == pane ==> action is Send && action->Send_0
            == (DaemonToClient::AttentionChanged { pane, state })) && (p != pane ==> action is Go),
        event is OutputEnded ==> action is Finish,
        event matches SessionEvent::Client(None) ==> action is Finish,
        event matches SessionEvent::Client(Some(ClientToDaemon::Detach)) ==> action is Finish,
        event matches SessionEvent::Exited(rest, code) ==> action is Finish && {
            let m = action->Finish_0@;
            &&& m.len() == rest@.len() + 1
            &&& m[rest@.len() as int] == (DaemonToClient::PaneExited { pane, code })
            &&& forall|k: int|
                0 <= k < rest@.len() ==> #[trigger] m[k] == (DaemonToClient::Output {
                    pane,
                    bytes: rest@[k],
                })
        },
        event is OutputMissed || event is AttentionMissed ==> action is Go,
{
}

/// A connection that lists agents is told of every agent whose state changes or that goes, and gets the list
/// where it asks for it; it ends when the client is gone, or there is no more news.
pub proof fn law_a_listing_connection_hears_of_every_agent(
    s: DaemonState,
    event: ListEvent,
    action: ListAction,
)
    requires
        is_list_step(s, event, action),
    ensures
        event matches ListEvent::Attention(pane, state) ==> action is Send && action->Send_0
            == (DaemonToClient::AttentionChanged { pane, state }),
        event matches ListEvent::Removed(pane) ==> action is Send && action->Send_0
            == (DaemonToClient::AgentRemoved { pane }),
        event matches ListEvent::Client(Some(ClientToDaemon::ListWorktrees)) ==> action is Send
            && action->Send_0 is WorktreeList,
        action is End <==> event is Ended || event == ListEvent::Client(None),
{
}

/// What is kept of the output of a pane is its end, as much of it as there is room for: all of it where it
/// fits.
pub proof fn law_what_is_kept_is_the_end(written: Seq<u8>, cap: int)
    requires
        0 <= cap,
    ensures
        kept(written, cap).is_suffix_of(written),
        written.len() <= cap ==> kept(written, cap) == written,
        written.len() >= cap ==> kept(written, cap).len() == cap,
{
    if written.len() > cap {
        assert(kept(written, cap) =~= written.skip(written.len() - cap));
    } else {
        assert(written =~= written.skip(0));
    }
}

} // verus!
