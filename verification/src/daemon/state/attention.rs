//! What agents ask of the user.

use vstd::prelude::*;

use crate::daemon::state::{Daemon, DaemonState, Effect};
use crate::proto::message::{AttentionState, HookEvent, HookKind, PaneId};

verus! {

/// The state that a hook reports.
pub open spec fn reported(kind: HookKind) -> AttentionState {
    match kind {
        HookKind::Notification => AttentionState::NeedsInput,
        HookKind::Stop => AttentionState::Completed,
        HookKind::Active => AttentionState::Working,
    }
}

/// A screen that has come to rest asks for input: it shows no full-screen program, and a prompt that
/// blocks stands on its last line.
pub open spec fn asks(alternate: bool, blocking: bool) -> bool {
    !alternate && blocking
}

/// Whether a screen that has come to rest asks for input.
pub fn at_rest(alternate: bool, blocking: bool) -> (yes: bool)
    ensures
        yes == asks(alternate, blocking),
{
    !alternate && blocking
}

/// What typing into a pane does: an agent that waited, or was done, works again.
pub open spec fn is_typed(s: DaemonState, t: DaemonState, pane: PaneId, e: Option<Effect>) -> bool {
    if s.attention.dom().contains(pane.0) && (s.attention[pane.0] == AttentionState::NeedsInput
        || s.attention[pane.0] == AttentionState::Completed) {
        &&& t == s.with_attention(pane.0, AttentionState::Working)
        &&& e == Some(Effect::Attention(pane, AttentionState::Working))
    } else {
        t == s && e is None
    }
}

/// What the report of a hook does.
pub open spec fn is_applied(s: DaemonState, t: DaemonState, event: HookEvent, e: Effect) -> bool {
    &&& t == s.with_attention(event.agent_id.0, reported(event.kind))
    &&& e == Effect::Attention(event.agent_id, reported(event.kind))
}

/// What a screen that asks for input does: the user is told, once.
pub open spec fn is_escalated(s: DaemonState, t: DaemonState, pane: PaneId, e: Option<Effect>) -> bool {
    if s.attention.dom().contains(pane.0) && s.attention[pane.0] == AttentionState::NeedsInput {
        t == s && e is None
    } else {
        &&& t == s.with_attention(pane.0, AttentionState::NeedsInput)
        &&& e == Some(Effect::Attention(pane, AttentionState::NeedsInput))
    }
}

impl Daemon {
    /// A hook has reported.
    pub fn apply_hook(&mut self, event: HookEvent) -> (e: Effect)
        ensures
            final(self).keeps_stores(*old(self)),
            is_applied(old(self).state(), final(self).state(), event, e),
    {
        let state = match event.kind {
            HookKind::Notification => AttentionState::NeedsInput,
            HookKind::Stop => AttentionState::Completed,
            HookKind::Active => AttentionState::Working,
        };
        self.set_attention(event.agent_id, state)
    }

    /// The user has typed into a pane: an agent that waited, or was done, works again.
    pub fn user_input(&mut self, pane: PaneId) -> (e: Option<Effect>)
        ensures
            final(self).keeps_stores(*old(self)),
            is_typed(old(self).state(), final(self).state(), pane, e),
    {
        match self.attention_of(pane) {
            Some(AttentionState::NeedsInput) | Some(AttentionState::Completed) => Some(
                self.set_attention(pane, AttentionState::Working),
            ),
            _ => None,
        }
    }

    /// The screen of an agent asks for input. The user is told once.
    pub fn escalate(&mut self, pane: PaneId) -> (e: Option<Effect>)
        ensures
            final(self).keeps_stores(*old(self)),
            is_escalated(old(self).state(), final(self).state(), pane, e),
    {
        match self.attention_of(pane) {
            Some(AttentionState::NeedsInput) => None,
            _ => Some(self.set_attention(pane, AttentionState::NeedsInput)),
        }
    }
}

/// A notification asks for the user, the end of a turn is the end of the work, and activity is work; no two
/// kinds of hook report the same.
pub proof fn law_what_a_hook_reports(kind: HookKind)
    ensures
        reported(kind) == AttentionState::NeedsInput <==> kind is Notification,
        reported(kind) == AttentionState::Completed <==> kind is Stop,
        reported(kind) == AttentionState::Working <==> kind is Active,
{
}

/// An agent has the state that it was last said to have; of no other agent does that say anything.
pub proof fn law_a_state_is_that_of_one_agent(
    s: DaemonState,
    pane: u64,
    state: AttentionState,
    other: u64,
)
    requires
        other != pane,
    ensures
        ({
            let t = s.with_attention(pane, state);
            &&& t.attention.dom().contains(pane) && t.attention[pane] == state
            &&& t.attention.dom().contains(other) == s.attention.dom().contains(other)
            &&& s.attention.dom().contains(other) ==> t.attention[other] == s.attention[other]
            &&& t.panes == s.panes && t.agents == s.agents && t.workspaces == s.workspaces && t.trees
                == s.trees && t.owner == s.owner
        }),
{
}

/// An agent that waits for the user, or is done, works again when the user types, and that is told once: a
/// second time nothing happens. An agent that has exited stays so, whatever is typed.
pub proof fn law_typing_takes_an_agent_up_again(
    s: DaemonState,
    t: DaemonState,
    u: DaemonState,
    pane: PaneId,
    first: Option<Effect>,
    second: Option<Effect>,
)
    requires
        is_typed(s, t, pane, first),
        is_typed(t, u, pane, second),
    ensures
        second is None && u == t,
        s.attention.dom().contains(pane.0) ==> {
            let was = s.attention[pane.0];
            let now = t.attention[pane.0];
            &&& was == AttentionState::NeedsInput || was == AttentionState::Completed ==> now
                == AttentionState::Working && first == Some(Effect::Attention(pane, now))
            &&& was == AttentionState::Working || was == AttentionState::Exited ==> now == was && first is None
        },
        !s.attention.dom().contains(pane.0) ==> t == s && first is None,
{
}

/// When the screen of an agent asks for input, the agent needs input, and the user is told of it once; when
/// the user has typed, they are told again.
pub proof fn law_the_user_is_told_once(
    s: DaemonState,
    t: DaemonState,
    u: DaemonState,
    pane: PaneId,
    first: Option<Effect>,
    second: Option<Effect>,
)
    requires
        is_escalated(s, t, pane, first),
        is_escalated(t, u, pane, second),
    ensures
        t.attention.dom().contains(pane.0),
        t.attention[pane.0] == AttentionState::NeedsInput,
        second is None && u == t,
        first is None <==> s.attention.dom().contains(pane.0) && s.attention[pane.0]
            == AttentionState::NeedsInput,
        first is Some ==> first == Some(Effect::Attention(pane, AttentionState::NeedsInput)),
{
}

/// A full-screen program at rest never asks for input, and any other screen does where it shows a prompt.
pub proof fn law_a_full_screen_program_never_asks(blocking: bool)
    ensures
        !asks(true, blocking),
        asks(false, blocking) == blocking,
{
}

/// The report of a hook is about the agent that sent it: that one asks for the user after a notification, is
/// done after a stop and works after anything else, which is what the user is told; every other agent is as
/// before.
pub proof fn law_a_report_is_about_its_sender(
    s: DaemonState,
    t: DaemonState,
    event: HookEvent,
    e: Effect,
    other: u64,
)
    requires
        is_applied(s, t, event, e),
        other != event.agent_id.0,
    ensures
        t.attention.dom().contains(event.agent_id.0),
        event.kind is Notification ==> t.attention[event.agent_id.0] == AttentionState::NeedsInput,
        event.kind is Stop ==> t.attention[event.agent_id.0] == AttentionState::Completed,
        event.kind is Active ==> t.attention[event.agent_id.0] == AttentionState::Working,
        e == Effect::Attention(event.agent_id, t.attention[event.agent_id.0]),
        t.attention.dom().contains(other) <==> s.attention.dom().contains(other),
        s.attention.dom().contains(other) ==> t.attention[other] == s.attention[other],
        t.agents == s.agents && t.workspaces == s.workspaces && t.trees == s.trees,
{
}

} // verus!
