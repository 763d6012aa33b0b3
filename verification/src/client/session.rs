//! An attached terminal: what is sent, what is shown, and when it ends.

use vstd::prelude::*;

use crate::proto::control::{AgentProfileInfo, ControlEvent, ProjectInfo};
use crate::proto::message::{ClientToDaemon, DaemonToClient, PaneId};

verus! {

/// The message that tells the size of a terminal.
pub fn resize_msg(pane: PaneId, cols: u16, rows: u16) -> (m: ClientToDaemon)
    ensures
        m == (ClientToDaemon::Resize { pane, cols, rows }),
{
    ClientToDaemon::Resize { pane, cols, rows }
}

/// What an attached terminal may meet.
pub enum PumpEvent {
    /// The user typed these bytes; none at all where the input has ended.
    Typed(Vec<u8>),
    /// The input cannot be read.
    InputFailed,
    /// The terminal has this size now.
    Resized(u16, u16),
    /// The daemon says this.
    Message(DaemonToClient),
    /// The daemon has closed the connection.
    Closed,
}

/// What an attached terminal does.
pub enum PumpAction {
    /// Send this and go on.
    Send(ClientToDaemon),
    /// Send this as far as that is possible, and stop.
    SendAndStop(ClientToDaemon),
    /// Show these bytes and go on.
    Show(Vec<u8>),
    /// Go on.
    Continue,
    /// Stop.
    Stop,
}

/// What an attached terminal does: it sends what is typed and each new size, shows what the pane
/// writes, and stops when the input ends, the pane exits or the daemon goes.
pub open spec fn pump_action(pane: PaneId, event: PumpEvent, action: PumpAction) -> bool {
    match event {
        PumpEvent::Typed(bytes) => if bytes@.len() == 0 {
            action matches PumpAction::SendAndStop(m) && m is Detach
        } else {
            action matches PumpAction::Send(m) && m matches ClientToDaemon::Input {
                pane: p,
                bytes: b,
            } && p == pane && b@ == bytes@
        },
        PumpEvent::InputFailed => action is Stop,
        PumpEvent::Resized(cols, rows) => action == PumpAction::Send(
            ClientToDaemon::Resize { pane, cols, rows },
        ),
        PumpEvent::Message(m) => match m {
            DaemonToClient::Output { pane: _, bytes } => action matches PumpAction::Show(b) && b@
                == bytes@,
            DaemonToClient::PaneExited { .. } => action is Stop,
            _ => action is Continue,
        },
        PumpEvent::Closed => action is Stop,
    }
}

/// Decide what an attached terminal does.
pub fn pump(pane: PaneId, event: PumpEvent) -> (action: PumpAction)
    ensures
        pump_action(pane, event, action),
{
    match event {
        PumpEvent::Typed(bytes) => if bytes.len() == 0 {
            PumpAction::SendAndStop(ClientToDaemon::Detach)
        } else {
            PumpAction::Send(ClientToDaemon::Input { pane, bytes })
        },
        PumpEvent::InputFailed => PumpAction::Stop,
        PumpEvent::Resized(cols, rows) => PumpAction::Send(resize_msg(pane, cols, rows)),
        PumpEvent::Message(m) => match m {
            DaemonToClient::Output { pane: _, bytes } => PumpAction::Show(bytes),
            DaemonToClient::PaneExited { .. } => PumpAction::Stop,
            DaemonToClient::Attached { .. } => PumpAction::Continue,
            DaemonToClient::AttentionChanged { .. } => PumpAction::Continue,
            DaemonToClient::WorktreeList { .. } => PumpAction::Continue,
            DaemonToClient::AgentRemoved { .. } => PumpAction::Continue,
        },
        PumpEvent::Closed => PumpAction::Stop,
    }
}

/// The request that a client on the control socket waits for the answer of.
#[derive(Debug, Clone, Copy, PartialEq, Eq, Structural)]
pub enum Awaiting {
    Spawn,
    ProjectAdded,
    ProjectList,
    ProjectRemoved,
    AgentProfiles,
}

/// The answer to a request.
pub enum Reply {
    Spawned(PaneId),
    Project(ProjectInfo),
    Projects(Vec<ProjectInfo>),
    ProjectGone,
    Profiles(Vec<AgentProfileInfo>),
}

/// The event is the answer that a client waits for, and says this; an error answers every request.
pub open spec fn is_reply(waiting: Awaiting, event: ControlEvent, r: Option<Result<Reply, String>>) -> bool {
    match event {
        ControlEvent::Error { message } => r matches Some(Err(e)) && e@ == message@,
        ControlEvent::AgentSpawned { pane } => if waiting == Awaiting::Spawn {
            r matches Some(Ok(Reply::Spawned(p))) && p == pane
        } else {
            r is None
        },
        ControlEvent::ProjectAdded { project } => if waiting == Awaiting::ProjectAdded {
            r matches Some(Ok(Reply::Project(p))) && p@ == project@
        } else {
            r is None
        },
        ControlEvent::ProjectList { projects } => if waiting == Awaiting::ProjectList {
            r matches Some(Ok(Reply::Projects(p))) && p@ == projects@
        } else {
            r is None
        },
        ControlEvent::ProjectRemoved { path } => if waiting == Awaiting::ProjectRemoved {
            r matches Some(Ok(Reply::ProjectGone))
        } else {
            r is None
        },
        ControlEvent::AgentProfileList { profiles } => if waiting == Awaiting::AgentProfiles {
            r matches Some(Ok(Reply::Profiles(p))) && p@ == profiles@
        } else {
            r is None
        },
        _ => r is None,
    }
}

/// The answer to a request, where the event is one. Everything else that is streamed is passed over.
pub fn reply(waiting: Awaiting, event: ControlEvent) -> (r: Option<Result<Reply, String>>)
    ensures
        is_reply(waiting, event, r),
{
    match event {
        ControlEvent::Error { message } => Some(Err(message)),
        ControlEvent::AgentSpawned { pane } => match waiting {
            Awaiting::Spawn => Some(Ok(Reply::Spawned(pane))),
            _ => None,
        },
        ControlEvent::ProjectAdded { project } => match waiting {
            Awaiting::ProjectAdded => Some(Ok(Reply::Project(project))),
            _ => None,
        },
        ControlEvent::ProjectList { projects } => match waiting {
            Awaiting::ProjectList => Some(Ok(Reply::Projects(projects))),
            _ => None,
        },
        ControlEvent::ProjectRemoved { .. } => match waiting {
            Awaiting::ProjectRemoved => Some(Ok(Reply::ProjectGone)),
            _ => None,
        },
        ControlEvent::AgentProfileList { profiles } => match waiting {
            Awaiting::AgentProfiles => Some(Ok(Reply::Profiles(profiles))),
            _ => None,
        },
        _ => None,
    }
}

/// An attached terminal sends what is typed to its own pane, byte for byte, and each new size; it shows what
/// the pane writes, byte for byte; and it stops when the input ends or fails, when the program exits or when
/// the daemon goes, and never otherwise.
pub proof fn law_an_attached_terminal_carries_both_ways(pane: PaneId, event: PumpEvent, action: PumpAction)
    requires
        pump_action(pane, event, action),
    ensures
        action matches PumpAction::Send(ClientToDaemon::Input { pane: p, bytes }) ==> {
            &&& event matches PumpEvent::Typed(typed)
            &&& p == pane && bytes@ == typed@ && typed@.len() > 0
        },
        event matches PumpEvent::Typed(typed) ==> (typed@.len() > 0 ==> action is Send && action->Send_0 is Input),
        event matches PumpEvent::Typed(typed) ==> (typed@.len() == 0 ==> action is SendAndStop
            && action->SendAndStop_0 is Detach),
        event matches PumpEvent::Resized(c, r) ==> action is Send && action->Send_0
            == (ClientToDaemon::Resize { pane, cols: c, rows: r }),
        event matches PumpEvent::Message(DaemonToClient::Output { pane: p, bytes }) ==> action is Show
            && action->Show_0@ == bytes@,
        action is Show ==> event is Message && event->Message_0 is Output,
        action is Stop || action is SendAndStop <==> {
            ||| event is InputFailed
            ||| event is Closed
            ||| event is Message && event->Message_0 is PaneExited
            ||| event is Typed && event->Typed_0@.len() == 0
        },
{
}

/// A client takes an event for its answer only where it is the answer to what it asked, and then for what it
/// says; an error answers whatever was asked.
pub proof fn law_a_client_takes_its_own_answer(
    waiting: Awaiting,
    event: ControlEvent,
    r: Option<Result<Reply, String>>,
)
    requires
        is_reply(waiting, event, r),
    ensures
        event matches ControlEvent::Error { message } ==> r is Some && r->0 is Err && r->0->Err_0@ == message@,
        r matches Some(Err(_)) ==> event is Error,
        r matches Some(Ok(answer)) ==> match waiting {
            Awaiting::Spawn => answer is Spawned && event is AgentSpawned && answer->Spawned_0
                == event->AgentSpawned_pane,
            Awaiting::ProjectAdded => answer is Project && event is ProjectAdded && answer->Project_0@
                == event->project@,
            Awaiting::ProjectList => answer is Projects && event is ProjectList && answer->Projects_0@
                == event->projects@,
            Awaiting::ProjectRemoved => answer is ProjectGone && event is ProjectRemoved,
            Awaiting::AgentProfiles => answer is Profiles && event is AgentProfileList && answer->Profiles_0@
                == event->profiles@,
        },
        waiting == Awaiting::Spawn && event is AgentSpawned ==> r is Some,
        waiting == Awaiting::ProjectAdded && event is ProjectAdded ==> r is Some,
        waiting == Awaiting::ProjectList && event is ProjectList ==> r is Some,
        waiting == Awaiting::ProjectRemoved && event is ProjectRemoved ==> r is Some,
        waiting == Awaiting::AgentProfiles && event is AgentProfileList ==> r is Some,
{
}

} // verus!
