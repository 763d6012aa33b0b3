//! The messages of the render and hook sockets.

use vstd::prelude::*;

verus! {

/// The number of a pane.
#[derive(Debug, Clone, Copy, PartialEq, Eq, Hash, PartialOrd, Ord, Structural)]
pub struct PaneId(pub u64);

/// What a worktree asks of the user.
#[derive(Debug, Clone, Copy, PartialEq, Eq, Structural)]
pub enum AttentionState {
    Working,
    NeedsInput,
    Completed,
    Exited,
}

/// What an agent's hook reports.
#[derive(Debug, Clone, Copy, PartialEq, Eq, Structural)]
pub enum HookKind {
    Notification,
    Stop,
    Active,
}

/// A report of an agent's hook.
#[derive(Debug, Clone, Copy, PartialEq, Eq, Structural)]
pub struct HookEvent {
    pub agent_id: PaneId,
    pub kind: HookKind,
}

/// A worktree as clients list it.
#[derive(Debug, Clone, PartialEq, Eq)]
pub struct WorktreeInfo {
    pub pane: PaneId,
    pub project: String,
    pub name: String,
    pub branch: String,
    pub state: AttentionState,
}

/// What a listed worktree says.
pub struct WorktreeInfoView {
    pub pane: PaneId,
    pub project: Seq<char>,
    pub name: Seq<char>,
    pub branch: Seq<char>,
    pub state: AttentionState,
}

impl View for WorktreeInfo {
    type V = WorktreeInfoView;

    open spec fn view(&self) -> WorktreeInfoView {
        WorktreeInfoView {
            pane: self.pane,
            project: self.project@,
            name: self.name@,
            branch: self.branch@,
            state: self.state,
        }
    }
}

/// An agent that the user can pick.
#[derive(Debug, Clone, PartialEq, Eq)]
pub struct AdapterInfo {
    pub id: String,
    pub display_name: String,
}

/// What a client says to the daemon.
#[derive(Debug, Clone, PartialEq, Eq)]
pub enum ClientToDaemon {
    Attach { pane: PaneId },
    Detach,
    Input { pane: PaneId, bytes: Vec<u8> },
    Resize { pane: PaneId, cols: u16, rows: u16 },
    ListWorktrees,
}

/// What the daemon says to a client.
#[derive(Debug, Clone, PartialEq, Eq)]
pub enum DaemonToClient {
    Attached { pane: PaneId, cols: u16, rows: u16 },
    Output { pane: PaneId, bytes: Vec<u8> },
    PaneExited { pane: PaneId, code: Option<i32> },
    AttentionChanged { pane: PaneId, state: AttentionState },
    WorktreeList { worktrees: Vec<WorktreeInfo> },
    AgentRemoved { pane: PaneId },
}

} // verus!
