//! The requests and events of the control socket.

use vstd::prelude::*;

use crate::proto::message::{AdapterInfo, AttentionState, PaneId, WorktreeInfo};

verus! {

/// The number of a split.
#[derive(Debug, Clone, Copy, PartialEq, Eq, Hash, Structural)]
pub struct SplitId(pub u64);

/// How the two halves of a split stand.
#[derive(Debug, Clone, Copy, PartialEq, Eq, Structural)]
pub enum Axis {
    Horizontal,
    Vertical,
}

/// Where the new half of a split goes.
#[derive(Debug, Clone, Copy, PartialEq, Eq, Structural)]
pub enum SplitDirection {
    Right,
    Down,
}

/// The share of the first half of a split, by the bits of the floating-point number.
#[derive(Debug, Clone, Copy, PartialEq, Eq, Structural)]
pub struct Ratio(pub u32);

/// The bits of one half.
pub const HALF: u32 = 0x3f000000;

/// The panes of one workspace, as a tree of splits.
#[derive(Debug, PartialEq, Eq)]
pub enum PaneTree {
    Leaf { pane: PaneId },
    Split { id: SplitId, axis: Axis, ratio: Ratio, first: Box<PaneTree>, second: Box<PaneTree> },
}

impl PaneTree {
    /// The same tree once more.
    pub fn copied(&self) -> (t: PaneTree)
        ensures
            t == *self,
        decreases self,
    {
        match self {
            PaneTree::Leaf { pane } => PaneTree::Leaf { pane: *pane },
            PaneTree::Split { id, axis, ratio, first, second } => PaneTree::Split {
                id: *id,
                axis: *axis,
                ratio: *ratio,
                first: Box::new(first.copied()),
                second: Box::new(second.copied()),
            },
        }
    }
}

/// A registered project as clients list it.
#[derive(Debug, Clone, PartialEq, Eq)]
pub struct ProjectInfo {
    /// The canonical path of its root, which is its identity.
    pub path: String,
    /// The last part of the path.
    pub name: String,
    /// `git` or `jj`.
    pub kind: String,
}

/// What a listed project says.
pub struct ProjectInfoView {
    pub path: Seq<char>,
    pub name: Seq<char>,
    pub kind: Seq<char>,
}

impl View for ProjectInfo {
    type V = ProjectInfoView;

    open spec fn view(&self) -> ProjectInfoView {
        ProjectInfoView { path: self.path@, name: self.name@, kind: self.kind@ }
    }
}

/// An agent profile as clients list it.
#[derive(Debug, Clone, PartialEq, Eq)]
pub struct AgentProfileInfo {
    pub id: String,
    pub base: String,
    pub display_name: String,
    pub enabled: bool,
    pub args: String,
    pub builtin: bool,
}

/// What a listed profile says.
pub struct AgentProfileInfoView {
    pub id: Seq<char>,
    pub base: Seq<char>,
    pub display_name: Seq<char>,
    pub enabled: bool,
    pub args: Seq<char>,
    pub builtin: bool,
}

impl View for AgentProfileInfo {
    type V = AgentProfileInfoView;

    open spec fn view(&self) -> AgentProfileInfoView {
        AgentProfileInfoView {
            id: self.id@,
            base: self.base@,
            display_name: self.display_name@,
            enabled: self.enabled,
            args: self.args@,
            builtin: self.builtin,
        }
    }
}

impl AgentProfileInfo {
    /// A copy that says the same.
    pub fn copied(&self) -> (p: AgentProfileInfo)
        ensures
            p@ == self@,
    {
        AgentProfileInfo {
            id: self.id.clone(),
            base: self.base.clone(),
            display_name: self.display_name.clone(),
            enabled: self.enabled,
            args: self.args.clone(),
            builtin: self.builtin,
        }
    }
}

/// What a client asks over the control socket.
#[derive(Debug, Clone, PartialEq, Eq)]
pub enum ControlRequest {
    ListWorktrees,
    ListAdapters,
    SpawnAgent { project: String, name: String, adapter: String },
    SplitPane { pane: PaneId, direction: SplitDirection },
    ClosePane { pane: PaneId },
    SetSplitRatio { split: SplitId, ratio: Ratio },
    GetSplitTree { agent: PaneId },
    LandAgent { pane: PaneId },
    DiscardAgent { pane: PaneId },
    ListProjects,
    AddProject { path: String },
    RemoveProject { path: String },
    OpenProjectTerminal { path: String },
    RestartWorktree { pane: PaneId },
    ListAgentProfiles,
    AddAgentProfile { profile: AgentProfileInfo },
    UpdateAgentProfile { profile: AgentProfileInfo },
    RemoveAgentProfile { id: String },
}

/// What the daemon tells over the control socket.
#[derive(Debug, PartialEq, Eq)]
pub enum ControlEvent {
    WorktreeList { worktrees: Vec<WorktreeInfo> },
    AdapterList { adapters: Vec<AdapterInfo> },
    AttentionChanged { pane: PaneId, state: AttentionState },
    AgentRemoved { pane: PaneId },
    AgentSpawned { pane: PaneId },
    Error { message: String },
    SplitTreeChanged { agent: PaneId, tree: PaneTree },
    ProjectList { projects: Vec<ProjectInfo> },
    ProjectAdded { project: ProjectInfo },
    ProjectRemoved { path: String },
    ProjectTerminalOpened { path: String, pane: PaneId },
    ProjectTerminalClosed { path: String },
    AgentProfileList { profiles: Vec<AgentProfileInfo> },
}

} // verus!
