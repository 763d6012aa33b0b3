//! The panes of the daemon: which there are, whose they are, and what becomes of them.

use vstd::prelude::*;

use crate::config::agents::{rows, AgentProfile, AgentProfileView};
use crate::config::resolve;
use crate::config::resolve::Config;
use crate::config::vars::Vars;
use crate::daemon::adapter::AdapterDescriptor;
use crate::daemon::agent_profiles::AgentProfileStore;
use crate::daemon::projects::{project_rows, ProjectRecord, ProjectRecordView, ProjectStore};
use crate::daemon::registry;
use crate::daemon::registry::{is_with_tree, without_agent, AgentRecord, Registry};
use crate::daemon::split_tree;
use crate::daemon::split_tree::{leaf_seq, rebuilt, split_at, with_ratio, without_leaf};
use crate::daemon::table::{PathTable, Place, Table};
use crate::proto::control::{PaneTree, Ratio, SplitDirection, SplitId};
use crate::proto::message::{AttentionState, PaneId};
use crate::path::meaning;
use crate::text;
use crate::text::decimal;
use crate::workspace::kind::Workspace;
use crate::workspace::layout::WorktreeLayout;

pub mod agents;
pub mod attention;
pub mod changes;
pub mod laws;
pub mod layout;
pub mod lists;
pub mod terminals;

verus! {

/// What the daemon remembers of an agent.
#[derive(Debug, PartialEq, Eq)]
pub struct AgentMeta {
    /// The path of the project.
    pub project: String,
    pub name: String,
    pub branch: String,
}

/// How the daemon was set up.
pub struct Settings {
    pub hook_sock: String,
    pub backlog_cap: usize,
    pub default_cols: u16,
    pub default_rows: u16,
    pub shell: String,
    pub worktrees: WorktreeLayout,
}

/// A change to the projects.
#[derive(Debug, Clone, PartialEq, Eq)]
pub enum ProjectChange {
    Added(ProjectRecord),
    Removed(String),
    /// The terminal of a project is gone.
    TerminalClosed(String),
}

/// What the daemon has to do, or to tell its clients, after a change.
#[derive(Debug, PartialEq, Eq)]
pub enum Effect {
    /// End the process of a pane and all that waits for it, and forget the pane.
    End(PaneId),
    /// End the process of a pane and all that waits for it. Its output can still be read.
    Kill(PaneId),
    /// Forget a pane.
    Forget(PaneId),
    /// Tell the state of an agent, to clients and to the user.
    Attention(PaneId, AttentionState),
    /// Tell that an agent is gone.
    AgentRemoved(PaneId),
    /// Tell the layout of a workspace.
    Tree(PaneId, PaneTree),
    /// Tell of a change to the projects.
    Project(ProjectChange),
    /// Tell that the agent profiles have changed.
    ProfilesChanged,
    /// Write the registry of agents.
    SaveRegistry,
    /// Write the list of projects.
    SaveProjects,
    /// Write the agent profiles.
    SaveProfiles,
    /// Remove a directory, if it is empty.
    Tidy(String),
}

/// The number behind this one. Behind the last they start anew.
pub open spec fn number_after(n: u64) -> u64 {
    if n == u64::MAX {
        0
    } else {
        (n + 1) as u64
    }
}

fn next_number(n: u64) -> (m: u64)
    ensures
        m == number_after(n),
{
    if n == u64::MAX {
        0
    } else {
        n + 1
    }
}

/// What is known of the panes.
pub struct Panes {
    panes: Table<()>,
    next_id: u64,
    next_split: u64,
    attention: Table<AttentionState>,
    workspaces: Table<Workspace>,
    agents: Table<AgentMeta>,
    trees: Table<PaneTree>,
    owner: Table<u64>,
    hookless: Table<()>,
    terms: Table<String>,
    project_terms: PathTable,
    dirty: Table<()>,
}

/// The daemon: its panes, and what it keeps on disk.
pub struct Daemon {
    pub maps: Panes,
    pub registry: Registry,
    pub projects: ProjectStore,
    pub profiles: AgentProfileStore,
    pub settings: Settings,
}

/// The panes of the daemon, as its methods speak of them.
#[verifier::ext_equal]
pub struct DaemonState {
    /// The panes that there are.
    pub panes: Set<u64>,
    /// The next free number for a pane.
    pub next_id: u64,
    /// The next free number for a split.
    pub next_split: u64,
    /// What each agent asks of the user.
    pub attention: Map<u64, AttentionState>,
    /// The worktree of each agent.
    pub workspaces: Map<u64, Workspace>,
    /// What is remembered of each agent.
    pub agents: Map<u64, AgentMeta>,
    /// The layout around each agent and each project terminal.
    pub trees: Map<u64, PaneTree>,
    /// The agent or project terminal to which each pane belongs.
    pub owner: Map<u64, u64>,
    /// The agents that report by no hooks.
    pub hookless: Set<u64>,
    /// The project of each project terminal.
    pub terms: Map<u64, String>,
    /// The project terminal of each project.
    pub project_terms: Map<Place, u64>,
    /// The agents whose dividers have moved since their layouts were stored.
    pub dirty: Set<u64>,
}

/// The numbers of panes.
pub open spec fn numbers(panes: Seq<PaneId>) -> Set<u64> {
    Set::new(|n: u64| panes.contains(PaneId(n)))
}

/// Each of the panes ends.
pub open spec fn ends(panes: Seq<PaneId>) -> Seq<Effect> {
    panes.map_values(|p: PaneId| Effect::End(p))
}

/// How a pane is written in a message.
pub open spec fn pane_text(n: u64) -> Seq<char> {
    "PaneId("@ + decimal(n as nat) + ")"@
}

/// The message, and the pane.
pub fn with_pane(message: &str, pane: PaneId) -> (m: String)
    ensures
        m@ == message@ + pane_text(pane.0),
{
    let mut p = "PaneId(".to_owned();
    p.append(text::show(pane.0 as u128).as_str());
    p.append(")");
    let mut m = message.to_owned();
    m.append(p.as_str());
    m
}

impl DaemonState {
    /// No pane, no agent, no terminal.
    pub open spec fn empty() -> DaemonState {
        DaemonState {
            panes: Set::empty(),
            next_id: 1,
            next_split: 1,
            attention: Map::empty(),
            workspaces: Map::empty(),
            agents: Map::empty(),
            trees: Map::empty(),
            owner: Map::empty(),
            hookless: Set::empty(),
            terms: Map::empty(),
            project_terms: Map::empty(),
            dirty: Set::empty(),
        }
    }

    /// The other panes in the layout around a root.
    pub open spec fn companions(self, root: u64) -> Seq<PaneId> {
        if self.trees.dom().contains(root) {
            leaf_seq(self.trees[root]).filter(|p: PaneId| p != PaneId(root))
        } else {
            seq![]
        }
    }

    /// Without these panes.
    pub open spec fn without_panes(self, gone: Seq<PaneId>) -> DaemonState {
        DaemonState {
            panes: self.panes.difference(numbers(gone)),
            owner: self.owner.remove_keys(numbers(gone)),
            ..self
        }
    }

    /// Without a project terminal and its companions.
    pub open spec fn without_terminal(self, pane: u64) -> DaemonState {
        if !self.terms.dom().contains(pane) {
            self
        } else {
            let root = self.terms[pane];
            let s = self.without_panes(self.companions(pane));
            DaemonState {
                panes: s.panes.remove(pane),
                owner: s.owner.remove(pane),
                trees: s.trees.remove(pane),
                terms: s.terms.remove(pane),
                project_terms: if s.project_terms.dom().contains(meaning(root@))
                    && s.project_terms[meaning(root@)] == pane {
                    s.project_terms.remove(meaning(root@))
                } else {
                    s.project_terms
                },
                ..s
            }
        }
    }

    /// What follows when a project terminal goes: first its companions end, then itself.
    pub open spec fn terminal_ends(self, pane: PaneId) -> Seq<Effect> {
        if self.terms.dom().contains(pane.0) {
            ends(self.companions(pane.0)).push(Effect::End(pane)).push(
                Effect::Project(ProjectChange::TerminalClosed(self.terms[pane.0])),
            )
        } else {
            seq![]
        }
    }

    /// With the processes of an agent and its companions ended.
    pub open spec fn with_agent_ended(self, pane: u64) -> DaemonState {
        let s = self.without_panes(self.companions(pane));
        DaemonState {
            owner: s.owner.remove(pane),
            trees: s.trees.remove(pane),
            hookless: s.hookless.remove(pane),
            ..s
        }
    }

    /// Without an agent whose processes have ended.
    pub open spec fn without_agent(self, pane: u64) -> DaemonState {
        DaemonState {
            workspaces: self.workspaces.remove(pane),
            panes: self.panes.remove(pane),
            attention: self.attention.remove(pane),
            agents: self.agents.remove(pane),
            ..self
        }
    }

    /// With a state of an agent.
    pub open spec fn with_attention(self, pane: u64, state: AttentionState) -> DaemonState {
        DaemonState { attention: self.attention.insert(pane, state), ..self }
    }

    /// With a root that stands alone in its layout.
    pub open spec fn with_root(self, pane: u64) -> DaemonState {
        DaemonState {
            trees: self.trees.insert(pane, PaneTree::Leaf { pane: PaneId(pane) }),
            owner: self.owner.insert(pane, pane),
            ..self
        }
    }

    /// With an agent that has just been spawned.
    pub open spec fn with_agent(
        self,
        pane: u64,
        ws: Workspace,
        meta: AgentMeta,
        hooks: bool,
    ) -> DaemonState {
        let s = DaemonState {
            panes: self.panes.insert(pane),
            workspaces: self.workspaces.insert(pane, ws),
            agents: self.agents.insert(pane, meta),
            hookless: if hooks {
                self.hookless
            } else {
                self.hookless.insert(pane)
            },
            ..self
        };
        s.with_attention(pane, AttentionState::Working).with_root(pane)
    }

    /// With an agent that runs again, and the layout that it had.
    pub open spec fn with_agent_again(
        self,
        pane: u64,
        ws: Workspace,
        meta: AgentMeta,
        hooks: bool,
        tree: Option<PaneTree>,
    ) -> DaemonState {
        let s = self.with_agent(pane, ws, meta, hooks);
        match tree {
            Some(t) => DaemonState { trees: s.trees.insert(pane, t), ..s },
            None => s,
        }
    }

    /// Without a companion of `root`.
    pub open spec fn without_companion(self, pane: u64, root: u64) -> DaemonState {
        DaemonState {
            panes: self.panes.remove(pane),
            owner: self.owner.remove(pane),
            trees: if self.trees.dom().contains(root) {
                match without_leaf(self.trees[root], PaneId(pane)) {
                    Some(t) => self.trees.insert(root, t),
                    None => self.trees,
                }
            } else {
                self.trees
            },
            ..self
        }
    }

    /// With a pane split. A pane that has gone from the layout meanwhile is not split; the companion
    /// then belongs to the root, and stands in no layout.
    pub open spec fn with_split(
        self,
        root: u64,
        target: PaneId,
        companion: PaneId,
        direction: SplitDirection,
    ) -> DaemonState {
        DaemonState {
            next_split: number_after(self.next_split),
            trees: match split_at(
                self.trees[root],
                target,
                companion,
                direction,
                SplitId(self.next_split),
            ) {
                Some(t) => self.trees.insert(root, t),
                None => self.trees,
            },
            owner: self.owner.insert(companion.0, root),
            ..self
        }
    }

    /// With a divider moved in the layout around `root`.
    pub open spec fn with_split_ratio(self, root: u64, split: SplitId, ratio: Ratio) -> DaemonState {
        DaemonState {
            trees: self.trees.insert(root, with_ratio(self.trees[root], split, ratio)->0),
            dirty: self.dirty.insert(root),
            ..self
        }
    }

    /// With the layout around an agent rebuilt from a stored one, given the fresh companions.
    pub open spec fn with_restored(
        self,
        agent: u64,
        tree: PaneTree,
        fresh: Seq<Option<PaneId>>,
    ) -> DaemonState {
        let (t, next) = rebuilt(tree, PaneId(agent), fresh, self.next_split as nat);
        DaemonState {
            next_split: next as u64,
            trees: self.trees.insert(
                agent,
                match t {
                    Some(t) => t,
                    None => PaneTree::Leaf { pane: PaneId(agent) },
                },
            ),
            owner: self.owner.union_prefer_right(
                Map::new(|n: u64| fresh.contains(Some(PaneId(n))), |n: u64| agent),
            ),
            ..self
        }
    }

    /// With a terminal of a project, which stands alone in its layout.
    pub open spec fn with_terminal(self, pane: u64, root: String) -> DaemonState {
        DaemonState {
            terms: self.terms.insert(pane, root),
            project_terms: self.project_terms.insert(meaning(root@), pane),
            ..self.with_root(pane)
        }
    }

    /// The layout around a root, as it is stored: nothing where the root stands alone.
    pub open spec fn stored_tree(self, root: u64) -> Option<PaneTree> {
        if !self.trees.dom().contains(root) || self.trees[root] == (PaneTree::Leaf {
            pane: PaneId(root),
        }) {
            None
        } else {
            Some(self.trees[root])
        }
    }

    /// The news of the layout around a root, where it has one.
    pub open spec fn tree_news(self, root: u64) -> Seq<Effect> {
        if self.trees.dom().contains(root) {
            seq![Effect::Tree(PaneId(root), self.trees[root])]
        } else {
            seq![]
        }
    }
}

impl Panes {
    /// The panes, as the methods speak of them.
    pub closed spec fn state(&self) -> DaemonState {
        DaemonState {
            panes: self.panes@.dom(),
            next_id: self.next_id,
            next_split: self.next_split,
            attention: self.attention@,
            workspaces: self.workspaces@,
            agents: self.agents@,
            trees: self.trees@,
            owner: self.owner@,
            hookless: self.hookless@.dom(),
            terms: self.terms@,
            project_terms: self.project_terms@,
            dirty: self.dirty@.dom(),
        }
    }
}

/// What the end of the process of a companion does and comes to.
pub open spec fn is_reaped(before: Daemon, after: Daemon, pane: PaneId, effects: Vec<Effect>) -> bool {
    let s = before.state();
    &&& after.keeps_lists(before)
    &&& after.registry.file() == before.registry.file()
    &&& if s.owner.dom().contains(pane.0) && s.owner[pane.0] != pane.0 {
        let root = s.owner[pane.0];
        &&& after.state() == s.without_companion(pane.0, root)
        &&& is_with_tree(
            before.registry.rows(),
            root,
            after.state().stored_tree(root),
            after.registry.rows(),
        )
        &&& effects@ == seq![Effect::End(pane)] + after.state().tree_news(root) + seq![
            Effect::SaveRegistry,
        ]
    } else {
        &&& after.state() == s
        &&& after.registry == before.registry
        &&& effects@.len() == 0
    }
}

impl Daemon {
    /// The panes, as the methods speak of them.
    pub open spec fn state(&self) -> DaemonState {
        self.maps.state()
    }

    /// Nothing but the panes has changed since `before`.
    pub open spec fn keeps_stores(&self, before: Daemon) -> bool {
        &&& self.registry == before.registry
        &&& self.keeps_lists(before)
    }

    /// Neither the projects, nor the profiles, nor the settings have changed since `before`.
    pub open spec fn keeps_lists(&self, before: Daemon) -> bool {
        &&& self.projects == before.projects
        &&& self.profiles == before.profiles
        &&& self.settings == before.settings
    }

    /// A daemon without panes.
    pub fn new(
        settings: Settings,
        registry: Registry,
        projects: ProjectStore,
        profiles: AgentProfileStore,
    ) -> (d: Daemon)
        ensures
            d.state() == DaemonState::empty(),
            d.settings == settings,
            d.registry == registry,
            d.projects == projects,
            d.profiles == profiles,
    {
        let maps = Panes {
            panes: Table::new(),
            next_id: 1,
            next_split: 1,
            attention: Table::new(),
            workspaces: Table::new(),
            agents: Table::new(),
            trees: Table::new(),
            owner: Table::new(),
            hookless: Table::new(),
            terms: Table::new(),
            project_terms: PathTable::new(),
            dirty: Table::new(),
        };
        assert(maps.panes@.dom() =~= Set::<u64>::empty());
        Daemon { maps, registry, projects, profiles, settings }
    }

    /// The daemon has the settings of the configuration, and the lists that stand in their files.
    pub open spec fn is_configured(
        &self,
        config: Config,
        env: Vars,
        agents: Option<Vec<AgentRecord>>,
        projects: Option<Vec<ProjectRecord>>,
        profiles: Option<Vec<AgentProfile>>,
    ) -> bool {
        &&& self.state() == DaemonState::empty()
        &&& self.settings.hook_sock@ == config.hook_sock@
        &&& self.settings.backlog_cap == config.backlog_cap
        &&& self.settings.default_cols == config.default_cols
        &&& self.settings.default_rows == config.default_rows
        &&& self.settings.shell@ == config.shell@
        &&& self.settings.worktrees.root() == config.worktree_base@
        &&& self.projects.worktrees().root() == config.worktree_base@
        &&& self.registry.file() == resolve::state_file(env, "CLOWDER_STATE_FILE"@, "agents.json"@)
        &&& self.registry.rows() == (match agents {
            Some(v) => v@,
            None => Seq::<AgentRecord>::empty(),
        })
        &&& self.projects.file() == resolve::state_file(env, "CLOWDER_PROJECTS_FILE"@, "projects.json"@)
        &&& self.projects.rows() == (match projects {
            Some(v) => project_rows(v@),
            None => Seq::<ProjectRecordView>::empty(),
        })
        &&& self.profiles.file() == resolve::state_file(
            env,
            "CLOWDER_AGENT_PROFILES_FILE"@,
            "agent-profiles.json"@,
        )
        &&& self.profiles.rows() == (match profiles {
            Some(v) => rows(v@),
            None => Seq::<AgentProfileView>::empty(),
        })
    }

    /// A daemon with the settings of the configuration, and with the lists that stand in their files.
    /// Worktrees are made in one directory, and looked for in the same when a project is added.
    pub fn new_from_config(
        config: &Config,
        env: &Vars,
        agents: Option<Vec<AgentRecord>>,
        projects: Option<Vec<ProjectRecord>>,
        profiles: Option<Vec<AgentProfile>>,
        known: Vec<AdapterDescriptor>,
    ) -> (d: Daemon)
        ensures
            d.is_configured(*config, *env, agents, projects, profiles),
            d.profiles.known() == known@,
    {
        let settings = Settings {
            hook_sock: config.hook_sock.clone(),
            backlog_cap: config.backlog_cap,
            default_cols: config.default_cols,
            default_rows: config.default_rows,
            shell: config.shell.clone(),
            worktrees: WorktreeLayout::new(config.worktree_base.clone()),
        };
        let layout = settings.worktrees.copied();
        Daemon::new(
            settings,
            Registry::loaded(Registry::default_path(env), agents),
            ProjectStore::loaded(ProjectStore::default_path(env), layout, projects),
            AgentProfileStore::loaded(AgentProfileStore::default_path(env), profiles, known),
        )
    }

    /// A number that no pane has had, as long as numbers last.
    pub fn alloc_id(&mut self) -> (id: PaneId)
        ensures
            id.0 == old(self).state().next_id,
            final(self).state() == (DaemonState {
                next_id: number_after(old(self).state().next_id),
                ..old(self).state()
            }),
            final(self).keeps_stores(*old(self)),
    {
        let id = self.maps.next_id;
        self.maps.next_id = next_number(id);
        PaneId(id)
    }

    /// No pane gets a number up to `n` from now on.
    pub fn bump_next_id_above(&mut self, n: u64)
        requires
            n < u64::MAX,
        ensures
            final(self).state() == (DaemonState {
                next_id: if old(self).state().next_id > n {
                    old(self).state().next_id
                } else {
                    (n + 1) as u64
                },
                ..old(self).state()
            }),
            final(self).keeps_stores(*old(self)),
    {
        if self.maps.next_id <= n {
            self.maps.next_id = n + 1;
        }
    }

    /// A pane has been spawned.
    pub fn register_pane(&mut self, id: PaneId)
        ensures
            final(self).state() == (DaemonState {
                panes: old(self).state().panes.insert(id.0),
                ..old(self).state()
            }),
            final(self).keeps_stores(*old(self)),
    {
        self.maps.panes.insert(id.0, ());
        assert(self.maps.panes@.dom() =~= old(self).maps.panes@.dom().insert(id.0));
    }

    /// Whether there is such a pane.
    pub fn is_live(&self, pane: PaneId) -> (yes: bool)
        ensures
            yes == self.state().panes.contains(pane.0),
    {
        self.maps.panes.has(pane.0)
    }

    /// Whether the screen of an agent is watched, since it reports by no hooks.
    pub fn is_watched(&self, pane: PaneId) -> (yes: bool)
        ensures
            yes == self.state().hookless.contains(pane.0),
    {
        self.maps.hookless.has(pane.0)
    }

    /// An agent is in this state from now on.
    pub fn set_attention(&mut self, pane: PaneId, state: AttentionState) -> (e: Effect)
        ensures
            final(self).state() == old(self).state().with_attention(pane.0, state),
            final(self).keeps_stores(*old(self)),
            e == Effect::Attention(pane, state),
    {
        self.maps.attention.insert(pane.0, state);
        Effect::Attention(pane, state)
    }

    /// The socket that hooks report to.
    pub fn hook_sock(&self) -> (p: &str)
        ensures
            p@ == self.settings.hook_sock@,
    {
        self.settings.hook_sock.as_str()
    }

    /// What stopping comes to: every pane is to be ended.
    pub open spec fn is_shut_down(&self, before: Daemon, panes: Vec<PaneId>) -> bool {
        &&& forall|n: u64| #[trigger] before.state().panes.contains(n) <==> panes@.contains(PaneId(n))
        &&& panes@.no_duplicates()
        &&& self.state() == (DaemonState { panes: Set::empty(), ..before.state() })
        &&& self.keeps_stores(before)
    }

    /// The daemon stops: every pane is to be ended. The agents keep their worktrees.
    pub fn shutdown(&mut self) -> (panes: Vec<PaneId>)
        ensures
            final(self).is_shut_down(*old(self), panes),
    {
        let ids = self.maps.panes.keys();
        let mut panes: Vec<PaneId> = Vec::new();
        let mut i: usize = 0;
        while i < ids.len()
            invariant
                i <= ids.len(),
                panes@.len() == i,
                forall|k: int| 0 <= k < i ==> #[trigger] panes@[k] == PaneId(ids@[k]),
            decreases ids.len() - i,
        {
            panes.push(PaneId(ids[i]));
            i = i + 1;
        }
        proof {
            assert forall|n: u64| #[trigger] self.state().panes.contains(n) <==> panes@.contains(
                PaneId(n),
            ) by {
                assert(self.maps.panes@.dom().contains(n) <==> ids@.contains(n));
                if ids@.contains(n) {
                    let k = choose|k: int| 0 <= k < ids@.len() && ids@[k] == n;
                    assert(panes@[k] == PaneId(n));
                }
                if panes@.contains(PaneId(n)) {
                    let k = choose|k: int| 0 <= k < panes@.len() && panes@[k] == PaneId(n);
                    assert(ids@[k] == n);
                }
            }
        }
        self.maps.panes = Table::new();
        assert(self.maps.panes@.dom() =~= Set::<u64>::empty());
        panes
    }

    /// The state of an agent.
    pub fn attention_of(&self, pane: PaneId) -> (s: Option<AttentionState>)
        ensures
            match s {
                Some(x) => self.state().attention.dom().contains(pane.0) && x
                    == self.state().attention[pane.0],
                None => !self.state().attention.dom().contains(pane.0),
            },
    {
        match self.maps.attention.get(pane.0) {
            Some(s) => Some(*s),
            None => None,
        }
    }

    /// The root to which a pane belongs.
    pub fn owner_of(&self, pane: PaneId) -> (o: Option<PaneId>)
        ensures
            match o {
                Some(x) => self.state().owner.dom().contains(pane.0) && x.0
                    == self.state().owner[pane.0],
                None => !self.state().owner.dom().contains(pane.0),
            },
    {
        match self.maps.owner.get(pane.0) {
            Some(o) => Some(PaneId(*o)),
            None => None,
        }
    }

    /// The worktree of an agent.
    pub fn workspace_of(&self, pane: PaneId) -> (w: Option<Workspace>)
        ensures
            match w {
                Some(x) => self.state().workspaces.dom().contains(pane.0) && x
                    == self.state().workspaces[pane.0],
                None => !self.state().workspaces.dom().contains(pane.0),
            },
    {
        match self.maps.workspaces.get(pane.0) {
            Some(w) => Some(w.copied()),
            None => None,
        }
    }

    /// The project of a project terminal.
    pub fn project_of_terminal(&self, pane: PaneId) -> (p: Option<String>)
        ensures
            match p {
                Some(x) => self.state().terms.dom().contains(pane.0) && x == self.state().terms[pane.0],
                None => !self.state().terms.dom().contains(pane.0),
            },
    {
        match self.maps.terms.get(pane.0) {
            Some(p) => Some(p.clone()),
            None => None,
        }
    }

    /// The layout around a root.
    pub fn split_tree_of(&self, root: PaneId) -> (t: Option<PaneTree>)
        ensures
            match t {
                Some(x) => self.state().trees.dom().contains(root.0) && x == self.state().trees[root.0],
                None => !self.state().trees.dom().contains(root.0),
            },
    {
        match self.maps.trees.get(root.0) {
            Some(t) => Some(t.copied()),
            None => None,
        }
    }

    /// The directory in which a companion of a root starts: the worktree of the agent, or the root of
    /// the project.
    pub fn root_cwd(&self, root: PaneId) -> (dir: Option<String>)
        ensures
            match dir {
                Some(d) => if self.state().workspaces.dom().contains(root.0) {
                    d@ == self.state().workspaces[root.0].path@
                } else {
                    self.state().terms.dom().contains(root.0) && d@ == self.state().terms[root.0]@
                },
                None => !self.state().workspaces.dom().contains(root.0)
                    && !self.state().terms.dom().contains(root.0),
            },
    {
        match self.maps.workspaces.get(root.0) {
            Some(w) => Some(w.path.clone()),
            None => match self.maps.terms.get(root.0) {
                Some(p) => Some(p.clone()),
                None => None,
            },
        }
    }

    fn companions_of(&self, root: PaneId) -> (cs: Vec<PaneId>)
        ensures
            cs@ == self.state().companions(root.0),
    {
        match self.maps.trees.get(root.0) {
            Some(t) => split_tree::companions_of(t, root),
            None => Vec::new(),
        }
    }

    /// End each of the panes.
    fn end_panes(&mut self, gone: &Vec<PaneId>) -> (effects: Vec<Effect>)
        ensures
            final(self).state() == old(self).state().without_panes(gone@),
            final(self).keeps_stores(*old(self)),
            effects@ == ends(gone@),
    {
        let mut effects: Vec<Effect> = Vec::new();
        let mut i: usize = 0;
        proof {
            let none = gone@.take(0);
            assert(numbers(none) =~= Set::<u64>::empty());
            assert(self.state() =~= old(self).state().without_panes(none));
            assert(effects@ =~= ends(none));
        }
        while i < gone.len()
            invariant
                i <= gone.len(),
                self.state() == old(self).state().without_panes(gone@.take(i as int)),
                self.keeps_stores(*old(self)),
                effects@ == ends(gone@.take(i as int)),
            decreases gone.len() - i,
        {
            let p = gone[i];
            let ghost before = self.state();
            self.maps.panes.remove(p.0);
            self.maps.owner.remove(p.0);
            effects.push(Effect::End(p));
            proof {
                let seen = gone@.take(i as int);
                let now = gone@.take(i + 1);
                assert(now =~= seen.push(p));
                assert forall|n: u64| #[trigger] numbers(now).contains(n) <==> numbers(seen).contains(n) || n
                    == p.0 by {
                    if numbers(seen).contains(n) {
                        let j = choose|j: int| 0 <= j < seen.len() && seen[j] == PaneId(n);
                        assert(now[j] == PaneId(n));
                    }
                    if n == p.0 {
                        assert(now[i as int] == PaneId(n));
                    }
                    if numbers(now).contains(n) && n != p.0 {
                        let j = choose|j: int| 0 <= j < now.len() && now[j] == PaneId(n);
                        assert(seen[j] == PaneId(n));
                    }
                }
                assert(self.maps.panes@.dom() =~= before.panes.remove(p.0));
                assert(self.state() =~= old(self).state().without_panes(now));
                assert(ends(now) =~= ends(seen).push(Effect::End(p)));
            }
            i = i + 1;
        }
        assert(gone@.take(gone@.len() as int) =~= gone@);
        effects
    }

    /// Forget a project terminal whose pane is gone, or is to go. Its companions go first. Where the
    /// pane is no project terminal (any more), nothing happens.
    pub fn forget_project_terminal(&mut self, pane: PaneId) -> (effects: Vec<Effect>)
        ensures
            final(self).state() == old(self).state().without_terminal(pane.0),
            final(self).keeps_stores(*old(self)),
            effects@ == old(self).state().terminal_ends(pane),
    {
        let ghost s0 = self.state();
        let root = match self.maps.terms.remove(pane.0) {
            Some(r) => r,
            None => {
                assert(self.state() =~= s0);
                return Vec::new();
            },
        };
        match self.maps.project_terms.get(root.as_str()) {
            Some(p) => {
                if p == pane.0 {
                    self.maps.project_terms.remove(root.as_str());
                }
            },
            None => {},
        }
        let gone = self.companions_of(pane);
        let ghost s1 = self.state();
        assert(s1.companions(pane.0) == s0.companions(pane.0));
        let mut effects = self.end_panes(&gone);
        self.maps.trees.remove(pane.0);
        self.maps.owner.remove(pane.0);
        self.maps.panes.remove(pane.0);
        effects.push(Effect::End(pane));
        effects.push(Effect::Project(ProjectChange::TerminalClosed(root)));
        assert(self.state() =~= s0.without_terminal(pane.0));
        effects
    }

    /// Store the layout around an agent in its record.
    fn persist_tree(&mut self, root: PaneId)
        ensures
            final(self).state() == old(self).state(),
            final(self).keeps_lists(*old(self)),
            final(self).registry.file() == old(self).registry.file(),
            is_with_tree(
                old(self).registry.rows(),
                root.0,
                old(self).state().stored_tree(root.0),
                final(self).registry.rows(),
            ),
    {
        let stored = match self.maps.trees.get(root.0) {
            None => None,
            Some(t) => match t {
                PaneTree::Leaf { pane } => if pane.0 == root.0 {
                    None
                } else {
                    Some(t.copied())
                },
                PaneTree::Split { .. } => Some(t.copied()),
            },
        };
        self.registry.set_tree(root.0, stored);
    }

    fn tell_tree(&self, root: PaneId, effects: &mut Vec<Effect>)
        ensures
            final(effects)@ == old(effects)@ + self.state().tree_news(root.0),
    {
        match self.split_tree_of(root) {
            Some(t) => {
                effects.push(Effect::Tree(root, t));
                assert(effects@ =~= old(effects)@ + self.state().tree_news(root.0));
            },
            None => {
                assert(effects@ =~= old(effects)@ + self.state().tree_news(root.0));
            },
        }
    }

    /// Take a companion out of the layout around its root.
    fn remove_companion(&mut self, pane: PaneId, root: PaneId) -> (effects: Vec<Effect>)
        ensures
            final(self).state() == old(self).state().without_companion(pane.0, root.0),
            final(self).keeps_lists(*old(self)),
            final(self).registry.file() == old(self).registry.file(),
            is_with_tree(
                old(self).registry.rows(),
                root.0,
                final(self).state().stored_tree(root.0),
                final(self).registry.rows(),
            ),
            effects@ == seq![Effect::End(pane)] + final(self).state().tree_news(root.0)
                + seq![Effect::SaveRegistry],
    {
        let ghost s0 = self.state();
        self.maps.panes.remove(pane.0);
        assert(self.maps.panes@.dom() =~= s0.panes.remove(pane.0));
        let smaller = match self.maps.trees.get(root.0) {
            Some(t) => split_tree::remove_leaf(t, pane),
            None => None,
        };
        match smaller {
            Some(t) => self.maps.trees.insert(root.0, t),
            None => {},
        }
        self.maps.owner.remove(pane.0);
        assert(self.state() =~= s0.without_companion(pane.0, root.0));
        self.persist_tree(root);
        let mut effects: Vec<Effect> = Vec::new();
        effects.push(Effect::End(pane));
        self.tell_tree(root, &mut effects);
        effects.push(Effect::SaveRegistry);
        assert(effects@ =~= seq![Effect::End(pane)] + self.state().tree_news(root.0)
            + seq![Effect::SaveRegistry]);
        effects
    }

    /// The process of a companion has ended: its leaf goes. Where the pane has gone already, or is a
    /// root, nothing happens.
    pub fn reap_companion(&mut self, pane: PaneId) -> (effects: Vec<Effect>)
        ensures
            is_reaped(*old(self), *final(self), pane, effects),
    {
        match self.maps.owner.get(pane.0) {
            None => Vec::new(),
            Some(root) => {
                let root = *root;
                if root == pane.0 {
                    Vec::new()
                } else {
                    self.remove_companion(pane, PaneId(root))
                }
            },
        }
    }
}

} // verus!
