//! Requests that need work outside the daemon, step by step: what is to be done next, and what follows
//! from how it went.

use vstd::pervasive::unreached;
use vstd::prelude::*;

use crate::daemon::command;
use crate::daemon::command::{is_companion_command, PaneCommand};
use crate::daemon::control::{is_answer, Outcome, Work};
use crate::daemon::projects::PathFacts;
use crate::daemon::registry::{same_rows, without_agent, AgentRecord};
use crate::daemon::split_tree::{companion_count, split_count};
use crate::daemon::state::agents::{
    collision, is_finished, is_restart, is_resume, is_spawn_plan, is_spawn_spec, meta_of, spawn_refusal,
    Finish, Restart, SpawnSpec,
};
use crate::daemon::state::layout::{is_split, is_split_begun};
use crate::daemon::state::terminals::{is_added, is_open, is_opened, is_removed, Open};
use crate::daemon::state::{ends, is_reaped, number_after, Daemon, DaemonState, Effect};
use crate::proto::control::{ControlEvent, PaneTree, SplitDirection};
use crate::proto::message::{AttentionState, PaneId};
use crate::text::{decimal, opt_text, texts};
use crate::workspace::kind::Workspace;
use crate::workspace::layout;
use crate::workspace::layout::{branch_of, worktree_path_of};

pub mod laws;
pub mod requests;

verus! {

/// What a pane is for.
#[derive(Debug, Clone, Copy, PartialEq, Eq, Structural)]
pub enum Role {
    Agent,
    Companion,
    Terminal,
}

/// Work to be done outside.
pub enum Ask {
    /// Make a path canonical.
    Canonical { path: String },
    /// Make paths canonical, each as it is where nothing is there.
    Canonicals { path: String, others: Vec<String> },
    /// Look at a path that is to become a project.
    Inspect { path: String },
    /// See whether a worktree is there, and whether its branch is in the project.
    Look { project: String, worktree: String, branch: String },
    /// Make a worktree.
    Provision { project: String, name: String },
    /// See whether a path is there.
    Exists { path: String },
    /// Run a command in a pane, with the hooks of the adapter laid out before.
    Start {
        id: PaneId,
        command: PaneCommand,
        cols: u16,
        rows: u16,
        role: Role,
        adapter: Option<String>,
    },
    /// Keep the work of a worktree on its branch, and remove the worktree.
    Land { ws: Workspace },
    /// Remove a worktree and its branch.
    Discard { ws: Workspace },
}

/// How the work went.
pub enum Told {
    /// None where nothing is there.
    Canonical(Option<String>),
    Canonicals { path: String, others: Vec<String> },
    Inspected(PathFacts),
    Looked { worktree: bool, branch: bool },
    Provisioned(Result<Workspace, String>),
    Exists(bool),
    Started(Result<(), String>),
    /// With whether the worktree is still there.
    Finished { result: Result<(), String>, there: bool },
}

/// What is remembered of a request while work for it is done.
pub enum Flow {
    SpawnPath { spec: SpawnSpec, project: String, name: String },
    SpawnLook { spec: SpawnSpec, project: String, name: String, worktree: String },
    SpawnProvision { spec: SpawnSpec, project: String, name: String, id: PaneId },
    SpawnStart { record: AgentRecord, ws: Workspace, hooks: bool },
    SpawnUndo { error: String },
    SplitStart { root: PaneId, target: PaneId, companion: PaneId, direction: SplitDirection },
    Finish { pane: PaneId },
    AddProject { asked: String },
    RemoveProject { asked: String },
    RestartLook { pane: PaneId, restart: Restart },
    RestartStart { pane: PaneId, ws: Workspace, name: String, hooks: bool, tree: Option<PaneTree> },
    OpenPath { asked: String },
    OpenStart { asked: String, root: String, id: PaneId },
    ResumeLook { record: AgentRecord },
    ResumeStart { record: AgentRecord, ws: Workspace, hooks: bool },
    /// The companions of an agent start one after the other.
    Companions { agent: PaneId, tree: PaneTree, cwd: String, fresh: Vec<Option<PaneId>>, id: PaneId },
}

/// What comes next.
pub enum Next {
    /// Have this done, and come back with how it went.
    Ask(Ask, Flow),
    /// The answer to the request.
    Done(ControlEvent),
    /// Nothing: no request is waiting.
    Over,
}

/// A step of a request: what follows at once, and what comes next.
pub struct Step {
    pub effects: Vec<Effect>,
    pub next: Next,
}

/// The work makes something of a project, or takes a project away.
pub open spec fn must_be_alone(work: Work) -> bool {
    work is Spawn || work is RemoveProject || work is OpenTerminal
}

impl Work {
    /// Whether the work must not overlap other such work: a project must not go while something of it
    /// is made.
    pub fn is_exclusive(&self) -> (yes: bool)
        ensures
            yes == must_be_alone(*self),
    {
        match self {
            Work::Spawn { .. } | Work::RemoveProject { .. } | Work::OpenTerminal { .. } => true,
            _ => false,
        }
    }
}

/// What the end of a pane's process comes to.
pub open spec fn is_exit(
    before: Daemon,
    after: Daemon,
    pane: PaneId,
    role: Role,
    effects: Vec<Effect>,
) -> bool {
    match role {
        Role::Agent => {
            &&& after.state() == before.state().with_attention(pane.0, AttentionState::Exited)
            &&& after.keeps_stores(before)
            &&& effects@ == seq![Effect::Attention(pane, AttentionState::Exited)]
        },
        Role::Companion => is_reaped(before, after, pane, effects),
        Role::Terminal => {
            &&& after.state() == before.state().without_terminal(pane.0)
            &&& after.keeps_stores(before)
            &&& effects@ == before.state().terminal_ends(pane)
        },
    }
}

/// How a recorded agent begins to run again: the directory of its worktree is looked for.
pub open spec fn is_resume_begun(record: AgentRecord, step: Step) -> bool {
    &&& step.effects@.len() == 0
    &&& step.next matches Next::Ask(Ask::Exists { path }, f) && path@ == record.worktree_path@ && f == (
    Flow::ResumeLook { record })
}

/// The request is refused with this message, and nothing else follows.
pub open spec fn is_refusal(step: Step, message: Seq<char>) -> bool {
    &&& step.effects@.len() == 0
    &&& step.next matches Next::Done(ControlEvent::Error { message: m })
    &&& m@ == message
}

/// Nothing but a number for a pane has been given out since `before`.
pub open spec fn has_given_number(before: Daemon, after: Daemon) -> bool {
    &&& after.keeps_stores(before)
    &&& after.state() == (DaemonState {
        next_id: number_after(before.state().next_id),
        ..before.state()
    })
}

/// A pane is to be started with the size that every new pane has.
pub open spec fn starts(
    d: Daemon,
    step: Step,
    id: PaneId,
    command: PaneCommand,
    role: Role,
    adapter: Option<Seq<char>>,
    flow: Flow,
) -> bool {
    &&& step.next matches Next::Ask(
        Ask::Start { id: i, command: c, cols, rows, role: r, adapter: a },
        f,
    )
    &&& i == id
    &&& c == command
    &&& cols == d.settings.default_cols
    &&& rows == d.settings.default_rows
    &&& r == role
    &&& opt_text(a) == adapter
    &&& f == flow
}

/// How landing or discarding a worktree begins.
pub open spec fn is_finish_begun(
    before: Daemon,
    after: Daemon,
    pane: PaneId,
    land: bool,
    step: Step,
) -> bool {
    let s = before.state();
    let ended = ends(s.companions(pane.0)).push(Effect::Kill(pane));
    if s.workspaces.dom().contains(pane.0) {
        &&& after.state() == s.with_agent_ended(pane.0)
        &&& after.keeps_stores(before)
        &&& step.effects@ == ended
        &&& if land {
            step.next == Next::Ask(
                Ask::Land { ws: s.workspaces[pane.0] },
                Flow::Finish { pane },
            )
        } else {
            step.next == Next::Ask(
                Ask::Discard { ws: s.workspaces[pane.0] },
                Flow::Finish { pane },
            )
        }
    } else {
        &&& exists|mid: Daemon, r: (Option<String>, Vec<Effect>)|
            {
                &&& mid.state() == s.with_agent_ended(pane.0)
                &&& mid.keeps_stores(before)
                &&& #[trigger] is_finished(mid, after, pane, Finish::Done, r)
                &&& step.effects@ == ended + r.1@
            }
        &&& step.next == Next::Done(ControlEvent::AgentRemoved { pane })
    }
}

/// Why a pane cannot be landed, or discarded.
pub open spec fn finish_refusal(s: DaemonState, pane: PaneId, land: bool) -> Option<Seq<char>> {
    if s.terms.dom().contains(pane.0) {
        Some(
            "pane "@ + decimal(pane.0 as nat) + " is a project terminal — it has no workspace to "@ + (
            if land {
                "land"@
            } else {
                "discard"@
            }),
        )
    } else {
        None
    }
}

/// How a request that needs work outside begins.
pub open spec fn is_begun(before: Daemon, after: Daemon, work: Work, step: Step) -> bool {
    match work {
        Work::Spawn { project, name, adapter } => {
            &&& after == before
            &&& exists|r: Result<SpawnSpec, String>|
                {
                    &&& #[trigger] is_spawn_spec(before, adapter@, r)
                    &&& match r {
                        Err(e) => is_refusal(step, e@),
                        Ok(spec) => {
                            &&& step.effects@.len() == 0
                            &&& step.next matches Next::Ask(Ask::Canonical { path }, flow)
                            &&& path@ == project@
                            &&& flow == (Flow::SpawnPath { spec, project, name })
                        },
                    }
                }
        },
        Work::Split { pane, direction } => exists|r: Result<(PaneId, PaneCommand), String>|
            {
                &&& #[trigger] is_split_begun(before, pane, r)
                &&& match r {
                    Err(e) => after == before && is_refusal(step, e@),
                    Ok((root, command)) => {
                        let companion = PaneId(before.state().next_id);
                        &&& has_given_number(before, after)
                        &&& step.effects@.len() == 0
                        &&& starts(
                            before,
                            step,
                            companion,
                            command,
                            Role::Companion,
                            None,
                            Flow::SplitStart { root, target: pane, companion, direction },
                        )
                    },
                }
            },
        Work::CloseAgent { pane } => is_finish_begun(before, after, pane, false, step),
        Work::Land { pane } => match finish_refusal(before.state(), pane, true) {
            Some(m) => after == before && is_refusal(step, m),
            None => is_finish_begun(before, after, pane, true, step),
        },
        Work::Discard { pane } => match finish_refusal(before.state(), pane, false) {
            Some(m) => after == before && is_refusal(step, m),
            None => is_finish_begun(before, after, pane, false, step),
        },
        Work::AddProject { path } => {
            &&& after == before
            &&& step.effects@.len() == 0
            &&& step.next matches Next::Ask(Ask::Inspect { path: p }, flow)
            &&& p@ == path@
            &&& flow == (Flow::AddProject { asked: path })
        },
        Work::RemoveProject { path } => {
            &&& after == before
            &&& step.effects@.len() == 0
            &&& step.next matches Next::Ask(Ask::Canonicals { path: p, others }, flow)
            &&& p@ == path@
            &&& exists|ids: Seq<u64>|
                {
                    &&& #[trigger] ids.to_set() == before.state().agents.dom()
                    &&& ids.no_duplicates()
                    &&& others@ == ids.map_values(|n: u64| before.state().agents[n].project)
                }
            &&& flow == (Flow::RemoveProject { asked: path })
        },
        Work::Restart { pane } => exists|r: Result<Restart, String>|
            {
                &&& #[trigger] is_restart(before, after, pane, r)
                &&& match r {
                    Err(e) => is_refusal(step, e@),
                    Ok(restart) => {
                        &&& step.effects@.len() == 0
                        &&& step.next matches Next::Ask(Ask::Exists { path }, flow)
                        &&& path@ == restart.record.worktree_path@
                        &&& flow == (Flow::RestartLook { pane, restart })
                    },
                }
            },
        Work::OpenTerminal { path } => {
            &&& after == before
            &&& step.effects@.len() == 0
            &&& step.next matches Next::Ask(Ask::Canonical { path: p }, flow)
            &&& p@ == path@
            &&& flow == (Flow::OpenPath { asked: path })
        },
    }
}

/// The work that was told of is what the request waits for.
pub open spec fn fits(flow: Flow, told: Told) -> bool {
    match flow {
        Flow::SpawnPath { .. } | Flow::OpenPath { .. } => told is Canonical,
        Flow::SpawnLook { .. } => told is Looked,
        Flow::SpawnProvision { .. } => told is Provisioned,
        Flow::SpawnUndo { .. } | Flow::Finish { .. } => told is Finished,
        Flow::AddProject { .. } => told is Inspected,
        Flow::RemoveProject { .. } => told is Canonicals,
        Flow::RestartLook { .. } | Flow::ResumeLook { .. } => told is Exists,
        Flow::SpawnStart { .. }
        | Flow::SplitStart { .. }
        | Flow::RestartStart { .. }
        | Flow::OpenStart { .. }
        | Flow::ResumeStart { .. }
        | Flow::Companions { .. } => told is Started,
    }
}

/// What was told is how work of this kind went.
pub open spec fn answers(ask: Ask, told: Told) -> bool {
    match ask {
        Ask::Canonical { .. } => told is Canonical,
        Ask::Canonicals { .. } => told is Canonicals,
        Ask::Inspect { .. } => told is Inspected,
        Ask::Look { .. } => told is Looked,
        Ask::Provision { .. } => told is Provisioned,
        Ask::Exists { .. } => told is Exists,
        Ask::Start { .. } => told is Started,
        Ask::Land { .. } | Ask::Discard { .. } => told is Finished,
    }
}

/// Whatever comes of the work that is asked for, the request can go on with it.
pub open spec fn goes_on(step: Step) -> bool {
    step.next matches Next::Ask(ask, flow) ==> forall|told: Told|
        answers(ask, told) ==> #[trigger] fits(flow, told)
}

/// Nothing but this pane has come since `before`.
pub open spec fn has_pane(before: Daemon, after: Daemon, id: PaneId) -> bool {
    &&& after.keeps_stores(before)
    &&& after.state() == (DaemonState {
        panes: before.state().panes.insert(id.0),
        ..before.state()
    })
}

/// Neither the panes nor the lists have changed since `before`.
pub open spec fn is_unchanged(before: Daemon, after: Daemon) -> bool {
    after.keeps_stores(before) && after.state() == before.state()
}

/// How landing or discarding went.
pub open spec fn finish_of(result: Result<(), String>, there: bool) -> Finish {
    if result is Ok {
        Finish::Done
    } else if there {
        Finish::FailedKept
    } else {
        Finish::FailedGone
    }
}

/// The directory is to be tidied.
pub open spec fn tidies(dir: Option<String>) -> Seq<Effect> {
    match dir {
        Some(d) => seq![Effect::Tidy(d)],
        None => seq![],
    }
}

/// An agent is to be started as it was recorded.
pub open spec fn starts_again(
    step: Step,
    record: AgentRecord,
    command: PaneCommand,
    flow: Flow,
) -> bool {
    &&& step.effects@.len() == 0
    &&& step.next matches Next::Ask(Ask::Start { id, command: c, cols, rows, role, adapter }, f)
    &&& id.0 == record.agent_id
    &&& c == command
    &&& cols == record.cols
    &&& rows == record.rows
    &&& role == Role::Agent
    &&& opt_text(adapter) == Some(record.adapter_id@)
    &&& f == flow
}

/// A recorded agent that cannot run again is forgotten.
pub open spec fn is_pruned(before: Daemon, after: Daemon, agent: u64, step: Step) -> bool {
    &&& after.state() == before.state()
    &&& after.keeps_lists(before)
    &&& after.registry.file() == before.registry.file()
    &&& same_rows(after.registry.rows(), without_agent(before.registry.rows(), agent))
    &&& step.effects@ == seq![Effect::SaveRegistry]
    &&& step.next is Over
}

/// The companions of an agent start one after the other; when all have been tried, the layout is
/// rebuilt with those that run.
pub open spec fn is_companion_step(
    before: Daemon,
    after: Daemon,
    agent: PaneId,
    tree: PaneTree,
    cwd: Seq<char>,
    fresh: Seq<Option<PaneId>>,
    prior: Seq<Effect>,
    step: Step,
) -> bool {
    let n = companion_count(tree, agent);
    if fresh.len() < n {
        &&& has_given_number(before, after)
        &&& step.effects@ == prior
        &&& step.next matches Next::Ask(
            Ask::Start { id, command, cols, rows, role, adapter },
            Flow::Companions { agent: a, tree: t, cwd: c, fresh: f, id: j },
        )
        &&& id == PaneId(before.state().next_id)
        &&& is_companion_command(command, before.settings.shell@, cwd)
        &&& cols == before.settings.default_cols
        &&& rows == before.settings.default_rows
        &&& role == Role::Companion
        &&& adapter is None
        &&& a == agent
        &&& t == tree
        &&& c@ == cwd
        &&& f@ == fresh
        &&& j == id
    } else if fresh.len() == n && before.state().next_split + split_count(tree) <= u64::MAX && tree
        != (PaneTree::Leaf { pane: agent }) {
        &&& after.keeps_stores(before)
        &&& after.state() == before.state().with_restored(agent.0, tree, fresh)
        &&& step.effects@ == prior + after.state().tree_news(agent.0)
        &&& step.next is Over
    } else {
        &&& is_unchanged(before, after)
        &&& step.effects@ == prior
        &&& step.next is Over
    }
}

/// What follows from how work for a spawn went.
pub open spec fn is_spawn_step(
    before: Daemon,
    after: Daemon,
    flow: Flow,
    told: Told,
    step: Step,
) -> bool {
    match flow {
        Flow::SpawnPath { spec, project, name } => {
            let c = told->Canonical_0;
            &&& after == before
            &&& match spawn_refusal(before.projects.rows(), project@, opt_text(c), name@) {
                Some(m) => is_refusal(step, m),
                None => {
                    &&& step.effects@.len() == 0
                    &&& step.next matches Next::Ask(
                        Ask::Look { project: p, worktree: w, branch: b },
                        Flow::SpawnLook { spec: s, project: q, name: n, worktree: v },
                    )
                    &&& p@ == q@
                    &&& Some(q) == c
                    &&& w@ == worktree_path_of(before.settings.worktrees.root(), q@, name@)
                    &&& v@ == w@
                    &&& b@ == branch_of(name@)
                    &&& s == spec
                    &&& n == name
                },
            }
        },
        Flow::SpawnLook { spec, project, name, worktree } => match collision(
            project@,
            name@,
            worktree@,
            told->worktree,
            told->branch,
        ) {
            Some(m) => is_unchanged(before, after) && is_refusal(step, m),
            None => {
                &&& has_given_number(before, after)
                &&& step.effects@.len() == 0
                &&& step.next matches Next::Ask(Ask::Provision { project: p, name: n }, f)
                &&& p@ == project@
                &&& n@ == name@
                &&& f == (Flow::SpawnProvision {
                    spec,
                    project,
                    name,
                    id: PaneId(before.state().next_id),
                })
            },
        },
        Flow::SpawnProvision { spec, project, name, id } => {
            &&& after == before
            &&& match told->Provisioned_0 {
                Err(m) => is_refusal(step, m@),
                Ok(ws) => exists|p: &str, n: &str, command: PaneCommand, record: AgentRecord|
                    {
                        &&& #[trigger] is_spawn_plan(
                            before.settings,
                            id,
                            p,
                            ws,
                            n,
                            spec,
                            command,
                            record,
                        )
                        &&& p@ == project@
                        &&& n@ == name@
                        &&& step.effects@.len() == 0
                        &&& starts(
                            before,
                            step,
                            id,
                            command,
                            Role::Agent,
                            Some(spec.adapter.id@),
                            Flow::SpawnStart { record, ws, hooks: spec.adapter.provides_hooks },
                        )
                    },
            }
        },
        Flow::SpawnStart { record, ws, hooks } => match told->Started_0 {
            Err(m) => {
                &&& after == before
                &&& step.effects@.len() == 0
                &&& step.next == Next::Ask(Ask::Discard { ws }, Flow::SpawnUndo { error: m })
            },
            Ok(_) => {
                &&& after.keeps_lists(before)
                &&& after.registry.file() == before.registry.file()
                &&& same_rows(
                    after.registry.rows(),
                    without_agent(before.registry.rows(), record.agent_id).push(record),
                )
                &&& after.state() == before.state().with_agent(
                    record.agent_id,
                    ws,
                    meta_of(ws, record.task),
                    hooks,
                )
                &&& step.effects@ == seq![
                    Effect::SaveRegistry,
                    Effect::Attention(PaneId(record.agent_id), AttentionState::Working),
                ]
                &&& step.next == Next::Done(ControlEvent::AgentSpawned { pane: PaneId(record.agent_id) })
            },
        },
        Flow::SpawnUndo { error } => after == before && is_refusal(step, error@),
        _ => true,
    }
}

/// What follows from how work for the layout, or for the end of an agent, went.
pub open spec fn is_layout_step(
    before: Daemon,
    after: Daemon,
    flow: Flow,
    told: Told,
    step: Step,
) -> bool {
    match flow {
        Flow::SplitStart { root, target, companion, direction } => match told->Started_0 {
            Err(m) => after == before && is_refusal(step, m@),
            Ok(_) => exists|mid: Daemon, r: Result<Vec<Effect>, String>|
                {
                    &&& has_pane(before, mid, companion)
                    &&& #[trigger] is_split(mid, after, root, target, companion, direction, r)
                    &&& match r {
                        Err(e) => is_refusal(step, e@),
                        Ok(effects) => {
                            &&& step.effects == effects
                            &&& step.next matches Next::Done(e)
                            &&& is_answer(after, Outcome::Split(Ok(companion)), e)
                        },
                    }
                },
        },
        Flow::Finish { pane } => exists|r: (Option<String>, Vec<Effect>)|
            {
                &&& #[trigger] is_finished(
                    before,
                    after,
                    pane,
                    finish_of(told->result, told->there),
                    r,
                )
                &&& step.effects@ == tidies(r.0) + r.1@
                &&& step.next == Next::Done(
                    match told->result {
                        Ok(_) => ControlEvent::AgentRemoved { pane },
                        Err(m) => ControlEvent::Error { message: m },
                    },
                )
            },
        _ => true,
    }
}

/// What follows from how work for a project went.
pub open spec fn is_project_step(
    before: Daemon,
    after: Daemon,
    flow: Flow,
    told: Told,
    step: Step,
) -> bool {
    match flow {
        Flow::AddProject { asked } => exists|
            r: Result<(crate::daemon::projects::ProjectRecord, Vec<Effect>), String>,
        |
            {
                &&& #[trigger] is_added(before, after, asked@, told->Inspected_0, r)
                &&& match r {
                    Err(e) => is_refusal(step, e@),
                    Ok((rec, effects)) => {
                        &&& step.effects == effects
                        &&& step.next matches Next::Done(e)
                        &&& is_answer(after, Outcome::ProjectAdded(Ok(rec)), e)
                    },
                }
            },
        Flow::RemoveProject { asked } => exists|r: Result<Vec<Effect>, String>|
            {
                &&& #[trigger] is_removed(before, after, told->path@, texts(told->others@), r)
                &&& match r {
                    Err(e) => is_refusal(step, e@),
                    Ok(effects) => {
                        &&& step.effects == effects
                        &&& step.next == Next::Done(ControlEvent::ProjectRemoved { path: asked })
                    },
                }
            },
        Flow::OpenPath { asked } => exists|r: Result<Open, String>|
            {
                &&& #[trigger] is_open(before, asked@, opt_text(told->Canonical_0), r)
                &&& match r {
                    Err(e) => after == before && is_refusal(step, e@),
                    Ok(Open::There(pane)) => {
                        &&& after == before
                        &&& step.effects@.len() == 0
                        &&& step.next == Next::Done(
                            ControlEvent::ProjectTerminalOpened { path: asked, pane },
                        )
                    },
                    Ok(Open::Spawn(command)) => {
                        let id = PaneId(before.state().next_id);
                        &&& has_given_number(before, after)
                        &&& step.effects@.len() == 0
                        &&& starts(
                            before,
                            step,
                            id,
                            command,
                            Role::Terminal,
                            None,
                            Flow::OpenStart { asked, root: told->Canonical_0->0, id },
                        )
                    },
                }
            },
        Flow::OpenStart { asked, root, id } => match told->Started_0 {
            Err(m) => after == before && is_refusal(step, m@),
            Ok(_) => exists|mid: Daemon, r: (PaneId, Vec<Effect>)|
                {
                    &&& has_pane(before, mid, id)
                    &&& #[trigger] is_opened(mid, after, root, id, r)
                    &&& step.effects == r.1
                    &&& step.next == Next::Done(
                        ControlEvent::ProjectTerminalOpened { path: asked, pane: r.0 },
                    )
                },
        },
        _ => true,
    }
}

/// What follows from how work for an agent that runs again went.
pub open spec fn is_resume_step(
    before: Daemon,
    after: Daemon,
    flow: Flow,
    told: Told,
    step: Step,
) -> bool {
    match flow {
        Flow::RestartLook { pane, restart } => {
            &&& after == before
            &&& exists|r: Result<(Workspace, PaneCommand, bool), String>|
                {
                    &&& #[trigger] is_resume(before, restart.record, told->Exists_0, r)
                    &&& match r {
                        Err(e) => is_refusal(step, e@),
                        Ok((ws, command, hooks)) => starts_again(
                            step,
                            restart.record,
                            command,
                            Flow::RestartStart {
                                pane,
                                ws,
                                name: restart.record.task,
                                hooks,
                                tree: restart.tree,
                            },
                        ),
                    }
                }
        },
        Flow::RestartStart { pane, ws, name, hooks, tree } => match told->Started_0 {
            Err(m) => after == before && is_refusal(step, m@),
            Ok(_) => {
                &&& after.keeps_stores(before)
                &&& after.state() == before.state().with_agent_again(
                    pane.0,
                    ws,
                    meta_of(ws, name),
                    hooks,
                    tree,
                )
                &&& step.effects@ == seq![Effect::Attention(pane, AttentionState::Working)]
                    + after.state().tree_news(pane.0)
                &&& step.next matches Next::Done(e)
                &&& is_answer(after, Outcome::Restarted(pane, Ok(())), e)
            },
        },
        Flow::ResumeLook { record } => exists|r: Result<(Workspace, PaneCommand, bool), String>|
            {
                &&& #[trigger] is_resume(before, record, told->Exists_0, r)
                &&& match r {
                    Err(_) => is_pruned(before, after, record.agent_id, step),
                    Ok((ws, command, hooks)) => {
                        &&& after == before
                        &&& starts_again(
                            step,
                            record,
                            command,
                            Flow::ResumeStart { record, ws, hooks },
                        )
                    },
                }
            },
        Flow::ResumeStart { record, ws, hooks } => match told->Started_0 {
            Err(_) => is_pruned(before, after, record.agent_id, step),
            Ok(_) => exists|mid: Daemon|
                {
                    let news = seq![
                        Effect::Attention(PaneId(record.agent_id), AttentionState::Working),
                    ];
                    &&& #[trigger] mid.keeps_stores(before)
                    &&& mid.state() == before.state().with_agent(
                        record.agent_id,
                        ws,
                        meta_of(ws, record.task),
                        hooks,
                    )
                    &&& match record.tree {
                        None => after == mid && step.effects@ == news && step.next is Over,
                        Some(tree) => is_companion_step(
                            mid,
                            after,
                            PaneId(record.agent_id),
                            tree,
                            ws.path@,
                            seq![],
                            news,
                            step,
                        ),
                    }
                },
        },
        Flow::Companions { agent, tree, cwd, fresh, id } => exists|mid: Daemon|
            {
                &&& #[trigger] mid.keeps_stores(before)
                &&& if told->Started_0 is Ok {
                    has_pane(before, mid, id)
                } else {
                    mid == before
                }
                &&& is_companion_step(
                    mid,
                    after,
                    agent,
                    tree,
                    cwd@,
                    fresh@.push(
                        if told->Started_0 is Ok {
                            Some(id)
                        } else {
                            None
                        },
                    ),
                    seq![],
                    step,
                )
            },
        _ => true,
    }
}

/// What follows from how work outside went.
pub open spec fn is_step(before: Daemon, after: Daemon, flow: Flow, told: Told, step: Step) -> bool {
    &&& is_spawn_step(before, after, flow, told, step)
    &&& is_layout_step(before, after, flow, told, step)
    &&& is_project_step(before, after, flow, told, step)
    &&& is_resume_step(before, after, flow, told, step)
}

/// How many pieces of work a request can ask for at most, behind the one that it waits for; none where no
/// request is waiting.
pub open spec fn asks_left(flow: Flow) -> Option<nat> {
    match flow {
        Flow::SpawnPath { .. } => Some(4),
        Flow::SpawnLook { .. } => Some(3),
        Flow::SpawnProvision { .. } => Some(2),
        Flow::SpawnStart { .. } | Flow::RestartLook { .. } | Flow::OpenPath { .. } => Some(1),
        Flow::SpawnUndo { .. }
        | Flow::SplitStart { .. }
        | Flow::Finish { .. }
        | Flow::AddProject { .. }
        | Flow::RemoveProject { .. }
        | Flow::RestartStart { .. }
        | Flow::OpenStart { .. } => Some(0),
        Flow::ResumeLook { .. } | Flow::ResumeStart { .. } | Flow::Companions { .. } => None,
    }
}

/// Work for a request begins with its answer, or with something to be done on the way to it.
pub proof fn law_work_begins_towards_an_answer(before: Daemon, after: Daemon, work: Work, step: Step)
    requires
        is_begun(before, after, work, step),
    ensures
        match step.next {
            Next::Done(_) => true,
            Next::Ask(_, flow) => asks_left(flow) is Some,
            Next::Over => false,
        },
{
}

/// Whatever comes of the work that a request waits for, the request is answered, or asks for the next of
/// a number of pieces of work that only gets smaller: it always comes to an answer, and to one alone.
pub proof fn law_every_request_comes_to_an_answer(
    before: Daemon,
    after: Daemon,
    flow: Flow,
    told: Told,
    step: Step,
)
    requires
        asks_left(flow) is Some,
        fits(flow, told),
        is_step(before, after, flow, told, step),
    ensures
        match step.next {
            Next::Done(_) => true,
            Next::Ask(_, next) => asks_left(next) matches Some(n) && n < asks_left(flow)->Some_0,
            Next::Over => false,
        },
{
}

fn refusal(message: String) -> (step: Step)
    ensures
        is_refusal(step, message@),
{
    Step { effects: Vec::new(), next: Next::Done(ControlEvent::Error { message }) }
}

fn asking(ask: Ask, flow: Flow) -> (step: Step)
    ensures
        step.effects@.len() == 0,
        step.next == Next::Ask(ask, flow),
{
    Step { effects: Vec::new(), next: Next::Ask(ask, flow) }
}

impl Daemon {
    fn starting(
        &self,
        id: PaneId,
        command: PaneCommand,
        role: Role,
        adapter: Option<String>,
        flow: Flow,
    ) -> (step: Step)
        ensures
            step.effects@.len() == 0,
            starts(*self, step, id, command, role, opt_text(adapter), flow),
    {
        asking(
            Ask::Start {
                id,
                command,
                cols: self.settings.default_cols,
                rows: self.settings.default_rows,
                role,
                adapter,
            },
            flow,
        )
    }

    fn start_finish(&mut self, pane: PaneId, land: bool) -> (step: Step)
        ensures
            is_finish_begun(*old(self), *final(self), pane, land, step),
    {
        let (ws, mut effects) = self.begin_finish(pane);
        match ws {
            Some(ws) => {
                let ask = if land {
                    Ask::Land { ws }
                } else {
                    Ask::Discard { ws }
                };
                Step { effects, next: Next::Ask(ask, Flow::Finish { pane }) }
            },
            None => {
                let ghost mid = *self;
                let r = self.end_finish(pane, Finish::Done);
                let ghost done = r;
                let (_, mut rest) = r;
                effects.append(&mut rest);
                assert(is_finished(mid, *self, pane, Finish::Done, done));
                Step { effects, next: Next::Done(ControlEvent::AgentRemoved { pane }) }
            },
        }
    }

    /// Spawn an agent. What is to be spawned is looked up at once; the project comes next.
    pub fn spawn_agent(&self, project: String, name: String, adapter: String) -> (step: Step)
        ensures
            is_begun(*self, *self, (Work::Spawn { project, name, adapter }), step),
            goes_on(step),
    {
        let ghost work = Work::Spawn { project, name, adapter };
        let r = self.spawn_spec(adapter.as_str());
        let ghost picked = r;
        assert(is_spawn_spec(*self, work->adapter@, picked));
        match r {
            Err(e) => refusal(e),
            Ok(spec) => asking(
                Ask::Canonical { path: project.clone() },
                Flow::SpawnPath { spec, project, name },
            ),
        }
    }

    /// Split a pane, with a companion beside it.
    pub fn split_pane(&mut self, pane: PaneId, direction: SplitDirection) -> (step: Step)
        ensures
            is_begun(*old(self), *final(self), (Work::Split { pane, direction }), step),
            goes_on(step),
    {
        let r = self.begin_split(pane);
        let ghost begun = r;
        assert(is_split_begun(*self, pane, begun));
        match r {
            Err(e) => refusal(e),
            Ok((root, command)) => {
                let companion = self.alloc_id();
                self.starting(
                    companion,
                    command,
                    Role::Companion,
                    None,
                    Flow::SplitStart { root, target: pane, companion, direction },
                )
            },
        }
    }

    /// End an agent with its companions, and discard its worktree.
    pub fn teardown_agent(&mut self, pane: PaneId) -> (step: Step)
        ensures
            is_begun(*old(self), *final(self), (Work::CloseAgent { pane }), step),
            goes_on(step),
    {
        self.start_finish(pane, false)
    }

    /// End an agent, and keep its work on its branch.
    pub fn land_agent(&mut self, pane: PaneId) -> (step: Step)
        ensures
            is_begun(*old(self), *final(self), (Work::Land { pane }), step),
            goes_on(step),
    {
        match self.check_finish(pane, true) {
            Err(e) => refusal(e),
            Ok(_) => self.start_finish(pane, true),
        }
    }

    /// End an agent, and throw its work away.
    pub fn discard_agent(&mut self, pane: PaneId) -> (step: Step)
        ensures
            is_begun(*old(self), *final(self), (Work::Discard { pane }), step),
            goes_on(step),
    {
        match self.check_finish(pane, false) {
            Err(e) => refusal(e),
            Ok(_) => self.start_finish(pane, false),
        }
    }

    /// Run an agent again that has exited, in the worktree that it had.
    pub fn restart_worktree(&mut self, pane: PaneId) -> (step: Step)
        ensures
            is_begun(*old(self), *final(self), (Work::Restart { pane }), step),
            goes_on(step),
    {
        let r = self.begin_restart(pane);
        let ghost ready = r;
        assert(is_restart(*old(self), *self, pane, ready));
        match r {
            Err(e) => refusal(e),
            Ok(restart) => asking(
                Ask::Exists { path: restart.record.worktree_path.clone() },
                Flow::RestartLook { pane, restart },
            ),
        }
    }

    /// Open the terminal of a project.
    pub fn open_project_terminal(&self, path: String) -> (step: Step)
        ensures
            is_begun(*self, *self, (Work::OpenTerminal { path }), step),
            goes_on(step),
    {
        asking(Ask::Canonical { path: path.clone() }, Flow::OpenPath { asked: path })
    }

    /// Begin a request that needs work outside.
    pub fn begin(&mut self, work: Work) -> (step: Step)
        ensures
            is_begun(*old(self), *final(self), work, step),
            goes_on(step),
    {
        match work {
            Work::Spawn { project, name, adapter } => self.spawn_agent(project, name, adapter),
            Work::Split { pane, direction } => self.split_pane(pane, direction),
            Work::CloseAgent { pane } => self.teardown_agent(pane),
            Work::Land { pane } => self.land_agent(pane),
            Work::Discard { pane } => self.discard_agent(pane),
            Work::AddProject { path } => asking(
                Ask::Inspect { path: path.clone() },
                Flow::AddProject { asked: path },
            ),
            Work::RemoveProject { path } => asking(
                Ask::Canonicals { path: path.clone(), others: self.agent_projects() },
                Flow::RemoveProject { asked: path },
            ),
            Work::Restart { pane } => self.restart_worktree(pane),
            Work::OpenTerminal { path } => self.open_project_terminal(path),
        }
    }

    fn companion_step(
        &mut self,
        agent: PaneId,
        tree: PaneTree,
        cwd: String,
        fresh: Vec<Option<PaneId>>,
        prior: Vec<Effect>,
    ) -> (step: Step)
        ensures
            is_companion_step(
                *old(self),
                *final(self),
                agent,
                tree,
                cwd@,
                fresh@,
                prior@,
                step,
            ),
    {
        let n = Daemon::companions_to_restore(&tree, agent);
        let mut effects = prior;
        if fresh.len() < n {
            let id = self.alloc_id();
            let command = command::companion_command(self.settings.shell.clone(), cwd.clone());
            let ask = Ask::Start {
                id,
                command,
                cols: self.settings.default_cols,
                rows: self.settings.default_rows,
                role: Role::Companion,
                adapter: None,
            };
            return Step { effects, next: Next::Ask(ask, Flow::Companions { agent, tree, cwd, fresh, id }) };
        }
        if fresh.len() == n && self.can_restore(&tree) {
            let mut news = self.restore_layout(agent, &tree, &fresh);
            effects.append(&mut news);
        }
        assert(effects@ =~= prior@ || fresh@.len() == n);
        Step { effects, next: Next::Over }
    }

    fn pruning(&mut self, agent: u64) -> (step: Step)
        ensures
            is_pruned(*old(self), *final(self), agent, step),
    {
        let effects = self.prune(agent);
        Step { effects, next: Next::Over }
    }

    fn starting_again(
        &self,
        record: &AgentRecord,
        command: PaneCommand,
        flow: Flow,
    ) -> (step: Step)
        ensures
            starts_again(step, *record, command, flow),
    {
        asking(
            Ask::Start {
                id: PaneId(record.agent_id),
                command,
                cols: record.cols,
                rows: record.rows,
                role: Role::Agent,
                adapter: Some(record.adapter_id.clone()),
            },
            flow,
        )
    }

    /// Run a recorded agent again, when the daemon starts.
    pub fn resume_agent(&self, record: AgentRecord) -> (step: Step)
        ensures
            is_resume_begun(record, step),
            goes_on(step),
    {
        asking(
            Ask::Exists { path: record.worktree_path.clone() },
            Flow::ResumeLook { record },
        )
    }

    fn spawn_step(&mut self, flow: Flow, told: Told) -> (step: Step)
        requires
            fits(flow, told),
            flow is SpawnPath || flow is SpawnLook || flow is SpawnProvision || flow is SpawnStart
                || flow is SpawnUndo,
        ensures
            is_spawn_step(*old(self), *final(self), flow, told, step),
            goes_on(step),
    {
        match (flow, told) {
            (Flow::SpawnPath { spec, project, name }, Told::Canonical(c)) => {
                let asked = match &c {
                    Some(p) => Some(p.as_str()),
                    None => None,
                };
                match self.check_spawn(project.as_str(), asked, name.as_str()) {
                    Err(e) => refusal(e),
                    Ok(worktree) => match c {
                        Some(project) => asking(
                            Ask::Look {
                                project: project.clone(),
                                worktree: worktree.clone(),
                                branch: layout::branch_name(name.as_str()),
                            },
                            Flow::SpawnLook { spec, project, name, worktree },
                        ),
                        None => unreached(),
                    },
                }
            },
            (Flow::SpawnLook { spec, project, name, worktree }, Told::Looked { worktree: w, branch: b }) => {
                match self.begin_spawn(project.as_str(), name.as_str(), worktree.as_str(), w, b) {
                    Err(e) => refusal(e),
                    Ok(id) => asking(
                        Ask::Provision { project: project.clone(), name: name.clone() },
                        Flow::SpawnProvision { spec, project, name, id },
                    ),
                }
            },
            (Flow::SpawnProvision { spec, project, name, id }, Told::Provisioned(r)) => match r {
                Err(e) => refusal(e),
                Ok(ws) => {
                    let (command, record) = self.spawn_plan(
                        id,
                        project.as_str(),
                        &ws,
                        name.as_str(),
                        &spec,
                    );
                    let hooks = spec.adapter.provides_hooks;
                    let adapter = Some(spec.adapter.id.clone());
                    self.starting(
                        id,
                        command,
                        Role::Agent,
                        adapter,
                        Flow::SpawnStart { record, ws, hooks },
                    )
                },
            },
            (Flow::SpawnStart { record, ws, hooks }, Told::Started(r)) => match r {
                Err(error) => asking(Ask::Discard { ws }, Flow::SpawnUndo { error }),
                Ok(_) => {
                    let pane = PaneId(record.agent_id);
                    let effects = self.commit_spawn(record, ws, hooks);
                    Step { effects, next: Next::Done(ControlEvent::AgentSpawned { pane }) }
                },
            },
            (Flow::SpawnUndo { error }, _) => refusal(error),
            _ => unreached(),
        }
    }

    fn layout_step(&mut self, flow: Flow, told: Told) -> (step: Step)
        requires
            fits(flow, told),
            flow is SplitStart || flow is Finish,
        ensures
            is_layout_step(*old(self), *final(self), flow, told, step),
            goes_on(step),
    {
        match (flow, told) {
            (Flow::SplitStart { root, target, companion, direction }, Told::Started(r)) => match r {
                Err(e) => refusal(e),
                Ok(_) => {
                    self.register_pane(companion);
                    let ghost mid = *self;
                    let r = self.commit_split(root, target, companion, direction);
                    let ghost done = r;
                    assert(is_split(mid, *self, root, target, companion, direction, done));
                    match r {
                        Err(e) => refusal(e),
                        Ok(effects) => Step {
                            effects,
                            next: Next::Done(self.answer(Outcome::Split(Ok(companion)))),
                        },
                    }
                },
            },
            (Flow::Finish { pane }, Told::Finished { result, there }) => {
                let how = match &result {
                    Ok(_) => Finish::Done,
                    Err(_) => if there {
                        Finish::FailedKept
                    } else {
                        Finish::FailedGone
                    },
                };
                let r = self.end_finish(pane, how);
                let ghost done = r;
                assert(is_finished(*old(self), *self, pane, finish_of(result, there), done));
                let (dir, mut rest) = r;
                let mut effects: Vec<Effect> = Vec::new();
                match dir {
                    Some(d) => effects.push(Effect::Tidy(d)),
                    None => {},
                }
                effects.append(&mut rest);
                assert(effects@ =~= tidies(done.0) + done.1@);
                let event = match result {
                    Ok(_) => ControlEvent::AgentRemoved { pane },
                    Err(message) => ControlEvent::Error { message },
                };
                Step { effects, next: Next::Done(event) }
            },
            _ => unreached(),
        }
    }

    fn project_step(&mut self, flow: Flow, told: Told) -> (step: Step)
        requires
            fits(flow, told),
            flow is AddProject || flow is RemoveProject || flow is OpenPath || flow is OpenStart,
        ensures
            is_project_step(*old(self), *final(self), flow, told, step),
            goes_on(step),
    {
        match (flow, told) {
            (Flow::AddProject { asked }, Told::Inspected(facts)) => {
                let r = self.add_project(asked.as_str(), facts);
                let ghost done = r;
                assert(is_added(*old(self), *self, asked@, facts, done));
                match r {
                    Err(e) => refusal(e),
                    Ok((rec, effects)) => Step {
                        effects,
                        next: Next::Done(self.answer(Outcome::ProjectAdded(Ok(rec)))),
                    },
                }
            },
            (Flow::RemoveProject { asked }, Told::Canonicals { path, others }) => {
                let r = self.remove_project(path.as_str(), &others);
                let ghost done = r;
                assert(is_removed(*old(self), *self, path@, texts(others@), done));
                match r {
                    Err(e) => refusal(e),
                    Ok(effects) => Step {
                        effects,
                        next: Next::Done(ControlEvent::ProjectRemoved { path: asked }),
                    },
                }
            },
            (Flow::OpenPath { asked }, Told::Canonical(c)) => {
                let canonical = match &c {
                    Some(p) => Some(p.as_str()),
                    None => None,
                };
                let r = self.begin_open(asked.as_str(), canonical);
                let ghost ready = r;
                assert(is_open(*self, asked@, opt_text(c), ready));
                match r {
                    Err(e) => refusal(e),
                    Ok(Open::There(pane)) => Step {
                        effects: Vec::new(),
                        next: Next::Done(ControlEvent::ProjectTerminalOpened { path: asked, pane }),
                    },
                    Ok(Open::Spawn(command)) => match c {
                        None => unreached(),
                        Some(root) => {
                            let id = self.alloc_id();
                            self.starting(
                                id,
                                command,
                                Role::Terminal,
                                None,
                                Flow::OpenStart { asked, root, id },
                            )
                        },
                    },
                }
            },
            (Flow::OpenStart { asked, root, id }, Told::Started(r)) => match r {
                Err(e) => refusal(e),
                Ok(_) => {
                    self.register_pane(id);
                    let ghost mid = *self;
                    let ghost at = root;
                    let r = self.commit_open(root, id);
                    let ghost done = r;
                    assert(is_opened(mid, *self, at, id, done));
                    let (pane, effects) = r;
                    Step {
                        effects,
                        next: Next::Done(ControlEvent::ProjectTerminalOpened { path: asked, pane }),
                    }
                },
            },
            _ => unreached(),
        }
    }

    fn resume_step(&mut self, flow: Flow, told: Told) -> (step: Step)
        requires
            fits(flow, told),
            flow is RestartLook || flow is RestartStart || flow is ResumeLook || flow is ResumeStart
                || flow is Companions,
        ensures
            is_resume_step(*old(self), *final(self), flow, told, step),
            goes_on(step),
    {
        match (flow, told) {
            (Flow::RestartLook { pane, restart }, Told::Exists(there)) => {
                let r = self.resume_plan(&restart.record, there);
                let ghost ready = r;
                assert(is_resume(*self, restart.record, there, ready));
                match r {
                    Err(e) => refusal(e),
                    Ok((ws, command, hooks)) => {
                        let Restart { record, tree } = restart;
                        let name = record.task.clone();
                        self.starting_again(
                            &record,
                            command,
                            Flow::RestartStart { pane, ws, name, hooks, tree },
                        )
                    },
                }
            },
            (Flow::RestartStart { pane, ws, name, hooks, tree }, Told::Started(r)) => match r {
                Err(e) => refusal(e),
                Ok(_) => {
                    let effects = self.end_restart(pane, ws, name, hooks, tree);
                    Step {
                        effects,
                        next: Next::Done(self.answer(Outcome::Restarted(pane, Ok(())))),
                    }
                },
            },
            (Flow::ResumeLook { record }, Told::Exists(there)) => {
                let r = self.resume_plan(&record, there);
                let ghost ready = r;
                assert(is_resume(*self, record, there, ready));
                match r {
                    Err(_) => self.pruning(record.agent_id),
                    Ok((ws, command, hooks)) => {
                        let copy = record.copied();
                        self.starting_again(&copy, command, Flow::ResumeStart { record, ws, hooks })
                    },
                }
            },
            (Flow::ResumeStart { record, ws, hooks }, Told::Started(r)) => match r {
                Err(_) => self.pruning(record.agent_id),
                Ok(_) => {
                    let agent = PaneId(record.agent_id);
                    let cwd = ws.path.clone();
                    let effects = self.finalize_agent(agent, ws, record.task.clone(), hooks);
                    let ghost mid = *self;
                    assert(mid.keeps_stores(*old(self)));
                    match record.tree {
                        None => Step { effects, next: Next::Over },
                        Some(tree) => self.companion_step(agent, tree, cwd, Vec::new(), effects),
                    }
                },
            },
            (Flow::Companions { agent, tree, cwd, fresh, id }, Told::Started(r)) => {
                let mut fresh = fresh;
                match r {
                    Ok(_) => {
                        self.register_pane(id);
                        fresh.push(Some(id));
                    },
                    Err(_) => {
                        fresh.push(None);
                    },
                }
                let ghost mid = *self;
                assert(mid.keeps_stores(*old(self)));
                self.companion_step(agent, tree, cwd, fresh, Vec::new())
            },
            _ => unreached(),
        }
    }

    /// Go on with a request, now that the work that it waited for is done.
    pub fn proceed(&mut self, flow: Flow, told: Told) -> (step: Step)
        requires
            fits(flow, told),
        ensures
            is_step(*old(self), *final(self), flow, told, step),
            goes_on(step),
    {
        match &flow {
            Flow::SpawnPath { .. }
            | Flow::SpawnLook { .. }
            | Flow::SpawnProvision { .. }
            | Flow::SpawnStart { .. }
            | Flow::SpawnUndo { .. } => self.spawn_step(flow, told),
            Flow::SplitStart { .. } | Flow::Finish { .. } => self.layout_step(flow, told),
            Flow::AddProject { .. }
            | Flow::RemoveProject { .. }
            | Flow::OpenPath { .. }
            | Flow::OpenStart { .. } => self.project_step(flow, told),
            Flow::RestartLook { .. }
            | Flow::RestartStart { .. }
            | Flow::ResumeLook { .. }
            | Flow::ResumeStart { .. }
            | Flow::Companions { .. } => self.resume_step(flow, told),
        }
    }

    /// The process of a pane has ended by itself.
    pub fn exited(&mut self, pane: PaneId, role: Role) -> (effects: Vec<Effect>)
        ensures
            is_exit(*old(self), *final(self), pane, role, effects),
    {
        match role {
            Role::Agent => {
                let mut effects: Vec<Effect> = Vec::new();
                effects.push(self.set_attention(pane, AttentionState::Exited));
                assert(effects@ =~= seq![Effect::Attention(pane, AttentionState::Exited)]);
                effects
            },
            Role::Companion => self.reap_companion(pane),
            Role::Terminal => self.forget_project_terminal(pane),
        }
    }
}

} // verus!
