//! What each request comes to, from its first step to its answer.

use vstd::prelude::*;

use crate::daemon::control::Work;
use crate::daemon::flow::{
    is_begun, is_exit, is_resume_begun, is_step, must_be_alone, Ask, Flow, Next, Role, Step, Told,
};
use crate::daemon::projects::registered;
use crate::daemon::registry::AgentRecord;
use crate::daemon::state::agents::{is_finished, Finish};
use crate::daemon::state::{Daemon, Effect, ProjectChange};
use crate::path;
use crate::path::{meaning, same_place};
use crate::proto::control::ControlEvent;
use crate::proto::message::{AttentionState, PaneId};
use crate::text::opt_text;
use crate::workspace::kind::Workspace;
use crate::workspace::layout::{law_a_worktree_has_its_name_and_place, law_worktrees_stand_below_the_base};
use crate::workspace::name::name_fault;

verus! {

/// The request is answered by an error with this message, and nothing is done.
pub open spec fn is_refused(before: Daemon, after: Daemon, step: Step, message: Seq<char>) -> bool {
    &&& after.state() == before.state()
    &&& after.registry == before.registry
    &&& after.projects == before.projects
    &&& after.profiles == before.profiles
    &&& step.effects@.len() == 0
    &&& step.next matches Next::Done(ControlEvent::Error { message: m }) && m@ == message
}

/// The request is answered by an error.
pub open spec fn ends_in_error(step: Step) -> bool {
    step.next is Done && step.next->Done_0 is Error
}

/// Landing an agent ends its processes and asks for its own worktree to be landed; discarding it, or closing
/// it, asks for that worktree to be discarded. A project terminal is refused, and stays.
pub proof fn law_an_agents_own_worktree_is_finished(
    before: Daemon,
    after: Daemon,
    pane: PaneId,
    work: Work,
    step: Step,
    c: PaneId,
)
    requires
        is_begun(before, after, work, step),
        work == (Work::Land { pane }) || work == (Work::Discard { pane }) || work == (Work::CloseAgent {
            pane,
        }),
        before.state().workspaces.dom().contains(pane.0),
    ensures
        before.state().terms.dom().contains(pane.0) && !(work is CloseAgent) ==> after == before
            && step.effects@.len() == 0 && ends_in_error(step),
        !before.state().terms.dom().contains(pane.0) || work is CloseAgent ==> {
            &&& step.effects@.contains(Effect::Kill(pane))
            &&& before.state().companions(pane.0).contains(c) ==> step.effects@.contains(Effect::End(c))
            &&& work is Land ==> (step.next matches Next::Ask(Ask::Land { ws }, Flow::Finish { pane: p })
                && p == pane && ws == before.state().workspaces[pane.0])
            &&& !(work is Land) ==> (step.next matches Next::Ask(
                Ask::Discard { ws },
                Flow::Finish { pane: p },
            ) && p == pane && ws == before.state().workspaces[pane.0])
            &&& after.registry == before.registry
            &&& after.state().workspaces == before.state().workspaces
            &&& after.state().agents == before.state().agents
        },
{
    let gone = before.state().companions(pane.0);
    if !before.state().terms.dom().contains(pane.0) || work is CloseAgent {
        assert(step.effects@[gone.len() as int] == Effect::Kill(pane));
        if gone.contains(c) {
            let k = choose|k: int| 0 <= k < gone.len() && gone[k] == c;
            assert(step.effects@[k] == Effect::End(c));
        }
    }
}

/// When the worktree has been landed or discarded, the client is told that the agent is gone, the directory
/// around the worktree is tidied, and everyone hears of it. When that has failed, the client is told why;
/// the agent stays, as exited, where the worktree does.
pub proof fn law_a_finish_is_answered_by_how_it_went(
    before: Daemon,
    after: Daemon,
    pane: PaneId,
    result: Result<(), String>,
    there: bool,
    step: Step,
)
    requires
        is_step(before, after, Flow::Finish { pane }, Told::Finished { result, there }, step),
        before.state().workspaces.dom().contains(pane.0),
    ensures
        result is Ok ==> {
            &&& step.next == Next::Done(ControlEvent::AgentRemoved { pane })
            &&& step.effects@.contains(Effect::AgentRemoved(pane))
            &&& !after.state().agents.dom().contains(pane.0)
            &&& path::parent_of(before.state().workspaces[pane.0].path@) matches Some(dir) ==> exists|k: int|
                {
                    &&& 0 <= k < step.effects@.len()
                    &&& (#[trigger] step.effects@[k]) matches Effect::Tidy(d)
                    &&& d@ == dir
                }
        },
        result matches Err(m) ==> step.next == Next::Done(ControlEvent::Error { message: m }),
        result is Err && there ==> {
            &&& after.state().agents == before.state().agents
            &&& after.state().workspaces == before.state().workspaces
            &&& after.state().attention.dom().contains(pane.0)
            &&& after.state().attention[pane.0] == AttentionState::Exited
            &&& after.registry == before.registry
        },
        result is Err && !there ==> !after.state().agents.dom().contains(pane.0) && step.effects@.contains(
            Effect::AgentRemoved(pane),
        ),
        result is Err ==> forall|k: int|
            0 <= k < step.effects@.len() ==> !((#[trigger] step.effects@[k]) is Tidy),
{
    let how = if result is Ok {
        Finish::Done
    } else if there {
        Finish::FailedKept
    } else {
        Finish::FailedGone
    };
    let r = choose|r: (Option<String>, Vec<Effect>)|
        {
            &&& #[trigger] is_finished(before, after, pane, how, r)
            &&& step.effects@ == crate::daemon::flow::tidies(r.0) + r.1@
        };
    let tidy = crate::daemon::flow::tidies(r.0);
    if result is Ok || !there {
        assert(r.1@[2] == Effect::AgentRemoved(pane));
        assert(step.effects@[tidy.len() as int + 2] == Effect::AgentRemoved(pane));
    }
    if result is Ok && r.0 is Some {
        assert(step.effects@[0] == Effect::Tidy(r.0->0));
    }
}

/// A spawn is refused where the project is not registered or the name is not valid. Otherwise the worktree
/// that is looked for bears the name, stands below the directory of all worktrees and is looked for together
/// with the branch `clowder/` of that name, in the project that was found.
pub proof fn law_a_spawn_looks_for_its_worktree(
    before: Daemon,
    after: Daemon,
    flow: Flow,
    canonical: Option<String>,
    step: Step,
)
    requires
        flow is SpawnPath,
        is_step(before, after, flow, Told::Canonical(canonical), step),
    ensures
        after == before,
        flow matches Flow::SpawnPath { spec, project, name } ==> {
            let fine = canonical is Some && registered(before.projects.rows(), canonical->0@) && name_fault(
                name@,
            ) is None;
            &&& !fine ==> step.effects@.len() == 0 && ends_in_error(step)
            &&& fine ==> {
                &&& step.next matches Next::Ask(
                    Ask::Look { project: p, worktree, branch },
                    Flow::SpawnLook { spec: s, project: q, name: n, worktree: w },
                )
                &&& p@ == canonical->0@ && q@ == p@
                &&& path::name_of(worktree@) == Some(name@)
                &&& path::is_within(worktree@, before.settings.worktrees.root())
                &&& w@ == worktree@
                &&& branch@ == "clowder/"@ + name@
                &&& s == spec
                &&& n@ == name@
            }
        },
{
    if let Flow::SpawnPath { spec, project, name } = flow {
        if canonical is Some && name_fault(name@) is None {
            law_a_worktree_has_its_name_and_place(
                before.settings.worktrees.root(),
                canonical->0@,
                name@,
            );
            law_worktrees_stand_below_the_base(
                before.settings.worktrees.root(),
                canonical->0@,
                name@,
            );
        }
    }
}

/// A spawn is refused where the worktree or the branch is there already. Otherwise a worktree is made for
/// the project and the name that it was looked up for, and the agent gets a number that it keeps.
pub proof fn law_a_spawn_makes_a_new_worktree(
    before: Daemon,
    after: Daemon,
    flow: Flow,
    worktree_there: bool,
    branch_there: bool,
    step: Step,
)
    requires
        flow is SpawnLook,
        is_step(
            before,
            after,
            flow,
            Told::Looked { worktree: worktree_there, branch: branch_there },
            step,
        ),
    ensures
        worktree_there || branch_there ==> after.state() == before.state() && step.effects@.len() == 0
            && ends_in_error(step),
        !worktree_there && !branch_there ==> {
            &&& step.next matches Next::Ask(
                Ask::Provision { project, name },
                Flow::SpawnProvision { spec: s, project: p, name: n, id },
            )
            &&& project@ == flow->SpawnLook_project@ && p@ == project@
            &&& name@ == flow->SpawnLook_name@ && n@ == name@
            &&& s == flow->SpawnLook_spec
            &&& id.0 == before.state().next_id
            &&& before.state().next_id < u64::MAX ==> after.state().next_id == id.0 + 1
        },
{
}

/// The agent is started in the worktree that was made for it, under the number that it was given. Where it
/// cannot be started, that worktree is discarded again, nothing is recorded, and the client is told why it
/// could not be started; where it can, it is recorded and the client is told its number.
pub proof fn law_a_spawned_agent_is_started_in_its_worktree(
    before: Daemon,
    after: Daemon,
    flow: Flow,
    ws: Workspace,
    step: Step,
)
    requires
        flow is SpawnProvision,
        is_step(before, after, flow, Told::Provisioned(Ok(ws)), step),
    ensures
        after == before,
        step.next matches Next::Ask(
            Ask::Start { id, command, cols, rows, role, adapter },
            Flow::SpawnStart { record, ws: made, hooks },
        ) && {
            &&& id == flow->SpawnProvision_id
            &&& command.cwd matches Some(dir) && dir@ == ws.path@
            &&& role == Role::Agent
            &&& made == ws
            &&& record.agent_id == id.0
            &&& record.worktree_path@ == ws.path@
            &&& record.branch@ == ws.branch@
            &&& record.task@ == flow->SpawnProvision_name@
            &&& (cols, rows) == (before.settings.default_cols, before.settings.default_rows)
            &&& opt_text(adapter) == Some(flow->SpawnProvision_spec.adapter.id@)
            &&& hooks == flow->SpawnProvision_spec.adapter.provides_hooks
        },
{
}

/// What comes of starting a new agent.
pub proof fn law_a_spawn_is_undone_or_recorded(
    before: Daemon,
    after: Daemon,
    flow: Flow,
    started: Result<(), String>,
    step: Step,
)
    requires
        flow is SpawnStart,
        is_step(before, after, flow, Told::Started(started), step),
    ensures
        flow matches Flow::SpawnStart { record, ws, hooks } ==> {
            &&& started matches Err(m) ==> {
                &&& after == before
                &&& step.effects@.len() == 0
                &&& step.next == Next::Ask(Ask::Discard { ws }, Flow::SpawnUndo { error: m })
            }
            &&& started is Ok ==> {
                &&& step.next == Next::Done(ControlEvent::AgentSpawned { pane: PaneId(record.agent_id) })
                &&& step.effects@.contains(Effect::SaveRegistry)
                &&& step.effects@.contains(
                    Effect::Attention(PaneId(record.agent_id), AttentionState::Working),
                )
                &&& after.state().agents.dom().contains(record.agent_id)
                &&& after.state().agents[record.agent_id].name@ == record.task@
                &&& after.state().agents[record.agent_id].branch@ == ws.branch@
                &&& after.state().agents[record.agent_id].project@ == ws.project@
                &&& after.state().workspaces[record.agent_id] == ws
                &&& after.registry.rows().len() > 0
                &&& after.registry.rows().last().agent_id == record.agent_id
                &&& after.registry.rows().last().worktree_path@ == record.worktree_path@
                &&& forall|k: int|
                    0 <= k < after.registry.rows().len() - 1 ==> (
                    #[trigger] after.registry.rows()[k]).agent_id != record.agent_id
            }
        },
{
    if let Flow::SpawnStart { record, ws, hooks } = flow {
        if started is Ok {
            let rest = crate::daemon::registry::without_agent(before.registry.rows(), record.agent_id);
            let rows = rest.push(record);
            crate::daemon::registry::lemma_without_agent(before.registry.rows(), record.agent_id);
            assert(rows[rows.len() - 1] == record);
            assert(step.effects@[0] == Effect::SaveRegistry);
            assert(step.effects@[1] == Effect::Attention(
                PaneId(record.agent_id),
                AttentionState::Working,
            ));
            assert forall|k: int| 0 <= k < after.registry.rows().len() - 1 implies (
            #[trigger] after.registry.rows()[k]).agent_id != record.agent_id by {
                assert(rows[k] == rest[k]);
            }
        }
    }
}

/// When a worktree that was made in vain has been discarded, whatever came of that, the client is told why
/// the agent could not be started.
pub proof fn law_an_undone_spawn_tells_why(
    before: Daemon,
    after: Daemon,
    error: String,
    result: Result<(), String>,
    there: bool,
    step: Step,
)
    requires
        is_step(
            before,
            after,
            Flow::SpawnUndo { error },
            Told::Finished { result, there },
            step,
        ),
    ensures
        is_refused(before, after, step, error@),
{
}

/// A companion is started in the directory of its root, under a number of its own; the split is made where
/// and as it was asked for.
pub proof fn law_a_split_starts_a_companion(
    before: Daemon,
    after: Daemon,
    pane: PaneId,
    direction: crate::proto::control::SplitDirection,
    step: Step,
)
    requires
        is_begun(before, after, Work::Split { pane, direction }, step),
        before.state().owner.dom().contains(pane.0),
        before.state().workspaces.dom().contains(before.state().owner[pane.0]),
    ensures
        step.next matches Next::Ask(
            Ask::Start { id, command, cols, rows, role, adapter },
            Flow::SplitStart { root, target, companion, direction: d },
        ) && {
            let owner = before.state().owner[pane.0];
            &&& command.cwd matches Some(dir) && dir@ == before.state().workspaces[owner].path@
            &&& command.program@ == before.settings.shell@
            &&& id == companion && id.0 == before.state().next_id
            &&& (cols, rows) == (before.settings.default_cols, before.settings.default_rows)
            &&& role == Role::Companion
            &&& adapter is None
            &&& root.0 == owner
            &&& target == pane
            &&& d == direction
        },
{
}

/// An agent that runs again, by request or when the daemon starts, is started in its recorded worktree,
/// under its own number and in the size that it had; the workspace that comes back is the recorded one.
pub proof fn law_an_agent_runs_again_in_its_worktree(
    before: Daemon,
    after: Daemon,
    flow: Flow,
    there: bool,
    step: Step,
)
    requires
        flow is RestartLook || flow is ResumeLook,
        is_step(before, after, flow, Told::Exists(there), step),
    ensures
        ({
            let record = match flow {
                Flow::RestartLook { pane, restart } => restart.record,
                _ => flow->ResumeLook_record,
            };
            &&& !there ==> !(step.next is Ask)
            &&& step.next matches Next::Ask(ask, next) ==> {
                &&& after == before
                &&& ask matches Ask::Start { id, command, cols, rows, role, adapter }
                &&& command.cwd matches Some(dir)
                &&& dir@ == record.worktree_path@
                &&& id.0 == record.agent_id
                &&& (cols, rows) == (record.cols, record.rows)
                &&& role == Role::Agent
                &&& opt_text(adapter) == Some(record.adapter_id@)
                &&& match next {
                    Flow::RestartStart { pane, ws, name, hooks, tree } => {
                        &&& flow is RestartLook
                        &&& pane == flow->RestartLook_pane
                        &&& ws.path@ == record.worktree_path@
                        &&& ws.branch@ == record.branch@
                        &&& ws.project@ == record.project@
                        &&& name@ == record.task@
                        &&& tree == flow->restart.tree
                    },
                    Flow::ResumeStart { record: r, ws, hooks } => {
                        &&& flow is ResumeLook
                        &&& r == record
                        &&& ws.path@ == record.worktree_path@
                        &&& ws.branch@ == record.branch@
                        &&& ws.project@ == record.project@
                    },
                    _ => false,
                }
            }
            &&& flow is RestartLook && !(step.next is Ask) ==> ends_in_error(step) && after == before
            &&& flow is ResumeLook && !(step.next is Ask) ==> {
                &&& step.next is Over
                &&& step.effects@.contains(Effect::SaveRegistry)
                &&& crate::daemon::registry::row_of(after.registry.rows(), record.agent_id, 0) is None
                &&& after.state() == before.state()
            }
        }),
{
    if flow is ResumeLook && !(step.next is Ask) {
        let id = flow->ResumeLook_record.agent_id;
        assert(step.effects@[0] == Effect::SaveRegistry);
        let other: u64 = if id == 0 { 1 } else { 0 };
        crate::daemon::registry::law_taking_out_leaves_the_others(
            before.registry.rows(),
            id,
            after.registry.rows(),
            other,
        );
    }
}

/// A terminal is opened in the project that was found, by the shell; where the project has one that is
/// alive, that one is given.
pub proof fn law_a_terminal_opens_in_its_project(
    before: Daemon,
    after: Daemon,
    asked: String,
    canonical: Option<String>,
    step: Step,
)
    requires
        is_step(before, after, Flow::OpenPath { asked }, Told::Canonical(canonical), step),
    ensures
        canonical is None || !registered(before.projects.rows(), canonical->0@) ==> after == before
            && ends_in_error(step),
        canonical is Some && registered(before.projects.rows(), canonical->0@) ==> {
            let s = before.state();
            let place = meaning(canonical->0@);
            let alive = s.project_terms.dom().contains(place) && s.panes.contains(s.project_terms[place]);
            &&& alive ==> after == before && (step.next matches Next::Done(
                ControlEvent::ProjectTerminalOpened { path, pane },
            ) && pane.0 == s.project_terms[place] && path@ == asked@)
            &&& !alive ==> (step.next matches Next::Ask(
                Ask::Start { id, command, cols, rows, role, adapter },
                Flow::OpenStart { asked: a, root, id: i },
            ) && (command.cwd matches Some(dir) && dir@ == canonical->0@) && command.program@
                == before.settings.shell@ && role == Role::Terminal && root@ == canonical->0@ && i == id && a
                == asked && (cols, rows) == (before.settings.default_cols, before.settings.default_rows)
                && adapter is None)
        },
{
}

/// A project that still has worktrees is not removed, nor is anything else changed. One that has none is,
/// its terminal with it, and everyone is told; every other project stays.
pub proof fn law_a_project_with_worktrees_stays(
    before: Daemon,
    after: Daemon,
    asked: String,
    path: String,
    others: Vec<String>,
    step: Step,
    other: Seq<char>,
)
    requires
        is_step(
            before,
            after,
            Flow::RemoveProject { asked },
            Told::Canonicals { path, others },
            step,
        ),
        !same_place(other, path@),
    ensures
        (exists|k: int| 0 <= k < others@.len() && same_place((#[trigger] others@[k])@, path@)) ==> {
            &&& after.state() == before.state()
            &&& after.projects == before.projects
            &&& ends_in_error(step)
            &&& step.effects@.len() == 0
        },
        (forall|k: int| 0 <= k < others@.len() ==> !same_place((#[trigger] others@[k])@, path@)) ==> {
            &&& !registered(after.projects.rows(), path@)
            &&& registered(after.projects.rows(), other) == registered(before.projects.rows(), other)
            &&& step.effects@.contains(Effect::SaveProjects)
            &&& step.effects@.last() matches Effect::Project(ProjectChange::Removed(p)) && p@ == path@
            &&& step.next == Next::Done(ControlEvent::ProjectRemoved { path: asked })
            &&& before.state().project_terms.dom().contains(meaning(path@))
                && before.state().terms.dom().contains(before.state().project_terms[meaning(path@)])
                ==> step.effects@.contains(
                Effect::End(PaneId(before.state().project_terms[meaning(path@)])),
            )
        },
{
    let in_use = crate::text::texts(others@);
    lemma_count_at(in_use, path@);
    assert forall|k: int| 0 <= k < others@.len() implies #[trigger] in_use[k] == others@[k]@ by {}
    if exists|k: int| 0 <= k < others@.len() && same_place((#[trigger] others@[k])@, path@) {
        let k = choose|k: int| 0 <= k < others@.len() && same_place((#[trigger] others@[k])@, path@);
        assert(same_place(in_use[k], path@));
    } else {
        assert forall|k: int| 0 <= k < in_use.len() implies !same_place(#[trigger] in_use[k], path@) by {
            assert(!same_place(others@[k]@, path@));
        }
        crate::daemon::projects::law_removed_path_is_gone(before.projects.rows(), path@, other);
        let s = before.state();
        let known = s.project_terms.dom().contains(meaning(path@));
        let term = PaneId(s.project_terms[meaning(path@)]);
        let ended = if known {
            s.terminal_ends(term)
        } else {
            seq![]
        };
        let e = step.effects@;
        assert(e[ended.len() as int] == Effect::SaveProjects);
        if known && s.terms.dom().contains(term.0) {
            crate::daemon::state::changes::law_a_terminal_ends_with_its_companions(s, term, term);
            let k = choose|k: int| 0 <= k < ended.len() && ended[k] == Effect::End(term);
            assert(e.take(ended.len() as int)[k] == e[k]);
        }
    }
}

proof fn lemma_count_at(paths: Seq<Seq<char>>, path: Seq<char>)
    ensures
        crate::daemon::state::terminals::count_at(paths, path) > 0 <==> exists|k: int|
            0 <= k < paths.len() && same_place(#[trigger] paths[k], path),
    decreases paths.len(),
{
    if paths.len() > 0 {
        let before = paths.drop_last();
        lemma_count_at(before, path);
        if crate::daemon::state::terminals::count_at(before, path) > 0 {
            let k = choose|k: int| 0 <= k < before.len() && same_place(#[trigger] before[k], path);
            assert(same_place(paths[k], path));
        }
        if same_place(paths.last(), path) {
            assert(same_place(paths[paths.len() - 1], path));
        }
        if exists|k: int| 0 <= k < paths.len() && same_place(#[trigger] paths[k], path) {
            let k = choose|k: int| 0 <= k < paths.len() && same_place(#[trigger] paths[k], path);
            if k < before.len() {
                assert(same_place(before[k], path));
            }
        }
    }
}

/// A pane that is split in two is answered by the layout that holds both; where the companion could not be
/// started, nothing is split and the client is told why.
pub proof fn law_a_split_is_answered_by_the_layout(
    before: Daemon,
    after: Daemon,
    root: PaneId,
    target: PaneId,
    companion: PaneId,
    direction: crate::proto::control::SplitDirection,
    started: Result<(), String>,
    step: Step,
)
    requires
        is_step(
            before,
            after,
            Flow::SplitStart { root, target, companion, direction },
            Told::Started(started),
            step,
        ),
    ensures
        started matches Err(m) ==> is_refused(before, after, step, m@),
        started is Ok && before.state().trees.dom().contains(root.0) ==> {
            &&& after.state().panes.contains(companion.0)
            &&& after.state().owner.dom().contains(companion.0)
            &&& after.state().owner[companion.0] == root.0
            &&& step.next == Next::Done(
                ControlEvent::SplitTreeChanged { agent: root, tree: after.state().trees[root.0] },
            )
            &&& step.effects@.contains(Effect::Tree(root, after.state().trees[root.0]))
        },
{
    if started is Ok && before.state().trees.dom().contains(root.0) {
        assert(after.state().trees.dom().contains(root.0));
        assert(step.effects@[0] == Effect::Tree(root, after.state().trees[root.0]));
    }
}

/// A restarted agent is there again with its worktree and the layout that was kept for it, and works; where
/// it could not be started, nothing changes and the client is told why.
pub proof fn law_a_restart_brings_the_agent_back(
    before: Daemon,
    after: Daemon,
    flow: Flow,
    started: Result<(), String>,
    step: Step,
)
    requires
        flow is RestartStart,
        is_step(before, after, flow, Told::Started(started), step),
    ensures
        flow matches Flow::RestartStart { pane, ws, name, hooks, tree } ==> {
            &&& started matches Err(m) ==> is_refused(before, after, step, m@)
            &&& started is Ok ==> {
                let t = after.state();
                &&& t.panes.contains(pane.0)
                &&& t.workspaces.dom().contains(pane.0) && t.workspaces[pane.0] == ws
                &&& t.agents[pane.0].name@ == name@
                &&& t.attention[pane.0] == AttentionState::Working
                &&& !hooks ==> t.hookless.contains(pane.0)
                &&& tree matches Some(x) ==> t.trees.dom().contains(pane.0) && t.trees[pane.0] == x
                &&& step.effects@.contains(Effect::Attention(pane, AttentionState::Working))
                &&& step.next == Next::Done(
                    ControlEvent::SplitTreeChanged { agent: pane, tree: t.trees[pane.0] },
                )
                &&& after.registry == before.registry
            }
        },
{
    if let Flow::RestartStart { pane, ws, name, hooks, tree } = flow {
        if started is Ok {
            assert(step.effects@[0] == Effect::Attention(pane, AttentionState::Working));
        }
    }
}

/// A recorded agent that could not be started when the daemon starts is forgotten; one that could be is
/// there, with its worktree.
pub proof fn law_a_recorded_agent_comes_back_or_is_forgotten(
    before: Daemon,
    after: Daemon,
    flow: Flow,
    started: Result<(), String>,
    step: Step,
)
    requires
        flow is ResumeStart,
        is_step(before, after, flow, Told::Started(started), step),
    ensures
        flow matches Flow::ResumeStart { record, ws, hooks } ==> {
            &&& started is Err ==> {
                &&& after.state() == before.state()
                &&& forall|k: int|
                    0 <= k < after.registry.rows().len() ==> (
                    #[trigger] after.registry.rows()[k]).agent_id != record.agent_id
                &&& step.effects@.contains(Effect::SaveRegistry)
                &&& step.next is Over
            }
            &&& started is Ok ==> {
                &&& after.state().workspaces.dom().contains(record.agent_id)
                &&& after.state().workspaces[record.agent_id] == ws
                &&& after.state().agents.dom().contains(record.agent_id)
                &&& after.state().agents[record.agent_id].name@ == record.task@
                &&& after.state().panes.contains(record.agent_id)
                &&& after.registry == before.registry
                &&& step.effects@.len() > 0
                &&& step.effects@[0] == Effect::Attention(
                    PaneId(record.agent_id),
                    AttentionState::Working,
                )
            }
        },
{
    if let Flow::ResumeStart { record, ws, hooks } = flow {
        if started is Err {
            assert(step.effects@[0] == Effect::SaveRegistry);
            crate::daemon::registry::lemma_without_agent(before.registry.rows(), record.agent_id);
            let rows = crate::daemon::registry::without_agent(before.registry.rows(), record.agent_id);
            assert forall|k: int| 0 <= k < after.registry.rows().len() implies (
            #[trigger] after.registry.rows()[k]).agent_id != record.agent_id by {
                assert(rows[k].agent_id != record.agent_id);
            }
        }
    }
}

/// The terminal that was started becomes that of the project, and is given to the client; where another was
/// opened meanwhile, that one is given, and the new pane ends.
pub proof fn law_a_project_has_one_terminal(
    before: Daemon,
    after: Daemon,
    asked: String,
    root: String,
    id: PaneId,
    started: Result<(), String>,
    step: Step,
)
    requires
        is_step(before, after, Flow::OpenStart { asked, root, id }, Told::Started(started), step),
    ensures
        started matches Err(m) ==> is_refused(before, after, step, m@),
        started is Ok ==> {
            let s = before.state();
            let t = after.state();
            let place = meaning(root@);
            &&& t.project_terms.dom().contains(place)
            &&& step.next matches Next::Done(ControlEvent::ProjectTerminalOpened { path, pane })
            &&& path@ == asked@
            &&& pane.0 == t.project_terms[place]
            &&& s.project_terms.dom().contains(place) ==> pane.0 == s.project_terms[place]
                && step.effects@.contains(Effect::End(id)) && !t.panes.contains(id.0)
            &&& !s.project_terms.dom().contains(place) ==> pane == id && t.terms[id.0] == root
                && t.panes.contains(id.0)
        },
{
    if started is Ok && before.state().project_terms.dom().contains(meaning(root@)) {
        assert(step.effects@[0] == Effect::End(id));
    }
}

/// The companions of an agent that comes back are started one after the other, in its worktree, by the
/// shell, each under a number of its own.
pub proof fn law_companions_come_back_in_the_worktree(
    before: Daemon,
    after: Daemon,
    flow: Flow,
    started: Result<(), String>,
    step: Step,
)
    requires
        flow is Companions,
        is_step(before, after, flow, Told::Started(started), step),
    ensures
        flow matches Flow::Companions { agent, tree, cwd, fresh, id } ==> {
            &&& step.next matches Next::Ask(ask, next) ==> {
                &&& ask matches Ask::Start { id: i, command, cols, rows, role, adapter }
                &&& command.cwd matches Some(dir)
                &&& dir@ == cwd@
                &&& command.program@ == before.settings.shell@
                &&& i.0 == before.state().next_id
                &&& (cols, rows) == (before.settings.default_cols, before.settings.default_rows)
                &&& role == Role::Companion
                &&& adapter is None
                &&& next matches Flow::Companions { agent: a, tree: t, cwd: c, fresh: f, id: j }
                &&& a == agent && t == tree && c@ == cwd@ && j == i
                &&& f@.len() == fresh@.len() + 1
                &&& f@.last() == (if started is Ok {
                    Some(id)
                } else {
                    None
                })
                &&& f@.drop_last() == fresh@
            }
            &&& started is Ok ==> after.state().panes.contains(id.0)
        },
{
    if let Flow::Companions { agent, tree, cwd, fresh, id } = flow {
        let all = fresh@.push(
            if started is Ok {
                Some(id)
            } else {
                None
            },
        );
        assert(all.drop_last() =~= fresh@);
    }
}

/// An agent whose process ends by itself is shown as ended and is otherwise kept: its worktree, its layout,
/// its place in the list and its record stay, and nothing else is told.
pub proof fn law_an_agent_that_ends_is_kept(before: Daemon, after: Daemon, pane: PaneId, effects: Vec<Effect>)
    requires
        is_exit(before, after, pane, Role::Agent, effects),
    ensures
        after.state().attention.dom().contains(pane.0),
        after.state().attention[pane.0] == AttentionState::Exited,
        after.state().agents == before.state().agents,
        after.state().workspaces == before.state().workspaces,
        after.state().trees == before.state().trees,
        after.state().owner == before.state().owner,
        after.state().terms == before.state().terms,
        after.registry == before.registry,
        after.projects == before.projects,
        effects@ == seq![Effect::Attention(pane, AttentionState::Exited)],
{
}

/// A project terminal whose process ends by itself is gone, and its project has none any more; no agent and
/// no record is touched by that, nor by the end of a companion.
pub proof fn law_the_end_of_a_terminal_touches_no_agent(
    before: Daemon,
    after: Daemon,
    pane: PaneId,
    effects: Vec<Effect>,
)
    requires
        is_exit(before, after, pane, Role::Terminal, effects),
    ensures
        !after.state().terms.dom().contains(pane.0),
        after.state().agents == before.state().agents,
        after.state().workspaces == before.state().workspaces,
        after.registry == before.registry,
        after.projects == before.projects,
{
}

/// Before a recorded agent runs again, its own worktree is looked for, and nothing is done until then.
pub proof fn law_a_record_is_taken_up_at_its_worktree(record: AgentRecord, step: Step)
    requires
        is_resume_begun(record, step),
    ensures
        step.effects@.len() == 0,
        step.next is Ask,
        step.next->Ask_0 is Exists,
        step.next->Ask_0->Exists_path@ == record.worktree_path@,
        step.next->Ask_1 == (Flow::ResumeLook { record }),
{
}

/// A project is never taken away while an agent or a terminal of it is being made: the three wait for each
/// other, and nothing else waits.
pub proof fn law_what_waits_for_each_other(work: Work)
    ensures
        work is Spawn ==> must_be_alone(work),
        work is OpenTerminal ==> must_be_alone(work),
        work is RemoveProject ==> must_be_alone(work),
        work is Land || work is Discard || work is CloseAgent || work is Restart ==> !must_be_alone(work),
{
}

} // verus!
