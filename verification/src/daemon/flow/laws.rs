//! What holds of the panes while requests are under way.

use vstd::prelude::*;

use crate::daemon::control::{is_handled, Handled, Work};
use crate::daemon::flow::{
    fits, has_given_number, has_pane, is_begun, is_companion_step, is_step, Flow, Next, Step, Told,
};
use crate::daemon::split_tree::{companion_count, leaf_seq};
use crate::daemon::registry::row_of;
use crate::daemon::state::agents::{meta_of, restart_refusal};
use crate::daemon::state::laws;
use crate::daemon::state::layout::{is_close, is_moved, is_split, Close};
use crate::daemon::state::terminals::is_opened;
use crate::daemon::state::{is_reaped, number_after, Daemon, DaemonState, Effect};
use crate::path::meaning;
use crate::proto::control::{ControlRequest, PaneTree};
use crate::proto::message::{AttentionState, PaneId};

verus! {

/// What a request relies on while work for it is done: the numbers that it was given are still free, and
/// the layout that it will put back is still there.
pub open spec fn relies_on(s: DaemonState, flow: Flow) -> bool {
    match flow {
        Flow::SpawnProvision { id, .. } => s.unused(id.0),
        Flow::SpawnStart { record, .. } => s.unused(record.agent_id),
        Flow::SplitStart { companion, .. } => s.unused(companion.0) && s.next_split < u64::MAX,
        Flow::OpenStart { id, .. } => s.unused(id.0),
        Flow::RestartLook { pane, restart } => can_stand_again(s, pane, restart.tree),
        Flow::RestartStart { pane, tree, .. } => can_stand_again(s, pane, tree),
        Flow::ResumeLook { record } => s.unused(record.agent_id) && (record.tree matches Some(t)
            ==> is_layout_of(t, PaneId(record.agent_id))),
        Flow::ResumeStart { record, .. } => s.unused(record.agent_id) && (record.tree matches Some(t)
            ==> is_layout_of(t, PaneId(record.agent_id))),
        Flow::Companions { agent, tree, fresh, id, .. } => {
            &&& is_layout_of(tree, agent)
            &&& s.owner.dom().contains(agent.0)
            &&& s.owner[agent.0] == agent.0
            &&& are_fresh(s, fresh@.push(Some(id)))
        },
        _ => true,
    }
}

/// An agent that runs again finds the layout that it had, or it has none and starts one.
pub open spec fn can_stand_again(s: DaemonState, pane: PaneId, tree: Option<PaneTree>) -> bool {
    match tree {
        Some(t) => s.trees.dom().contains(pane.0) && t == s.trees[pane.0],
        None => s.unused(pane.0),
    }
}

/// The stored layout holds the agent, and no pane twice.
pub open spec fn is_layout_of(tree: PaneTree, agent: PaneId) -> bool {
    leaf_seq(tree).no_duplicates() && leaf_seq(tree).contains(agent)
}

/// The panes are different, and none of them stands in a layout.
pub open spec fn are_fresh(s: DaemonState, fresh: Seq<Option<PaneId>>) -> bool {
    &&& forall|p: PaneId| #[trigger] fresh.contains(Some(p)) ==> s.unused(p.0)
    &&& forall|i: int, j: int|
        0 <= i < j < fresh.len() && fresh[i] is Some ==> #[trigger] fresh[i] != #[trigger] fresh[j]
}

/// The panes are valid, and what comes next can rely on what it needs.
pub open spec fn is_in_order(s: DaemonState, step: Step) -> bool {
    s.valid() && (step.next matches Next::Ask(_, flow) ==> relies_on(s, flow))
}

/// The pane is no companion: it is the root of its layout, or stands in none.
pub open spec fn is_no_companion(s: DaemonState, pane: PaneId) -> bool {
    s.owner.dom().contains(pane.0) ==> s.owner[pane.0] == pane.0
}

/// What is stored of an agent that no layout holds names no companions.
pub open spec fn has_no_lost_companions(d: Daemon, pane: PaneId) -> bool {
    let s = d.state();
    ||| s.trees.dom().contains(pane.0)
    ||| restart_refusal(s, d.registry.rows(), pane.0) is Some
    ||| s.unused(pane.0) && row_of(d.registry.rows(), pane.0, 0)->0.tree is None
}

proof fn lemma_finish_begins(s: DaemonState, pane: u64)
    requires
        s.valid(),
        is_no_companion(s, PaneId(pane)),
        !s.terms.dom().contains(pane),
    ensures
        s.with_agent_ended(pane).valid(),
        s.with_agent_ended(pane).without_agent(pane).valid(),
{
    if s.trees.dom().contains(pane) {
        laws::law_an_agent_leaves_no_pane(s, pane);
    } else {
        let t = s.with_agent_ended(pane);
        assert(s.companions(pane) =~= seq![]);
        assert forall|r: u64| #[trigger] t.trees.dom().contains(r) implies t.layout_valid(r) by {
            assert(s.layout_valid(r));
        }
        assert forall|r: u64| #[trigger] t.trees.dom().contains(r) implies t.splits_valid(r) by {
            assert(s.splits_valid(r));
        }
        laws::lemma_same_layouts(t, t.without_agent(pane));
    }
}

/// Whatever work begins, the panes stay valid, and the request can rely on what it needs. It is an agent
/// that is finished, not a companion, and one that is restarted does not look for companions that are
/// gone.
pub proof fn law_beginning_keeps_valid(before: Daemon, after: Daemon, work: Work, step: Step)
    requires
        before.state().valid(),
        before.state().next_id < u64::MAX,
        before.state().next_split < u64::MAX,
        work matches Work::CloseAgent { pane } ==> is_no_companion(before.state(), pane)
            && !before.state().terms.dom().contains(pane.0),
        work matches Work::Land { pane } ==> is_no_companion(before.state(), pane),
        work matches Work::Discard { pane } ==> is_no_companion(before.state(), pane),
        work matches Work::Restart { pane } ==> has_no_lost_companions(before, pane),
        is_begun(before, after, work, step),
    ensures
        is_in_order(after.state(), step),
{
    let s = before.state();
    match work {
        Work::Split { pane, direction } => {
            if after != before {
                laws::law_a_new_number_is_unused(s, after.state().next_id);
            }
        },
        Work::CloseAgent { pane } => {
            lemma_finish_begins(s, pane.0);
        },
        Work::Land { pane } => {
            if !s.terms.dom().contains(pane.0) {
                lemma_finish_begins(s, pane.0);
            }
        },
        Work::Discard { pane } => {
            if !s.terms.dom().contains(pane.0) {
                lemma_finish_begins(s, pane.0);
            }
        },
        Work::Restart { pane } => {
            laws::lemma_same_layouts(s, after.state());
        },
        _ => {},
    }
}

proof fn lemma_new_number(before: Daemon, after: Daemon)
    requires
        before.state().valid(),
        before.state().next_id < u64::MAX,
        has_given_number(before, after),
    ensures
        after.state().valid(),
        after.state().unused(before.state().next_id),
{
    laws::law_a_new_number_is_unused(before.state(), after.state().next_id);
}

proof fn lemma_companion_step(
    before: Daemon,
    after: Daemon,
    agent: PaneId,
    tree: PaneTree,
    cwd: Seq<char>,
    fresh: Seq<Option<PaneId>>,
    prior: Seq<Effect>,
    step: Step,
)
    requires
        before.state().valid(),
        before.state().next_id < u64::MAX,
        is_layout_of(tree, agent),
        before.state().owner.dom().contains(agent.0),
        before.state().owner[agent.0] == agent.0,
        are_fresh(before.state(), fresh),
        is_companion_step(before, after, agent, tree, cwd, fresh, prior, step),
    ensures
        is_in_order(after.state(), step),
{
    let s = before.state();
    let t = after.state();
    if fresh.len() < companion_count(tree, agent) {
        lemma_new_number(before, after);
        let id = PaneId(s.next_id);
        let all = fresh.push(Some(id));
        assert forall|p: PaneId| #[trigger] all.contains(Some(p)) implies t.unused(p.0) by {
            let k = choose|k: int| 0 <= k < all.len() && all[k] == Some(p);
            if k < fresh.len() {
                assert(fresh[k] == Some(p));
                assert(fresh.contains(Some(p)));
            }
        }
        assert forall|i: int, j: int|
            0 <= i < j < all.len() && all[i] is Some implies #[trigger] all[i] != #[trigger] all[j] by {
            if j == fresh.len() {
                let p = all[i]->0;
                assert(fresh.contains(Some(p)));
                assert(s.unused(p.0));
            } else {
                assert(fresh[i] != fresh[j]);
            }
        }
    } else if t != s {
        laws::law_restoring_keeps_valid(s, agent.0, tree, fresh);
    }
}

proof fn lemma_more_splits(s: DaemonState, t: DaemonState)
    requires
        s.valid(),
        s.next_split < u64::MAX,
        t == (DaemonState { next_split: number_after(s.next_split), ..s }),
    ensures
        t.valid(),
{
    assert forall|r: u64| #[trigger] t.trees.dom().contains(r) implies t.layout_valid(r) by {
        assert(s.layout_valid(r));
    }
    assert forall|r: u64| #[trigger] t.trees.dom().contains(r) implies t.splits_valid(r) by {
        assert(s.splits_valid(r));
    }
}

/// Whatever work was done, and however it went, the panes stay valid, and the request can rely on what it
/// needs.
pub proof fn law_proceeding_keeps_valid(
    before: Daemon,
    after: Daemon,
    flow: Flow,
    told: Told,
    step: Step,
)
    requires
        before.state().valid(),
        before.state().next_id < u64::MAX,
        before.state().next_split < u64::MAX,
        relies_on(before.state(), flow),
        fits(flow, told),
        is_step(before, after, flow, told, step),
    ensures
        after.state().valid(),
        after.state().next_split < u64::MAX ==> is_in_order(after.state(), step),
{
    let s = before.state();
    let t = after.state();
    match flow {
        Flow::SpawnLook { .. } => {
            if step.next is Ask {
                lemma_new_number(before, after);
            }
        },
        Flow::SpawnStart { record, ws, hooks } => {
            if told->Started_0 is Ok {
                laws::law_spawning_keeps_valid(
                    s,
                    record.agent_id,
                    ws,
                    meta_of(ws, record.task),
                    hooks,
                );
            }
        },
        Flow::SplitStart { root, target, companion, direction } => {
            if told->Started_0 is Ok {
                let (mid, r) = choose|mid: Daemon, r: Result<Vec<Effect>, String>|
                    has_pane(before, mid, companion) && #[trigger] is_split(
                        mid,
                        after,
                        root,
                        target,
                        companion,
                        direction,
                        r,
                    );
                laws::lemma_same_layouts(s, mid.state());
                if mid.state().trees.dom().contains(root.0) {
                    laws::law_splitting_keeps_valid(mid.state(), root.0, target, companion, direction);
                } else {
                    lemma_more_splits(mid.state(), t);
                }
            }
        },
        Flow::Finish { pane } => {
            laws::lemma_same_layouts(s, t);
        },
        Flow::RemoveProject { .. } => {
            let place = meaning(told->path@);
            if s.project_terms.dom().contains(place) {
                laws::law_a_terminal_leaves_no_pane(s, s.project_terms[place]);
            }
        },
        Flow::OpenPath { .. } => {
            if step.next is Ask {
                lemma_new_number(before, after);
            }
        },
        Flow::OpenStart { asked, root, id } => {
            if told->Started_0 is Ok {
                let (mid, r) = choose|mid: Daemon, r: (PaneId, Vec<Effect>)|
                    has_pane(before, mid, id) && #[trigger] is_opened(mid, after, root, id, r);
                laws::lemma_same_layouts(s, mid.state());
                if mid.state().project_terms.dom().contains(meaning(root@)) {
                    laws::lemma_same_layouts(mid.state(), t);
                } else {
                    laws::law_opening_keeps_valid(mid.state(), id.0, root);
                }
            }
        },
        Flow::RestartStart { pane, ws, name, hooks, tree } => {
            if told->Started_0 is Ok {
                match tree {
                    Some(_) => {
                        laws::law_restarting_keeps_the_layout(s, pane.0, ws, meta_of(ws, name), hooks);
                    },
                    None => {
                        laws::law_spawning_keeps_valid(s, pane.0, ws, meta_of(ws, name), hooks);
                    },
                }
            }
        },
        Flow::ResumeStart { record, ws, hooks } => {
            if told->Started_0 is Ok {
                laws::law_spawning_keeps_valid(
                    s,
                    record.agent_id,
                    ws,
                    meta_of(ws, record.task),
                    hooks,
                );
                let agent = PaneId(record.agent_id);
                let news = seq![Effect::Attention(agent, AttentionState::Working)];
                let mid = choose|mid: Daemon|
                    #[trigger] mid.keeps_stores(before) && mid.state() == s.with_agent(
                        record.agent_id,
                        ws,
                        meta_of(ws, record.task),
                        hooks,
                    ) && match record.tree {
                        None => after == mid && step.effects@ == news && step.next is Over,
                        Some(tree) => is_companion_step(
                            mid,
                            after,
                            agent,
                            tree,
                            ws.path@,
                            seq![],
                            news,
                            step,
                        ),
                    };
                if record.tree is Some {
                    lemma_companion_step(
                        mid,
                        after,
                        agent,
                        record.tree->0,
                        ws.path@,
                        seq![],
                        news,
                        step,
                    );
                }
            }
        },
        Flow::Companions { agent, tree, cwd, fresh, id } => {
            let started = told->Started_0 is Ok;
            let last = if started {
                Some(id)
            } else {
                None
            };
            let all = fresh@.push(last);
            let mid = choose|mid: Daemon|
                #[trigger] mid.keeps_stores(before) && (if started {
                    has_pane(before, mid, id)
                } else {
                    mid == before
                }) && is_companion_step(mid, after, agent, tree, cwd@, all, seq![], step);
            laws::lemma_same_layouts(s, mid.state());
            let asked = fresh@.push(Some(id));
            assert forall|p: PaneId| #[trigger] all.contains(Some(p)) implies mid.state().unused(p.0) by {
                let k = choose|k: int| 0 <= k < all.len() && all[k] == Some(p);
                assert(asked[k] == Some(p));
                assert(asked.contains(Some(p)));
            }
            assert forall|i: int, j: int|
                0 <= i < j < all.len() && all[i] is Some implies #[trigger] all[i]
                != #[trigger] all[j] by {
                assert(asked[i] != asked[j]);
            }
            lemma_companion_step(mid, after, agent, tree, cwd@, all, seq![], step);
        },
        _ => {},
    }
}

proof fn lemma_without_companion(s: DaemonState, pane: u64)
    requires
        s.valid(),
        s.owner.dom().contains(pane),
        !s.trees.dom().contains(pane),
    ensures
        s.without_companion(pane, s.owner[pane]).valid(),
{
    if s.owner[pane] != pane {
        laws::law_closing_keeps_valid(s, pane);
    } else {
        let t = s.without_companion(pane, pane);
        assert forall|r: u64| #[trigger] t.trees.dom().contains(r) implies t.layout_valid(r) by {
            assert(s.layout_valid(r));
        }
        assert forall|r: u64| #[trigger] t.trees.dom().contains(r) implies t.splits_valid(r) by {
            assert(s.splits_valid(r));
        }
    }
}

/// Whatever a client asks for, the panes stay valid.
pub proof fn law_handling_keeps_valid(before: Daemon, after: Daemon, req: ControlRequest, h: Handled)
    requires
        before.state().valid(),
        is_handled(before, after, req, h),
    ensures
        after.state().valid(),
{
    let s = before.state();
    match req {
        ControlRequest::ClosePane { pane } => {
            let r = choose|r: Result<Close, String>| #[trigger] is_close(before, after, pane, r);
            if s.terms.dom().contains(pane.0) {
                laws::law_a_terminal_leaves_no_pane(s, pane.0);
            } else if !s.trees.dom().contains(pane.0) && s.owner.dom().contains(pane.0) {
                lemma_without_companion(s, pane.0);
            }
        },
        ControlRequest::SetSplitRatio { split, ratio } => {
            let r = choose|r: Result<(PaneId, Vec<Effect>), String>| #[trigger]
                is_moved(before, after, split, ratio, r);
            match r {
                Ok((root, _)) => {
                    laws::law_moving_a_divider_keeps_valid(s, root.0, split, ratio);
                },
                Err(_) => {},
            }
        },
        _ => {},
    }
}

/// When a companion ends by itself, the panes stay valid, and the companion is known no more.
pub proof fn law_a_companions_end_keeps_valid(before: Daemon, after: Daemon, pane: PaneId, effects: Vec<Effect>)
    requires
        before.state().valid(),
        is_reaped(before, after, pane, effects),
    ensures
        after.state().valid(),
        before.state().owner.dom().contains(pane.0) && before.state().owner[pane.0] != pane.0
            ==> !after.state().owner.dom().contains(pane.0),
{
    let s = before.state();
    if s.owner.dom().contains(pane.0) && s.owner[pane.0] != pane.0 {
        laws::law_closing_keeps_valid(s, pane.0);
    }
}

} // verus!
