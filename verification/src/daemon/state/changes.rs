//! What each change brings to the panes, and what it leaves alone.

use vstd::prelude::*;

use crate::config::agents::AgentProfile;
use crate::config::laws::is_given;
use crate::config::resolve::{Config, FileConfig};
use crate::config::vars::Vars;
use crate::daemon::projects::ProjectRecord;
use crate::daemon::registry::{is_with_tree, AgentRecord};
use crate::daemon::split_tree;
use crate::daemon::split_tree::{leaf_seq, outline, Mark};
use crate::daemon::state::layout::{
    cwd_of, is_close, is_flushed, is_moved, is_split, is_split_begun, split_refusal, Close,
};
use crate::daemon::state::{
    is_reaped, number_after, AgentMeta, Daemon, DaemonState, Effect, ProjectChange,
};
use crate::daemon::command::PaneCommand;
use crate::path::meaning;
use crate::proto::control::{Axis, PaneTree, Ratio, SplitDirection, SplitId, HALF};
use crate::proto::message::{AttentionState, PaneId};
use crate::workspace::kind::Workspace;

verus! {

/// Under this number both have the same: a pane, a worktree, an agent, a state, a layout, an owner.
pub open spec fn agree_on(s: DaemonState, t: DaemonState, n: u64) -> bool {
    &&& s.panes.contains(n) == t.panes.contains(n)
    &&& s.hookless.contains(n) == t.hookless.contains(n)
    &&& s.dirty.contains(n) == t.dirty.contains(n)
    &&& s.attention.dom().contains(n) == t.attention.dom().contains(n)
    &&& s.attention.dom().contains(n) ==> s.attention[n] == t.attention[n]
    &&& s.workspaces.dom().contains(n) == t.workspaces.dom().contains(n)
    &&& s.workspaces.dom().contains(n) ==> s.workspaces[n] == t.workspaces[n]
    &&& s.agents.dom().contains(n) == t.agents.dom().contains(n)
    &&& s.agents.dom().contains(n) ==> s.agents[n] == t.agents[n]
    &&& s.trees.dom().contains(n) == t.trees.dom().contains(n)
    &&& s.trees.dom().contains(n) ==> s.trees[n] == t.trees[n]
    &&& s.owner.dom().contains(n) == t.owner.dom().contains(n)
    &&& s.owner.dom().contains(n) ==> s.owner[n] == t.owner[n]
    &&& s.terms.dom().contains(n) == t.terms.dom().contains(n)
    &&& s.terms.dom().contains(n) ==> s.terms[n] == t.terms[n]
}

/// A number behind another is greater, as long as numbers last: so none is given out twice.
pub proof fn law_numbers_go_up(n: u64)
    requires
        n < u64::MAX,
    ensures
        number_after(n) == n + 1,
{
}

/// A spawned agent is there under its number: its pane, its worktree, what is remembered of it. It works,
/// it stands alone in its layout, and it is watched where it reports by no hooks. Nothing changes under
/// any other number.
pub proof fn law_a_spawned_agent_is_there(
    s: DaemonState,
    pane: u64,
    ws: Workspace,
    meta: AgentMeta,
    hooks: bool,
    other: u64,
)
    requires
        other != pane,
    ensures
        ({
            let t = s.with_agent(pane, ws, meta, hooks);
            &&& t.panes.contains(pane)
            &&& t.workspaces.dom().contains(pane) && t.workspaces[pane] == ws
            &&& t.agents.dom().contains(pane) && t.agents[pane] == meta
            &&& t.attention.dom().contains(pane) && t.attention[pane] == AttentionState::Working
            &&& t.trees.dom().contains(pane) && leaf_seq(t.trees[pane]) == seq![PaneId(pane)]
            &&& t.owner.dom().contains(pane) && t.owner[pane] == pane
            &&& !hooks ==> t.hookless.contains(pane)
            &&& hooks ==> t.hookless == s.hookless
            &&& agree_on(s, t, other)
            &&& (t.next_id, t.next_split, t.terms, t.project_terms, t.dirty) == (
                s.next_id,
                s.next_split,
                s.terms,
                s.project_terms,
                s.dirty,
            )
        }),
{
    let t = s.with_agent(pane, ws, meta, hooks);
    assert(leaf_seq(t.trees[pane]) =~= seq![PaneId(pane)]);
}

/// An agent that runs again is there as a spawned one is, but with the layout that it is given.
pub proof fn law_a_restarted_agent_has_its_layout(
    s: DaemonState,
    pane: u64,
    ws: Workspace,
    meta: AgentMeta,
    hooks: bool,
    tree: PaneTree,
    other: u64,
)
    requires
        other != pane,
    ensures
        ({
            let t = s.with_agent_again(pane, ws, meta, hooks, Some(tree));
            &&& t.panes.contains(pane)
            &&& t.workspaces[pane] == ws
            &&& t.agents[pane] == meta
            &&& t.attention[pane] == AttentionState::Working
            &&& t.trees.dom().contains(pane) && t.trees[pane] == tree
            &&& t.owner[pane] == pane
            &&& agree_on(s, t, other)
        }),
        s.with_agent_again(pane, ws, meta, hooks, None) == s.with_agent(pane, ws, meta, hooks),
{
}

/// The companions of a root are the panes of its layout but itself.
pub proof fn law_companions_are_the_other_panes(s: DaemonState, root: u64, p: PaneId)
    ensures
        s.companions(root).contains(p) <==> s.trees.dom().contains(root) && leaf_seq(s.trees[root]).contains(
            p,
        ) && p.0 != root,
{
    if s.trees.dom().contains(root) {
        let panes = leaf_seq(s.trees[root]);
        let keep = |q: PaneId| q != PaneId(root);
        if s.companions(root).contains(p) {
            let k = choose|k: int| 0 <= k < s.companions(root).len() && s.companions(root)[k] == p;
            panes.lemma_filter_pred(keep, k);
            lemma_filtered_was_there(panes, keep, p);
        }
        if panes.contains(p) && p.0 != root {
            let k = choose|k: int| 0 <= k < panes.len() && panes[k] == p;
            panes.lemma_filter_contains(keep, k);
        }
    }
}

proof fn lemma_filtered_was_there(all: Seq<PaneId>, keep: spec_fn(PaneId) -> bool, p: PaneId)
    requires
        all.filter(keep).contains(p),
    ensures
        all.contains(p),
    decreases all.len(),
{
    reveal(Seq::filter);
    if all.len() > 0 {
        let before = all.drop_last();
        if before.filter(keep).contains(p) {
            lemma_filtered_was_there(before, keep, p);
            let k = choose|k: int| 0 <= k < before.len() && before[k] == p;
            assert(all[k] == p);
        } else {
            let f = all.filter(keep);
            let k = choose|k: int| 0 <= k < f.len() && f[k] == p;
            if k < before.filter(keep).len() {
                assert(before.filter(keep)[k] == p);
            }
            assert(all[all.len() - 1] == p);
        }
    }
}

/// When the processes of an agent end, its companions are gone and so is its layout, but its worktree and
/// all that is remembered of it stay, and so does its own pane, whose output can still be read. Nothing
/// changes under the number of a pane that did not belong to it.
pub proof fn law_an_ended_agent_keeps_its_worktree(s: DaemonState, pane: u64, other: u64)
    requires
        other != pane,
        !s.companions(pane).contains(PaneId(other)),
    ensures
        ({
            let t = s.with_agent_ended(pane);
            &&& (t.workspaces, t.agents, t.attention, t.terms) == (s.workspaces, s.agents, s.attention, s.terms)
            &&& !t.trees.dom().contains(pane)
            &&& !t.owner.dom().contains(pane)
            &&& !t.hookless.contains(pane)
            &&& !s.companions(pane).contains(PaneId(pane))
            &&& t.panes.contains(pane) == s.panes.contains(pane)
            &&& forall|c: PaneId| #[trigger]
                s.companions(pane).contains(c) ==> !t.panes.contains(c.0) && !t.owner.dom().contains(c.0)
            &&& agree_on(s, t, other)
        }),
{
    law_companions_are_the_other_panes(s, pane, PaneId(pane));
    let t = s.with_agent_ended(pane);
    assert forall|c: PaneId| #[trigger] s.companions(pane).contains(c) implies !t.panes.contains(c.0)
        && !t.owner.dom().contains(c.0) by {
        assert(crate::daemon::state::numbers(s.companions(pane)).contains(c.0));
    }
}

/// Each companion of a project terminal ends, then the terminal does, and everyone is told whose it was.
pub proof fn law_a_terminal_ends_with_its_companions(s: DaemonState, pane: PaneId, c: PaneId)
    requires
        s.terms.dom().contains(pane.0),
    ensures
        ({
            let news = s.terminal_ends(pane);
            &&& s.companions(pane.0).contains(c) ==> news.contains(Effect::End(c))
            &&& news.contains(Effect::End(pane))
            &&& news.last() == Effect::Project(ProjectChange::TerminalClosed(s.terms[pane.0]))
            &&& news.len() == s.companions(pane.0).len() + 2
        }),
{
    let gone = s.companions(pane.0);
    let news = s.terminal_ends(pane);
    assert(news[gone.len() as int] == Effect::End(pane));
    if gone.contains(c) {
        let k = choose|k: int| 0 <= k < gone.len() && gone[k] == c;
        assert(news[k] == Effect::End(c));
    }
}

/// A terminal is there under its number and for its project, and stands alone in its layout; nothing
/// changes under any other number, or for any other project.
pub proof fn law_an_opened_terminal_is_there(
    s: DaemonState,
    pane: u64,
    root: String,
    other: u64,
    elsewhere: Seq<char>,
)
    requires
        other != pane,
        meaning(elsewhere) != meaning(root@),
    ensures
        ({
            let t = s.with_terminal(pane, root);
            &&& t.terms.dom().contains(pane) && t.terms[pane] == root
            &&& t.project_terms.dom().contains(meaning(root@)) && t.project_terms[meaning(root@)] == pane
            &&& leaf_seq(t.trees[pane]) == seq![PaneId(pane)]
            &&& t.owner[pane] == pane
            &&& t.project_terms.dom().contains(meaning(elsewhere)) == s.project_terms.dom().contains(
                meaning(elsewhere),
            )
            &&& s.project_terms.dom().contains(meaning(elsewhere)) ==> t.project_terms[meaning(elsewhere)]
                == s.project_terms[meaning(elsewhere)]
            &&& agree_on(s, t, other)
            &&& (t.panes, t.workspaces, t.agents, t.attention) == (
                s.panes,
                s.workspaces,
                s.agents,
                s.attention,
            )
        }),
{
    assert(leaf_seq(s.with_terminal(pane, root).trees[pane]) =~= seq![PaneId(pane)]);
}

/// A terminal that went is gone, for its project too; nothing changes under the number of a pane that did
/// not belong to it, or for any other project, and no agent is touched.
pub proof fn law_a_closed_terminal_is_gone(s: DaemonState, pane: u64, other: u64, elsewhere: Seq<char>)
    requires
        s.terms.dom().contains(pane),
        other != pane,
        !s.companions(pane).contains(PaneId(other)),
        meaning(elsewhere) != meaning(s.terms[pane]@),
    ensures
        ({
            let t = s.without_terminal(pane);
            &&& !t.terms.dom().contains(pane)
            &&& !t.panes.contains(pane)
            &&& !t.trees.dom().contains(pane)
            &&& !t.owner.dom().contains(pane)
            &&& t.project_terms.dom().contains(meaning(s.terms[pane]@)) ==> t.project_terms[meaning(
                s.terms[pane]@,
            )] != pane
            &&& t.project_terms.dom().contains(meaning(elsewhere)) == s.project_terms.dom().contains(
                meaning(elsewhere),
            )
            &&& s.project_terms.dom().contains(meaning(elsewhere)) ==> t.project_terms[meaning(elsewhere)]
                == s.project_terms[meaning(elsewhere)]
            &&& agree_on(s, t, other)
            &&& (t.workspaces, t.agents, t.attention) == (s.workspaces, s.agents, s.attention)
        }),
{
}

/// Splitting a pane brings the companion to the root of that pane, and a divider with a number of its own
/// where the pane stood: side by side for a split to the right, one above the other for one below. Nothing
/// changes under any other number.
pub proof fn law_a_split_brings_a_companion(
    s: DaemonState,
    root: u64,
    target: PaneId,
    companion: PaneId,
    direction: SplitDirection,
    other: u64,
)
    requires
        s.trees.dom().contains(root),
        leaf_seq(s.trees[root]).contains(target),
        other != root,
        other != companion.0,
        companion.0 != root,
        s.next_split < u64::MAX,
    ensures
        ({
            let t = s.with_split(root, target, companion, direction);
            let axis = if direction is Right {
                Axis::Horizontal
            } else {
                Axis::Vertical
            };
            &&& t.owner.dom().contains(companion.0) && t.owner[companion.0] == root
            &&& t.next_split == s.next_split + 1
            &&& t.trees.dom().contains(root)
            &&& leaf_seq(t.trees[root]).contains(companion)
            &&& outline(t.trees[root]).contains(
                Mark::Divider(SplitId(s.next_split), axis, Ratio(HALF)),
            )
            &&& outline(t.trees[root]).len() == outline(s.trees[root]).len() + 2
            &&& agree_on(s, t, other)
            &&& (t.panes, t.next_id, t.workspaces, t.agents, t.attention, t.terms) == (
                s.panes,
                s.next_id,
                s.workspaces,
                s.agents,
                s.attention,
                s.terms,
            )
        }),
{
    let t = s.with_split(root, target, companion, direction);
    let tree = s.trees[root];
    let id = SplitId(s.next_split);
    let axis = if direction is Right {
        Axis::Horizontal
    } else {
        Axis::Vertical
    };
    split_tree::law_split_adds_one_leaf(tree, target, companion, direction, id);
    split_tree::law_splitting_parts_one_pane(tree, target, companion, direction, id);
    let new = split_tree::split_at(tree, target, companion, direction, id)->0;
    let all = outline(tree);
    let a = leaf_seq(tree);
    let j = choose|j: int|
        {
            &&& 0 <= j < a.len()
            &&& #[trigger] a[j] == target
            &&& leaf_seq(new) == a.insert(j + 1, companion)
        };
    assert(leaf_seq(new)[j + 1] == companion);
    let k = choose|k: int|
        {
            &&& 0 <= k < all.len()
            &&& #[trigger] all[k] == Mark::Pane(target)
            &&& forall|j: int| 0 <= j < k ==> all[j] != Mark::Pane(target)
            &&& outline(new) == all.take(k) + seq![
                Mark::Divider(id, axis, Ratio(HALF)),
                Mark::Pane(target),
                Mark::Pane(companion),
            ] + all.skip(k + 1)
        };
    assert(outline(new)[k] == Mark::Divider(id, axis, Ratio(HALF)));
}

/// A companion that goes is gone, from the layout too; nothing changes under any number but its own and
/// that of its root.
pub proof fn law_a_companion_goes_alone(s: DaemonState, pane: u64, root: u64, other: u64)
    requires
        other != pane,
        other != root,
    ensures
        ({
            let t = s.without_companion(pane, root);
            &&& !t.panes.contains(pane)
            &&& !t.owner.dom().contains(pane)
            &&& s.trees.dom().contains(root) && leaf_seq(s.trees[root]).contains(PaneId(pane))
                && s.trees[root] is Split ==> leaf_seq(t.trees[root]).len() + 1 == leaf_seq(
                s.trees[root],
            ).len()
            &&& agree_on(s, t, other)
            &&& pane != root ==> t.panes.contains(root) == s.panes.contains(root)
            &&& pane != root && s.owner.dom().contains(root) ==> t.owner.dom().contains(root) && t.owner[root]
                == s.owner[root]
            &&& (t.workspaces, t.agents, t.attention, t.terms, t.hookless) == (
                s.workspaces,
                s.agents,
                s.attention,
                s.terms,
                s.hookless,
            )
        }),
{
    if s.trees.dom().contains(root) && leaf_seq(s.trees[root]).contains(PaneId(pane))
        && s.trees[root] is Split {
        split_tree::law_present_leaf_is_removed(s.trees[root], PaneId(pane));
        split_tree::law_removing_takes_one_leaf(s.trees[root], PaneId(pane));
    }
}

/// A divider that is moved stands where it was asked to stand; the layout is to be stored, and nothing
/// else changes.
pub proof fn law_a_moved_divider_stands_there(
    s: DaemonState,
    root: u64,
    split: SplitId,
    ratio: Ratio,
    other: u64,
)
    requires
        s.trees.dom().contains(root),
        split_tree::with_ratio(s.trees[root], split, ratio) is Some,
        other != root,
    ensures
        ({
            let t = s.with_split_ratio(root, split, ratio);
            &&& exists|k: int|
                {
                    &&& 0 <= k < outline(s.trees[root]).len()
                    &&& (#[trigger] outline(s.trees[root])[k]) matches Mark::Divider(x, axis, was)
                    &&& x == split
                    &&& outline(t.trees[root]) == outline(s.trees[root]).update(
                        k,
                        Mark::Divider(split, axis, ratio),
                    )
                }
            &&& t.dirty.contains(root)
            &&& agree_on(s, t, other)
            &&& (t.panes, t.owner, t.workspaces, t.agents, t.attention) == (
                s.panes,
                s.owner,
                s.workspaces,
                s.agents,
                s.attention,
            )
        }),
{
    split_tree::law_moving_moves_one_divider(s.trees[root], split, ratio);
}

/// The layout that is stored of a root is the one that it has; of a root that stands alone, none is.
pub proof fn law_the_stored_layout_is_the_real_one(s: DaemonState, root: u64)
    requires
        s.trees.dom().contains(root),
        leaf_seq(s.trees[root]).contains(PaneId(root)),
    ensures
        s.stored_tree(root) matches Some(t) ==> t == s.trees[root],
        s.stored_tree(root) is None <==> leaf_seq(s.trees[root]).len() == 1,
        s.tree_news(root) == seq![Effect::Tree(PaneId(root), s.trees[root])],
{
    match s.trees[root] {
        PaneTree::Leaf { pane } => {
            let a = leaf_seq(s.trees[root]);
            assert(a =~= seq![pane]);
            let k = choose|k: int| 0 <= k < a.len() && a[k] == PaneId(root);
        },
        PaneTree::Split { id, axis, ratio, first, second } => {
            lemma_has_a_leaf(*first);
            lemma_has_a_leaf(*second);
        },
    }
}

proof fn lemma_has_a_leaf(tree: PaneTree)
    ensures
        leaf_seq(tree).len() > 0,
    decreases tree,
{
    if let PaneTree::Split { id, axis, ratio, first, second } = tree {
        lemma_has_a_leaf(*first);
        lemma_has_a_leaf(*second);
    }
}

/// A companion is started in the directory of the root to which the pane belongs: the worktree of the
/// agent, or the project of the terminal. It runs the shell, with no arguments and none of the variables of
/// an agent.
pub proof fn law_a_companion_starts_beside_its_root(
    d: Daemon,
    target: PaneId,
    root: PaneId,
    command: PaneCommand,
)
    requires
        is_split_begun(d, target, Ok((root, command))),
    ensures
        d.state().owner.dom().contains(target.0),
        root.0 == d.state().owner[target.0],
        d.state().workspaces.dom().contains(root.0) || d.state().terms.dom().contains(root.0),
        command.cwd matches Some(dir) && (if d.state().workspaces.dom().contains(root.0) {
            dir@ == d.state().workspaces[root.0].path@
        } else {
            dir@ == d.state().terms[root.0]@
        }),
        command.program@ == d.settings.shell@,
        command.args@.len() == 0,
        command.env@.len() == 0,
{
}

/// Storing a layout changes the records of one agent, in their layout alone.
pub proof fn law_storing_a_layout_changes_nothing_else(
    rows: Seq<AgentRecord>,
    id: u64,
    tree: Option<PaneTree>,
    out: Seq<AgentRecord>,
    k: int,
)
    requires
        is_with_tree(rows, id, tree, out),
        0 <= k < rows.len(),
    ensures
        out.len() == rows.len(),
        out[k].agent_id == rows[k].agent_id,
        out[k].worktree_path@ == rows[k].worktree_path@,
        out[k].project@ == rows[k].project@,
        out[k].branch@ == rows[k].branch@,
        out[k].task@ == rows[k].task@,
        out[k].adapter_id@ == rows[k].adapter_id@,
        rows[k].agent_id == id ==> out[k].tree == tree,
        rows[k].agent_id != id ==> out[k].tree == rows[k].tree,
{
}

/// A split is told and stored: whoever listens gets the new layout, and so does the record of the agent.
pub proof fn law_a_split_is_told_and_stored(
    before: Daemon,
    after: Daemon,
    root: PaneId,
    target: PaneId,
    companion: PaneId,
    direction: SplitDirection,
    effects: Vec<Effect>,
    k: int,
)
    requires
        is_split(before, after, root, target, companion, direction, Ok(effects)),
        after.state().trees[root.0] is Split,
        0 <= k < before.registry.rows().len(),
    ensures
        before.state().trees.dom().contains(root.0),
        effects@.contains(Effect::Tree(root, after.state().trees[root.0])),
        effects@.contains(Effect::SaveRegistry),
        before.registry.rows()[k].agent_id == root.0 ==> after.registry.rows()[k].tree == Some(
            after.state().trees[root.0],
        ),
        before.registry.rows()[k].agent_id != root.0 ==> after.registry.rows()[k].tree
            == before.registry.rows()[k].tree,
{
    assert(after.state().trees.dom().contains(root.0));
    assert(effects@[0] == Effect::Tree(root, after.state().trees[root.0]));
    assert(effects@[1] == Effect::SaveRegistry);
    assert(after.registry.rows()[k].same_but_tree(before.registry.rows()[k]));
}

/// What closing a pane comes to rests on what the pane is: a terminal goes, an agent is left to be
/// discarded, and a companion goes from the layout of its root, which is told and stored.
pub proof fn law_closing_goes_by_what_the_pane_is(
    before: Daemon,
    after: Daemon,
    pane: PaneId,
    r: Result<Close, String>,
)
    requires
        is_close(before, after, pane, r),
    ensures
        ({
            let s = before.state();
            let t = after.state();
            &&& (r is Ok && r->Ok_0 is Terminal) <==> s.terms.dom().contains(pane.0)
            &&& r matches Ok(Close::Terminal(root, _)) ==> root == s.terms[pane.0] && !t.terms.dom().contains(
                pane.0,
            )
            &&& (r is Ok && r->Ok_0 is Agent) <==> !s.terms.dom().contains(pane.0) && s.trees.dom().contains(
                pane.0,
            )
            &&& r is Ok && r->Ok_0 is Agent ==> t == s && after.registry == before.registry
            &&& r matches Ok(Close::Companion(root, effects)) ==> {
                &&& s.owner.dom().contains(pane.0) && root.0 == s.owner[pane.0]
                &&& !t.panes.contains(pane.0) && !t.owner.dom().contains(pane.0)
                &&& effects@.contains(Effect::End(pane))
                &&& effects@.contains(Effect::SaveRegistry)
                &&& t.trees.dom().contains(root.0) ==> effects@.contains(
                    Effect::Tree(root, t.trees[root.0]),
                )
            }
            &&& r is Err ==> !s.owner.dom().contains(pane.0) && t == s
        }),
{
    if let Ok(Close::Companion(root, effects)) = r {
        let t = after.state();
        assert(effects@[0] == Effect::End(pane));
        assert(effects@.last() == Effect::SaveRegistry);
        if t.trees.dom().contains(root.0) {
            assert(effects@[1] == Effect::Tree(root, t.trees[root.0]));
        }
    }
}

/// A companion whose process has ended goes as if it had been closed. A root is never taken out so.
pub proof fn law_a_reaped_companion_is_closed(
    before: Daemon,
    after: Daemon,
    pane: PaneId,
    effects: Vec<Effect>,
)
    requires
        is_reaped(before, after, pane, effects),
    ensures
        ({
            let s = before.state();
            let t = after.state();
            let companion = s.owner.dom().contains(pane.0) && s.owner[pane.0] != pane.0;
            &&& companion ==> {
                &&& !t.panes.contains(pane.0)
                &&& !t.owner.dom().contains(pane.0)
                &&& effects@.contains(Effect::End(pane))
                &&& effects@.contains(Effect::SaveRegistry)
                &&& t.trees.dom().contains(s.owner[pane.0]) ==> effects@.contains(
                    Effect::Tree(PaneId(s.owner[pane.0]), t.trees[s.owner[pane.0]]),
                )
                &&& is_close(
                    before,
                    after,
                    pane,
                    Ok(Close::Companion(PaneId(s.owner[pane.0]), effects)),
                ) || s.terms.dom().contains(pane.0) || s.trees.dom().contains(pane.0)
            }
            &&& !companion ==> t == s && effects@.len() == 0 && after.registry == before.registry
        }),
{
    let s = before.state();
    if s.owner.dom().contains(pane.0) && s.owner[pane.0] != pane.0 {
        let root = s.owner[pane.0];
        let t = after.state();
        assert(effects@[0] == Effect::End(pane));
        assert(effects@.last() == Effect::SaveRegistry);
        if t.trees.dom().contains(root) {
            assert(effects@[1] == Effect::Tree(PaneId(root), t.trees[root]));
        }
    }
}

/// A moved divider is told with the layout that it is in, and not stored at once.
pub proof fn law_a_moved_divider_is_told(
    before: Daemon,
    after: Daemon,
    split: SplitId,
    ratio: Ratio,
    root: PaneId,
    effects: Vec<Effect>,
)
    requires
        is_moved(before, after, split, ratio, Ok((root, effects))),
    ensures
        split_tree::split_seq(before.state().trees[root.0]).contains(split),
        effects@ == seq![Effect::Tree(root, after.state().trees[root.0])],
        after.state().dirty.contains(root.0),
        after.registry == before.registry,
{
    split_tree::law_ratio_keeps_the_shape(before.state().trees[root.0], split, ratio);
}

/// What is stored when the moved dividers are: the layouts that were waiting, as they are now, and nothing
/// of any other agent.
pub proof fn law_waiting_layouts_are_stored(
    s: DaemonState,
    done: Set<u64>,
    rows: Seq<AgentRecord>,
    out: Seq<AgentRecord>,
    k: int,
)
    requires
        is_flushed(s, done, rows, out),
        0 <= k < rows.len(),
    ensures
        out.len() == rows.len(),
        out[k].agent_id == rows[k].agent_id,
        out[k].worktree_path@ == rows[k].worktree_path@,
        !done.contains(rows[k].agent_id) ==> out[k].tree == rows[k].tree,
        !s.trees.dom().contains(rows[k].agent_id) ==> out[k].tree == rows[k].tree,
        done.contains(rows[k].agent_id) && s.trees.dom().contains(rows[k].agent_id)
            && s.trees[rows[k].agent_id] is Split ==> out[k].tree == Some(s.trees[rows[k].agent_id]),
{
}

/// Only a pane that belongs to an agent with a worktree, or to a project terminal, can be split.
pub proof fn law_what_can_be_split(s: DaemonState, target: u64)
    ensures
        split_refusal(s, target) is None <==> s.owner.dom().contains(target) && (
        s.workspaces.dom().contains(s.owner[target]) || s.terms.dom().contains(s.owner[target])),
        s.workspaces.dom().contains(target) ==> cwd_of(s, target) == s.workspaces[target].path@,
{
}

/// A restored layout is the stored one, around the same agent: the companions that could be spawned belong
/// to the agent, and where all of them could, every divider stands where it stood. Nothing changes under
/// any other number.
pub proof fn law_a_restored_layout_is_the_stored_one(
    s: DaemonState,
    agent: u64,
    tree: PaneTree,
    fresh: Seq<Option<PaneId>>,
    p: PaneId,
    other: u64,
)
    requires
        fresh.len() == split_tree::companion_count(tree, PaneId(agent)),
        other != agent,
        !fresh.contains(Some(PaneId(other))),
    ensures
        ({
            let t = s.with_restored(agent, tree, fresh);
            &&& t.trees.dom().contains(agent)
            &&& fresh.contains(Some(p)) ==> t.owner.dom().contains(p.0) && t.owner[p.0] == agent
            &&& (forall|k: int| 0 <= k < fresh.len() ==> (#[trigger] fresh[k]) is Some)
                ==> split_tree::dividers(t.trees[agent]) == split_tree::dividers(tree)
            &&& split_tree::dividers(t.trees[agent]).to_multiset().subset_of(
                split_tree::dividers(tree).to_multiset(),
            )
            &&& agree_on(s, t, other)
            &&& (t.panes, t.workspaces, t.agents, t.attention, t.terms) == (
                s.panes,
                s.workspaces,
                s.agents,
                s.attention,
                s.terms,
            )
        }),
{
    let t = s.with_restored(agent, tree, fresh);
    split_tree::law_rebuilding_keeps_the_dividers(tree, PaneId(agent), fresh, s.next_split as nat);
    if split_tree::rebuilt(tree, PaneId(agent), fresh, s.next_split as nat).0 is None {
        let none = split_tree::dividers(PaneTree::Leaf { pane: PaneId(agent) });
        broadcast use vstd::seq_lib::group_to_multiset_ensures;

        assert(none.to_multiset().len() == 0);
        assert(none.to_multiset() =~= vstd::multiset::Multiset::empty());
    }
    if fresh.contains(Some(p)) {
        assert(p == PaneId(p.0));
    }
}

/// A daemon is made as the user has configured it: its panes are as wide and as high as the file says, its
/// shell, its socket for hooks and its worktrees are those of the variables where they are set, and projects
/// are checked against the directory that worktrees are made in. It begins without panes, and with the agents
/// that were recorded.
pub proof fn law_a_daemon_is_made_as_configured(
    d: Daemon,
    c: Config,
    f: FileConfig,
    env: Vars,
    passwd: Option<Seq<char>>,
    agents: Option<Vec<AgentRecord>>,
    projects: Option<Vec<ProjectRecord>>,
    profiles: Option<Vec<AgentProfile>>,
)
    requires
        c.is_resolved(f, env, passwd),
        d.is_configured(c, env, agents, projects, profiles),
    ensures
        f.pane matches Some(t) ==> {
            &&& t.cols matches Some(n) ==> d.settings.default_cols == n
            &&& t.rows matches Some(n) ==> d.settings.default_rows == n
        },
        is_given(env, "SHELL"@) ==> Some(d.settings.shell@) == env.var("SHELL"@),
        env.var("CLOWDER_HOOK_SOCK"@) is Some ==> Some(d.settings.hook_sock@) == env.var(
            "CLOWDER_HOOK_SOCK"@,
        ),
        is_given(env, "CLOWDER_WORKTREE_BASE"@) ==> Some(d.settings.worktrees.root()) == env.var(
            "CLOWDER_WORKTREE_BASE"@,
        ),
        d.projects.worktrees().root() == d.settings.worktrees.root(),
        d.state().panes == Set::<u64>::empty(),
        agents is None ==> d.registry.rows().len() == 0,
        agents matches Some(v) ==> d.registry.rows() == v@,
        is_given(env, "CLOWDER_STATE_FILE"@) ==> Some(d.registry.file()) == env.var("CLOWDER_STATE_FILE"@),
        is_given(env, "CLOWDER_PROJECTS_FILE"@) ==> Some(d.projects.file()) == env.var(
            "CLOWDER_PROJECTS_FILE"@,
        ),
        is_given(env, "CLOWDER_AGENT_PROFILES_FILE"@) ==> Some(d.profiles.file()) == env.var(
            "CLOWDER_AGENT_PROFILES_FILE"@,
        ),
{
}

/// A daemon that starts takes every recorded agent up again, each as it was recorded, and no new pane gets the
/// number of one of them.
pub proof fn law_a_start_takes_up_every_record(
    before: Daemon,
    after: Daemon,
    records: Vec<AgentRecord>,
    k: int,
)
    requires
        after.is_reconciled(before, records),
        0 <= k < before.registry.rows().len(),
    ensures
        records@.len() == before.registry.rows().len(),
        records@[k].agent_id == before.registry.rows()[k].agent_id,
        records@[k].worktree_path@ == before.registry.rows()[k].worktree_path@,
        records@[k].project@ == before.registry.rows()[k].project@,
        records@[k].agent_id < after.state().next_id,
        after.registry == before.registry,
        after.state().panes == before.state().panes,
{
    assert(records@[k].same_as(before.registry.rows()[k]));
}

/// A daemon that stops ends every pane that there is, each once and no other, and keeps its agents on record
/// and their worktrees.
pub proof fn law_a_stop_ends_every_pane(before: Daemon, after: Daemon, panes: Vec<PaneId>, n: u64)
    requires
        after.is_shut_down(before, panes),
    ensures
        panes@.contains(PaneId(n)) <==> before.state().panes.contains(n),
        panes@.no_duplicates(),
        !after.state().panes.contains(n),
        after.registry == before.registry,
        after.state().workspaces == before.state().workspaces,
{
}

} // verus!
