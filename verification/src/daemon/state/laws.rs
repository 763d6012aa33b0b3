//! What holds of the panes whatever happens to them.

use vstd::prelude::*;

use crate::daemon::registry::{row_of, AgentRecord};
use crate::daemon::split_tree;
use crate::daemon::split_tree::{
    companion_count, leaf_seq, rebuilt, restored_leaves, split_at, split_count, split_seq, with_ratio,
    without_leaf,
};
use crate::daemon::state::agents::restart_refusal;
use crate::daemon::state::{numbers, AgentMeta, DaemonState};
use crate::path::meaning;
use crate::proto::control::{PaneTree, Ratio, SplitDirection, SplitId};
use crate::proto::message::{AttentionState, PaneId};
use crate::workspace::kind::Workspace;

verus! {

impl DaemonState {
    /// The layout around a root holds the root, holds no pane twice, and holds panes of that root alone.
    pub open spec fn layout_valid(self, root: u64) -> bool {
        let panes = leaf_seq(self.trees[root]);
        &&& panes.no_duplicates()
        &&& panes.contains(PaneId(root))
        &&& forall|p: PaneId| #[trigger]
            panes.contains(p) ==> self.owner.dom().contains(p.0) && self.owner[p.0] == root
    }

    /// The splits around a root have different numbers, all of them given out before.
    pub open spec fn splits_valid(self, root: u64) -> bool {
        let splits = split_seq(self.trees[root]);
        &&& splits.no_duplicates()
        &&& forall|x: SplitId| #[trigger] splits.contains(x) ==> x.0 < self.next_split
    }

    /// What holds of the panes from the start, and stays so.
    pub open spec fn valid(self) -> bool {
        &&& forall|r: u64| #[trigger] self.trees.dom().contains(r) ==> self.layout_valid(r)
        &&& forall|r: u64| #[trigger] self.trees.dom().contains(r) ==> self.splits_valid(r)
        &&& forall|a: u64, b: u64, x: SplitId|
            a != b && #[trigger] self.trees.dom().contains(a) && #[trigger] self.trees.dom().contains(b)
                && #[trigger] split_seq(self.trees[a]).contains(x) ==> !split_seq(
                self.trees[b],
            ).contains(x)
        &&& forall|p: u64| #[trigger] self.owner.dom().contains(p) ==> p < self.next_id
        &&& forall|p: u64| #[trigger] self.terms.dom().contains(p) ==> self.trees.dom().contains(p)
        &&& forall|place|
            #[trigger] self.project_terms.dom().contains(place) ==> self.terms.dom().contains(
                self.project_terms[place],
            ) && meaning(self.terms[self.project_terms[place]]@) == place
    }

    /// The number has been given out, and no pane of a layout has it.
    pub open spec fn unused(self, pane: u64) -> bool {
        !self.owner.dom().contains(pane) && pane < self.next_id
    }
}

proof fn lemma_no_duplicates_parts<A>(a: Seq<A>, b: Seq<A>)
    ensures
        (a + b).no_duplicates() <==> a.no_duplicates() && b.no_duplicates() && forall|x: A|
            #[trigger] a.contains(x) ==> !b.contains(x),
        forall|x: A| #[trigger] (a + b).contains(x) <==> a.contains(x) || b.contains(x),
{
    let c = a + b;
    assert forall|x: A| #[trigger] c.contains(x) <==> a.contains(x) || b.contains(x) by {
        if a.contains(x) {
            let k = choose|k: int| 0 <= k < a.len() && a[k] == x;
            assert(c[k] == x);
        }
        if b.contains(x) {
            let k = choose|k: int| 0 <= k < b.len() && b[k] == x;
            assert(c[a.len() + k] == x);
        }
        if c.contains(x) {
            let k = choose|k: int| 0 <= k < c.len() && c[k] == x;
            if k < a.len() {
                assert(a[k] == x);
            } else {
                assert(b[k - a.len()] == x);
            }
        }
    }
    if c.no_duplicates() {
        assert forall|i: int, j: int| 0 <= i < a.len() && 0 <= j < a.len() && i != j implies a[i]
            != a[j] by {
            assert(c[i] == a[i] && c[j] == a[j]);
        }
        assert forall|i: int, j: int| 0 <= i < b.len() && 0 <= j < b.len() && i != j implies b[i]
            != b[j] by {
            assert(c[a.len() + i] == b[i] && c[a.len() + j] == b[j]);
        }
        assert forall|x: A| #[trigger] a.contains(x) implies !b.contains(x) by {
            if b.contains(x) {
                let i = choose|i: int| 0 <= i < a.len() && a[i] == x;
                let j = choose|j: int| 0 <= j < b.len() && b[j] == x;
                assert(c[i] == c[a.len() + j]);
            }
        }
    }
    if a.no_duplicates() && b.no_duplicates() && (forall|x: A| #[trigger] a.contains(x) ==> !b.contains(
        x,
    )) {
        assert forall|i: int, j: int| 0 <= i < c.len() && 0 <= j < c.len() && i != j implies c[i]
            != c[j] by {
            if i < a.len() && j < a.len() {
                assert(a[i] != a[j]);
            } else if i >= a.len() && j >= a.len() {
                assert(b[i - a.len()] != b[j - a.len()]);
            } else if i < a.len() {
                assert(a.contains(a[i]));
                assert(b.contains(b[j - a.len()]));
            } else {
                assert(a.contains(a[j]));
                assert(b.contains(b[i - a.len()]));
            }
        }
    }
}

/// The splits of a split: its own number, and those of its two parts.
proof fn lemma_split_parts(id: SplitId, first: PaneTree, second: PaneTree)
    ensures
        ({
            let all = seq![id] + split_seq(first) + split_seq(second);
            &&& all.no_duplicates() <==> split_seq(first).no_duplicates() && split_seq(
                second,
            ).no_duplicates() && !split_seq(first).contains(id) && !split_seq(second).contains(id) && (
            forall|x: SplitId| #[trigger] split_seq(first).contains(x) ==> !split_seq(second).contains(x))
            &&& forall|x: SplitId| #[trigger]
                all.contains(x) <==> x == id || split_seq(first).contains(x) || split_seq(second).contains(
                    x,
                )
        }),
{
    let own = seq![id];
    let head = own + split_seq(first);
    lemma_no_duplicates_parts(own, split_seq(first));
    lemma_no_duplicates_parts(head, split_seq(second));
    assert(own[0] == id);
    assert(own.contains(id));
    assert(forall|x: SplitId| #[trigger] own.contains(x) ==> x == id);
    assert(head.contains(id));
    assert forall|x: SplitId| #[trigger] split_seq(first).contains(x) implies head.contains(x) by {}
}

proof fn lemma_split_at_splits(
    tree: PaneTree,
    target: PaneId,
    companion: PaneId,
    direction: SplitDirection,
    id: SplitId,
)
    requires
        split_seq(tree).no_duplicates(),
        !split_seq(tree).contains(id),
    ensures
        split_at(tree, target, companion, direction, id) matches Some(t) ==> {
            &&& split_seq(t).no_duplicates()
            &&& forall|x: SplitId| #[trigger]
                split_seq(t).contains(x) <==> split_seq(tree).contains(x) || x == id
        },
    decreases tree,
{
    match tree {
        PaneTree::Leaf { pane } => {
            let t = split_tree::halves(target, companion, direction, id);
            let empty = Seq::<SplitId>::empty();
            let l = PaneTree::Leaf { pane: target };
            let r = PaneTree::Leaf { pane: companion };
            assert(split_seq(l) =~= empty);
            assert(split_seq(r) =~= empty);
            lemma_split_parts(id, l, r);
            assert(split_seq(t) == seq![id] + split_seq(l) + split_seq(r));
        },
        PaneTree::Split { id: own, axis, ratio, first, second } => {
            lemma_split_parts(own, *first, *second);
            assert(split_seq(tree) == seq![own] + split_seq(*first) + split_seq(*second));
            lemma_split_at_splits(*first, target, companion, direction, id);
            lemma_split_at_splits(*second, target, companion, direction, id);
            match split_at(*first, target, companion, direction, id) {
                Some(f) => {
                    let t = PaneTree::Split { id: own, axis, ratio, first: Box::new(f), second };
                    lemma_split_parts(own, f, *second);
                    assert(split_seq(t) == seq![own] + split_seq(f) + split_seq(*second));
                },
                None => match split_at(*second, target, companion, direction, id) {
                    Some(s) => {
                        let t = PaneTree::Split { id: own, axis, ratio, first, second: Box::new(s) };
                        lemma_split_parts(own, *first, s);
                        assert(split_seq(t) == seq![own] + split_seq(*first) + split_seq(s));
                    },
                    None => {},
                },
            }
        },
    }
}

proof fn lemma_without_leaf_splits(tree: PaneTree, pane: PaneId)
    requires
        split_seq(tree).no_duplicates(),
    ensures
        without_leaf(tree, pane) matches Some(t) ==> {
            &&& split_seq(t).no_duplicates()
            &&& forall|x: SplitId| #[trigger] split_seq(t).contains(x) ==> split_seq(tree).contains(x)
        },
    decreases tree,
{
    match tree {
        PaneTree::Leaf { pane: p } => {},
        PaneTree::Split { id, axis, ratio, first, second } => {
            lemma_split_parts(id, *first, *second);
            assert(split_seq(tree) == seq![id] + split_seq(*first) + split_seq(*second));
            lemma_without_leaf_splits(*first, pane);
            lemma_without_leaf_splits(*second, pane);
            if *first != (PaneTree::Leaf { pane }) {
                match without_leaf(*first, pane) {
                    Some(f) => {
                        let t = PaneTree::Split { id, axis, ratio, first: Box::new(f), second };
                        lemma_split_parts(id, f, *second);
                        assert(split_seq(t) == seq![id] + split_seq(f) + split_seq(*second));
                    },
                    None => if *second != (PaneTree::Leaf { pane }) {
                        match without_leaf(*second, pane) {
                            Some(s) => {
                                let t = PaneTree::Split { id, axis, ratio, first, second: Box::new(s) };
                                lemma_split_parts(id, *first, s);
                                assert(split_seq(t) == seq![id] + split_seq(*first) + split_seq(s));
                            },
                            None => {},
                        }
                    },
                }
            }
        },
    }
}

/// A rebuilt layout has splits of its own, numbered from `next` on.
proof fn lemma_rebuilt_splits(tree: PaneTree, agent: PaneId, fresh: Seq<Option<PaneId>>, next: nat)
    requires
        next + split_count(tree) <= u64::MAX,
    ensures
        rebuilt(tree, agent, fresh, next).0 matches Some(t) ==> {
            &&& split_seq(t).no_duplicates()
            &&& forall|x: SplitId| #[trigger]
                split_seq(t).contains(x) ==> next <= x.0 < rebuilt(tree, agent, fresh, next).1
        },
        next <= rebuilt(tree, agent, fresh, next).1 <= next + split_count(tree),
    decreases tree,
{
    split_tree::lemma_rebuilt_next(tree, agent, fresh, next);
    match tree {
        PaneTree::Leaf { pane } => {
            match rebuilt(tree, agent, fresh, next).0 {
                Some(t) => {
                    assert(split_seq(t) =~= Seq::<SplitId>::empty());
                },
                None => {},
            }
        },
        PaneTree::Split { id, axis, ratio, first, second } => {
            let n = companion_count(*first, agent) as int;
            let (f, next1) = rebuilt(*first, agent, fresh.take(n), next);
            lemma_rebuilt_splits(*first, agent, fresh.take(n), next);
            let (s, next2) = rebuilt(*second, agent, fresh.skip(n), next1);
            lemma_rebuilt_splits(*second, agent, fresh.skip(n), next1);
            if f is Some && s is Some {
                let t = rebuilt(tree, agent, fresh, next).0->0;
                lemma_split_parts(t->id, f->0, s->0);
                assert(split_seq(t) == seq![t->id] + split_seq(f->0) + split_seq(s->0));
            }
        },
    }
}

/// A daemon that has just started is valid.
pub proof fn law_start_is_valid()
    ensures
        DaemonState::empty().valid(),
{
}

/// Numbers that are given out stay out of use until a pane has them.
pub proof fn law_a_new_number_is_unused(s: DaemonState, next: u64)
    requires
        s.valid(),
        s.next_id < next,
    ensures
        ({
            let t = DaemonState { next_id: next, ..s };
            t.valid() && t.unused(s.next_id)
        }),
{
    let t = DaemonState { next_id: next, ..s };
    assert forall|r: u64| #[trigger] t.trees.dom().contains(r) implies t.layout_valid(r) by {
        assert(s.layout_valid(r));
    }
    assert forall|r: u64| #[trigger] t.trees.dom().contains(r) implies t.splits_valid(r) by {
        assert(s.splits_valid(r));
    }
}

proof fn lemma_with_root_valid(s: DaemonState, pane: u64)
    requires
        s.valid(),
        s.unused(pane),
    ensures
        s.with_root(pane).valid(),
        !s.trees.dom().contains(pane),
{
    let t = s.with_root(pane);
    if s.trees.dom().contains(pane) {
        assert(s.layout_valid(pane));
        assert(leaf_seq(s.trees[pane]).contains(PaneId(pane)));
    }
    let leaf = PaneTree::Leaf { pane: PaneId(pane) };
    assert(leaf_seq(leaf) =~= seq![PaneId(pane)]);
    assert(seq![PaneId(pane)][0] == PaneId(pane));
    assert(split_seq(leaf) =~= Seq::<SplitId>::empty());
    assert forall|r: u64| #[trigger] t.trees.dom().contains(r) implies t.layout_valid(r) by {
        if r != pane {
            assert(s.layout_valid(r));
        } else {
            assert(leaf_seq(t.trees[r]).contains(PaneId(pane)));
        }
    }
    assert forall|r: u64| #[trigger] t.trees.dom().contains(r) implies t.splits_valid(r) by {
        if r != pane {
            assert(s.splits_valid(r));
        }
    }
    assert forall|a: u64, b: u64, x: SplitId|
        a != b && #[trigger] t.trees.dom().contains(a) && #[trigger] t.trees.dom().contains(b)
            && #[trigger] split_seq(t.trees[a]).contains(x) implies !split_seq(t.trees[b]).contains(x) by {
        if b != pane {
            assert(s.trees.dom().contains(a) && s.trees.dom().contains(b));
        }
    }
}

/// Spawning an agent keeps the panes valid.
pub proof fn law_spawning_keeps_valid(
    s: DaemonState,
    pane: u64,
    ws: Workspace,
    meta: AgentMeta,
    hooks: bool,
)
    requires
        s.valid(),
        s.unused(pane),
    ensures
        s.with_agent(pane, ws, meta, hooks).valid(),
{
    lemma_with_root_valid(s, pane);
    let t = s.with_agent(pane, ws, meta, hooks);
    lemma_same_layouts(s.with_root(pane), t);
}

/// What the panes are valid by stands in five of the maps and the two numbers.
pub(crate) proof fn lemma_same_layouts(s: DaemonState, t: DaemonState)
    requires
        s.valid(),
        t.trees == s.trees,
        t.owner == s.owner,
        t.terms == s.terms,
        t.project_terms == s.project_terms,
        t.next_id == s.next_id,
        t.next_split == s.next_split,
    ensures
        t.valid(),
{
    assert forall|r: u64| #[trigger] t.trees.dom().contains(r) implies t.layout_valid(r) by {
        assert(s.layout_valid(r));
    }
    assert forall|r: u64| #[trigger] t.trees.dom().contains(r) implies t.splits_valid(r) by {
        assert(s.splits_valid(r));
    }
}

/// Restarting an agent keeps its layout as it was, with the companions in it, and the panes valid.
pub proof fn law_restarting_keeps_the_layout(
    s: DaemonState,
    pane: u64,
    ws: Workspace,
    meta: AgentMeta,
    hooks: bool,
)
    requires
        s.valid(),
        s.trees.dom().contains(pane),
    ensures
        ({
            let t = s.with_agent_again(pane, ws, meta, hooks, Some(s.trees[pane]));
            &&& t.valid()
            &&& t.trees == s.trees
            &&& t.owner == s.owner
            &&& t.companions(pane) == s.companions(pane)
        }),
{
    let t = s.with_agent_again(pane, ws, meta, hooks, Some(s.trees[pane]));
    assert(s.layout_valid(pane));
    assert(leaf_seq(s.trees[pane]).contains(PaneId(pane)));
    assert(t.trees =~= s.trees);
    assert(t.owner =~= s.owner);
    lemma_same_layouts(s, t);
}

/// Splitting a pane keeps the panes valid.
pub proof fn law_splitting_keeps_valid(
    s: DaemonState,
    root: u64,
    target: PaneId,
    companion: PaneId,
    direction: SplitDirection,
)
    requires
        s.valid(),
        s.trees.dom().contains(root),
        s.unused(companion.0),
        s.next_split < u64::MAX,
    ensures
        s.with_split(root, target, companion, direction).valid(),
{
    let t = s.with_split(root, target, companion, direction);
    let id = SplitId(s.next_split);
    let old_tree = s.trees[root];
    assert(s.layout_valid(root));
    assert(s.splits_valid(root));
    if split_seq(old_tree).contains(id) {
        assert(id.0 < s.next_split);
    }
    lemma_split_at_splits(old_tree, target, companion, direction, id);
    split_tree::law_split_adds_one_leaf(old_tree, target, companion, direction, id);
    if leaf_seq(old_tree).contains(companion) {
        assert(s.owner.dom().contains(companion.0));
    }
    match split_at(old_tree, target, companion, direction, id) {
        Some(new_tree) => {
            let a = leaf_seq(old_tree);
            let b = leaf_seq(new_tree);
            let k = choose|k: int|
                {
                    &&& 0 <= k < a.len()
                    &&& #[trigger] a[k] == target
                    &&& b == a.insert(k + 1, companion)
                };
            lemma_inserted(a, k + 1, companion);
            assert(t.trees == s.trees.insert(root, new_tree));
        },
        None => {},
    }
    assert forall|r: u64| #[trigger] t.trees.dom().contains(r) implies t.layout_valid(r) by {
        assert(s.layout_valid(r));
        if r != root {
            assert forall|p: PaneId| #[trigger] leaf_seq(t.trees[r]).contains(p) implies p
                != companion by {
                assert(s.owner.dom().contains(p.0));
            }
        }
    }
    assert forall|r: u64| #[trigger] t.trees.dom().contains(r) implies t.splits_valid(r) by {
        assert(s.splits_valid(r));
    }
    assert forall|a: u64, b: u64, x: SplitId|
        a != b && #[trigger] t.trees.dom().contains(a) && #[trigger] t.trees.dom().contains(b)
            && #[trigger] split_seq(t.trees[a]).contains(x) implies !split_seq(t.trees[b]).contains(x) by {
        assert(s.trees.dom().contains(a) && s.trees.dom().contains(b));
        assert(s.splits_valid(a) && s.splits_valid(b));
        if split_seq(t.trees[b]).contains(x) {
            if x == id {
                if a != root {
                    assert(split_seq(s.trees[a]).contains(x));
                } else {
                    assert(split_seq(s.trees[b]).contains(x));
                }
            } else {
                assert(split_seq(s.trees[a]).contains(x));
                assert(split_seq(s.trees[b]).contains(x));
            }
        }
    }
}

proof fn lemma_inserted<A>(a: Seq<A>, k: int, x: A)
    requires
        0 <= k <= a.len(),
    ensures
        forall|y: A| #[trigger] a.insert(k, x).contains(y) <==> a.contains(y) || y == x,
        a.no_duplicates() && !a.contains(x) ==> a.insert(k, x).no_duplicates(),
{
    let b = a.insert(k, x);
    let l = a.take(k);
    let r = a.skip(k);
    assert(b =~= l + (seq![x] + r));
    assert(a =~= l + r);
    lemma_no_duplicates_parts(l, r);
    lemma_no_duplicates_parts(seq![x], r);
    lemma_no_duplicates_parts(l, seq![x] + r);
    assert(seq![x][0] == x);
    assert(seq![x].contains(x));
    assert(forall|y: A| #[trigger] seq![x].contains(y) ==> y == x);
}

proof fn lemma_removed<A>(a: Seq<A>, k: int)
    requires
        0 <= k < a.len(),
        a.no_duplicates(),
    ensures
        forall|y: A| #[trigger] a.remove(k).contains(y) <==> a.contains(y) && y != a[k],
        a.remove(k).no_duplicates(),
{
    let b = a.remove(k);
    let l = a.take(k);
    let r = a.skip(k + 1);
    let x = a[k];
    assert(b =~= l + r);
    assert(a =~= l + (seq![x] + r));
    lemma_no_duplicates_parts(l, r);
    lemma_no_duplicates_parts(seq![x], r);
    lemma_no_duplicates_parts(l, seq![x] + r);
    assert(seq![x][0] == x);
    assert(seq![x].contains(x));
    assert((seq![x] + r).contains(x));
    assert(forall|y: A| #[trigger] seq![x].contains(y) ==> y == x);
}

/// Closing a companion, or its end, keeps the panes valid. The companion is known no more, so a second
/// time nothing happens.
pub proof fn law_closing_keeps_valid(s: DaemonState, pane: u64)
    requires
        s.valid(),
        s.owner.dom().contains(pane),
        s.owner[pane] != pane,
    ensures
        ({
            let t = s.without_companion(pane, s.owner[pane]);
            &&& t.valid()
            &&& !t.owner.dom().contains(pane)
            &&& !t.panes.contains(pane)
            &&& t.trees.dom() == s.trees.dom()
        }),
{
    let root = s.owner[pane];
    let t = s.without_companion(pane, root);
    let gone = PaneId(pane);
    if s.trees.dom().contains(root) {
        let old_tree = s.trees[root];
        let a = leaf_seq(old_tree);
        assert(s.layout_valid(root));
        assert(s.splits_valid(root));
        lemma_without_leaf_splits(old_tree, gone);
        split_tree::law_removing_takes_one_leaf(old_tree, gone);
        match without_leaf(old_tree, gone) {
            Some(new_tree) => {
                let k = choose|k: int|
                    {
                        &&& 0 <= k < a.len()
                        &&& #[trigger] a[k] == gone
                        &&& leaf_seq(new_tree) == a.remove(k)
                    };
                lemma_removed(a, k);
            },
            None => {
                if a.contains(gone) {
                    match old_tree {
                        PaneTree::Leaf { pane: p } => {
                            assert(a =~= seq![p]);
                            assert(a.contains(PaneId(root)));
                        },
                        PaneTree::Split { .. } => {
                            split_tree::law_present_leaf_is_removed(old_tree, gone);
                        },
                    }
                }
            },
        }
    }
    assert(t.trees.dom() =~= s.trees.dom());
    assert forall|r: u64| #[trigger] t.trees.dom().contains(r) implies t.layout_valid(r) by {
        assert(s.layout_valid(r));
        let panes = leaf_seq(t.trees[r]);
        assert forall|p: PaneId| #[trigger] panes.contains(p) implies t.owner.dom().contains(p.0)
            && t.owner[p.0] == r by {
            if r != root {
                assert(s.owner[p.0] == r);
            } else {
                assert(leaf_seq(s.trees[r]).contains(p));
            }
        }
    }
    assert forall|r: u64| #[trigger] t.trees.dom().contains(r) implies t.splits_valid(r) by {
        assert(s.splits_valid(r));
    }
    assert forall|a: u64, b: u64, x: SplitId|
        a != b && #[trigger] t.trees.dom().contains(a) && #[trigger] t.trees.dom().contains(b)
            && #[trigger] split_seq(t.trees[a]).contains(x) implies !split_seq(t.trees[b]).contains(x) by {
        assert(s.trees.dom().contains(a) && s.trees.dom().contains(b));
        assert(split_seq(s.trees[a]).contains(x));
        if split_seq(t.trees[b]).contains(x) {
            assert(split_seq(s.trees[b]).contains(x));
        }
    }
}

/// Closing the companion that a split has brought gives the layout back as it was.
pub proof fn law_closing_undoes_splitting(
    s: DaemonState,
    root: u64,
    target: PaneId,
    companion: PaneId,
    direction: SplitDirection,
)
    requires
        s.valid(),
        s.trees.dom().contains(root),
        leaf_seq(s.trees[root]).contains(target),
        s.unused(companion.0),
    ensures
        ({
            let t = s.with_split(root, target, companion, direction).without_companion(companion.0, root);
            t.trees == s.trees && t.owner == s.owner
        }),
{
    let u = s.with_split(root, target, companion, direction);
    let t = u.without_companion(companion.0, root);
    let tree = s.trees[root];
    let id = SplitId(s.next_split);
    assert(s.layout_valid(root));
    if leaf_seq(tree).contains(companion) {
        assert(s.owner.dom().contains(companion.0));
    }
    split_tree::law_removing_undoes_splitting(tree, target, companion, direction, id);
    split_tree::law_split_adds_one_leaf(tree, target, companion, direction, id);
    assert(t.owner =~= s.owner);
    assert(t.trees =~= s.trees);
}

/// Removing the panes of one root, and that root, keeps the others valid.
proof fn lemma_root_gone(s: DaemonState, root: u64, t: DaemonState)
    requires
        s.valid(),
        s.trees.dom().contains(root),
        t.trees == s.trees.remove(root),
        t.owner == s.owner.remove_keys(numbers(s.companions(root))).remove(root),
        t.next_id == s.next_id,
        t.next_split == s.next_split,
        forall|p: u64| #[trigger] t.terms.dom().contains(p) ==> t.trees.dom().contains(p),
        forall|place|
            #[trigger] t.project_terms.dom().contains(place) ==> t.terms.dom().contains(
                t.project_terms[place],
            ) && meaning(t.terms[t.project_terms[place]]@) == place,
    ensures
        t.valid(),
        forall|p: PaneId| #[trigger] leaf_seq(s.trees[root]).contains(p) ==> !t.owner.dom().contains(p.0),
{
    let panes = leaf_seq(s.trees[root]);
    let other = |p: PaneId| p != PaneId(root);
    let companions = s.companions(root);
    assert(s.layout_valid(root));
    assert forall|p: PaneId| #[trigger] companions.contains(p) <==> panes.contains(p) && p != PaneId(
        root,
    ) by {
        lemma_filtered(panes, other, p);
    }
    assert forall|p: PaneId| #[trigger] panes.contains(p) implies !t.owner.dom().contains(p.0) by {
        if p != PaneId(root) {
            assert(companions.contains(p));
            assert(numbers(companions).contains(p.0));
        }
    }
    assert forall|r: u64| #[trigger] t.trees.dom().contains(r) implies t.layout_valid(r) by {
        assert(s.layout_valid(r));
        assert forall|p: PaneId| #[trigger] leaf_seq(t.trees[r]).contains(p) implies t.owner.dom().contains(
            p.0,
        ) && t.owner[p.0] == r by {
            assert(s.owner[p.0] == r);
            if numbers(companions).contains(p.0) {
                assert(companions.contains(p));
                assert(panes.contains(p));
            }
            if p.0 == root {
                assert(panes.contains(PaneId(root)));
            }
        }
    }
    assert forall|r: u64| #[trigger] t.trees.dom().contains(r) implies t.splits_valid(r) by {
        assert(s.splits_valid(r));
    }
}

proof fn lemma_filtered<A>(a: Seq<A>, keep: spec_fn(A) -> bool, x: A)
    ensures
        a.filter(keep).contains(x) <==> a.contains(x) && keep(x),
    decreases a.len(),
{
    reveal(Seq::filter);
    if a.len() > 0 {
        let b = a.drop_last();
        lemma_filtered(b, keep, x);
        let fb = b.filter(keep);
        if b.contains(x) {
            let k = choose|k: int| 0 <= k < b.len() && b[k] == x;
            assert(a[k] == x);
        }
        if a.contains(x) && !b.contains(x) {
            let k = choose|k: int| 0 <= k < a.len() && a[k] == x;
            if k < b.len() {
                assert(b[k] == x);
            }
        }
        if keep(a.last()) {
            let f = fb.push(a.last());
            assert(f[fb.len() as int] == a.last());
            if fb.contains(x) {
                let k = choose|k: int| 0 <= k < fb.len() && fb[k] == x;
                assert(f[k] == x);
            }
            if f.contains(x) && !fb.contains(x) {
                let k = choose|k: int| 0 <= k < f.len() && f[k] == x;
                if k < fb.len() {
                    assert(fb[k] == x);
                }
            }
        }
        assert(a[a.len() - 1] == a.last());
    }
}

/// When an agent goes, every pane of its layout goes, and the panes stay valid.
pub proof fn law_an_agent_leaves_no_pane(s: DaemonState, pane: u64)
    requires
        s.valid(),
        s.trees.dom().contains(pane),
        !s.terms.dom().contains(pane),
    ensures
        ({
            let t = s.with_agent_ended(pane).without_agent(pane);
            &&& s.with_agent_ended(pane).valid()
            &&& t.valid()
            &&& !t.agents.dom().contains(pane)
            &&& !t.attention.dom().contains(pane)
            &&& forall|p: PaneId| #[trigger]
                leaf_seq(s.trees[pane]).contains(p) ==> !t.panes.contains(p.0)
                    && !t.owner.dom().contains(p.0)
        }),
{
    let u = s.with_agent_ended(pane);
    let t = u.without_agent(pane);
    lemma_root_gone(s, pane, u);
    lemma_same_layouts(u, t);
    let panes = leaf_seq(s.trees[pane]);
    let other = |p: PaneId| p != PaneId(pane);
    assert forall|p: PaneId| #[trigger] panes.contains(p) implies !t.panes.contains(p.0)
        && !t.owner.dom().contains(p.0) by {
        if p != PaneId(pane) {
            lemma_filtered(panes, other, p);
            assert(s.companions(pane).contains(p));
            assert(numbers(s.companions(pane)).contains(p.0));
        }
    }
}

/// When a project terminal goes, every pane of its layout goes, the panes stay valid, and a second time
/// nothing happens.
pub proof fn law_a_terminal_leaves_no_pane(s: DaemonState, pane: u64)
    requires
        s.valid(),
        s.terms.dom().contains(pane),
    ensures
        ({
            let t = s.without_terminal(pane);
            &&& t.valid()
            &&& t.without_terminal(pane) == t
            &&& t.terminal_ends(PaneId(pane)).len() == 0
            &&& forall|p: PaneId| #[trigger]
                leaf_seq(s.trees[pane]).contains(p) ==> !t.panes.contains(p.0)
                    && !t.owner.dom().contains(p.0)
        }),
{
    let t = s.without_terminal(pane);
    assert(s.trees.dom().contains(pane));
    assert forall|place| #[trigger]
        t.project_terms.dom().contains(place) implies t.terms.dom().contains(t.project_terms[place])
        && meaning(t.terms[t.project_terms[place]]@) == place by {
        assert(s.project_terms.dom().contains(place));
        if s.project_terms[place] == pane {
            assert(meaning(s.terms[pane]@) == place);
        }
    }
    lemma_root_gone(s, pane, t);
    let panes = leaf_seq(s.trees[pane]);
    let other = |p: PaneId| p != PaneId(pane);
    assert forall|p: PaneId| #[trigger] panes.contains(p) implies !t.panes.contains(p.0)
        && !t.owner.dom().contains(p.0) by {
        if p != PaneId(pane) {
            lemma_filtered(panes, other, p);
            assert(s.companions(pane).contains(p));
            assert(numbers(s.companions(pane)).contains(p.0));
        }
    }
}

/// A project whose terminal went has no terminal.
pub proof fn law_a_removed_project_has_no_terminal(s: DaemonState, root: Seq<char>)
    requires
        s.valid(),
        s.project_terms.dom().contains(meaning(root)),
    ensures
        !s.without_terminal(s.project_terms[meaning(root)]).project_terms.dom().contains(meaning(root)),
{
}

/// Opening a terminal keeps the panes valid.
pub proof fn law_opening_keeps_valid(s: DaemonState, pane: u64, root: String)
    requires
        s.valid(),
        s.unused(pane),
        !s.project_terms.dom().contains(meaning(root@)),
    ensures
        s.with_terminal(pane, root).valid(),
{
    lemma_with_root_valid(s, pane);
    let u = s.with_root(pane);
    let t = s.with_terminal(pane, root);
    assert forall|r: u64| #[trigger] t.trees.dom().contains(r) implies t.layout_valid(r) by {
        assert(u.layout_valid(r));
    }
    assert forall|r: u64| #[trigger] t.trees.dom().contains(r) implies t.splits_valid(r) by {
        assert(u.splits_valid(r));
    }
    assert forall|place| #[trigger]
        t.project_terms.dom().contains(place) implies t.terms.dom().contains(t.project_terms[place])
        && meaning(t.terms[t.project_terms[place]]@) == place by {
        if place != meaning(root@) {
            assert(s.project_terms.dom().contains(place));
            let p = s.project_terms[place];
            assert(s.terms.dom().contains(p));
            assert(p != pane);
        }
    }
}

/// Moving a divider moves no pane, and keeps the panes valid.
pub proof fn law_moving_a_divider_keeps_valid(s: DaemonState, root: u64, split: SplitId, ratio: Ratio)
    requires
        s.valid(),
        s.trees.dom().contains(root),
        with_ratio(s.trees[root], split, ratio) is Some,
    ensures
        ({
            let t = s.with_split_ratio(root, split, ratio);
            &&& t.valid()
            &&& leaf_seq(t.trees[root]) == leaf_seq(s.trees[root])
            &&& t.owner == s.owner
        }),
{
    let t = s.with_split_ratio(root, split, ratio);
    split_tree::law_ratio_keeps_the_shape(s.trees[root], split, ratio);
    assert forall|r: u64| #[trigger] t.trees.dom().contains(r) implies t.layout_valid(r) by {
        assert(s.layout_valid(r));
    }
    assert forall|r: u64| #[trigger] t.trees.dom().contains(r) implies t.splits_valid(r) by {
        assert(s.splits_valid(r));
    }
    assert forall|a: u64, b: u64, x: SplitId|
        a != b && #[trigger] t.trees.dom().contains(a) && #[trigger] t.trees.dom().contains(b)
            && #[trigger] split_seq(t.trees[a]).contains(x) implies !split_seq(t.trees[b]).contains(x) by {
        assert(s.trees.dom().contains(a) && s.trees.dom().contains(b));
        assert(split_seq(s.trees[a]).contains(x));
    }
}

/// A divider stands in one layout alone, so it does not matter in which order they are searched.
pub proof fn law_a_divider_stands_in_one_layout(
    s: DaemonState,
    a: u64,
    b: u64,
    split: SplitId,
    ratio: Ratio,
)
    requires
        s.valid(),
        s.trees.dom().contains(a),
        s.trees.dom().contains(b),
        with_ratio(s.trees[a], split, ratio) is Some,
        with_ratio(s.trees[b], split, ratio) is Some,
    ensures
        a == b,
{
    split_tree::law_ratio_keeps_the_shape(s.trees[a], split, ratio);
    split_tree::law_ratio_keeps_the_shape(s.trees[b], split, ratio);
    assert(split_seq(s.trees[a]).contains(split));
    assert(split_seq(s.trees[b]).contains(split));
}

/// An agent whose worktree could not be landed or discarded, and is still there, can be restarted.
pub proof fn law_a_failed_finish_can_be_restarted(s: DaemonState, rows: Seq<AgentRecord>, pane: u64)
    requires
        row_of(rows, pane, 0) is Some,
    ensures
        restart_refusal(
            s.with_agent_ended(pane).with_attention(pane, AttentionState::Exited),
            rows,
            pane,
        ) is None,
{
}

/// The panes of a rebuilt layout: the agent, and fresh ones, none of them twice.
proof fn lemma_restored_leaves(leaves: Seq<PaneId>, agent: PaneId, fresh: Seq<Option<PaneId>>)
    requires
        leaves.no_duplicates(),
        fresh.len() == leaves.filter(|p: PaneId| p != agent).len(),
        forall|i: int, j: int|
            0 <= i < j < fresh.len() && fresh[i] is Some ==> #[trigger] fresh[i] != #[trigger] fresh[j],
        !fresh.contains(Some(agent)),
    ensures
        restored_leaves(leaves, agent, fresh).no_duplicates(),
        forall|p: PaneId| #[trigger]
            restored_leaves(leaves, agent, fresh).contains(p) ==> fresh.contains(Some(p)) || (p == agent
                && leaves.contains(agent)),
        leaves.contains(agent) ==> restored_leaves(leaves, agent, fresh).contains(agent),
    decreases leaves.len(),
{
    let keep = |p: PaneId| p != agent;
    let out = restored_leaves(leaves, agent, fresh);
    if leaves.len() > 0 {
        let rest = leaves.drop_first();
        let one = seq![leaves[0]];
        assert(leaves =~= one + rest);
        lemma_no_duplicates_parts(one, rest);
        assert(one[0] == leaves[0]);
        assert(one.contains(leaves[0]));
        lemma_filter_first(leaves, keep);
        if leaves[0] == agent {
            lemma_restored_leaves(rest, agent, fresh);
            let tail = restored_leaves(rest, agent, fresh);
            lemma_no_duplicates_parts(seq![agent], tail);
            assert(seq![agent][0] == agent);
            assert(seq![agent].contains(agent));
            assert(forall|p: PaneId| #[trigger] seq![agent].contains(p) ==> p == agent);
            assert(!rest.contains(agent));
            assert(out =~= seq![agent] + tail);
        } else {
            let later = fresh.drop_first();
            assert forall|x: Option<PaneId>| #[trigger] later.contains(x) implies fresh.contains(x) by {
                let k = choose|k: int| 0 <= k < later.len() && later[k] == x;
                assert(fresh[k + 1] == x);
            }
            assert forall|i: int, j: int|
                0 <= i < j < later.len() && later[i] is Some implies #[trigger] later[i]
                != #[trigger] later[j] by {
                assert(fresh[i + 1] != fresh[j + 1]);
            }
            lemma_restored_leaves(rest, agent, later);
            let tail = restored_leaves(rest, agent, later);
            match fresh[0] {
                Some(p) => {
                    lemma_no_duplicates_parts(seq![p], tail);
                    assert(seq![p][0] == p);
                    assert(seq![p].contains(p));
                    assert(forall|q: PaneId| #[trigger] seq![p].contains(q) ==> q == p);
                    assert(fresh.contains(Some(p)));
                    assert(!later.contains(Some(p))) by {
                        if later.contains(Some(p)) {
                            let k = choose|k: int| 0 <= k < later.len() && later[k] == Some(p);
                            assert(fresh[0] != fresh[k + 1]);
                        }
                    }
                    assert(!tail.contains(p)) by {
                        if tail.contains(p) {
                            assert(p == agent);
                        }
                    }
                    assert(out =~= seq![p] + tail);
                },
                None => {
                    assert(out =~= tail);
                },
            }
        }
    }
}

proof fn lemma_filter_first<A>(a: Seq<A>, keep: spec_fn(A) -> bool)
    requires
        a.len() > 0,
    ensures
        a.filter(keep).len() == a.drop_first().filter(keep).len() + (if keep(a[0]) {
            1int
        } else {
            0int
        }),
    decreases a.len(),
{
    reveal(Seq::filter);
    if a.len() == 1 {
        assert(a.drop_last() =~= Seq::<A>::empty());
        assert(a.drop_first() =~= Seq::<A>::empty());
        assert(Seq::<A>::empty().filter(keep) =~= Seq::<A>::empty());
    } else {
        lemma_filter_first(a.drop_last(), keep);
        assert(a.drop_last().drop_first() =~= a.drop_first().drop_last());
        assert(a.drop_first().last() == a.last());
    }
}

/// Rebuilding a stored layout keeps the panes valid, where that layout held the agent and no pane twice
/// and the fresh companions are new.
pub proof fn law_restoring_keeps_valid(
    s: DaemonState,
    agent: u64,
    tree: PaneTree,
    fresh: Seq<Option<PaneId>>,
)
    requires
        s.valid(),
        s.owner.dom().contains(agent),
        s.owner[agent] == agent,
        leaf_seq(tree).no_duplicates(),
        leaf_seq(tree).contains(PaneId(agent)),
        fresh.len() == companion_count(tree, PaneId(agent)),
        s.next_split + split_count(tree) <= u64::MAX,
        forall|p: PaneId| #[trigger] fresh.contains(Some(p)) ==> s.unused(p.0),
        forall|i: int, j: int|
            0 <= i < j < fresh.len() && fresh[i] is Some ==> #[trigger] fresh[i] != #[trigger] fresh[j],
    ensures
        s.with_restored(agent, tree, fresh).valid(),
{
    let t = s.with_restored(agent, tree, fresh);
    let me = PaneId(agent);
    let (built, next) = rebuilt(tree, me, fresh, s.next_split as nat);
    split_tree::lemma_companion_count(tree, me);
    split_tree::law_rebuilt_leaves(tree, me, fresh, s.next_split as nat);
    lemma_rebuilt_splits(tree, me, fresh, s.next_split as nat);
    if fresh.contains(Some(me)) {
        assert(s.unused(agent));
    }
    lemma_restored_leaves(leaf_seq(tree), me, fresh);
    let leaves = restored_leaves(leaf_seq(tree), me, fresh);
    if leaves.len() == 0 {
        assert(!leaves.contains(me));
    }
    let new_tree = built->0;
    assert(t.trees == s.trees.insert(agent, new_tree));
    assert forall|p: u64| #[trigger] t.owner.dom().contains(p) implies p < t.next_id by {
        if !s.owner.dom().contains(p) {
            assert(fresh.contains(Some(PaneId(p))));
        }
    }
    assert forall|r: u64| #[trigger] t.trees.dom().contains(r) implies t.layout_valid(r) by {
        if r != agent {
            assert(s.layout_valid(r));
            assert forall|p: PaneId| #[trigger] leaf_seq(t.trees[r]).contains(p) implies t.owner.dom().contains(
                p.0,
            ) && t.owner[p.0] == r by {
                assert(s.owner.dom().contains(p.0));
                if fresh.contains(Some(p)) {
                    assert(s.unused(p.0));
                }
                assert(p == PaneId(p.0));
            }
        } else {
            assert forall|p: PaneId| #[trigger] leaf_seq(t.trees[r]).contains(p) implies t.owner.dom().contains(
                p.0,
            ) && t.owner[p.0] == r by {
                assert(p == PaneId(p.0));
                if p != me {
                    assert(fresh.contains(Some(p)));
                }
            }
        }
    }
    assert forall|r: u64| #[trigger] t.trees.dom().contains(r) implies t.splits_valid(r) by {
        if r != agent {
            assert(s.splits_valid(r));
        }
    }
    assert forall|a: u64, b: u64, x: SplitId|
        a != b && #[trigger] t.trees.dom().contains(a) && #[trigger] t.trees.dom().contains(b)
            && #[trigger] split_seq(t.trees[a]).contains(x) implies !split_seq(t.trees[b]).contains(x) by {
        if a != agent && b != agent {
            assert(s.trees.dom().contains(a) && s.trees.dom().contains(b));
        } else if a == agent {
            assert(s.splits_valid(b));
        } else {
            assert(s.splits_valid(a));
        }
    }
}

} // verus!
