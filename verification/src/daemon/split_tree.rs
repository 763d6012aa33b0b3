//! The tree of splits in which the panes of one workspace stand.

use vstd::prelude::*;

use crate::proto::control::{Axis, PaneTree, Ratio, SplitDirection, SplitId, HALF};
use crate::proto::message::PaneId;

verus! {

/// The panes of a tree, from left to right and from top to bottom.
pub open spec fn leaf_seq(tree: PaneTree) -> Seq<PaneId>
    decreases tree,
{
    match tree {
        PaneTree::Leaf { pane } => seq![pane],
        PaneTree::Split { id, axis, ratio, first, second } => leaf_seq(*first) + leaf_seq(*second),
    }
}

/// The splits of a tree.
pub open spec fn split_seq(tree: PaneTree) -> Seq<SplitId>
    decreases tree,
{
    match tree {
        PaneTree::Leaf { pane } => seq![],
        PaneTree::Split { id, axis, ratio, first, second } => seq![id] + split_seq(*first) + split_seq(
            *second,
        ),
    }
}

/// The panes of a tree.
pub fn leaves(tree: &PaneTree) -> (out: Vec<PaneId>)
    ensures
        out@ == leaf_seq(*tree),
        out@.len() > 0,
    decreases tree,
{
    match tree {
        PaneTree::Leaf { pane } => {
            let mut out: Vec<PaneId> = Vec::new();
            out.push(*pane);
            out
        },
        PaneTree::Split { first, second, .. } => {
            let mut out = leaves(first);
            let mut more = leaves(second);
            out.append(&mut more);
            out
        },
    }
}

/// How the halves of a split in a direction stand.
pub open spec fn axis_of(direction: SplitDirection) -> Axis {
    match direction {
        SplitDirection::Right => Axis::Horizontal,
        SplitDirection::Down => Axis::Vertical,
    }
}

/// The split of one leaf into itself and a companion, in equal shares.
pub open spec fn halves(target: PaneId, companion: PaneId, direction: SplitDirection, id: SplitId) -> PaneTree {
    PaneTree::Split {
        id,
        axis: axis_of(direction),
        ratio: Ratio(HALF),
        first: Box::new(PaneTree::Leaf { pane: target }),
        second: Box::new(PaneTree::Leaf { pane: companion }),
    }
}

/// The tree with the first leaf of `target` split, where there is one.
pub open spec fn split_at(
    tree: PaneTree,
    target: PaneId,
    companion: PaneId,
    direction: SplitDirection,
    id: SplitId,
) -> Option<PaneTree>
    decreases tree,
{
    match tree {
        PaneTree::Leaf { pane } => if pane == target {
            Some(halves(target, companion, direction, id))
        } else {
            None
        },
        PaneTree::Split { id: own, axis, ratio, first, second } => match split_at(
            *first,
            target,
            companion,
            direction,
            id,
        ) {
            Some(f) => Some(
                PaneTree::Split { id: own, axis, ratio, first: Box::new(f), second },
            ),
            None => match split_at(*second, target, companion, direction, id) {
                Some(s) => Some(
                    PaneTree::Split { id: own, axis, ratio, first, second: Box::new(s) },
                ),
                None => None,
            },
        },
    }
}

/// Split the leaf of `target`: the companion goes to its right or below it. Nothing comes of it
/// where the tree has no such leaf.
pub fn split_leaf(
    tree: &PaneTree,
    target: PaneId,
    companion: PaneId,
    direction: SplitDirection,
    id: SplitId,
) -> (t: Option<PaneTree>)
    ensures
        t == split_at(*tree, target, companion, direction, id),
    decreases tree,
{
    match tree {
        PaneTree::Leaf { pane } => if pane.0 == target.0 {
            let axis = match direction {
                SplitDirection::Right => Axis::Horizontal,
                SplitDirection::Down => Axis::Vertical,
            };
            Some(
                PaneTree::Split {
                    id,
                    axis,
                    ratio: Ratio(HALF),
                    first: Box::new(PaneTree::Leaf { pane: target }),
                    second: Box::new(PaneTree::Leaf { pane: companion }),
                },
            )
        } else {
            None
        },
        PaneTree::Split { id: own, axis, ratio, first, second } => match split_leaf(
            first,
            target,
            companion,
            direction,
            id,
        ) {
            Some(f) => Some(
                PaneTree::Split {
                    id: *own,
                    axis: *axis,
                    ratio: *ratio,
                    first: Box::new(f),
                    second: Box::new(second.copied()),
                },
            ),
            None => match split_leaf(second, target, companion, direction, id) {
                Some(s) => Some(
                    PaneTree::Split {
                        id: *own,
                        axis: *axis,
                        ratio: *ratio,
                        first: Box::new(first.copied()),
                        second: Box::new(s),
                    },
                ),
                None => None,
            },
        },
    }
}

/// The tree without the first leaf of `pane`, whose sibling takes the place of both. The only leaf
/// of a tree cannot go.
pub open spec fn without_leaf(tree: PaneTree, pane: PaneId) -> Option<PaneTree>
    decreases tree,
{
    match tree {
        PaneTree::Leaf { pane: _ } => None,
        PaneTree::Split { id, axis, ratio, first, second } => if *first == (PaneTree::Leaf { pane }) {
            Some(*second)
        } else {
            match without_leaf(*first, pane) {
                Some(f) => Some(PaneTree::Split { id, axis, ratio, first: Box::new(f), second }),
                None => if *second == (PaneTree::Leaf { pane }) {
                    Some(*first)
                } else {
                    match without_leaf(*second, pane) {
                        Some(s) => Some(
                            PaneTree::Split { id, axis, ratio, first, second: Box::new(s) },
                        ),
                        None => None,
                    }
                },
            }
        },
    }
}

fn is_leaf_of(tree: &PaneTree, pane: PaneId) -> (yes: bool)
    ensures
        yes == (*tree == (PaneTree::Leaf { pane })),
{
    match tree {
        PaneTree::Leaf { pane: p } => p.0 == pane.0,
        PaneTree::Split { .. } => false,
    }
}

/// Remove the leaf of `pane`: its sibling takes the place of both.
pub fn remove_leaf(tree: &PaneTree, pane: PaneId) -> (t: Option<PaneTree>)
    ensures
        t == without_leaf(*tree, pane),
    decreases tree,
{
    match tree {
        PaneTree::Leaf { .. } => None,
        PaneTree::Split { id, axis, ratio, first, second } => {
            if is_leaf_of(first, pane) {
                return Some(second.copied());
            }
            match remove_leaf(first, pane) {
                Some(f) => Some(
                    PaneTree::Split {
                        id: *id,
                        axis: *axis,
                        ratio: *ratio,
                        first: Box::new(f),
                        second: Box::new(second.copied()),
                    },
                ),
                None => {
                    if is_leaf_of(second, pane) {
                        return Some(first.copied());
                    }
                    match remove_leaf(second, pane) {
                        Some(s) => Some(
                            PaneTree::Split {
                                id: *id,
                                axis: *axis,
                                ratio: *ratio,
                                first: Box::new(first.copied()),
                                second: Box::new(s),
                            },
                        ),
                        None => None,
                    }
                },
            }
        },
    }
}

/// The tree with the divider of `split` moved, where it has that split.
pub open spec fn with_ratio(tree: PaneTree, split: SplitId, ratio: Ratio) -> Option<PaneTree>
    decreases tree,
{
    match tree {
        PaneTree::Leaf { pane } => None,
        PaneTree::Split { id, axis, ratio: old_ratio, first, second } => if id == split {
            Some(PaneTree::Split { id, axis, ratio, first, second })
        } else {
            match with_ratio(*first, split, ratio) {
                Some(f) => Some(
                    PaneTree::Split { id, axis, ratio: old_ratio, first: Box::new(f), second },
                ),
                None => match with_ratio(*second, split, ratio) {
                    Some(s) => Some(
                        PaneTree::Split { id, axis, ratio: old_ratio, first, second: Box::new(s) },
                    ),
                    None => None,
                },
            }
        },
    }
}

/// Move the divider of a split.
pub fn set_ratio(tree: &PaneTree, split: SplitId, ratio: Ratio) -> (t: Option<PaneTree>)
    ensures
        t == with_ratio(*tree, split, ratio),
    decreases tree,
{
    match tree {
        PaneTree::Leaf { .. } => None,
        PaneTree::Split { id, axis, ratio: old_ratio, first, second } => {
            if id.0 == split.0 {
                return Some(
                    PaneTree::Split {
                        id: *id,
                        axis: *axis,
                        ratio,
                        first: Box::new(first.copied()),
                        second: Box::new(second.copied()),
                    },
                );
            }
            match set_ratio(first, split, ratio) {
                Some(f) => Some(
                    PaneTree::Split {
                        id: *id,
                        axis: *axis,
                        ratio: *old_ratio,
                        first: Box::new(f),
                        second: Box::new(second.copied()),
                    },
                ),
                None => match set_ratio(second, split, ratio) {
                    Some(s) => Some(
                        PaneTree::Split {
                            id: *id,
                            axis: *axis,
                            ratio: *old_ratio,
                            first: Box::new(first.copied()),
                            second: Box::new(s),
                        },
                    ),
                    None => None,
                },
            }
        },
    }
}

/// How many leaves of a tree are companions of `agent`.
pub open spec fn companion_count(tree: PaneTree, agent: PaneId) -> nat
    decreases tree,
{
    match tree {
        PaneTree::Leaf { pane } => if pane == agent {
            0
        } else {
            1
        },
        PaneTree::Split { id, axis, ratio, first, second } => companion_count(*first, agent)
            + companion_count(*second, agent),
    }
}

/// What is left of a stored tree, given the fresh pane of each of its companions, in order (none
/// where it could not be spawned), and the next free number for a split: the agent keeps its leaf,
/// each companion gets the fresh pane, one that could not be spawned leaves its place to its sibling,
/// and every split gets a new number and keeps its ratio.
pub open spec fn rebuilt(tree: PaneTree, agent: PaneId, fresh: Seq<Option<PaneId>>, next: nat) -> (
    Option<PaneTree>,
    nat,
)
    decreases tree,
{
    match tree {
        PaneTree::Leaf { pane } => if pane == agent {
            (Some(PaneTree::Leaf { pane }), next)
        } else {
            match fresh[0] {
                Some(p) => (Some(PaneTree::Leaf { pane: p }), next),
                None => (None, next),
            }
        },
        PaneTree::Split { id, axis, ratio, first, second } => {
            let n = companion_count(*first, agent) as int;
            let (f, next1) = rebuilt(*first, agent, fresh.take(n), next);
            let (s, next2) = rebuilt(*second, agent, fresh.skip(n), next1);
            match (f, s) {
                (Some(f), Some(s)) => (
                    Some(
                        PaneTree::Split {
                            id: SplitId(next2 as u64),
                            axis,
                            ratio,
                            first: Box::new(f),
                            second: Box::new(s),
                        },
                    ),
                    next2 + 1,
                ),
                (Some(f), None) => (Some(f), next2),
                (None, Some(s)) => (Some(s), next2),
                (None, None) => (None, next2),
            }
        },
    }
}

/// How many splits a tree has.
pub open spec fn split_count(tree: PaneTree) -> nat
    decreases tree,
{
    match tree {
        PaneTree::Leaf { pane } => 0,
        PaneTree::Split { id, axis, ratio, first, second } => 1 + split_count(*first) + split_count(
            *second,
        ),
    }
}

/// The number after those of as many splits as the tree has, counted from `next`; none where the
/// numbers run out.
pub fn number_after(tree: &PaneTree, next: u64) -> (n: Option<u64>)
    ensures
        match n {
            Some(n) => n == next + split_count(*tree),
            None => next + split_count(*tree) > u64::MAX,
        },
    decreases tree,
{
    match tree {
        PaneTree::Leaf { .. } => Some(next),
        PaneTree::Split { first, second, .. } => {
            if next == u64::MAX {
                return None;
            }
            match number_after(first, next + 1) {
                Some(n) => number_after(second, n),
                None => None,
            }
        },
    }
}

/// Rebuilding takes no more numbers than the tree has splits.
pub proof fn lemma_rebuilt_next(tree: PaneTree, agent: PaneId, fresh: Seq<Option<PaneId>>, next: nat)
    ensures
        next <= rebuilt(tree, agent, fresh, next).1 <= next + split_count(tree),
    decreases tree,
{
    match tree {
        PaneTree::Leaf { pane } => {},
        PaneTree::Split { id, axis, ratio, first, second } => {
            let n = companion_count(*first, agent) as int;
            lemma_rebuilt_next(*first, agent, fresh.take(n), next);
            let next1 = rebuilt(*first, agent, fresh.take(n), next).1;
            lemma_rebuilt_next(*second, agent, fresh.skip(n), next1);
        },
    }
}

/// The companions of a tree, in order.
pub fn companions_of(tree: &PaneTree, agent: PaneId) -> (out: Vec<PaneId>)
    ensures
        out@ == leaf_seq(*tree).filter(|p: PaneId| p != agent),
{
    let all = leaves(tree);
    let ghost keep = |p: PaneId| p != agent;
    let mut out: Vec<PaneId> = Vec::new();
    let mut i: usize = 0;
    assert(all@.take(0).filter(keep) =~= seq![]) by {
        all@.take(0).lemma_filter_len(keep);
    }
    while i < all.len()
        invariant
            i <= all.len(),
            keep == (|p: PaneId| p != agent),
            out@ == all@.take(i as int).filter(keep),
        decreases all.len() - i,
    {
        proof {
            assert(all@.take(i + 1) =~= all@.take(i as int).push(all@[i as int]));
            all@.take(i as int).lemma_filter_push(all@[i as int], keep);
        }
        let p = all[i];
        if p.0 != agent.0 {
            out.push(p);
        }
        i = i + 1;
    }
    assert(all@.take(all@.len() as int) =~= all@);
    out
}

/// There are as many companions as leaves of other panes.
pub proof fn lemma_companion_count(tree: PaneTree, agent: PaneId)
    ensures
        companion_count(tree, agent) == leaf_seq(tree).filter(|p: PaneId| p != agent).len(),
    decreases tree,
{
    let keep = |p: PaneId| p != agent;
    match tree {
        PaneTree::Leaf { pane } => {
            let empty = Seq::<PaneId>::empty();
            assert(seq![pane] =~= empty.push(pane));
            empty.lemma_filter_push(pane, keep);
            empty.lemma_filter_len(keep);
        },
        PaneTree::Split { id, axis, ratio, first, second } => {
            lemma_companion_count(*first, agent);
            lemma_companion_count(*second, agent);
            Seq::filter_distributes_over_add(leaf_seq(*first), leaf_seq(*second), keep);
        },
    }
}

fn rebuild_part(
    tree: &PaneTree,
    agent: PaneId,
    fresh: &[Option<PaneId>],
    from: usize,
    next: u64,
) -> (r: (Option<PaneTree>, usize, u64))
    requires
        from + companion_count(*tree, agent) <= fresh@.len(),
        next + split_count(*tree) <= u64::MAX,
    ensures
        r.1 == from + companion_count(*tree, agent),
        (r.0, r.2 as nat) == rebuilt(
            *tree,
            agent,
            fresh@.subrange(from as int, from + companion_count(*tree, agent)),
            next as nat,
        ),
    decreases tree,
{
    match tree {
        PaneTree::Leaf { pane } => if pane.0 == agent.0 {
            (Some(PaneTree::Leaf { pane: *pane }), from, next)
        } else {
            assert(fresh@.subrange(from as int, from + 1)[0] == fresh@[from as int]);
            match fresh[from] {
                Some(p) => (Some(PaneTree::Leaf { pane: p }), from + 1, next),
                None => (None, from + 1, next),
            }
        },
        PaneTree::Split { axis, ratio, first, second, .. } => {
            let ghost n = companion_count(**first, agent) as int;
            let ghost m = companion_count(**second, agent) as int;
            let ghost part = fresh@.subrange(from as int, from + n + m);
            assert(part.take(n) =~= fresh@.subrange(from as int, from + n));
            assert(part.skip(n) =~= fresh@.subrange(from + n, from + n + m));
            let (f, from1, next1) = rebuild_part(first, agent, fresh, from, next);
            proof {
                lemma_rebuilt_next(**first, agent, part.take(n), next as nat);
            }
            let (s, from2, next2) = rebuild_part(second, agent, fresh, from1, next1);
            proof {
                lemma_rebuilt_next(**second, agent, part.skip(n), next1 as nat);
            }
            match f {
                Some(f) => match s {
                    Some(s) => (
                        Some(
                            PaneTree::Split {
                                id: SplitId(next2),
                                axis: *axis,
                                ratio: *ratio,
                                first: Box::new(f),
                                second: Box::new(s),
                            },
                        ),
                        from2,
                        next2 + 1,
                    ),
                    None => (Some(f), from2, next2),
                },
                None => (s, from2, next2),
            }
        },
    }
}

/// Rebuild a stored tree around `agent` from fresh companions, one for each that it had, in order.
/// Where nothing of it is left, the agent stands alone. The second result is the next free number
/// for a split.
pub fn rebuild_for_restore(tree: &PaneTree, agent: PaneId, fresh: &[Option<PaneId>], next: u64) -> (r: (
    PaneTree,
    u64,
))
    requires
        fresh@.len() == companion_count(*tree, agent),
        next + split_count(*tree) <= u64::MAX,
    ensures
        r.0 == (match rebuilt(*tree, agent, fresh@, next as nat).0 {
            Some(t) => t,
            None => PaneTree::Leaf { pane: agent },
        }),
        r.1 == rebuilt(*tree, agent, fresh@, next as nat).1,
{
    assert(fresh@.subrange(0, fresh@.len() as int) =~= fresh@);
    let (t, _, n) = rebuild_part(tree, agent, fresh, 0, next);
    match t {
        Some(t) => (t, n),
        None => (PaneTree::Leaf { pane: agent }, n),
    }
}

/// A split adds the companion right behind its target, and nothing else.
pub proof fn law_split_adds_one_leaf(
    tree: PaneTree,
    target: PaneId,
    companion: PaneId,
    direction: SplitDirection,
    id: SplitId,
)
    ensures
        match split_at(tree, target, companion, direction, id) {
            Some(t) => exists|k: int|
                {
                    &&& 0 <= k < leaf_seq(tree).len()
                    &&& #[trigger] leaf_seq(tree)[k] == target
                    &&& leaf_seq(t) == leaf_seq(tree).insert(k + 1, companion)
                },
            None => !leaf_seq(tree).contains(target),
        },
    decreases tree,
{
    match tree {
        PaneTree::Leaf { pane } => {
            assert(leaf_seq(tree) =~= seq![pane]);
            if pane != target {
                assert forall|k: int| 0 <= k < leaf_seq(tree).len() implies leaf_seq(tree)[k] != target by {}
            } else {
                let t = halves(target, companion, direction, id);
                assert(leaf_seq(PaneTree::Leaf { pane: target }) == seq![target]);
                assert(leaf_seq(PaneTree::Leaf { pane: companion }) == seq![companion]);
                assert(leaf_seq(t) =~= seq![target] + seq![companion]);
                assert(leaf_seq(tree)[0] == target);
                assert(leaf_seq(t) =~= leaf_seq(tree).insert(0int + 1, companion));
            }
        },
        PaneTree::Split { id: own, axis, ratio, first, second } => {
            law_split_adds_one_leaf(*first, target, companion, direction, id);
            law_split_adds_one_leaf(*second, target, companion, direction, id);
            let a = leaf_seq(*first);
            let b = leaf_seq(*second);
            match split_at(*first, target, companion, direction, id) {
                Some(f) => {
                    let k = choose|k: int|
                        {
                            &&& 0 <= k < a.len()
                            &&& #[trigger] a[k] == target
                            &&& leaf_seq(f) == a.insert(k + 1, companion)
                        };
                    let t = split_at(tree, target, companion, direction, id)->0;
                    assert(leaf_seq(t) == leaf_seq(f) + b);
                    assert(leaf_seq(tree)[k] == target);
                    assert(leaf_seq(t) =~= leaf_seq(tree).insert(k + 1, companion));
                },
                None => match split_at(*second, target, companion, direction, id) {
                    Some(s) => {
                        let k = choose|k: int|
                            {
                                &&& 0 <= k < b.len()
                                &&& #[trigger] b[k] == target
                                &&& leaf_seq(s) == b.insert(k + 1, companion)
                            };
                        let t = split_at(tree, target, companion, direction, id)->0;
                        assert(leaf_seq(t) == a + leaf_seq(s));
                        assert(leaf_seq(tree)[a.len() + k] == target);
                        assert(leaf_seq(t) =~= leaf_seq(tree).insert(a.len() + k + 1, companion));
                    },
                    None => {
                        assert forall|k: int| 0 <= k < (a + b).len() implies (a + b)[k] != target by {
                            if k < a.len() {
                                assert(a.contains(a[k]));
                            } else {
                                assert(b.contains(b[k - a.len()]));
                            }
                        }
                    },
                },
            }
        },
    }
}

/// Removing a companion undoes the split that made it.
pub proof fn law_removing_undoes_splitting(
    tree: PaneTree,
    target: PaneId,
    companion: PaneId,
    direction: SplitDirection,
    id: SplitId,
)
    requires
        !leaf_seq(tree).contains(companion),
    ensures
        split_at(tree, target, companion, direction, id) matches Some(t) ==> without_leaf(t, companion)
            == Some(tree),
    decreases tree,
{
    match tree {
        PaneTree::Leaf { pane } => {
            if pane == target {
                assert(leaf_seq(tree)[0] == target);
                assert(target != companion);
                assert(without_leaf(PaneTree::Leaf { pane: target }, companion) is None);
            }
        },
        PaneTree::Split { id: own, axis, ratio, first, second } => {
            let a = leaf_seq(*first);
            let b = leaf_seq(*second);
            assert(!a.contains(companion)) by {
                if a.contains(companion) {
                    let k = choose|k: int| 0 <= k < a.len() && a[k] == companion;
                    assert((a + b)[k] == companion);
                }
            }
            assert(!b.contains(companion)) by {
                if b.contains(companion) {
                    let k = choose|k: int| 0 <= k < b.len() && b[k] == companion;
                    assert((a + b)[a.len() + k] == companion);
                }
            }
            law_removing_undoes_splitting(*first, target, companion, direction, id);
            law_removing_undoes_splitting(*second, target, companion, direction, id);
            law_absent_leaf_is_not_removed(*first, companion);
            match split_at(*first, target, companion, direction, id) {
                Some(f) => {
                    lemma_split_is_no_leaf(*first, target, companion, direction, id);
                },
                None => {
                    if let Some(s) = split_at(*second, target, companion, direction, id) {
                        lemma_split_is_no_leaf(*second, target, companion, direction, id);
                        assert(*first != (PaneTree::Leaf { pane: companion })) by {
                            if *first == (PaneTree::Leaf { pane: companion }) {
                                assert(a[0] == companion);
                            }
                        }
                    }
                },
            }
        },
    }
}

proof fn lemma_split_is_no_leaf(
    tree: PaneTree,
    target: PaneId,
    companion: PaneId,
    direction: SplitDirection,
    id: SplitId,
)
    ensures
        split_at(tree, target, companion, direction, id) matches Some(t) ==> t is Split,
{
}

/// Where no leaf has the pane, nothing is removed.
pub proof fn law_absent_leaf_is_not_removed(tree: PaneTree, pane: PaneId)
    requires
        !leaf_seq(tree).contains(pane),
    ensures
        without_leaf(tree, pane) is None,
    decreases tree,
{
    match tree {
        PaneTree::Leaf { pane: p } => {},
        PaneTree::Split { id, axis, ratio, first, second } => {
            let a = leaf_seq(*first);
            let b = leaf_seq(*second);
            assert(!a.contains(pane)) by {
                if a.contains(pane) {
                    let k = choose|k: int| 0 <= k < a.len() && a[k] == pane;
                    assert((a + b)[k] == pane);
                }
            }
            assert(!b.contains(pane)) by {
                if b.contains(pane) {
                    let k = choose|k: int| 0 <= k < b.len() && b[k] == pane;
                    assert((a + b)[a.len() + k] == pane);
                }
            }
            law_absent_leaf_is_not_removed(*first, pane);
            law_absent_leaf_is_not_removed(*second, pane);
            assert(*first != (PaneTree::Leaf { pane })) by {
                if *first == (PaneTree::Leaf { pane }) {
                    assert(a[0] == pane);
                }
            }
            assert(*second != (PaneTree::Leaf { pane })) by {
                if *second == (PaneTree::Leaf { pane }) {
                    assert(b[0] == pane);
                }
            }
        },
    }
}

/// Removing takes out one leaf of the pane and nothing else.
pub proof fn law_removing_takes_one_leaf(tree: PaneTree, pane: PaneId)
    ensures
        without_leaf(tree, pane) matches Some(t) ==> exists|k: int|
            {
                &&& 0 <= k < leaf_seq(tree).len()
                &&& #[trigger] leaf_seq(tree)[k] == pane
                &&& leaf_seq(t) == leaf_seq(tree).remove(k)
            },
    decreases tree,
{
    match tree {
        PaneTree::Leaf { pane: p } => {},
        PaneTree::Split { id, axis, ratio, first, second } => {
            let a = leaf_seq(*first);
            let b = leaf_seq(*second);
            law_removing_takes_one_leaf(*first, pane);
            law_removing_takes_one_leaf(*second, pane);
            if *first == (PaneTree::Leaf { pane }) {
                assert(a =~= seq![pane]);
                assert(leaf_seq(tree)[0] == pane);
                assert(leaf_seq(tree).remove(0) =~= b);
            } else if without_leaf(*first, pane) is Some {
                let f = without_leaf(*first, pane)->0;
                let k = choose|k: int|
                    {
                        &&& 0 <= k < a.len()
                        &&& #[trigger] a[k] == pane
                        &&& leaf_seq(f) == a.remove(k)
                    };
                let t = without_leaf(tree, pane)->0;
                assert(leaf_seq(t) == leaf_seq(f) + b);
                assert(leaf_seq(tree)[k] == pane);
                assert(leaf_seq(t) =~= leaf_seq(tree).remove(k));
            } else if *second == (PaneTree::Leaf { pane }) {
                assert(b =~= seq![pane]);
                assert(leaf_seq(tree)[a.len() as int] == pane);
                assert(leaf_seq(tree).remove(a.len() as int) =~= a);
            } else if without_leaf(*second, pane) is Some {
                let s = without_leaf(*second, pane)->0;
                let k = choose|k: int|
                    {
                        &&& 0 <= k < b.len()
                        &&& #[trigger] b[k] == pane
                        &&& leaf_seq(s) == b.remove(k)
                    };
                let t = without_leaf(tree, pane)->0;
                assert(leaf_seq(t) == a + leaf_seq(s));
                assert(leaf_seq(tree)[a.len() + k] == pane);
                assert(leaf_seq(t) =~= leaf_seq(tree).remove(a.len() + k));
            }
        },
    }
}

/// A leaf that is not the only one can always be removed.
pub proof fn law_present_leaf_is_removed(tree: PaneTree, pane: PaneId)
    requires
        tree is Split,
        leaf_seq(tree).contains(pane),
    ensures
        without_leaf(tree, pane) is Some,
    decreases tree,
{
    if let PaneTree::Split { id, axis, ratio, first, second } = tree {
        let a = leaf_seq(*first);
        let b = leaf_seq(*second);
        let k = choose|k: int| 0 <= k < (a + b).len() && (a + b)[k] == pane;
        if k < a.len() {
            assert(a[k] == pane);
            assert(a.contains(pane));
            if *first is Split {
                law_present_leaf_is_removed(*first, pane);
            } else {
                assert(a[0] == pane);
            }
        } else {
            assert(b[k - a.len()] == pane);
            assert(b.contains(pane));
            if *second is Split {
                law_present_leaf_is_removed(*second, pane);
            } else {
                assert(b[0] == pane);
            }
        }
    }
}

/// Moving a divider changes neither the panes nor the splits.
pub proof fn law_ratio_keeps_the_shape(tree: PaneTree, split: SplitId, ratio: Ratio)
    ensures
        match with_ratio(tree, split, ratio) {
            Some(t) => leaf_seq(t) == leaf_seq(tree) && split_seq(t) == split_seq(tree)
                && split_seq(tree).contains(split),
            None => !split_seq(tree).contains(split),
        },
    decreases tree,
{
    match tree {
        PaneTree::Leaf { pane } => {},
        PaneTree::Split { id, axis, ratio: old_ratio, first, second } => {
            law_ratio_keeps_the_shape(*first, split, ratio);
            law_ratio_keeps_the_shape(*second, split, ratio);
            let a = split_seq(*first);
            let b = split_seq(*second);
            let all = seq![id] + a + b;
            assert(all[0] == id);
            if id != split {
                if with_ratio(*first, split, ratio) is Some {
                    let k = choose|k: int| 0 <= k < a.len() && a[k] == split;
                    assert(all[1 + k] == split);
                } else if with_ratio(*second, split, ratio) is Some {
                    let k = choose|k: int| 0 <= k < b.len() && b[k] == split;
                    assert(all[1 + a.len() + k] == split);
                } else {
                    assert forall|k: int| 0 <= k < all.len() implies all[k] != split by {
                        if 1 <= k < 1 + a.len() {
                            assert(a.contains(a[k - 1]));
                        } else if k >= 1 + a.len() {
                            assert(b.contains(b[k - 1 - a.len()]));
                        }
                    }
                }
            }
        },
    }
}

/// A rebuilt layout holds the agent's own leaf wherever the stored one did, and each companion that
/// could be spawned, in order.
pub proof fn law_rebuilt_leaves(tree: PaneTree, agent: PaneId, fresh: Seq<Option<PaneId>>, next: nat)
    requires
        fresh.len() == companion_count(tree, agent),
    ensures
        match rebuilt(tree, agent, fresh, next).0 {
            Some(t) => leaf_seq(t) == restored_leaves(leaf_seq(tree), agent, fresh),
            None => restored_leaves(leaf_seq(tree), agent, fresh).len() == 0,
        },
    decreases tree,
{
    match tree {
        PaneTree::Leaf { pane } => {
            let empty = Seq::<PaneId>::empty();
            assert(leaf_seq(tree) =~= seq![pane]);
            reveal_with_fuel(restored_leaves, 2);
            if pane == agent {
                assert(restored_leaves(seq![pane], agent, fresh) =~= seq![pane]);
            } else {
                assert(seq![pane].drop_first() =~= empty);
                if let Some(p) = fresh[0] {
                    assert(restored_leaves(seq![pane], agent, fresh) =~= seq![p]);
                    assert(leaf_seq(PaneTree::Leaf { pane: p }) =~= seq![p]);
                } else {
                    assert(restored_leaves(seq![pane], agent, fresh) =~= empty);
                }
            }
        },
        PaneTree::Split { id, axis, ratio, first, second } => {
            let n = companion_count(*first, agent) as int;
            let next1 = rebuilt(*first, agent, fresh.take(n), next).1;
            law_rebuilt_leaves(*first, agent, fresh.take(n), next);
            law_rebuilt_leaves(*second, agent, fresh.skip(n), next1);
            lemma_companion_count(*first, agent);
            lemma_restored_concat(leaf_seq(*first), leaf_seq(*second), agent, fresh);
            let a = restored_leaves(leaf_seq(*first), agent, fresh.take(n));
            let b = restored_leaves(leaf_seq(*second), agent, fresh.skip(n));
            assert(a.len() == 0 ==> a + b =~= b);
            assert(b.len() == 0 ==> a + b =~= a);
        },
    }
}

/// The leaves of a stored layout once its companions have been spawned anew: the agent's own stay,
/// and each other one becomes the next fresh pane, or nothing.
pub open spec fn restored_leaves(leaves: Seq<PaneId>, agent: PaneId, fresh: Seq<Option<PaneId>>) -> Seq<
    PaneId,
>
    decreases leaves.len(),
{
    if leaves.len() == 0 {
        seq![]
    } else if leaves[0] == agent {
        seq![agent] + restored_leaves(leaves.drop_first(), agent, fresh)
    } else {
        (match fresh[0] {
            Some(p) => seq![p],
            None => seq![],
        }) + restored_leaves(leaves.drop_first(), agent, fresh.drop_first())
    }
}

proof fn lemma_restored_concat(a: Seq<PaneId>, b: Seq<PaneId>, agent: PaneId, fresh: Seq<Option<PaneId>>)
    requires
        fresh.len() >= a.filter(|p: PaneId| p != agent).len(),
    ensures
        restored_leaves(a + b, agent, fresh) == restored_leaves(
            a,
            agent,
            fresh.take(a.filter(|p: PaneId| p != agent).len() as int),
        ) + restored_leaves(b, agent, fresh.skip(a.filter(|p: PaneId| p != agent).len() as int)),
    decreases a.len(),
{
    let keep = |p: PaneId| p != agent;
    if a.len() == 0 {
        a.lemma_filter_len(keep);
        assert(a + b =~= b);
        assert(fresh.skip(0) =~= fresh);
        assert(restored_leaves(a, agent, fresh.take(0)) =~= seq![]);
        assert(Seq::<PaneId>::empty() + restored_leaves(b, agent, fresh) =~= restored_leaves(
            b,
            agent,
            fresh,
        ));
    } else {
        let tail = a.drop_first();
        assert((a + b).drop_first() =~= tail + b);
        assert(a =~= seq![a[0]] + tail);
        let empty = Seq::<PaneId>::empty();
        assert(seq![a[0]] =~= empty.push(a[0]));
        empty.lemma_filter_push(a[0], keep);
        empty.lemma_filter_len(keep);
        Seq::filter_distributes_over_add(seq![a[0]], tail, keep);
        let n = a.filter(keep).len() as int;
        let m = tail.filter(keep).len() as int;
        if a[0] == agent {
            assert(n == m);
            lemma_restored_concat(tail, b, agent, fresh);
            let x = restored_leaves(tail, agent, fresh.take(m));
            let y = restored_leaves(b, agent, fresh.skip(m));
            assert(seq![agent] + (x + y) =~= (seq![agent] + x) + y);
        } else {
            assert(n == m + 1);
            let rest = fresh.drop_first();
            lemma_restored_concat(tail, b, agent, rest);
            assert(fresh.take(n).drop_first() =~= rest.take(m));
            assert(rest.skip(m) =~= fresh.skip(n));
            assert(fresh.take(n)[0] == fresh[0]);
            let head = match fresh[0] {
                Some(p) => seq![p],
                None => seq![],
            };
            let x = restored_leaves(tail, agent, rest.take(m));
            let y = restored_leaves(b, agent, rest.skip(m));
            assert(head + (x + y) =~= (head + x) + y);
        }
    }
}

/// A pane of a layout, or a divider with the number of its split, the way it parts and where it stands.
pub enum Mark {
    Pane(PaneId),
    Divider(SplitId, Axis, Ratio),
}

/// A layout read from the outside in: each divider, then what stands before it, then what stands behind.
pub open spec fn outline(tree: PaneTree) -> Seq<Mark>
    decreases tree,
{
    match tree {
        PaneTree::Leaf { pane } => seq![Mark::Pane(pane)],
        PaneTree::Split { id, axis, ratio, first, second } => seq![Mark::Divider(id, axis, ratio)]
            + outline(*first) + outline(*second),
    }
}

proof fn lemma_outline_split(id: SplitId, axis: Axis, ratio: Ratio, first: PaneTree, second: PaneTree)
    ensures
        ({
            let t = PaneTree::Split { id, axis, ratio, first: Box::new(first), second: Box::new(second) };
            let a = outline(first);
            let b = outline(second);
            let all = outline(t);
            &&& all == seq![Mark::Divider(id, axis, ratio)] + a + b
            &&& all.len() == 1 + a.len() + b.len()
            &&& all[0] == Mark::Divider(id, axis, ratio)
            &&& forall|k: int| 0 <= k < a.len() ==> all[k + 1] == #[trigger] a[k]
            &&& forall|k: int| 0 <= k < b.len() ==> all[1 + a.len() + k] == #[trigger] b[k]
        }),
{
}

proof fn lemma_replaced_in_first(head: Mark, a: Seq<Mark>, b: Seq<Mark>, k: int, new: Seq<Mark>)
    requires
        0 <= k < a.len(),
    ensures
        ({
            let all = seq![head] + a + b;
            seq![head] + (a.take(k) + new + a.skip(k + 1)) + b == all.take(k + 1) + new + all.skip(k + 2)
        }),
{
    let all = seq![head] + a + b;
    assert(all.take(k + 1) =~= seq![head] + a.take(k));
    assert(all.skip(k + 2) =~= a.skip(k + 1) + b);
    assert(seq![head] + (a.take(k) + new + a.skip(k + 1)) + b =~= (seq![head] + a.take(k)) + new + (
    a.skip(k + 1) + b));
}

proof fn lemma_replaced_in_second(head: Mark, a: Seq<Mark>, b: Seq<Mark>, k: int, new: Seq<Mark>)
    requires
        0 <= k < b.len(),
    ensures
        ({
            let all = seq![head] + a + b;
            let n = 1 + a.len() + k;
            seq![head] + a + (b.take(k) + new + b.skip(k + 1)) == all.take(n) + new + all.skip(n + 1)
        }),
{
    let all = seq![head] + a + b;
    let n = 1 + a.len() + k;
    assert(all.take(n) =~= seq![head] + a + b.take(k));
    assert(all.skip(n + 1) =~= b.skip(k + 1));
    assert(seq![head] + a + (b.take(k) + new + b.skip(k + 1)) =~= (seq![head] + a + b.take(k)) + new
        + b.skip(k + 1));
}

proof fn lemma_two_removed_in_first(head: Mark, a: Seq<Mark>, b: Seq<Mark>, j: int, k: int)
    requires
        0 <= j < k < a.len(),
    ensures
        seq![head] + a.remove(k).remove(j) + b == (seq![head] + a + b).remove(k + 1).remove(j + 1),
{
    let all = seq![head] + a + b;
    assert(all.remove(k + 1) =~= seq![head] + a.remove(k) + b);
    assert((seq![head] + a.remove(k) + b).remove(j + 1) =~= seq![head] + a.remove(k).remove(j) + b);
}

proof fn lemma_two_removed_in_second(head: Mark, a: Seq<Mark>, b: Seq<Mark>, j: int, k: int)
    requires
        0 <= j < k < b.len(),
    ensures
        seq![head] + a + b.remove(k).remove(j) == (seq![head] + a + b).remove(1 + a.len() + k).remove(
            1 + a.len() + j,
        ),
{
    let all = seq![head] + a + b;
    let n = 1 + a.len();
    assert(all.remove(n + k) =~= seq![head] + a + b.remove(k));
    assert((seq![head] + a + b.remove(k)).remove(n + j) =~= seq![head] + a + b.remove(k).remove(j));
}

/// Splitting a pane changes the layout in one place, that of the pane: there a new divider comes to stand,
/// in the middle, with the pane before it and the companion behind it. It parts them side by side where
/// the companion goes to the right, and one above the other where it goes below.
pub proof fn law_splitting_parts_one_pane(
    tree: PaneTree,
    target: PaneId,
    companion: PaneId,
    direction: SplitDirection,
    id: SplitId,
)
    ensures
        split_at(tree, target, companion, direction, id) matches Some(t) ==> exists|k: int|
            {
                let axis = if direction is Right {
                    Axis::Horizontal
                } else {
                    Axis::Vertical
                };
                &&& 0 <= k < outline(tree).len()
                &&& #[trigger] outline(tree)[k] == Mark::Pane(target)
                &&& forall|j: int| 0 <= j < k ==> outline(tree)[j] != Mark::Pane(target)
                &&& outline(t) == outline(tree).take(k) + seq![
                    Mark::Divider(id, axis, Ratio(HALF)),
                    Mark::Pane(target),
                    Mark::Pane(companion),
                ] + outline(tree).skip(k + 1)
            },
        split_at(tree, target, companion, direction, id) is None ==> !outline(tree).contains(
            Mark::Pane(target),
        ),
    decreases tree,
{
    let axis = if direction is Right {
        Axis::Horizontal
    } else {
        Axis::Vertical
    };
    let new = seq![
        Mark::Divider(id, axis, Ratio(HALF)),
        Mark::Pane(target),
        Mark::Pane(companion),
    ];
    let all = outline(tree);
    match tree {
        PaneTree::Leaf { pane } => {
            assert(all[0] == Mark::Pane(pane));
            if pane == target {
                let t = split_at(tree, target, companion, direction, id)->0;
                let l = PaneTree::Leaf { pane: target };
                let r = PaneTree::Leaf { pane: companion };
                lemma_outline_split(id, axis, Ratio(HALF), l, r);
                assert(outline(l) =~= seq![Mark::Pane(target)]);
                assert(outline(r) =~= seq![Mark::Pane(companion)]);
                assert(outline(t) =~= all.take(0) + new + all.skip(1));
            }
        },
        PaneTree::Split { id: own, axis: own_axis, ratio, first, second } => {
            law_splitting_parts_one_pane(*first, target, companion, direction, id);
            law_splitting_parts_one_pane(*second, target, companion, direction, id);
            let a = outline(*first);
            let b = outline(*second);
            lemma_outline_split(own, own_axis, ratio, *first, *second);
            match split_at(*first, target, companion, direction, id) {
                Some(f) => {
                    let k = choose|k: int|
                        {
                            &&& 0 <= k < a.len()
                            &&& #[trigger] a[k] == Mark::Pane(target)
                            &&& forall|j: int| 0 <= j < k ==> a[j] != Mark::Pane(target)
                            &&& outline(f) == a.take(k) + new + a.skip(k + 1)
                        };
                    let t = split_at(tree, target, companion, direction, id)->0;
                    lemma_outline_split(own, own_axis, ratio, f, *second);
                    assert(all[k + 1] == Mark::Pane(target));
                    assert forall|j: int| 0 <= j < k + 1 implies all[j] != Mark::Pane(target) by {
                        if j > 0 {
                            assert(all[j] == a[j - 1]);
                        }
                    }
                    lemma_replaced_in_first(Mark::Divider(own, own_axis, ratio), a, b, k, new);
                    assert(outline(t) == all.take(k + 1) + new + all.skip((k + 1) + 1));
                },
                None => {
                    assert forall|j: int| 0 <= j < a.len() + 1 implies all[j] != Mark::Pane(target) by {
                        if j > 0 {
                            assert(all[j] == a[j - 1]);
                            assert(a.contains(a[j - 1]));
                        }
                    }
                    match split_at(*second, target, companion, direction, id) {
                        Some(s) => {
                            let k = choose|k: int|
                                {
                                    &&& 0 <= k < b.len()
                                    &&& #[trigger] b[k] == Mark::Pane(target)
                                    &&& forall|j: int| 0 <= j < k ==> b[j] != Mark::Pane(target)
                                    &&& outline(s) == b.take(k) + new + b.skip(k + 1)
                                };
                            let t = split_at(tree, target, companion, direction, id)->0;
                            let n = 1 + a.len() + k;
                            lemma_outline_split(own, own_axis, ratio, *first, s);
                            assert(all[n] == Mark::Pane(target));
                            assert forall|j: int| 0 <= j < n implies all[j] != Mark::Pane(target) by {
                                if j > a.len() {
                                    assert(all[j] == b[j - 1 - a.len()]);
                                }
                            }
                            lemma_replaced_in_second(Mark::Divider(own, own_axis, ratio), a, b, k, new);
                            assert(outline(t) == all.take(n) + new + all.skip(n + 1));
                        },
                        None => {
                            assert forall|j: int| 0 <= j < all.len() implies all[j] != Mark::Pane(
                                target,
                            ) by {
                                if j > a.len() {
                                    assert(all[j] == b[j - 1 - a.len()]);
                                    assert(b.contains(b[j - 1 - a.len()]));
                                }
                            }
                        },
                    }
                },
            }
        },
    }
}

/// Splits of one pane in the two directions never look the same.
pub proof fn law_the_two_directions_differ(
    tree: PaneTree,
    target: PaneId,
    companion: PaneId,
    id: SplitId,
)
    requires
        outline(tree).contains(Mark::Pane(target)),
    ensures
        split_at(tree, target, companion, SplitDirection::Right, id) != split_at(
            tree,
            target,
            companion,
            SplitDirection::Down,
            id,
        ),
{
    law_splitting_parts_one_pane(tree, target, companion, SplitDirection::Right, id);
    law_splitting_parts_one_pane(tree, target, companion, SplitDirection::Down, id);
    let all = outline(tree);
    let r = split_at(tree, target, companion, SplitDirection::Right, id)->0;
    let d = split_at(tree, target, companion, SplitDirection::Down, id)->0;
    let k = choose|k: int|
        {
            &&& 0 <= k < all.len()
            &&& #[trigger] all[k] == Mark::Pane(target)
            &&& forall|j: int| 0 <= j < k ==> all[j] != Mark::Pane(target)
            &&& outline(r) == all.take(k) + seq![
                Mark::Divider(id, Axis::Horizontal, Ratio(HALF)),
                Mark::Pane(target),
                Mark::Pane(companion),
            ] + all.skip(k + 1)
        };
    let m = choose|m: int|
        {
            &&& 0 <= m < all.len()
            &&& #[trigger] all[m] == Mark::Pane(target)
            &&& forall|j: int| 0 <= j < m ==> all[j] != Mark::Pane(target)
            &&& outline(d) == all.take(m) + seq![
                Mark::Divider(id, Axis::Vertical, Ratio(HALF)),
                Mark::Pane(target),
                Mark::Pane(companion),
            ] + all.skip(m + 1)
        };
    assert(k == m);
    assert(outline(r)[k] == Mark::Divider(id, Axis::Horizontal, Ratio(HALF)));
    assert(outline(d)[k] == Mark::Divider(id, Axis::Vertical, Ratio(HALF)));
}

/// Removing a pane takes out the pane and one divider, which stood before it, and leaves all else in its
/// order, every other divider as it stands.
pub proof fn law_removing_takes_one_divider(tree: PaneTree, pane: PaneId)
    ensures
        without_leaf(tree, pane) matches Some(t) ==> exists|j: int, k: int|
            {
                &&& 0 <= j < k < outline(tree).len()
                &&& #[trigger] outline(tree)[j] is Divider
                &&& #[trigger] outline(tree)[k] == Mark::Pane(pane)
                &&& outline(t) == outline(tree).remove(k).remove(j)
            },
    decreases tree,
{
    let all = outline(tree);
    if let PaneTree::Split { id, axis, ratio, first, second } = tree {
        law_removing_takes_one_divider(*first, pane);
        law_removing_takes_one_divider(*second, pane);
        let a = outline(*first);
        let b = outline(*second);
        lemma_outline_split(id, axis, ratio, *first, *second);
        if *first == (PaneTree::Leaf { pane }) {
            assert(a =~= seq![Mark::Pane(pane)]);
            assert(a[0] == Mark::Pane(pane));
            assert(all[1] == Mark::Pane(pane));
            assert(b =~= all.remove(1).remove(0));
        } else if without_leaf(*first, pane) is Some {
            let f = without_leaf(*first, pane)->0;
            let t = without_leaf(tree, pane)->0;
            let (j, k) = choose|j: int, k: int|
                {
                    &&& 0 <= j < k < a.len()
                    &&& #[trigger] a[j] is Divider
                    &&& #[trigger] a[k] == Mark::Pane(pane)
                    &&& outline(f) == a.remove(k).remove(j)
                };
            lemma_outline_split(id, axis, ratio, f, *second);
            assert(all[j + 1] == a[j]);
            assert(all[k + 1] == a[k]);
            lemma_two_removed_in_first(Mark::Divider(id, axis, ratio), a, b, j, k);
            assert(outline(t) == all.remove(k + 1).remove(j + 1));
        } else if *second == (PaneTree::Leaf { pane }) {
            assert(b =~= seq![Mark::Pane(pane)]);
            assert(b[0] == Mark::Pane(pane));
            let k = 1 + a.len() as int;
            assert(all[k] == Mark::Pane(pane));
            assert(a =~= all.remove(k).remove(0));
        } else if without_leaf(*second, pane) is Some {
            let s = without_leaf(*second, pane)->0;
            let t = without_leaf(tree, pane)->0;
            let (j, k) = choose|j: int, k: int|
                {
                    &&& 0 <= j < k < b.len()
                    &&& #[trigger] b[j] is Divider
                    &&& #[trigger] b[k] == Mark::Pane(pane)
                    &&& outline(s) == b.remove(k).remove(j)
                };
            let n = 1 + a.len() as int;
            lemma_outline_split(id, axis, ratio, *first, s);
            assert(all[n + j] == b[j]);
            assert(all[n + k] == b[k]);
            lemma_two_removed_in_second(Mark::Divider(id, axis, ratio), a, b, j, k);
            assert(outline(t) == all.remove(n + k).remove(n + j));
        }
    }
}

/// Moving a divider puts that divider where it was asked to stand, and leaves everything else as it is: the
/// way it parts, the other dividers and the panes.
pub proof fn law_moving_moves_one_divider(tree: PaneTree, split: SplitId, ratio: Ratio)
    ensures
        with_ratio(tree, split, ratio) matches Some(t) ==> exists|k: int|
            {
                &&& 0 <= k < outline(tree).len()
                &&& (#[trigger] outline(tree)[k]) matches Mark::Divider(x, axis, was)
                &&& x == split
                &&& outline(t) == outline(tree).update(k, Mark::Divider(split, axis, ratio))
            },
    decreases tree,
{
    let all = outline(tree);
    if let PaneTree::Split { id, axis, ratio: was, first, second } = tree {
        law_moving_moves_one_divider(*first, split, ratio);
        law_moving_moves_one_divider(*second, split, ratio);
        let a = outline(*first);
        let b = outline(*second);
        lemma_outline_split(id, axis, was, *first, *second);
        if id == split {
            lemma_outline_split(id, axis, ratio, *first, *second);
            let t = with_ratio(tree, split, ratio)->0;
            assert(all[0] == Mark::Divider(split, axis, was));
            assert(outline(t) =~= all.update(0, Mark::Divider(split, axis, ratio)));
        } else if with_ratio(*first, split, ratio) is Some {
            let f = with_ratio(*first, split, ratio)->0;
            let t = with_ratio(tree, split, ratio)->0;
            let k = choose|k: int|
                {
                    &&& 0 <= k < a.len()
                    &&& (#[trigger] a[k]) matches Mark::Divider(x, axis, was)
                    &&& x == split
                    &&& outline(f) == a.update(k, Mark::Divider(split, axis, ratio))
                };
            let x = a[k]->Divider_1;
            lemma_outline_split(id, axis, was, f, *second);
            assert(all[k + 1] == a[k]);
            assert(outline(t) =~= all.update(k + 1, Mark::Divider(split, x, ratio)));
        } else if with_ratio(*second, split, ratio) is Some {
            let s = with_ratio(*second, split, ratio)->0;
            let t = with_ratio(tree, split, ratio)->0;
            let k = choose|k: int|
                {
                    &&& 0 <= k < b.len()
                    &&& (#[trigger] b[k]) matches Mark::Divider(x, axis, was)
                    &&& x == split
                    &&& outline(s) == b.update(k, Mark::Divider(split, axis, ratio))
                };
            let x = b[k]->Divider_1;
            let n = 1 + a.len() as int;
            lemma_outline_split(id, axis, was, *first, s);
            assert(all[n + k] == b[k]);
            assert(outline(t) =~= all.update(n + k, Mark::Divider(split, x, ratio)));
        }
    }
}

/// The way each divider of a layout parts and where it stands, from the outside in.
pub open spec fn dividers(tree: PaneTree) -> Seq<(Axis, Ratio)>
    decreases tree,
{
    match tree {
        PaneTree::Leaf { pane } => seq![],
        PaneTree::Split { id, axis, ratio, first, second } => seq![(axis, ratio)] + dividers(*first)
            + dividers(*second),
    }
}

/// A stored layout comes back with its dividers as they stood: all of them, in order, where every companion
/// could be spawned, and otherwise none that it did not have.
pub proof fn law_rebuilding_keeps_the_dividers(
    tree: PaneTree,
    agent: PaneId,
    fresh: Seq<Option<PaneId>>,
    next: nat,
)
    requires
        fresh.len() == companion_count(tree, agent),
    ensures
        rebuilt(tree, agent, fresh, next).0 matches Some(t) ==> dividers(t).to_multiset().subset_of(
            dividers(tree).to_multiset(),
        ),
        (forall|k: int| 0 <= k < fresh.len() ==> (#[trigger] fresh[k]) is Some) ==> rebuilt(
            tree,
            agent,
            fresh,
            next,
        ).0 is Some && dividers(rebuilt(tree, agent, fresh, next).0->0) == dividers(tree),
    decreases tree,
{
    if let PaneTree::Split { id, axis, ratio, first, second } = tree {
        let n = companion_count(*first, agent) as int;
        let (f, next1) = rebuilt(*first, agent, fresh.take(n), next);
        let s = rebuilt(*second, agent, fresh.skip(n), next1).0;
        law_rebuilding_keeps_the_dividers(*first, agent, fresh.take(n), next);
        law_rebuilding_keeps_the_dividers(*second, agent, fresh.skip(n), next1);
        let own = seq![(axis, ratio)];
        let a = dividers(*first);
        let b = dividers(*second);
        vstd::seq_lib::lemma_multiset_commutative(own, a);
        vstd::seq_lib::lemma_multiset_commutative(own + a, b);
        if f is Some && s is Some {
            vstd::seq_lib::lemma_multiset_commutative(own, dividers(f->0));
            vstd::seq_lib::lemma_multiset_commutative(own + dividers(f->0), dividers(s->0));
            assert(dividers(rebuilt(tree, agent, fresh, next).0->0) == own + dividers(f->0) + dividers(s->0));
        }
        if forall|k: int| 0 <= k < fresh.len() ==> (#[trigger] fresh[k]) is Some {
            assert forall|k: int| 0 <= k < fresh.take(n).len() implies (#[trigger] fresh.take(
                n,
            )[k]) is Some by {
                assert(fresh[k] is Some);
            }
            assert forall|k: int| 0 <= k < fresh.skip(n).len() implies (#[trigger] fresh.skip(
                n,
            )[k]) is Some by {
                assert(fresh[n + k] is Some);
            }
        }
    }
}

/// The splits of a rebuilt layout are numbered anew: from the next free number on, none twice, and the next
/// free number after that is above them all.
pub proof fn law_rebuilt_splits_are_numbered_anew(
    tree: PaneTree,
    agent: PaneId,
    fresh: Seq<Option<PaneId>>,
    next: nat,
)
    requires
        next + split_count(tree) <= u64::MAX,
    ensures
        ({
            let (t, after) = rebuilt(tree, agent, fresh, next);
            &&& next <= after <= next + split_count(tree)
            &&& t matches Some(x) ==> {
                &&& after == next + split_seq(x).len()
                &&& split_seq(x).no_duplicates()
                &&& forall|k: int|
                    0 <= k < split_seq(x).len() ==> next <= (#[trigger] split_seq(x)[k]).0 < after
            }
            &&& t is None ==> after == next
        }),
    decreases tree,
{
    match tree {
        PaneTree::Leaf { pane } => {
            let (t, after) = rebuilt(tree, agent, fresh, next);
            if let Some(x) = t {
                assert(split_seq(x) =~= seq![]);
            }
        },
        PaneTree::Split { id, axis, ratio, first, second } => {
            let n = companion_count(*first, agent) as int;
            law_rebuilt_splits_are_numbered_anew(*first, agent, fresh.take(n), next);
            let (f, next1) = rebuilt(*first, agent, fresh.take(n), next);
            law_rebuilt_splits_are_numbered_anew(*second, agent, fresh.skip(n), next1);
            let (s, next2) = rebuilt(*second, agent, fresh.skip(n), next1);
            if f is Some && s is Some {
                let a = split_seq(f->0);
                let b = split_seq(s->0);
                let all = seq![SplitId(next2 as u64)] + a + b;
                let x = rebuilt(tree, agent, fresh, next).0->0;
                assert(split_seq(x) =~= all);
                assert forall|k: int| 0 <= k < all.len() implies next <= (#[trigger] all[k]).0 < next2 + 1 by {
                    if 1 <= k < 1 + a.len() {
                        assert(all[k] == a[k - 1]);
                    } else if k >= 1 + a.len() {
                        assert(all[k] == b[k - 1 - a.len()]);
                    }
                }
                assert forall|i: int, j: int| 0 <= i < j < all.len() implies all[i] != all[j] by {
                    if i == 0 {
                        if j < 1 + a.len() {
                            assert(all[j] == a[j - 1]);
                        } else {
                            assert(all[j] == b[j - 1 - a.len()]);
                        }
                    } else if i < 1 + a.len() {
                        assert(all[i] == a[i - 1]);
                        if j < 1 + a.len() {
                            assert(all[j] == a[j - 1]);
                        } else {
                            assert(all[j] == b[j - 1 - a.len()]);
                        }
                    } else {
                        assert(all[i] == b[i - 1 - a.len()]);
                        assert(all[j] == b[j - 1 - a.len()]);
                    }
                }
            }
        },
    }
}

} // verus!
