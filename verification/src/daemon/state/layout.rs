//! The layouts of panes around agents and project terminals.

use vstd::prelude::*;

use crate::daemon::command;
use crate::daemon::command::{is_companion_command, PaneCommand};
use crate::daemon::registry::{is_with_tree, AgentRecord};
use crate::daemon::split_tree;
use crate::daemon::split_tree::{companion_count, split_count, with_ratio};
use crate::daemon::state::{next_number, number_after, pane_text, with_pane, Daemon, DaemonState, Effect};
use crate::proto::control::{PaneTree, Ratio, SplitDirection, SplitId};
use crate::proto::message::PaneId;
use crate::text;
use crate::text::decimal;

verus! {

/// Why a pane cannot be split.
pub open spec fn split_refusal(s: DaemonState, target: u64) -> Option<Seq<char>> {
    if !s.owner.dom().contains(target) {
        Some("unknown pane "@ + pane_text(target))
    } else if !s.workspaces.dom().contains(s.owner[target]) && !s.terms.dom().contains(
        s.owner[target],
    ) {
        Some("no workspace for agent "@ + pane_text(s.owner[target]))
    } else {
        None
    }
}

/// The directory in which a companion of a root starts.
pub open spec fn cwd_of(s: DaemonState, root: u64) -> Seq<char> {
    if s.workspaces.dom().contains(root) {
        s.workspaces[root].path@
    } else {
        s.terms[root]@
    }
}

/// What closing a pane came to.
pub enum Close {
    /// It was the terminal of this project, which is gone.
    Terminal(String, Vec<Effect>),
    /// It is an agent, whose worktree is to be discarded with it.
    Agent,
    /// It was a companion of this root.
    Companion(PaneId, Vec<Effect>),
}

/// The rows with the layouts of the dirty agents that have one stored anew.
pub open spec fn is_flushed(
    s: DaemonState,
    done: Set<u64>,
    rows: Seq<AgentRecord>,
    out: Seq<AgentRecord>,
) -> bool {
    &&& out.len() == rows.len()
    &&& forall|k: int|
        0 <= k < rows.len() ==> (#[trigger] out[k]).same_but_tree(rows[k]) && out[k].tree == (
        if done.contains(rows[k].agent_id) && s.trees.dom().contains(rows[k].agent_id) {
            s.stored_tree(rows[k].agent_id)
        } else {
            rows[k].tree
        })
}

/// What closing a pane does and comes to.
pub open spec fn is_close(before: Daemon, after: Daemon, pane: PaneId, r: Result<Close, String>) -> bool {
    let s = before.state();
    let is_terminal = s.terms.dom().contains(pane.0);
    let is_agent = !is_terminal && s.trees.dom().contains(pane.0);
    let is_companion = !is_terminal && !is_agent && s.owner.dom().contains(pane.0);
    &&& after.keeps_lists(before)
    &&& after.registry.file() == before.registry.file()
    &&& match r {
        Ok(Close::Terminal(root, effects)) => {
            &&& is_terminal
            &&& root == s.terms[pane.0]
            &&& after.state() == s.without_terminal(pane.0)
            &&& after.registry == before.registry
            &&& effects@ == s.terminal_ends(pane)
        },
        Ok(Close::Agent) => {
            &&& is_agent
            &&& after.state() == s
            &&& after.registry == before.registry
        },
        Ok(Close::Companion(root, effects)) => {
            &&& is_companion
            &&& root.0 == s.owner[pane.0]
            &&& after.state() == s.without_companion(pane.0, root.0)
            &&& is_with_tree(
                before.registry.rows(),
                root.0,
                after.state().stored_tree(root.0),
                after.registry.rows(),
            )
            &&& effects@ == seq![Effect::End(pane)] + after.state().tree_news(root.0)
                + seq![Effect::SaveRegistry]
        },
        Err(e) => {
            &&& !is_terminal && !is_agent && !is_companion
            &&& e@ == "unknown pane "@ + pane_text(pane.0)
            &&& after.state() == s
            &&& after.registry == before.registry
        },
    }
}

/// What moving a divider does and comes to.
pub open spec fn is_moved(
    before: Daemon,
    after: Daemon,
    split: SplitId,
    ratio: Ratio,
    r: Result<(PaneId, Vec<Effect>), String>,
) -> bool {
    let s = before.state();
    &&& after.keeps_stores(before)
    &&& match r {
        Ok((root, effects)) => {
            &&& s.trees.dom().contains(root.0)
            &&& with_ratio(s.trees[root.0], split, ratio) is Some
            &&& forall|n: u64|
                n < root.0 && #[trigger] s.trees.dom().contains(n) ==> with_ratio(
                    s.trees[n],
                    split,
                    ratio,
                ) is None
            &&& after.state() == s.with_split_ratio(root.0, split, ratio)
            &&& effects@ == after.state().tree_news(root.0)
        },
        Err(e) => {
            &&& forall|n: u64| #[trigger]
                s.trees.dom().contains(n) ==> with_ratio(s.trees[n], split, ratio) is None
            &&& e@ == "unknown split SplitId("@ + decimal(split.0 as nat) + ")"@
            &&& after.state() == s
        },
    }
}

/// Whether a pane can be split; if so, the root to which it belongs, and the command of the companion.
pub open spec fn is_split_begun(
    d: Daemon,
    target: PaneId,
    r: Result<(PaneId, PaneCommand), String>,
) -> bool {
    match r {
        Ok((root, c)) => {
            &&& split_refusal(d.state(), target.0) is None
            &&& root.0 == d.state().owner[target.0]
            &&& is_companion_command(c, d.settings.shell@, cwd_of(d.state(), root.0))
        },
        Err(e) => split_refusal(d.state(), target.0) == Some(e@),
    }
}

/// What splitting a pane does and comes to.
pub open spec fn is_split(
    before: Daemon,
    after: Daemon,
    root: PaneId,
    target: PaneId,
    companion: PaneId,
    direction: SplitDirection,
    r: Result<Vec<Effect>, String>,
) -> bool {
    let s = before.state();
    &&& after.keeps_lists(before)
    &&& after.registry.file() == before.registry.file()
    &&& match r {
        Ok(effects) => {
            &&& s.trees.dom().contains(root.0)
            &&& after.state() == s.with_split(root.0, target, companion, direction)
            &&& is_with_tree(
                before.registry.rows(),
                root.0,
                after.state().stored_tree(root.0),
                after.registry.rows(),
            )
            &&& effects@ == after.state().tree_news(root.0).push(Effect::SaveRegistry)
        },
        Err(e) => {
            &&& !s.trees.dom().contains(root.0)
            &&& e@ == "no split tree for "@ + pane_text(root.0)
            &&& after.state() == (DaemonState { next_split: number_after(s.next_split), ..s })
            &&& after.registry == before.registry
        },
    }
}

impl Daemon {
    /// Whether a pane can be split; if so, the root to which it belongs, and the command of the
    /// companion.
    pub fn begin_split(&self, target: PaneId) -> (r: Result<(PaneId, PaneCommand), String>)
        ensures
            is_split_begun(*self, target, r),
    {
        let root = match self.owner_of(target) {
            Some(r) => r,
            None => return Err(with_pane("unknown pane ", target)),
        };
        match self.root_cwd(root) {
            Some(dir) => Ok((root, command::companion_command(self.settings.shell.clone(), dir))),
            None => Err(with_pane("no workspace for agent ", root)),
        }
    }

    /// The companion runs: split the pane.
    pub fn commit_split(
        &mut self,
        root: PaneId,
        target: PaneId,
        companion: PaneId,
        direction: SplitDirection,
    ) -> (r: Result<Vec<Effect>, String>)
        ensures
            is_split(*old(self), *final(self), root, target, companion, direction, r),
    {
        let ghost s0 = self.state();
        let split = SplitId(self.maps.next_split);
        self.maps.next_split = next_number(self.maps.next_split);
        let after = match self.maps.trees.get(root.0) {
            Some(t) => split_tree::split_leaf(t, target, companion, direction, split),
            None => return Err(with_pane("no split tree for ", root)),
        };
        match after {
            Some(t) => self.maps.trees.insert(root.0, t),
            None => {},
        }
        self.maps.owner.insert(companion.0, root.0);
        assert(self.state() =~= s0.with_split(root.0, target, companion, direction));
        let mut effects: Vec<Effect> = Vec::new();
        self.tell_tree(root, &mut effects);
        self.persist_tree(root);
        effects.push(Effect::SaveRegistry);
        assert(effects@ =~= self.state().tree_news(root.0).push(Effect::SaveRegistry));
        Ok(effects)
    }

    /// Close a pane. A companion goes from its layout, a project terminal goes with its companions;
    /// what becomes of an agent is for the caller to see to.
    pub fn close_pane(&mut self, pane: PaneId) -> (r: Result<Close, String>)
        ensures
            is_close(*old(self), *final(self), pane, r),
    {
        match self.project_of_terminal(pane) {
            Some(root) => {
                let effects = self.forget_project_terminal(pane);
                return Ok(Close::Terminal(root, effects));
            },
            None => {},
        }
        if self.maps.trees.has(pane.0) {
            return Ok(Close::Agent);
        }
        match self.owner_of(pane) {
            Some(root) => {
                let effects = self.remove_companion(pane, root);
                Ok(Close::Companion(root, effects))
            },
            None => Err(with_pane("unknown pane ", pane)),
        }
    }

    /// Move a divider; the root around which it stands comes back. The layout is stored with the next
    /// flush.
    pub fn set_split_ratio(&mut self, split: SplitId, ratio: Ratio) -> (r: Result<
        (PaneId, Vec<Effect>),
        String,
    >)
        ensures
            is_moved(*old(self), *final(self), split, ratio, r),
    {
        let ghost s0 = self.state();
        let roots = self.maps.trees.keys();
        let mut i: usize = 0;
        while i < roots.len()
            invariant
                *self == *old(self),
                s0 == self.state(),
                s0 == old(self).state(),
                i <= roots.len(),
                forall|a: int, b: int| 0 <= a < b < roots@.len() ==> #[trigger] roots@[a] < #[trigger] roots@[b],
                forall|k: u64| #[trigger] s0.trees.dom().contains(k) <==> roots@.contains(k),
                forall|k: int|
                    0 <= k < i ==> with_ratio(s0.trees[#[trigger] roots@[k]], split, ratio) is None,
            decreases roots.len() - i,
        {
            let root = roots[i];
            assert(roots@.contains(root));
            let moved = match self.maps.trees.get(root) {
                Some(t) => split_tree::set_ratio(t, split, ratio),
                None => None,
            };
            match moved {
                Some(t) => {
                    proof {
                        assert forall|n: u64|
                            n < root && #[trigger] s0.trees.dom().contains(n) implies with_ratio(
                            s0.trees[n],
                            split,
                            ratio,
                        ) is None by {
                            let k = choose|k: int| 0 <= k < roots@.len() && roots@[k] == n;
                            if k > i {
                                assert(roots@[i as int] < roots@[k]);
                            }
                        }
                    }
                    self.maps.trees.insert(root, t);
                    self.maps.dirty.insert(root, ());
                    assert(self.maps.dirty@.dom() =~= s0.dirty.insert(root));
                    assert(self.state() =~= s0.with_split_ratio(root, split, ratio));
                    let mut effects: Vec<Effect> = Vec::new();
                    self.tell_tree(PaneId(root), &mut effects);
                    assert(effects@ =~= self.state().tree_news(root));
                    return Ok((PaneId(root), effects));
                },
                None => {},
            }
            i = i + 1;
        }
        proof {
            assert forall|n: u64| #[trigger] s0.trees.dom().contains(n) implies with_ratio(
                s0.trees[n],
                split,
                ratio,
            ) is None by {
                let k = choose|k: int| 0 <= k < roots@.len() && roots@[k] == n;
                assert(roots@[k] == n);
            }
        }
        let mut m = "unknown split SplitId(".to_owned();
        m.append(text::show(split.0 as u128).as_str());
        m.append(")");
        Err(m)
    }

    /// Store the layout of every agent whose dividers have moved, but of those that are gone.
    pub fn flush_dirty_layouts(&mut self) -> (effects: Vec<Effect>)
        ensures
            final(self).keeps_lists(*old(self)),
            final(self).registry.file() == old(self).registry.file(),
            final(self).state() == (DaemonState { dirty: Set::empty(), ..old(self).state() }),
            is_flushed(
                old(self).state(),
                old(self).state().dirty,
                old(self).registry.rows(),
                final(self).registry.rows(),
            ),
            effects@ == (if exists|n: u64| #[trigger]
                old(self).state().dirty.contains(n) && old(self).state().trees.dom().contains(n) {
                seq![Effect::SaveRegistry]
            } else {
                seq![]
            }),
    {
        let ghost s0 = self.state();
        let ghost rows0 = self.registry.rows();
        let roots = self.maps.dirty.keys();
        let mut stored = false;
        let mut i: usize = 0;
        proof {
            assert forall|k: int| 0 <= k < rows0.len() implies (#[trigger] rows0[k]).same_but_tree(
                rows0[k],
            ) by {}
            assert(is_flushed(s0, roots@.take(0).to_set(), rows0, rows0));
        }
        while i < roots.len()
            invariant
                self.keeps_lists(*old(self)),
                self.registry.file() == old(self).registry.file(),
                self.state() == s0,
                i <= roots.len(),
                forall|k: u64| #[trigger] s0.dirty.contains(k) <==> roots@.contains(k),
                is_flushed(s0, roots@.take(i as int).to_set(), rows0, self.registry.rows()),
                stored == exists|k: int| 0 <= k < i && s0.trees.dom().contains(#[trigger] roots@[k]),
            decreases roots.len() - i,
        {
            let root = roots[i];
            let ghost before = self.registry.rows();
            let ghost done = roots@.take(i as int).to_set();
            let ghost now = roots@.take(i + 1).to_set();
            proof {
                assert forall|n: u64| #[trigger] now.contains(n) <==> done.contains(n) || n == root by {
                    let a = roots@.take(i as int);
                    let b = roots@.take(i + 1);
                    if a.contains(n) {
                        let k = choose|k: int| 0 <= k < a.len() && a[k] == n;
                        assert(b[k] == n);
                    }
                    if n == root {
                        assert(b[i as int] == n);
                    }
                    if b.contains(n) && n != root {
                        let k = choose|k: int| 0 <= k < b.len() && b[k] == n;
                        assert(a[k] == n);
                    }
                }
            }
            if self.maps.trees.has(root) {
                self.persist_tree(PaneId(root));
                stored = true;
                assert(s0.trees.dom().contains(roots@[i as int]));
            }
            assert(is_flushed(s0, now, rows0, self.registry.rows())) by {
                let out = self.registry.rows();
                assert forall|k: int| 0 <= k < rows0.len() implies (#[trigger] out[k]).same_but_tree(
                    rows0[k],
                ) && out[k].tree == (if now.contains(rows0[k].agent_id) && s0.trees.dom().contains(
                    rows0[k].agent_id,
                ) {
                    s0.stored_tree(rows0[k].agent_id)
                } else {
                    rows0[k].tree
                }) by {
                    assert(before[k].same_but_tree(rows0[k]));
                }
            }
            i = i + 1;
        }
        proof {
            let all = roots@.take(roots@.len() as int);
            assert(all =~= roots@);
            assert(all.to_set() =~= s0.dirty);
            if exists|n: u64| #[trigger] s0.dirty.contains(n) && s0.trees.dom().contains(n) {
                let n = choose|n: u64| #[trigger] s0.dirty.contains(n) && s0.trees.dom().contains(n);
                let k = choose|k: int| 0 <= k < roots@.len() && roots@[k] == n;
                assert(s0.trees.dom().contains(roots@[k]));
            }
            if stored {
                let k = choose|k: int|
                    0 <= k < roots@.len() && s0.trees.dom().contains(#[trigger] roots@[k]);
                assert(roots@.contains(roots@[k]));
                assert(s0.dirty.contains(roots@[k]));
            }
        }
        self.maps.dirty = crate::daemon::table::Table::new();
        assert(self.maps.dirty@.dom() =~= Set::<u64>::empty());
        let mut effects: Vec<Effect> = Vec::new();
        if stored {
            effects.push(Effect::SaveRegistry);
        }
        assert(effects@ =~= (if stored {
            seq![Effect::SaveRegistry]
        } else {
            seq![]
        }));
        effects
    }

    /// How many companions a stored layout has, each of which starts anew.
    pub fn companions_to_restore(tree: &PaneTree, agent: PaneId) -> (n: usize)
        ensures
            n == companion_count(*tree, agent),
    {
        proof {
            split_tree::lemma_companion_count(*tree, agent);
        }
        split_tree::companions_of(tree, agent).len()
    }

    /// Whether there are numbers left for all the splits of a stored layout.
    pub fn can_restore(&self, tree: &PaneTree) -> (yes: bool)
        ensures
            yes == (self.state().next_split + split_count(*tree) <= u64::MAX),
    {
        split_tree::number_after(tree, self.maps.next_split).is_some()
    }

    /// Rebuild the layout around an agent from a stored one, given the fresh pane of each of its
    /// companions, none for one that did not start. An agent that stood alone is left alone.
    pub fn restore_layout(&mut self, agent: PaneId, tree: &PaneTree, fresh: &[Option<PaneId>]) -> (effects:
        Vec<Effect>)
        requires
            fresh@.len() == companion_count(*tree, agent),
            old(self).state().next_split + split_count(*tree) <= u64::MAX,
        ensures
            final(self).keeps_stores(*old(self)),
            if *tree == (PaneTree::Leaf { pane: agent }) {
                final(self).state() == old(self).state() && effects@.len() == 0
            } else {
                &&& final(self).state() == old(self).state().with_restored(agent.0, *tree, fresh@)
                &&& effects@ == final(self).state().tree_news(agent.0)
            },
    {
        match tree {
            PaneTree::Leaf { pane } => if pane.0 == agent.0 {
                return Vec::new();
            },
            PaneTree::Split { .. } => {},
        }
        let ghost s0 = self.state();
        proof {
            split_tree::lemma_rebuilt_next(*tree, agent, fresh@, s0.next_split as nat);
        }
        let (t, next) = split_tree::rebuild_for_restore(tree, agent, fresh, self.maps.next_split);
        self.maps.next_split = next;
        let mut i: usize = 0;
        let ghost news = |k: int|
            Map::new(|n: u64| fresh@.take(k).contains(Some(PaneId(n))), |n: u64| agent.0);
        assert(s0.owner.union_prefer_right(news(0)) =~= s0.owner);
        while i < fresh.len()
            invariant
                i <= fresh.len(),
                news == (|k: int|
                    Map::new(|n: u64| fresh@.take(k).contains(Some(PaneId(n))), |n: u64| agent.0)),
                self.keeps_stores(*old(self)),
                self.state() == (DaemonState {
                    next_split: next,
                    owner: s0.owner.union_prefer_right(news(i as int)),
                    ..s0
                }),
            decreases fresh.len() - i,
        {
            proof {
                let a = fresh@.take(i as int);
                let b = fresh@.take(i + 1);
                assert(b =~= a.push(fresh@[i as int]));
                assert forall|n: u64| #[trigger] b.contains(Some(PaneId(n))) <==> a.contains(
                    Some(PaneId(n)),
                ) || fresh@[i as int] == Some(PaneId(n)) by {
                    if a.contains(Some(PaneId(n))) {
                        let k = choose|k: int| 0 <= k < a.len() && a[k] == Some(PaneId(n));
                        assert(b[k] == Some(PaneId(n)));
                    }
                    if fresh@[i as int] == Some(PaneId(n)) {
                        assert(b[i as int] == Some(PaneId(n)));
                    }
                }
            }
            match fresh[i] {
                Some(p) => {
                    self.maps.owner.insert(p.0, agent.0);
                    assert(s0.owner.union_prefer_right(news(i as int)).insert(p.0, agent.0)
                        =~= s0.owner.union_prefer_right(news(i + 1)));
                },
                None => {
                    assert(s0.owner.union_prefer_right(news(i as int))
                        =~= s0.owner.union_prefer_right(news(i + 1)));
                },
            }
            i = i + 1;
        }
        assert(fresh@.take(fresh@.len() as int) =~= fresh@);
        self.maps.trees.insert(agent.0, t);
        assert(self.state() =~= s0.with_restored(agent.0, *tree, fresh@));
        let mut effects: Vec<Effect> = Vec::new();
        self.tell_tree(agent, &mut effects);
        assert(effects@ =~= self.state().tree_news(agent.0));
        effects
    }
}

} // verus!
