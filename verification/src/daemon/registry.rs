//! The agents that outlive the daemon.

use vstd::prelude::*;

use crate::config::resolve;
use crate::config::vars::Vars;
use crate::daemon::store::JsonStore;
use crate::proto::control::PaneTree;
use crate::text;

verus! {

/// What is needed to run an agent again in its worktree.
#[derive(Debug, PartialEq, Eq)]
pub struct AgentRecord {
    pub agent_id: u64,
    pub project: String,
    pub task: String,
    pub adapter_id: String,
    pub worktree_path: String,
    pub branch: String,
    pub workspace_kind: String,
    pub cols: u16,
    pub rows: u16,
    /// The layout of its panes, where it has companions.
    pub tree: Option<PaneTree>,
    /// The profile that it was spawned from.
    pub profile_id: Option<String>,
    /// The arguments of that profile, as they were when it was spawned.
    pub extra_args: Vec<String>,
}

impl AgentRecord {
    /// The same record once more.
    pub fn copied(&self) -> (r: AgentRecord)
        ensures
            r.same_as(*self),
    {
        AgentRecord {
            agent_id: self.agent_id,
            project: self.project.clone(),
            task: self.task.clone(),
            adapter_id: self.adapter_id.clone(),
            worktree_path: self.worktree_path.clone(),
            branch: self.branch.clone(),
            workspace_kind: self.workspace_kind.clone(),
            cols: self.cols,
            rows: self.rows,
            tree: match &self.tree {
                Some(t) => Some(t.copied()),
                None => None,
            },
            profile_id: self.profile_id.clone(),
            extra_args: text::copies(&self.extra_args),
        }
    }

    /// The record says the same as another.
    pub open spec fn same_as(&self, other: AgentRecord) -> bool {
        &&& self.same_but_tree(other)
        &&& self.tree == other.tree
    }

    /// The record says the same as another, except for the layout.
    pub open spec fn same_but_tree(&self, other: AgentRecord) -> bool {
        &&& self.agent_id == other.agent_id
        &&& self.project@ == other.project@
        &&& self.task@ == other.task@
        &&& self.adapter_id@ == other.adapter_id@
        &&& self.worktree_path@ == other.worktree_path@
        &&& self.branch@ == other.branch@
        &&& self.workspace_kind@ == other.workspace_kind@
        &&& self.cols == other.cols
        &&& self.rows == other.rows
        &&& text::opt_text(self.profile_id) == text::opt_text(other.profile_id)
        &&& text::texts(self.extra_args@) == text::texts(other.extra_args@)
    }
}

/// The rows but those of one agent.
pub open spec fn without_agent(rows: Seq<AgentRecord>, id: u64) -> Seq<AgentRecord>
    decreases rows.len(),
{
    if rows.len() == 0 {
        seq![]
    } else if rows.last().agent_id == id {
        without_agent(rows.drop_last(), id)
    } else {
        without_agent(rows.drop_last(), id).push(rows.last())
    }
}

/// The rows with the layout of one agent replaced.
pub open spec fn is_with_tree(
    rows: Seq<AgentRecord>,
    id: u64,
    tree: Option<PaneTree>,
    out: Seq<AgentRecord>,
) -> bool {
    &&& out.len() == rows.len()
    &&& forall|k: int|
        0 <= k < rows.len() ==> (#[trigger] out[k]).same_but_tree(rows[k]) && out[k].tree == (
        if rows[k].agent_id == id {
            tree
        } else {
            rows[k].tree
        })
}

/// The list of the agents that outlive the daemon.
pub struct Registry {
    store: JsonStore<AgentRecord>,
}

impl Registry {
    /// The rows, in order.
    pub closed spec fn rows(&self) -> Seq<AgentRecord> {
        self.store.held()
    }

    /// Where the registry stands.
    pub closed spec fn file(&self) -> Seq<char> {
        self.store.file()
    }

    /// A registry whose file is not there.
    pub fn new(path: String) -> (r: Registry)
        ensures
            r.rows() == Seq::<AgentRecord>::empty(),
            r.file() == path@,
    {
        Registry { store: JsonStore::new(path) }
    }

    /// The registry as its file holds it.
    pub fn loaded(path: String, parsed: Option<Vec<AgentRecord>>) -> (r: Registry)
        ensures
            r.file() == path@,
            r.rows() == (match parsed {
                Some(v) => v@,
                None => Seq::<AgentRecord>::empty(),
            }),
    {
        Registry { store: JsonStore::load(path, parsed) }
    }

    /// The file of the registry: `$CLOWDER_STATE_FILE`, else `agents.json` among the durable state.
    pub fn default_path(env: &Vars) -> (p: String)
        ensures
            p@ == resolve::state_file(*env, "CLOWDER_STATE_FILE"@, "agents.json"@),
    {
        resolve::state_path(env, "CLOWDER_STATE_FILE", "agents.json")
    }

    /// The rows, in order.
    pub fn load(&self) -> (rows: &Vec<AgentRecord>)
        ensures
            rows@ == self.rows(),
    {
        self.store.rows()
    }

    /// Where the registry stands.
    pub fn path(&self) -> (p: &str)
        ensures
            p@ == self.file(),
    {
        self.store.path()
    }

    fn kept(&self, id: u64) -> (out: Vec<AgentRecord>)
        ensures
            out@.len() == without_agent(self.rows(), id).len(),
            forall|k: int|
                0 <= k < out@.len() ==> (#[trigger] out@[k]).same_as(without_agent(self.rows(), id)[k]),
    {
        let rows = self.store.rows();
        let mut out: Vec<AgentRecord> = Vec::new();
        let mut i: usize = 0;
        while i < rows.len()
            invariant
                rows@ == self.rows(),
                i <= rows.len(),
                out@.len() == without_agent(rows@.take(i as int), id).len(),
                forall|k: int|
                    0 <= k < out@.len() ==> (#[trigger] out@[k]).same_as(
                        without_agent(rows@.take(i as int), id)[k],
                    ),
            decreases rows.len() - i,
        {
            assert(rows@.take(i + 1).drop_last() =~= rows@.take(i as int));
            if rows[i].agent_id != id {
                out.push(rows[i].copied());
            }
            i = i + 1;
        }
        assert(rows@.take(rows@.len() as int) =~= rows@);
        out
    }

    /// Put a record in, in place of the one of the same agent.
    pub fn upsert(&mut self, rec: AgentRecord)
        ensures
            final(self).file() == old(self).file(),
            same_rows(
                final(self).rows(),
                without_agent(old(self).rows(), rec.agent_id).push(rec),
            ),
    {
        let mut rows = self.kept(rec.agent_id);
        rows.push(rec);
        self.store.commit(rows);
    }

    /// Take the record of an agent out.
    pub fn remove(&mut self, agent_id: u64)
        ensures
            final(self).file() == old(self).file(),
            same_rows(final(self).rows(), without_agent(old(self).rows(), agent_id)),
    {
        let rows = self.kept(agent_id);
        self.store.commit(rows);
    }

    /// Store the layout of an agent.
    pub fn set_tree(&mut self, agent_id: u64, tree: Option<PaneTree>)
        ensures
            final(self).file() == old(self).file(),
            is_with_tree(old(self).rows(), agent_id, tree, final(self).rows()),
    {
        let mut out: Vec<AgentRecord> = Vec::new();
        let mut i: usize = 0;
        let rows = self.store.rows();
        while i < rows.len()
            invariant
                rows@ == self.rows(),
                i <= rows.len(),
                is_with_tree(rows@.take(i as int), agent_id, tree, out@),
            decreases rows.len() - i,
        {
            let mut rec = rows[i].copied();
            if rec.agent_id == agent_id {
                rec.tree = match &tree {
                    Some(t) => Some(t.copied()),
                    None => None,
                };
            }
            out.push(rec);
            proof {
                assert forall|k: int| 0 <= k < i + 1 implies (#[trigger] out@[k]).same_but_tree(
                    rows@.take(i + 1)[k],
                ) && out@[k].tree == (if rows@.take(i + 1)[k].agent_id == agent_id {
                    tree
                } else {
                    rows@.take(i + 1)[k].tree
                }) by {
                    if k < i {
                        assert(rows@.take(i as int)[k] == rows@.take(i + 1)[k]);
                    }
                }
            }
            i = i + 1;
        }
        assert(rows@.take(rows@.len() as int) =~= rows@);
        self.store.commit(out);
    }

    /// The record of an agent.
    pub fn find(&self, agent_id: u64) -> (found: Option<&AgentRecord>)
        ensures
            match found {
                Some(r) => row_of(self.rows(), agent_id, 0) == Some(*r),
                None => row_of(self.rows(), agent_id, 0) is None,
            },
    {
        let rows = self.store.rows();
        let mut i: usize = 0;
        while i < rows.len()
            invariant
                rows@ == self.rows(),
                i <= rows.len(),
                row_of(rows@, agent_id, 0) == row_of(rows@, agent_id, i as int),
            decreases rows.len() - i,
        {
            if rows[i].agent_id == agent_id {
                return Some(&rows[i]);
            }
            i = i + 1;
        }
        None
    }

    /// Copies of the rows, in order.
    pub fn copies(&self) -> (out: Vec<AgentRecord>)
        ensures
            same_rows(out@, self.rows()),
    {
        let rows = self.store.rows();
        let mut out: Vec<AgentRecord> = Vec::new();
        let mut i: usize = 0;
        while i < rows.len()
            invariant
                rows@ == self.rows(),
                i <= rows.len(),
                out@.len() == i,
                forall|k: int| 0 <= k < i ==> (#[trigger] out@[k]).same_as(rows@[k]),
            decreases rows.len() - i,
        {
            out.push(rows[i].copied());
            i = i + 1;
        }
        out
    }

    /// The greatest number of an agent, 0 where there is none.
    pub fn max_id(&self) -> (n: u64)
        ensures
            forall|k: int| 0 <= k < self.rows().len() ==> (#[trigger] self.rows()[k]).agent_id <= n,
            n == 0 || exists|k: int| 0 <= k < self.rows().len() && (#[trigger] self.rows()[k]).agent_id == n,
    {
        let rows = self.store.rows();
        let mut n: u64 = 0;
        let mut i: usize = 0;
        while i < rows.len()
            invariant
                rows@ == self.rows(),
                i <= rows.len(),
                forall|k: int| 0 <= k < i ==> (#[trigger] rows@[k]).agent_id <= n,
                n == 0 || exists|k: int| 0 <= k < i && (#[trigger] rows@[k]).agent_id == n,
            decreases rows.len() - i,
        {
            if rows[i].agent_id > n {
                n = rows[i].agent_id;
            }
            i = i + 1;
        }
        n
    }
}

/// The first row of an agent, from index `from` on.
pub open spec fn row_of(rows: Seq<AgentRecord>, id: u64, from: int) -> Option<AgentRecord>
    decreases rows.len() - from,
{
    if from < 0 || from >= rows.len() {
        None
    } else if rows[from].agent_id == id {
        Some(rows[from])
    } else {
        row_of(rows, id, from + 1)
    }
}

/// The rows say the same, one for one.
pub open spec fn same_rows(a: Seq<AgentRecord>, b: Seq<AgentRecord>) -> bool {
    &&& a.len() == b.len()
    &&& forall|k: int| 0 <= k < a.len() ==> (#[trigger] a[k]).same_as(b[k])
}

/// No two rows are of one agent.
pub open spec fn distinct_agents(rows: Seq<AgentRecord>) -> bool {
    forall|a: int, b: int|
        0 <= a < b < rows.len() ==> (#[trigger] rows[a]).agent_id != (#[trigger] rows[b]).agent_id
}

/// What is left without an agent was there before, in order, and none of it is of that agent.
pub proof fn lemma_without_agent(rows: Seq<AgentRecord>, id: u64)
    ensures
        without_agent(rows, id).len() <= rows.len(),
        forall|k: int| 0 <= k < without_agent(rows, id).len() ==> (#[trigger] without_agent(rows, id)[k]).agent_id
            != id,
        forall|k: int|
            0 <= k < without_agent(rows, id).len() ==> rows.contains(#[trigger] without_agent(rows, id)[k]),
        distinct_agents(rows) ==> distinct_agents(without_agent(rows, id)),
    decreases rows.len(),
{
    if rows.len() > 0 {
        let before = rows.drop_last();
        lemma_without_agent(before, id);
        let w = without_agent(before, id);
        assert forall|k: int| 0 <= k < w.len() implies rows.contains(#[trigger] w[k]) by {
            let j = choose|j: int| 0 <= j < before.len() && before[j] == w[k];
            assert(rows[j] == w[k]);
        }
        assert(rows[rows.len() - 1] == rows.last());
        if distinct_agents(rows) {
            assert(distinct_agents(before));
            assert forall|k: int| 0 <= k < w.len() implies (#[trigger] w[k]).agent_id
                != rows.last().agent_id by {
                let j = choose|j: int| 0 <= j < before.len() && before[j] == w[k];
                assert(rows[j].agent_id != rows[rows.len() - 1].agent_id);
            }
        }
    }
}

/// Putting a record in keeps one row for each agent.
pub proof fn law_upsert_keeps_agents_distinct(rows: Seq<AgentRecord>, rec: AgentRecord)
    requires
        distinct_agents(rows),
    ensures
        distinct_agents(without_agent(rows, rec.agent_id).push(rec)),
{
    lemma_without_agent(rows, rec.agent_id);
}

/// A record that was taken out is not there any more.
pub proof fn law_removed_agent_is_gone(rows: Seq<AgentRecord>, id: u64)
    ensures
        row_of(without_agent(rows, id), id, 0) is None,
{
    lemma_without_agent(rows, id);
    lemma_row_absent(without_agent(rows, id), id, 0);
}

proof fn lemma_row_absent(rows: Seq<AgentRecord>, id: u64, from: int)
    requires
        0 <= from,
        forall|k: int| from <= k < rows.len() ==> (#[trigger] rows[k]).agent_id != id,
    ensures
        row_of(rows, id, from) is None,
    decreases rows.len() - from,
{
    if from < rows.len() {
        lemma_row_absent(rows, id, from + 1);
    }
}

proof fn lemma_row_of_same(a: Seq<AgentRecord>, b: Seq<AgentRecord>, id: u64, from: int)
    requires
        same_rows(a, b),
        0 <= from <= a.len(),
    ensures
        row_of(a, id, from) is Some <==> row_of(b, id, from) is Some,
        row_of(a, id, from) matches Some(r) ==> r.same_as(row_of(b, id, from)->0),
    decreases a.len() - from,
{
    if from < a.len() {
        assert(a[from].same_as(b[from]));
        lemma_row_of_same(a, b, id, from + 1);
    }
}

proof fn lemma_row_of_push(rows: Seq<AgentRecord>, rec: AgentRecord, id: u64, from: int)
    requires
        0 <= from <= rows.len(),
    ensures
        row_of(rows.push(rec), id, from) == (match row_of(rows, id, from) {
            Some(r) => Some(r),
            None => if rec.agent_id == id {
                Some(rec)
            } else {
                None
            },
        }),
    decreases rows.len() - from,
{
    if from < rows.len() {
        assert(rows.push(rec)[from] == rows[from]);
        lemma_row_of_push(rows, rec, id, from + 1);
    } else {
        assert(rows.push(rec)[from] == rec);
        assert(row_of(rows.push(rec), id, from + 1) is None);
    }
}

proof fn lemma_row_of_other(rows: Seq<AgentRecord>, gone: u64, id: u64)
    requires
        id != gone,
    ensures
        row_of(without_agent(rows, gone), id, 0) == row_of(rows, id, 0),
    decreases rows.len(),
{
    if rows.len() > 0 {
        let before = rows.drop_last();
        lemma_row_of_other(before, gone, id);
        lemma_row_of_push(before, rows.last(), id, 0);
        assert(before.push(rows.last()) =~= rows);
        if rows.last().agent_id != gone {
            lemma_row_of_push(without_agent(before, gone), rows.last(), id, 0);
        }
    }
}

/// A record that was put in is found again and says what it said, and replaces the one that its agent
/// had; what is found of every other agent is as before.
pub proof fn law_what_is_put_in_is_found(
    before: Seq<AgentRecord>,
    rec: AgentRecord,
    after: Seq<AgentRecord>,
    other: u64,
)
    requires
        same_rows(after, without_agent(before, rec.agent_id).push(rec)),
        other != rec.agent_id,
    ensures
        row_of(after, rec.agent_id, 0) matches Some(r) && r.same_as(rec),
        row_of(after, other, 0) is Some <==> row_of(before, other, 0) is Some,
        row_of(after, other, 0) matches Some(r) ==> r.same_as(row_of(before, other, 0)->0),
{
    let kept = without_agent(before, rec.agent_id);
    law_removed_agent_is_gone(before, rec.agent_id);
    lemma_row_of_push(kept, rec, rec.agent_id, 0);
    lemma_row_of_push(kept, rec, other, 0);
    lemma_row_of_other(before, rec.agent_id, other);
    lemma_row_of_same(after, kept.push(rec), rec.agent_id, 0);
    lemma_row_of_same(after, kept.push(rec), other, 0);
}

/// Of an agent that was taken out nothing is found, and of every other one what was found before.
pub proof fn law_taking_out_leaves_the_others(
    before: Seq<AgentRecord>,
    id: u64,
    after: Seq<AgentRecord>,
    other: u64,
)
    requires
        same_rows(after, without_agent(before, id)),
        other != id,
    ensures
        row_of(after, id, 0) is None,
        row_of(after, other, 0) is Some <==> row_of(before, other, 0) is Some,
        row_of(after, other, 0) matches Some(r) ==> r.same_as(row_of(before, other, 0)->0),
{
    law_removed_agent_is_gone(before, id);
    lemma_row_of_other(before, id, other);
    lemma_row_of_same(after, without_agent(before, id), id, 0);
    lemma_row_of_same(after, without_agent(before, id), other, 0);
}

/// Storing a layout changes the layout of that agent, and of no other, and nothing else of any record.
pub proof fn law_storing_a_layout_changes_one(
    before: Seq<AgentRecord>,
    id: u64,
    tree: Option<PaneTree>,
    after: Seq<AgentRecord>,
    k: int,
)
    requires
        is_with_tree(before, id, tree, after),
        0 <= k < before.len(),
    ensures
        before[k].agent_id == id ==> after[k].tree == tree,
        before[k].agent_id != id ==> after[k].tree == before[k].tree,
        after[k].agent_id == before[k].agent_id,
        after[k].project@ == before[k].project@,
        after[k].worktree_path@ == before[k].worktree_path@,
        after[k].branch@ == before[k].branch@,
{
    assert(after[k].same_but_tree(before[k]));
}

/// A copy of a record agrees with it in everything.
pub proof fn law_a_copy_says_the_same(a: AgentRecord, b: AgentRecord)
    requires
        a.same_as(b),
    ensures
        a.agent_id == b.agent_id && a.cols == b.cols && a.rows == b.rows && a.tree == b.tree,
        a.project@ == b.project@ && a.worktree_path@ == b.worktree_path@ && a.branch@ == b.branch@,
        a.task@ == b.task@ && a.adapter_id@ == b.adapter_id@ && a.workspace_kind@ == b.workspace_kind@,
        text::opt_text(a.profile_id) == text::opt_text(b.profile_id),
        text::texts(a.extra_args@) == text::texts(b.extra_args@),
{
}

} // verus!
