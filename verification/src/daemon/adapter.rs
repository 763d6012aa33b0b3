//! The programs that can run as agents.

use vstd::prelude::*;

use crate::config::agents::pair_texts;
use crate::daemon::command::PaneCommand;
use crate::text;

verus! {

/// A program that runs as an agent.
#[derive(Debug, Clone, PartialEq, Eq)]
pub struct Adapter {
    /// The name by which its agents are recorded.
    pub id: String,
    pub launch: PaneCommand,
    /// How it takes up its last session again.
    pub resume: PaneCommand,
    /// It reports to the daemon by hooks of its own.
    pub provides_hooks: bool,
}

impl Adapter {
    /// The two adapters say the same.
    pub open spec fn same_as(self, other: Adapter) -> bool {
        &&& self.id@ == other.id@
        &&& self.launch.same_as(other.launch)
        &&& self.resume.same_as(other.resume)
        &&& self.provides_hooks == other.provides_hooks
    }

    /// The same adapter once more.
    pub fn copied(&self) -> (a: Adapter)
        ensures
            a.same_as(*self),
    {
        Adapter {
            id: self.id.clone(),
            launch: self.launch.copied(),
            resume: self.resume.copied(),
            provides_hooks: self.provides_hooks,
        }
    }
}

/// A built-in agent: what the user picks it by, and what it runs.
#[derive(Debug, Clone, PartialEq, Eq)]
pub struct AdapterDescriptor {
    pub id: String,
    pub display_name: String,
    pub adapter: Adapter,
}

/// The built-in agent goes by this name, to the user or in a record.
pub open spec fn answers_to(d: AdapterDescriptor, name: Seq<char>) -> bool {
    d.id@ == name || d.adapter.id@ == name
}

/// What the first built-in agent of a name runs, from the one with this index on.
pub open spec fn adapter_of(known: Seq<AdapterDescriptor>, name: Seq<char>, from: int) -> Option<Adapter>
    decreases known.len() - from,
{
    if from < 0 || from >= known.len() {
        None
    } else if answers_to(known[from], name) {
        Some(known[from].adapter)
    } else {
        adapter_of(known, name, from + 1)
    }
}

/// The id and the display name of each built-in agent.
pub open spec fn builtins(known: Seq<AdapterDescriptor>) -> Seq<(Seq<char>, Seq<char>)> {
    known.map_values(|d: AdapterDescriptor| (d.id@, d.display_name@))
}

/// What the built-in agent of a name runs; none where there is none of that name.
pub fn build_adapter<'a>(known: &'a [AdapterDescriptor], name: &str) -> (a: Option<&'a Adapter>)
    ensures
        match a {
            Some(x) => adapter_of(known@, name@, 0) == Some(*x),
            None => adapter_of(known@, name@, 0) is None,
        },
{
    let mut i: usize = 0;
    while i < known.len()
        invariant
            i <= known.len(),
            adapter_of(known@, name@, 0) == adapter_of(known@, name@, i as int),
        decreases known.len() - i,
    {
        let d = &known[i];
        if text::same(d.id.as_str(), name) || text::same(d.adapter.id.as_str(), name) {
            return Some(&d.adapter);
        }
        i = i + 1;
    }
    None
}

/// The id and the display name of each built-in agent.
pub fn builtin_pairs<'a>(known: &'a [AdapterDescriptor]) -> (pairs: Vec<(&'a str, &'a str)>)
    ensures
        pair_texts(pairs@) == builtins(known@),
{
    let mut pairs: Vec<(&'a str, &'a str)> = Vec::new();
    let mut i: usize = 0;
    while i < known.len()
        invariant
            i <= known.len(),
            pairs@.len() == i,
            forall|k: int|
                0 <= k < i ==> (#[trigger] pairs@[k]).0@ == known@[k].id@ && pairs@[k].1@
                    == known@[k].display_name@,
        decreases known.len() - i,
    {
        pairs.push((known[i].id.as_str(), known[i].display_name.as_str()));
        i = i + 1;
    }
    assert(pair_texts(pairs@) =~= builtins(known@));
    pairs
}

/// No two built-in agents share a name.
pub open spec fn are_distinct(known: Seq<AdapterDescriptor>) -> bool {
    forall|i: int, j: int, name: Seq<char>|
        0 <= i < known.len() && 0 <= j < known.len() && #[trigger] answers_to(known[i], name)
            && #[trigger] answers_to(known[j], name) ==> i == j
}

/// An agent runs again by what it ran by: its record and what the user picked find the same adapter.
pub proof fn law_a_record_finds_its_adapter(known: Seq<AdapterDescriptor>, k: int)
    requires
        are_distinct(known),
        0 <= k < known.len(),
    ensures
        adapter_of(known, known[k].id@, 0) == Some(known[k].adapter),
        adapter_of(known, known[k].adapter.id@, 0) == Some(known[k].adapter),
{
    lemma_found(known, k, known[k].id@, 0);
    lemma_found(known, k, known[k].adapter.id@, 0);
}

proof fn lemma_found(known: Seq<AdapterDescriptor>, k: int, name: Seq<char>, from: int)
    requires
        are_distinct(known),
        0 <= from <= k < known.len(),
        answers_to(known[k], name),
    ensures
        adapter_of(known, name, from) == Some(known[k].adapter),
    decreases k - from,
{
    if from < k {
        assert(!answers_to(known[from], name));
        lemma_found(known, k, name, from + 1);
    }
}

/// What a name finds is what an agent of that name runs; where no agent goes by it, there is nothing.
pub proof fn law_a_name_finds_its_own_adapter(known: Seq<AdapterDescriptor>, name: Seq<char>, from: int)
    requires
        0 <= from <= known.len(),
    ensures
        match adapter_of(known, name, from) {
            Some(a) => exists|k: int|
                from <= k < known.len() && (#[trigger] known[k]).adapter == a && (known[k].id@ == name
                    || a.id@ == name),
            None => forall|k: int|
                from <= k < known.len() ==> (#[trigger] known[k]).id@ != name && known[k].adapter.id@
                    != name,
        },
    decreases known.len() - from,
{
    if from < known.len() && !answers_to(known[from], name) {
        law_a_name_finds_its_own_adapter(known, name, from + 1);
    }
}

} // verus!
