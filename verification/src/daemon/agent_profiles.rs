//! The user's agent profiles.

use vstd::prelude::*;

use crate::config::agents;
use crate::config::agents::{
    arguments, effective_rows, is_builtin, merged, profile_fault, refusal, rows,
    template_fault, AgentProfile, AgentProfileView, EffectiveProfile, EffectiveProfileView,
};
use crate::config::resolve;
use crate::config::vars::Vars;
use crate::daemon::adapter;
use crate::daemon::adapter::AdapterDescriptor;
use crate::daemon::store::JsonStore;
use crate::text;
use crate::text::texts;

verus! {

/// A profile made ready for a spawn: which adapter to build, and the arguments to add once the
/// worktree is there.
#[derive(Debug, Clone, PartialEq, Eq)]
pub struct ResolvedProfile {
    pub profile_id: String,
    pub base: String,
    /// Split, but with its tokens still in place.
    pub arg_template: Vec<String>,
}

/// The list of the rows that the user has written: one for each built-in that was changed, and one
/// for each profile of the user's own.
pub struct AgentProfileStore {
    store: JsonStore<AgentProfile>,
    known: Vec<AdapterDescriptor>,
}

/// An effective profile has this id.
pub open spec fn has_effective(all: Seq<EffectiveProfileView>, id: Seq<char>) -> bool {
    exists|k: int| 0 <= k < all.len() && (#[trigger] all[k]).profile.id == id
}

/// The first effective profile with this id, from index `from` on.
pub open spec fn effective_with_id(all: Seq<EffectiveProfileView>, id: Seq<char>, from: int) -> Option<
    EffectiveProfileView,
>
    decreases all.len() - from,
{
    if from < 0 || from >= all.len() {
        None
    } else if all[from].profile.id == id {
        Some(all[from])
    } else {
        effective_with_id(all, id, from + 1)
    }
}

/// The rows but those with this id.
pub open spec fn without_id(file: Seq<AgentProfileView>, id: Seq<char>) -> Seq<AgentProfileView>
    decreases file.len(),
{
    if file.len() == 0 {
        seq![]
    } else if file.last().id == id {
        without_id(file.drop_last(), id)
    } else {
        without_id(file.drop_last(), id).push(file.last())
    }
}

/// Why a profile cannot be added.
pub open spec fn add_refusal(
    b: Seq<(Seq<char>, Seq<char>)>,
    file: Seq<AgentProfileView>, p: AgentProfileView) -> Option<Seq<char>> {
    match profile_fault(p, b) {
        Some(fault) => Some(fault),
        None => if is_builtin(b, p.id) {
            Some(p.id + " is a built-in agent — pick another id"@)
        } else if has_effective(merged(file, b), p.id) {
            Some("an agent named "@ + p.id + " already exists"@)
        } else {
            None
        },
    }
}

/// Why a profile cannot be replaced.
pub open spec fn update_refusal(
    b: Seq<(Seq<char>, Seq<char>)>,
    file: Seq<AgentProfileView>, p: AgentProfileView) -> Option<Seq<char>> {
    match profile_fault(p, b) {
        Some(fault) => Some(fault),
        None => if !has_effective(merged(file, b), p.id) {
            Some("no such agent: "@ + p.id)
        } else {
            None
        },
    }
}

/// Why a profile cannot be removed: a built-in never can.
pub open spec fn remove_refusal(
    b: Seq<(Seq<char>, Seq<char>)>,
    file: Seq<AgentProfileView>, id: Seq<char>) -> Option<Seq<char>> {
    if is_builtin(b, id) {
        Some(id + " is a built-in agent and cannot be removed — disable it instead"@)
    } else if !has_effective(merged(file, b), id) {
        Some("no such agent: "@ + id)
    } else {
        None
    }
}

/// Why a profile cannot be spawned.
pub open spec fn resolve_refusal(
    b: Seq<(Seq<char>, Seq<char>)>,
    file: Seq<AgentProfileView>, id: Seq<char>) -> Option<Seq<char>> {
    match effective_with_id(merged(file, b), id, 0) {
        None => Some("unknown agent: "@ + id),
        Some(e) => if !e.profile.enabled {
            Some(
                "agent "@ + id + " is disabled — enable it in Settings, or run `clowder agent enable "@
                    + id + "`"@,
            )
        } else {
            template_fault(e.profile.args)
        },
    }
}

/// What a profile comes to when it is made ready for a spawn.
pub open spec fn is_resolved(
    b: Seq<(Seq<char>, Seq<char>)>,
    file: Seq<AgentProfileView>,
    id: Seq<char>,
    r: Result<ResolvedProfile, String>,
) -> bool {
    match r {
        Ok(p) => {
            &&& resolve_refusal(b, file, id) is None
            &&& effective_with_id(merged(file, b), id, 0) matches Some(e)
            &&& p.profile_id@ == id
            &&& p.base@ == e.profile.base
            &&& arguments(e.profile.args) == Ok::<Seq<Seq<char>>, Seq<char>>(texts(p.arg_template@))
        },
        Err(e) => resolve_refusal(b, file, id) == Some(e@),
    }
}

impl AgentProfileStore {
    /// What the rows say, in order.
    pub closed spec fn rows(&self) -> Seq<AgentProfileView> {
        rows(self.store.held())
    }

    /// Where the profiles stand.
    pub closed spec fn file(&self) -> Seq<char> {
        self.store.file()
    }

    /// The built-in agents.
    pub closed spec fn known(&self) -> Seq<AdapterDescriptor> {
        self.known@
    }

    /// The id and the display name of each built-in agent.
    pub open spec fn builtins(&self) -> Seq<(Seq<char>, Seq<char>)> {
        adapter::builtins(self.known())
    }

    /// The profiles that take effect.
    pub open spec fn in_effect(&self) -> Seq<EffectiveProfileView> {
        merged(self.rows(), self.builtins())
    }

    /// A store whose file is not there.
    pub fn new(path: String, known: Vec<AdapterDescriptor>) -> (s: AgentProfileStore)
        ensures
            s.rows() == Seq::<AgentProfileView>::empty(),
            s.file() == path@,
            s.known() == known@,
    {
        let s = AgentProfileStore { store: JsonStore::new(path), known };
        assert(s.rows() =~= Seq::<AgentProfileView>::empty());
        s
    }

    /// The store as its file holds it. A file that is missing or does not parse holds nothing.
    pub fn loaded(
        path: String,
        parsed: Option<Vec<AgentProfile>>,
        known: Vec<AdapterDescriptor>,
    ) -> (s: AgentProfileStore)
        ensures
            s.file() == path@,
            s.known() == known@,
            s.rows() == (match parsed {
                Some(v) => rows(v@),
                None => Seq::<AgentProfileView>::empty(),
            }),
    {
        let s = AgentProfileStore { store: JsonStore::load(path, parsed), known };
        assert(parsed is None ==> s.rows() =~= Seq::<AgentProfileView>::empty());
        s
    }

    /// The file of the profiles: `$CLOWDER_AGENT_PROFILES_FILE`, else `agent-profiles.json` among the
    /// durable state.
    pub fn default_path(env: &Vars) -> (p: String)
        ensures
            p@ == resolve::state_file(
                *env,
                "CLOWDER_AGENT_PROFILES_FILE"@,
                "agent-profiles.json"@,
            ),
    {
        resolve::state_path(env, "CLOWDER_AGENT_PROFILES_FILE", "agent-profiles.json")
    }

    /// The rows, in order.
    pub fn list(&self) -> (all: &Vec<AgentProfile>)
        ensures
            rows(all@) == self.rows(),
    {
        self.store.rows()
    }

    /// The built-in agents.
    pub fn adapters(&self) -> (all: &Vec<AdapterDescriptor>)
        ensures
            all@ == self.known(),
    {
        &self.known
    }

    /// Where the profiles stand.
    pub fn path(&self) -> (p: &str)
        ensures
            p@ == self.file(),
    {
        self.store.path()
    }

    fn row_copies(&self) -> (out: Vec<AgentProfile>)
        ensures
            rows(out@) == self.rows(),
    {
        let all = self.store.rows();
        let mut out: Vec<AgentProfile> = Vec::new();
        let mut i: usize = 0;
        while i < all.len()
            invariant
                all@ == self.store.held(),
                i <= all.len(),
                out@.len() == i,
                forall|k: int| 0 <= k < i ==> (#[trigger] out@[k])@ == all@[k]@,
            decreases all.len() - i,
        {
            out.push(all[i].copied());
            i = i + 1;
        }
        assert(rows(out@) =~= self.rows());
        out
    }

    /// The profiles that take effect: every built-in, then the user's own.
    pub fn effective(&self) -> (all: Vec<EffectiveProfile>)
        ensures
            effective_rows(all@) == self.in_effect(),
    {
        let pairs = adapter::builtin_pairs(&self.known);
        agents::merged_profiles(self.row_copies(), &pairs)
    }

    fn is_effective(&self, id: &str) -> (yes: bool)
        ensures
            yes == has_effective(merged(self.rows(), self.builtins()), id@),
    {
        let all = self.effective();
        let mut i: usize = 0;
        while i < all.len()
            invariant
                i <= all.len(),
                effective_rows(all@) == merged(self.rows(), self.builtins()),
                forall|k: int| 0 <= k < i ==> (#[trigger] effective_rows(all@)[k]).profile.id != id@,
            decreases all.len() - i,
        {
            assert(effective_rows(all@)[i as int] == all@[i as int]@);
            if text::same(all[i].profile.id.as_str(), id) {
                return true;
            }
            i = i + 1;
        }
        false
    }

    fn others(&self, id: &str) -> (out: Vec<AgentProfile>)
        ensures
            rows(out@) == without_id(self.rows(), id@),
    {
        let all = self.store.rows();
        let mut out: Vec<AgentProfile> = Vec::new();
        let mut i: usize = 0;
        assert(self.rows().take(0) =~= seq![]);
        assert(rows(out@) =~= seq![]);
        while i < all.len()
            invariant
                all@ == self.store.held(),
                self.rows() == rows(all@),
                i <= all.len(),
                rows(out@) == without_id(self.rows().take(i as int), id@),
            decreases all.len() - i,
        {
            let ghost before = out@;
            assert(self.rows().take(i + 1).drop_last() =~= self.rows().take(i as int));
            assert(self.rows().take(i + 1).last() == all@[i as int]@);
            if !text::same(all[i].id.as_str(), id) {
                let row = all[i].copied();
                out.push(row);
                assert(rows(out@) =~= rows(before).push(row@));
            }
            i = i + 1;
        }
        assert(self.rows().take(self.rows().len() as int) =~= self.rows());
        out
    }

    /// Add a profile of the user's own.
    pub fn add(&mut self, profile: AgentProfile) -> (r: Result<(), String>)
        ensures
            final(self).file() == old(self).file(),
            final(self).known() == old(self).known(),
            refusal(r) == add_refusal(old(self).builtins(), old(self).rows(), profile@),
            r is Err ==> final(self).in_effect() == old(self).in_effect(),
            final(self).rows() == (if r is Ok {
                old(self).rows().push(profile@)
            } else {
                old(self).rows()
            }),
    {
        let pairs = adapter::builtin_pairs(&self.known);
        match agents::validate_profile(&profile, &pairs) {
            Err(e) => return Err(e),
            Ok(_) => {},
        }
        if agents::has_builtin(&pairs, profile.id.as_str()) {
            let mut m = profile.id.clone();
            m.append(" is a built-in agent — pick another id");
            return Err(m);
        }
        if self.is_effective(profile.id.as_str()) {
            let mut m = "an agent named ".to_owned();
            m.append(profile.id.as_str());
            m.append(" already exists");
            return Err(m);
        }
        let mut all = self.row_copies();
        let ghost before = all@;
        all.push(profile);
        assert(rows(all@) =~= rows(before).push(profile@));
        self.store.commit(all);
        Ok(())
    }

    /// Replace a profile: a row of the user's own, or what the user changes of a built-in.
    pub fn update(&mut self, profile: AgentProfile) -> (r: Result<(), String>)
        ensures
            final(self).file() == old(self).file(),
            final(self).known() == old(self).known(),
            refusal(r) == update_refusal(old(self).builtins(), old(self).rows(), profile@),
            r is Err ==> final(self).in_effect() == old(self).in_effect(),
            final(self).rows() == (if r is Ok {
                without_id(old(self).rows(), profile@.id).push(profile@)
            } else {
                old(self).rows()
            }),
    {
        let pairs = adapter::builtin_pairs(&self.known);
        match agents::validate_profile(&profile, &pairs) {
            Err(e) => return Err(e),
            Ok(_) => {},
        }
        if !self.is_effective(profile.id.as_str()) {
            let mut m = "no such agent: ".to_owned();
            m.append(profile.id.as_str());
            return Err(m);
        }
        let mut all = self.others(profile.id.as_str());
        let ghost before = all@;
        all.push(profile);
        assert(rows(all@) =~= rows(before).push(profile@));
        self.store.commit(all);
        Ok(())
    }

    /// Remove a profile of the user's own.
    pub fn remove(&mut self, id: &str) -> (r: Result<(), String>)
        ensures
            final(self).file() == old(self).file(),
            final(self).known() == old(self).known(),
            refusal(r) == remove_refusal(old(self).builtins(), old(self).rows(), id@),
            r is Err ==> final(self).in_effect() == old(self).in_effect(),
            final(self).rows() == (if r is Ok {
                without_id(old(self).rows(), id@)
            } else {
                old(self).rows()
            }),
    {
        let pairs = adapter::builtin_pairs(&self.known);
        if agents::has_builtin(&pairs, id) {
            let mut m = id.to_owned();
            m.append(" is a built-in agent and cannot be removed — disable it instead");
            return Err(m);
        }
        if !self.is_effective(id) {
            let mut m = "no such agent: ".to_owned();
            m.append(id);
            return Err(m);
        }
        let all = self.others(id);
        self.store.commit(all);
        Ok(())
    }

    /// Make a profile ready for a spawn. Its template is checked once more: the file can be edited by
    /// hand.
    pub fn resolve(&self, id: &str) -> (r: Result<ResolvedProfile, String>)
        ensures
            is_resolved(self.builtins(), self.rows(), id@, r),
    {
        let all = self.effective();
        let mut i: usize = 0;
        while i < all.len()
            invariant
                i <= all.len(),
                effective_rows(all@) == merged(self.rows(), self.builtins()),
                effective_with_id(effective_rows(all@), id@, 0) == effective_with_id(
                    effective_rows(all@),
                    id@,
                    i as int,
                ),
            decreases all.len() - i,
        {
            assert(effective_rows(all@)[i as int] == all@[i as int]@);
            let p = &all[i].profile;
            if text::same(p.id.as_str(), id) {
                if !p.enabled {
                    let mut m = "agent ".to_owned();
                    m.append(id);
                    m.append(" is disabled — enable it in Settings, or run `clowder agent enable ");
                    m.append(id);
                    m.append("`");
                    return Err(m);
                }
                match agents::validate_template(p.args.as_str()) {
                    Err(e) => return Err(e),
                    Ok(_) => {},
                }
                return match agents::split_args(p.args.as_str()) {
                    Err(e) => Err(e),
                    Ok(arg_template) => Ok(
                        ResolvedProfile {
                            profile_id: p.id.clone(),
                            base: p.base.clone(),
                            arg_template,
                        },
                    ),
                };
            }
            i = i + 1;
        }
        let mut m = "unknown agent: ".to_owned();
        m.append(id);
        Err(m)
    }
}

/// No two of the built-in agents have the same id.
pub open spec fn distinct_builtins(b: Seq<(Seq<char>, Seq<char>)>) -> bool {
    forall|j: int, k: int| 0 <= j < k < b.len() ==> (#[trigger] b[j]).0 != (#[trigger] b[k]).0
}

/// Every built-in takes effect whatever the file holds, in the same order and before all else, and
/// nothing else counts as built in.
pub proof fn law_builtins_always_take_effect(
    b: Seq<(Seq<char>, Seq<char>)>,
    file: Seq<AgentProfileView>,
)
    ensures
        b.len() <= merged(file, b).len(),
        forall|k: int| 0 <= k < b.len() ==> (#[trigger] merged(file, b)[k]).profile.id == b[k].0,
        forall|k: int|
            0 <= k < merged(file, b).len() ==> (#[trigger] merged(file, b)[k]).builtin == (k < b.len()),
{
    lemma_own_rows(b, file);
    assert forall|k: int| 0 <= k < b.len() implies (#[trigger] merged(file, b)[k]).profile.id == b[k].0 by {
        lemma_row_has_id(file, b[k].0, 0);
    }
}

/// Every built-in takes effect exactly once, whatever the file holds.
pub proof fn law_each_builtin_takes_effect_once(
    b: Seq<(Seq<char>, Seq<char>)>,
    file: Seq<AgentProfileView>,
    k: int,
    j: int,
)
    requires
        distinct_builtins(b),
        0 <= k < b.len(),
        0 <= j < merged(file, b).len(),
    ensures
        merged(file, b)[j].profile.id == b[k].0 <==> j == k,
{
    law_builtins_always_take_effect(b, file);
    lemma_own_rows(b, file);
    assert(is_builtin(b, b[k].0));
}

/// Where the file holds nothing, exactly the built-ins take effect, each of them enabled and without
/// arguments.
pub proof fn law_an_empty_file_leaves_the_builtins(b: Seq<(Seq<char>, Seq<char>)>, k: int)
    requires
        0 <= k < b.len(),
    ensures
        merged(seq![], b).len() == b.len(),
        merged(seq![], b)[k] == (EffectiveProfileView {
            profile: AgentProfileView {
                id: b[k].0,
                base: b[k].0,
                display_name: b[k].1,
                enabled: true,
                args: seq![],
            },
            builtin: true,
        }),
{
}

proof fn lemma_own_rows(b: Seq<(Seq<char>, Seq<char>)>, file: Seq<AgentProfileView>)
    ensures
        forall|k: int|
            0 <= k < agents::own_rows(file, b).len() ==> !(#[trigger] agents::own_rows(file, b)[k]).builtin
                && !is_builtin(b, agents::own_rows(file, b)[k].profile.id),
    decreases file.len(),
{
    if file.len() > 0 {
        let own = agents::own_rows(file, b);
        let before = agents::own_rows(file.drop_last(), b);
        lemma_own_rows(b, file.drop_last());
        assert forall|k: int| 0 <= k < own.len() implies !(#[trigger] own[k]).builtin && !is_builtin(
            b,
            own[k].profile.id,
        ) by {
            if k < before.len() {
                assert(own[k] == before[k]);
            }
        }
    }
}

proof fn lemma_row_has_id(file: Seq<AgentProfileView>, id: Seq<char>, from: int)
    requires
        0 <= from,
    ensures
        agents::row_with_id(file, id, from) matches Some(r) ==> r.id == id,
    decreases file.len() - from,
{
    if from < file.len() && file[from].id != id {
        lemma_row_has_id(file, id, from + 1);
    }
}

proof fn lemma_row_push(file: Seq<AgentProfileView>, p: AgentProfileView, id: Seq<char>, from: int)
    requires
        0 <= from <= file.len(),
        p.id != id,
    ensures
        agents::row_with_id(file.push(p), id, from) == agents::row_with_id(file, id, from),
    decreases file.len() - from,
{
    if from < file.len() {
        lemma_row_push(file, p, id, from + 1);
    } else {
        assert(agents::row_with_id(file.push(p), id, from + 1) is None);
    }
}

/// A profile that was added takes effect last, and changes nothing of the others.
pub proof fn law_added_profile_comes_last(
    b: Seq<(Seq<char>, Seq<char>)>,
    file: Seq<AgentProfileView>, p: AgentProfileView)
    requires
        add_refusal(b, file, p) is None,
    ensures
        merged(file.push(p), b) == merged(file, b).push(
            EffectiveProfileView { profile: p, builtin: false },
        ),
{
    assert(file.push(p).drop_last() =~= file);
    let own = EffectiveProfileView { profile: p, builtin: false };
    assert forall|k: int| 0 <= k < b.len() implies agents::effective_builtin(
        file.push(p),
        #[trigger] b[k],
    ) == agents::effective_builtin(file, b[k]) by {
        assert(p.id != b[k].0);
        lemma_row_push(file, p, b[k].0, 0);
    }
    assert(b.map_values(
        |x: (Seq<char>, Seq<char>)| agents::effective_builtin(file.push(p), x),
    ) =~= b.map_values(|x: (Seq<char>, Seq<char>)| agents::effective_builtin(file, x)));
    assert(merged(file.push(p), b) =~= merged(file, b).push(own));
}

proof fn lemma_own_rows_skip(
    b: Seq<(Seq<char>, Seq<char>)>,
    file: Seq<AgentProfileView>, id: Seq<char>)
    requires
        is_builtin(b, id),
    ensures
        agents::own_rows(without_id(file, id), b) == agents::own_rows(file, b),
    decreases file.len(),
{
    if file.len() > 0 {
        lemma_own_rows_skip(b, file.drop_last(), id);
        let rest = without_id(file.drop_last(), id);
        if file.last().id != id {
            assert(rest.push(file.last()).drop_last() =~= rest);
        }
    }
}

proof fn lemma_row_push_same(file: Seq<AgentProfileView>, p: AgentProfileView, from: int)
    requires
        0 <= from <= file.len(),
    ensures
        agents::row_with_id(file.push(p), p.id, from) == (match agents::row_with_id(file, p.id, from) {
            Some(row) => Some(row),
            None => Some(p),
        }),
    decreases file.len() - from,
{
    if from < file.len() {
        lemma_row_push_same(file, p, from + 1);
    }
}

proof fn lemma_row_of_others(file: Seq<AgentProfileView>, id: Seq<char>, other: Seq<char>)
    ensures
        agents::row_with_id(without_id(file, id), other, 0) == (if other == id {
            None
        } else {
            agents::row_with_id(file, other, 0)
        }),
    decreases file.len(),
{
    if file.len() > 0 {
        let before = file.drop_last();
        let last = file.last();
        let rest = without_id(before, id);
        lemma_row_of_others(before, id, other);
        assert(before.push(last) =~= file);
        if last.id == other {
            lemma_row_push_same(before, last, 0);
            lemma_row_push_same(rest, last, 0);
        } else {
            lemma_row_push(before, last, other, 0);
            lemma_row_push(rest, last, other, 0);
        }
    }
}

/// The profiles in effect but those with this id, in order.
pub open spec fn others(all: Seq<EffectiveProfileView>, id: Seq<char>) -> Seq<EffectiveProfileView> {
    all.filter(|e: EffectiveProfileView| e.profile.id != id)
}

/// At most one of the profiles in effect has this id.
pub open spec fn is_unrepeated(all: Seq<EffectiveProfileView>, id: Seq<char>) -> bool {
    forall|j: int, k: int|
        0 <= j < k < all.len() ==> !((#[trigger] all[j]).profile.id == id && (
        #[trigger] all[k]).profile.id == id)
}

proof fn lemma_others_push(all: Seq<EffectiveProfileView>, e: EffectiveProfileView, id: Seq<char>)
    ensures
        others(all.push(e), id) == (if e.profile.id == id {
            others(all, id)
        } else {
            others(all, id).push(e)
        }),
{
    all.lemma_filter_push(e, |x: EffectiveProfileView| x.profile.id != id);
}

proof fn lemma_all_others(all: Seq<EffectiveProfileView>, id: Seq<char>)
    requires
        !has_effective(all, id),
    ensures
        others(all, id) == all,
    decreases all.len(),
{
    if all.len() > 0 {
        let before = all.drop_last();
        assert forall|k: int| 0 <= k < before.len() implies (#[trigger] before[k]).profile.id != id by {
            assert(all[k].profile.id != id);
        }
        assert(all[all.len() - 1].profile.id != id);
        lemma_all_others(before, id);
        lemma_others_push(before, all.last(), id);
        assert(before.push(all.last()) =~= all);
    } else {
        all.lemma_filter_len(|e: EffectiveProfileView| e.profile.id != id);
        assert(others(all, id) =~= all);
    }
}

proof fn lemma_others_of_one(all: Seq<EffectiveProfileView>, id: Seq<char>, k: int)
    requires
        is_unrepeated(all, id),
        0 <= k < all.len(),
        all[k].profile.id == id,
    ensures
        others(all, id) == all.remove(k),
    decreases all.len(),
{
    let before = all.drop_last();
    let last = all.last();
    lemma_others_push(before, last, id);
    assert(before.push(last) =~= all);
    if k == all.len() - 1 {
        assert forall|j: int| 0 <= j < before.len() implies (#[trigger] before[j]).profile.id != id by {
            assert(all[j] == before[j]);
        }
        lemma_all_others(before, id);
        assert(all.remove(k) =~= before);
    } else {
        assert(all[all.len() - 1].profile.id != id);
        assert forall|i: int, j: int| 0 <= i < j < before.len() implies !((
        #[trigger] before[i]).profile.id == id && (#[trigger] before[j]).profile.id == id) by {
            assert(all[i] == before[i]);
            assert(all[j] == before[j]);
        }
        lemma_others_of_one(before, id, k);
        assert(all.remove(k) =~= before.remove(k).push(last));
    }
}

proof fn lemma_others_are_not(all: Seq<EffectiveProfileView>, id: Seq<char>)
    ensures
        !has_effective(others(all, id), id),
{
    let keep = |e: EffectiveProfileView| e.profile.id != id;
    let left = others(all, id);
    assert forall|k: int| 0 <= k < left.len() implies (#[trigger] left[k]).profile.id != id by {
        all.lemma_filter_pred(keep, k);
    }
}

proof fn lemma_first_push(all: Seq<EffectiveProfileView>, e: EffectiveProfileView, id: Seq<char>, from: int)
    requires
        0 <= from <= all.len(),
    ensures
        effective_with_id(all.push(e), id, from) == (match effective_with_id(all, id, from) {
            Some(x) => Some(x),
            None => if e.profile.id == id {
                Some(e)
            } else {
                None
            },
        }),
    decreases all.len() - from,
{
    if from < all.len() {
        lemma_first_push(all, e, id, from + 1);
    } else {
        assert(effective_with_id(all.push(e), id, from + 1) is None);
    }
}

/// Which profile is in effect under an id rests on those with that id alone.
proof fn lemma_first_of_others(all: Seq<EffectiveProfileView>, id: Seq<char>, other: Seq<char>)
    requires
        id != other,
    ensures
        effective_with_id(others(all, id), other, 0) == effective_with_id(all, other, 0),
    decreases all.len(),
{
    if all.len() > 0 {
        let before = all.drop_last();
        lemma_first_of_others(before, id, other);
        lemma_others_push(before, all.last(), id);
        lemma_first_push(before, all.last(), other, 0);
        lemma_first_push(others(before, id), all.last(), other, 0);
        assert(before.push(all.last()) =~= all);
    } else {
        all.lemma_filter_len(|e: EffectiveProfileView| e.profile.id != id);
    }
}

proof fn lemma_own_without(
    b: Seq<(Seq<char>, Seq<char>)>,
    file: Seq<AgentProfileView>,
    id: Seq<char>,
)
    requires
        !is_builtin(b, id),
    ensures
        agents::own_rows(without_id(file, id), b) == others(agents::own_rows(file, b), id),
    decreases file.len(),
{
    if file.len() > 0 {
        let before = file.drop_last();
        let last = file.last();
        let rest = without_id(before, id);
        lemma_own_without(b, before, id);
        lemma_others_push(
            agents::own_rows(before, b),
            EffectiveProfileView { profile: last, builtin: false },
            id,
        );
        if last.id != id {
            assert(rest.push(last).drop_last() =~= rest);
        }
    } else {
        let none = Seq::<EffectiveProfileView>::empty();
        none.lemma_filter_len(|e: EffectiveProfileView| e.profile.id != id);
        assert(agents::own_rows(file, b) =~= none);
        assert(others(none, id) =~= none);
    }
}

proof fn lemma_effective_is_found(all: Seq<EffectiveProfileView>, id: Seq<char>, from: int)
    requires
        0 <= from <= all.len(),
    ensures
        match effective_with_id(all, id, from) {
            Some(e) => exists|k: int| from <= k < all.len() && e == #[trigger] all[k] && e.profile.id == id,
            None => forall|k: int| from <= k < all.len() ==> (#[trigger] all[k]).profile.id != id,
        },
    decreases all.len() - from,
{
    if from < all.len() && all[from].profile.id != id {
        lemma_effective_is_found(all, id, from + 1);
    }
}

/// Removing a profile takes out what has its id, and nothing else; where the id is not repeated, that is
/// one profile.
pub proof fn law_removing_takes_out_one_profile(
    b: Seq<(Seq<char>, Seq<char>)>,
    file: Seq<AgentProfileView>,
    id: Seq<char>,
)
    requires
        !is_builtin(b, id),
    ensures
        merged(without_id(file, id), b) == others(merged(file, b), id),
        forall|k: int|
            0 <= k < merged(file, b).len() && (#[trigger] merged(file, b)[k]).profile.id == id
                && is_unrepeated(merged(file, b), id) ==> merged(without_id(file, id), b) == merged(
                file,
                b,
            ).remove(k),
{
    let all = merged(file, b);
    let rest = without_id(file, id);
    let first = b.map_values(|x: (Seq<char>, Seq<char>)| agents::effective_builtin(file, x));
    law_builtins_always_take_effect(b, file);
    assert forall|j: int| 0 <= j < b.len() implies agents::effective_builtin(rest, #[trigger] b[j])
        == agents::effective_builtin(file, b[j]) by {
        assert(b[j].0 != id);
        lemma_row_of_others(file, id, b[j].0);
    }
    assert(b.map_values(|x: (Seq<char>, Seq<char>)| agents::effective_builtin(rest, x)) =~= first);
    assert forall|j: int| 0 <= j < first.len() implies (#[trigger] first[j]).profile.id != id by {
        assert(all[j] == first[j]);
        assert(b[j].0 != id);
    }
    lemma_all_others(first, id);
    lemma_own_without(b, file, id);
    Seq::filter_distributes_over_add(
        first,
        agents::own_rows(file, b),
        |e: EffectiveProfileView| e.profile.id != id,
    );
    assert forall|k: int|
        0 <= k < all.len() && (#[trigger] all[k]).profile.id == id && is_unrepeated(all, id) implies merged(
        rest,
        b,
    ) == all.remove(k) by {
        lemma_others_of_one(all, id, k);
    }
}

/// Changing a built-in puts the new row in its place, and leaves everything else that takes effect as it
/// was: no profile is added.
pub proof fn law_updating_a_builtin_adds_no_profile(
    b: Seq<(Seq<char>, Seq<char>)>,
    file: Seq<AgentProfileView>,
    p: AgentProfileView,
)
    requires
        is_builtin(b, p.id),
    ensures
        merged(without_id(file, p.id).push(p), b) == merged(file, b).map_values(
            |e: EffectiveProfileView|
                if e.profile.id == p.id {
                    EffectiveProfileView { profile: p, builtin: true }
                } else {
                    e
                },
        ),
        others(merged(without_id(file, p.id).push(p), b), p.id) == others(merged(file, b), p.id),
{
    let rest = without_id(file, p.id);
    let after = rest.push(p);
    let all = merged(file, b);
    let new = merged(after, b);
    let entry = EffectiveProfileView { profile: p, builtin: true };
    let change = |e: EffectiveProfileView|
        if e.profile.id == p.id {
            entry
        } else {
            e
        };
    assert(after.drop_last() =~= rest);
    lemma_own_rows_skip(b, file, p.id);
    lemma_own_rows(b, file);
    law_builtins_always_take_effect(b, file);
    assert(new.len() == all.len());
    assert forall|j: int| 0 <= j < all.len() implies #[trigger] new[j] == change(all[j]) by {
        if j < b.len() {
            lemma_row_of_others(file, p.id, b[j].0);
            if b[j].0 == p.id {
                lemma_row_push_same(rest, p, 0);
            } else {
                lemma_row_push(rest, p, b[j].0, 0);
            }
            assert(all[j].profile.id == b[j].0);
        } else {
            assert(all[j] == agents::own_rows(file, b)[j - b.len()]);
        }
    }
    assert(new =~= all.map_values(change));
    lemma_others_of_changed(all, p.id, change);
}

proof fn lemma_others_of_changed(
    all: Seq<EffectiveProfileView>,
    id: Seq<char>,
    change: spec_fn(EffectiveProfileView) -> EffectiveProfileView,
)
    requires
        forall|e: EffectiveProfileView|
            if e.profile.id == id {
                (#[trigger] change(e)).profile.id == id
            } else {
                change(e) == e
            },
    ensures
        others(all.map_values(change), id) == others(all, id),
    decreases all.len(),
{
    if all.len() > 0 {
        let before = all.drop_last();
        lemma_others_of_changed(before, id, change);
        lemma_others_push(before, all.last(), id);
        lemma_others_push(before.map_values(change), change(all.last()), id);
        assert(before.push(all.last()) =~= all);
        assert(before.map_values(change).push(change(all.last())) =~= all.map_values(change));
    } else {
        assert(all.map_values(change) =~= all);
    }
}

/// Changing a profile of the user's own takes out what it was and puts the new row last; every other
/// profile that takes effect stays, in order.
pub proof fn law_updating_an_own_profile_keeps_the_others(
    b: Seq<(Seq<char>, Seq<char>)>,
    file: Seq<AgentProfileView>,
    p: AgentProfileView,
)
    requires
        !is_builtin(b, p.id),
    ensures
        merged(without_id(file, p.id).push(p), b) == others(merged(file, b), p.id).push(
            EffectiveProfileView { profile: p, builtin: false },
        ),
        others(merged(without_id(file, p.id).push(p), b), p.id) == others(merged(file, b), p.id),
{
    law_removing_takes_out_one_profile(b, file, p.id);
    let rest = without_id(file, p.id);
    let left = others(merged(file, b), p.id);
    let entry = EffectiveProfileView { profile: p, builtin: false };
    assert(rest.push(p).drop_last() =~= rest);
    assert forall|j: int| 0 <= j < b.len() implies agents::effective_builtin(
        rest.push(p),
        #[trigger] b[j],
    ) == agents::effective_builtin(rest, b[j]) by {
        assert(p.id != b[j].0);
        lemma_row_push(rest, p, b[j].0, 0);
    }
    assert(merged(rest.push(p), b) =~= left.push(entry));
    lemma_others_are_not(merged(file, b), p.id);
    lemma_all_others(left, p.id);
    lemma_others_push(left, entry, p.id);
}

/// After a profile was changed, the one in effect under its id is the new row, built in as before. Every
/// other profile in effect is as before, and in the same order. The ids are those from before, and so is
/// their number, but where the user's rows repeat the id: then one row is left of those.
pub proof fn law_an_update_changes_one_profile(
    b: Seq<(Seq<char>, Seq<char>)>,
    file: Seq<AgentProfileView>,
    p: AgentProfileView,
    id: Seq<char>,
)
    requires
        update_refusal(b, file, p) is None,
    ensures
        others(merged(without_id(file, p.id).push(p), b), p.id) == others(merged(file, b), p.id),
        has_effective(merged(without_id(file, p.id).push(p), b), id) == has_effective(merged(file, b), id),
        effective_with_id(merged(without_id(file, p.id).push(p), b), id, 0) == (if id == p.id {
            Some(EffectiveProfileView { profile: p, builtin: is_builtin(b, p.id) })
        } else {
            effective_with_id(merged(file, b), id, 0)
        }),
        is_builtin(b, p.id) || is_unrepeated(merged(file, b), p.id) ==> merged(
            without_id(file, p.id).push(p),
            b,
        ).len() == merged(file, b).len(),
{
    let all = merged(file, b);
    let new = merged(without_id(file, p.id).push(p), b);
    let left = others(all, p.id);
    let entry = EffectiveProfileView { profile: p, builtin: is_builtin(b, p.id) };
    let k = choose|k: int| 0 <= k < all.len() && (#[trigger] all[k]).profile.id == p.id;
    lemma_effective_is_found(all, id, 0);
    lemma_effective_is_found(new, id, 0);
    if is_builtin(b, p.id) {
        law_updating_a_builtin_adds_no_profile(b, file, p);
        assert(new[k] == entry);
    } else {
        law_updating_an_own_profile_keeps_the_others(b, file, p);
        lemma_others_are_not(all, p.id);
        assert(new[left.len() as int] == entry);
        assert forall|j: int| 0 <= j < new.len() && (#[trigger] new[j]).profile.id == p.id implies new[j]
            == entry by {
            if j < left.len() {
                assert(new[j] == left[j]);
            }
        }
        if is_unrepeated(all, p.id) {
            lemma_others_of_one(all, p.id, k);
        }
    }
    if id != p.id {
        lemma_first_of_others(all, p.id, id);
        lemma_first_of_others(new, p.id, id);
    }
}

proof fn lemma_no_row(b: Seq<(Seq<char>, Seq<char>)>, file: Seq<AgentProfileView>, id: Seq<char>)
    requires
        !is_builtin(b, id),
        !has_effective(agents::own_rows(file, b), id),
    ensures
        without_id(file, id) == file,
    decreases file.len(),
{
    if file.len() > 0 {
        let before = file.drop_last();
        let own = agents::own_rows(file, b);
        let own_before = agents::own_rows(before, b);
        assert forall|k: int| 0 <= k < own_before.len() implies (#[trigger] own_before[k]).profile.id
            != id by {
            assert(own[k] == own_before[k]);
        }
        lemma_no_row(b, before, id);
        if file.last().id == id {
            assert(own[own.len() - 1].profile.id == id);
        }
        assert(before.push(file.last()) =~= file);
    } else {
        assert(file =~= seq![]);
    }
}

/// A profile that was added can be removed, and the rows are after that what they were before.
pub proof fn law_removing_undoes_adding(
    b: Seq<(Seq<char>, Seq<char>)>,
    file: Seq<AgentProfileView>,
    p: AgentProfileView,
)
    requires
        add_refusal(b, file, p) is None,
    ensures
        remove_refusal(b, file.push(p), p.id) is None,
        without_id(file.push(p), p.id) == file,
{
    law_added_profile_comes_last(b, file, p);
    let all = merged(file, b);
    let own = agents::own_rows(file, b);
    assert(merged(file.push(p), b)[all.len() as int].profile.id == p.id);
    assert forall|k: int| 0 <= k < own.len() implies (#[trigger] own[k]).profile.id != p.id by {
        assert(all[b.len() + k] == own[k]);
    }
    lemma_no_row(b, file, p.id);
    assert(file.push(p).drop_last() =~= file);
}

/// What is spawned under an id is the profile of that id: with its base and the arguments that its
/// template spells, where it is on, and never where it is off. Where there is no such profile there is
/// nothing to spawn.
pub proof fn law_only_what_is_on_is_spawned(
    b: Seq<(Seq<char>, Seq<char>)>,
    file: Seq<AgentProfileView>,
    id: Seq<char>,
    r: Result<ResolvedProfile, String>,
    k: int,
)
    requires
        is_resolved(b, file, id, r),
        0 <= k <= merged(file, b).len(),
        forall|j: int| 0 <= j < k ==> (#[trigger] merged(file, b)[j]).profile.id != id,
        k < merged(file, b).len() ==> merged(file, b)[k].profile.id == id,
    ensures
        k == merged(file, b).len() ==> r is Err,
        k < merged(file, b).len() ==> {
            let p = merged(file, b)[k].profile;
            &&& r is Ok <==> p.enabled && template_fault(p.args) is None
            &&& r matches Ok(ready) ==> {
                &&& ready.profile_id@ == id
                &&& ready.base@ == p.base
                &&& arguments(p.args) == Ok::<Seq<Seq<char>>, Seq<char>>(texts(ready.arg_template@))
            }
        },
{
    lemma_passed_over(merged(file, b), id, 0, k);
}

proof fn lemma_passed_over(all: Seq<EffectiveProfileView>, id: Seq<char>, from: int, k: int)
    requires
        0 <= from <= k <= all.len(),
        forall|j: int| from <= j < k ==> (#[trigger] all[j]).profile.id != id,
    ensures
        effective_with_id(all, id, from) == effective_with_id(all, id, k),
    decreases k - from,
{
    if from < k {
        assert(all[from].profile.id != id);
        lemma_passed_over(all, id, from + 1, k);
    }
}

/// A profile can be added where none has its id, replaced where one has, and removed where one has that
/// is not built in. What is wrong with a profile itself stops the first two.
pub proof fn law_what_can_be_done_to_a_profile(
    b: Seq<(Seq<char>, Seq<char>)>,
    file: Seq<AgentProfileView>,
    p: AgentProfileView,
    id: Seq<char>,
)
    ensures
        ({
            let all = merged(file, b);
            let taken = exists|k: int| 0 <= k < all.len() && (#[trigger] all[k]).profile.id == p.id;
            let there = exists|k: int| 0 <= k < all.len() && (#[trigger] all[k]).profile.id == id;
            let built_in = exists|k: int| 0 <= k < b.len() && (#[trigger] b[k]).0 == id;
            &&& add_refusal(b, file, p) is None <==> profile_fault(p, b) is None && !taken
            &&& update_refusal(b, file, p) is None <==> profile_fault(p, b) is None && taken
            &&& remove_refusal(b, file, id) is None <==> there && !built_in
        }),
{
    let all = merged(file, b);
    law_builtins_always_take_effect(b, file);
    if is_builtin(b, p.id) {
        let k = choose|k: int| 0 <= k < b.len() && (#[trigger] b[k]).0 == p.id;
        assert(all[k].profile.id == p.id);
    }
    assert(has_effective(all, p.id) <==> exists|k: int|
        0 <= k < all.len() && (#[trigger] all[k]).profile.id == p.id);
    assert(is_builtin(b, id) <==> exists|k: int| 0 <= k < b.len() && (#[trigger] b[k]).0 == id);
}

} // verus!
