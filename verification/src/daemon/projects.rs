//! The projects that the user has added.

use vstd::prelude::*;

use crate::config::resolve;
use crate::config::vars::Vars;
use crate::daemon::store::JsonStore;
use crate::path;
use crate::path::{is_within, joined, same_place};
use crate::text;
use crate::workspace::kind::WorkspaceKind;
use crate::workspace::layout::{
    law_worktrees_stand_below_the_base, project_dir_of, worktree_path_of, WorktreeLayout,
};
use crate::workspace::name::name_fault;

verus! {

/// A registered project. Its canonical path is its identity.
#[derive(Debug, Clone, PartialEq, Eq)]
pub struct ProjectRecord {
    pub path: String,
    /// `git` or `jj`, as it was when the project was added.
    pub kind: String,
}

/// What a project record says.
pub struct ProjectRecordView {
    pub path: Seq<char>,
    pub kind: Seq<char>,
}

impl View for ProjectRecord {
    type V = ProjectRecordView;

    open spec fn view(&self) -> ProjectRecordView {
        ProjectRecordView { path: self.path@, kind: self.kind@ }
    }
}

impl ProjectRecord {
    /// A copy that says the same.
    pub fn copied(&self) -> (r: ProjectRecord)
        ensures
            r == *self,
    {
        ProjectRecord { path: self.path.clone(), kind: self.kind.clone() }
    }
}

/// What the records say.
pub open spec fn project_rows(all: Seq<ProjectRecord>) -> Seq<ProjectRecordView> {
    all.map_values(|r: ProjectRecord| r@)
}

/// A project with this path is registered.
pub open spec fn registered(all: Seq<ProjectRecordView>, path: Seq<char>) -> bool {
    exists|k: int| 0 <= k < all.len() && same_place((#[trigger] all[k]).path, path)
}

/// The first record from `from` on that has this path.
pub open spec fn record_at(all: Seq<ProjectRecordView>, path: Seq<char>, from: int) -> Option<
    ProjectRecordView,
>
    decreases all.len() - from,
{
    if from < 0 || from >= all.len() {
        None
    } else if same_place(all[from].path, path) {
        Some(all[from])
    } else {
        record_at(all, path, from + 1)
    }
}

/// What adding the repository of a kind at a canonical path gives: the record, and the records after.
/// A registered path keeps the record it has.
pub open spec fn added(all: Seq<ProjectRecordView>, path: Seq<char>, kind: WorkspaceKind) -> (
    ProjectRecordView,
    Seq<ProjectRecordView>,
) {
    match record_at(all, path, 0) {
        Some(rec) => (rec, all),
        None => {
            let rec = ProjectRecordView { path, kind: kind.name() };
            (rec, all.push(rec))
        },
    }
}

/// The records but those with this path.
pub open spec fn without_path(all: Seq<ProjectRecordView>, path: Seq<char>) -> Seq<ProjectRecordView>
    decreases all.len(),
{
    if all.len() == 0 {
        seq![]
    } else if same_place(all.last().path, path) {
        without_path(all.drop_last(), path)
    } else {
        without_path(all.drop_last(), path).push(all.last())
    }
}

/// What a path turned out to be.
pub struct PathFacts {
    /// The canonical path; none where nothing is there.
    pub canonical: Option<String>,
    pub is_dir: bool,
    /// The kind of the repository around it.
    pub kind: Option<WorkspaceKind>,
    /// The canonical path of the directory of the worktrees, where that is there.
    pub canonical_base: Option<String>,
}

/// The directory of the worktrees, canonical where it is there.
pub open spec fn real_base(layout: WorktreeLayout, facts: PathFacts) -> Seq<char> {
    match facts.canonical_base {
        Some(b) => b@,
        None => layout.root(),
    }
}

/// The path is a worktree of this project: in the directory of its worktrees, or where such stood in
/// earlier days, inside the project.
pub open spec fn is_worktree_of(path: Seq<char>, base: Seq<char>, project: Seq<char>) -> bool {
    is_within(path, project_dir_of(base, project)) || is_within(
        path,
        joined(project, ".clowder/worktrees"@),
    )
}

/// The first project of which the path is a worktree, from index `from` on.
pub open spec fn worktree_owner(
    all: Seq<ProjectRecordView>,
    path: Seq<char>,
    base: Seq<char>,
    from: int,
) -> Option<Seq<char>>
    decreases all.len() - from,
{
    if from < 0 || from >= all.len() {
        None
    } else if is_worktree_of(path, base, all[from].path) {
        Some(all[from].path)
    } else {
        worktree_owner(all, path, base, from + 1)
    }
}

/// Why a path cannot be added as a project. One that is registered already is never taken for a worktree.
pub open spec fn add_refusal(
    all: Seq<ProjectRecordView>,
    layout: WorktreeLayout,
    asked: Seq<char>,
    facts: PathFacts,
) -> Option<Seq<char>> {
    match facts.canonical {
        None => Some("no such path: "@ + asked),
        Some(canonical) => if !facts.is_dir {
            Some("not a directory: "@ + canonical@)
        } else if facts.kind is None {
            Some("not a git or jj repository: "@ + canonical@)
        } else if registered(all, canonical@) {
            None
        } else {
            let base = real_base(layout, facts);
            match worktree_owner(all, canonical@, base, 0) {
                Some(project) => Some(
                    canonical@ + " is a worktree of project "@ + project
                        + " — add the project, not its worktree"@,
                ),
                None => if is_within(canonical@, base) {
                    Some(
                        canonical@
                            + " is inside clowder's worktree directory — add the project it was created from"@,
                    )
                } else {
                    None
                },
            }
        },
    }
}

/// The list of the projects, and the layout of their worktrees.
pub struct ProjectStore {
    store: JsonStore<ProjectRecord>,
    layout: WorktreeLayout,
}

impl ProjectStore {
    /// What the records say, in order.
    pub closed spec fn rows(&self) -> Seq<ProjectRecordView> {
        project_rows(self.store.held())
    }

    /// Where the list stands.
    pub closed spec fn file(&self) -> Seq<char> {
        self.store.file()
    }

    /// The layout of the worktrees.
    pub closed spec fn worktrees(&self) -> WorktreeLayout {
        self.layout
    }

    /// A store whose file is not there.
    pub fn new(path: String, layout: WorktreeLayout) -> (s: ProjectStore)
        ensures
            s.rows() == Seq::<ProjectRecordView>::empty(),
            s.file() == path@,
            s.worktrees() == layout,
    {
        let s = ProjectStore { store: JsonStore::new(path), layout };
        assert(s.rows() =~= Seq::<ProjectRecordView>::empty());
        s
    }

    /// The store as its file holds it.
    pub fn loaded(path: String, layout: WorktreeLayout, parsed: Option<Vec<ProjectRecord>>) -> (s:
        ProjectStore)
        ensures
            s.file() == path@,
            s.worktrees() == layout,
            s.rows() == (match parsed {
                Some(v) => project_rows(v@),
                None => Seq::<ProjectRecordView>::empty(),
            }),
    {
        let s = ProjectStore { store: JsonStore::load(path, parsed), layout };
        assert(parsed is None ==> s.rows() =~= Seq::<ProjectRecordView>::empty());
        s
    }

    /// The file of the projects: `$CLOWDER_PROJECTS_FILE`, else `projects.json` among the durable
    /// state.
    pub fn default_path(env: &Vars) -> (p: String)
        ensures
            p@ == resolve::state_file(*env, "CLOWDER_PROJECTS_FILE"@, "projects.json"@),
    {
        resolve::state_path(env, "CLOWDER_PROJECTS_FILE", "projects.json")
    }

    /// The records, in order.
    pub fn list(&self) -> (all: &Vec<ProjectRecord>)
        ensures
            project_rows(all@) == self.rows(),
    {
        self.store.rows()
    }

    /// Where the list stands.
    pub fn path(&self) -> (p: &str)
        ensures
            p@ == self.file(),
    {
        self.store.path()
    }

    /// Whether a canonical path is a registered project.
    pub fn contains(&self, canonical: &str) -> (yes: bool)
        ensures
            yes == registered(self.rows(), canonical@),
    {
        let all = self.store.rows();
        let mut i: usize = 0;
        while i < all.len()
            invariant
                all@ == self.store.held(),
                i <= all.len(),
                forall|k: int| 0 <= k < i ==> !same_place((#[trigger] self.rows()[k]).path, canonical@),
            decreases all.len() - i,
        {
            assert(self.rows()[i as int] == all@[i as int]@);
            if path::same_path(all[i].path.as_str(), canonical) {
                return true;
            }
            i = i + 1;
        }
        false
    }

    fn record_of(&self, canonical: &str) -> (rec: Option<ProjectRecord>)
        ensures
            match rec {
                Some(r) => record_at(self.rows(), canonical@, 0) == Some(r@),
                None => record_at(self.rows(), canonical@, 0) is None,
            },
            rec is Some == registered(self.rows(), canonical@),
    {
        proof {
            lemma_record_is_registered(self.rows(), canonical@, 0);
        }
        let all = self.store.rows();
        let mut i: usize = 0;
        while i < all.len()
            invariant
                all@ == self.store.held(),
                i <= all.len(),
                record_at(self.rows(), canonical@, 0) == record_at(self.rows(), canonical@, i as int),
            decreases all.len() - i,
        {
            assert(self.rows()[i as int] == all@[i as int]@);
            if path::same_path(all[i].path.as_str(), canonical) {
                return Some(all[i].copied());
            }
            i = i + 1;
        }
        None
    }

    fn find_owner(&self, canonical: &str, base: &WorktreeLayout) -> (owner: Option<String>)
        ensures
            text::opt_text(owner) == worktree_owner(self.rows(), canonical@, base.root(), 0),
    {
        let all = self.store.rows();
        let mut i: usize = 0;
        while i < all.len()
            invariant
                all@ == self.store.held(),
                i <= all.len(),
                worktree_owner(self.rows(), canonical@, base.root(), 0) == worktree_owner(
                    self.rows(),
                    canonical@,
                    base.root(),
                    i as int,
                ),
            decreases all.len() - i,
        {
            assert(self.rows()[i as int] == all@[i as int]@);
            let project = all[i].path.as_str();
            if path::within(canonical, base.project_dir(project).as_str()) || path::within(
                canonical,
                path::join(project, ".clowder/worktrees").as_str(),
            ) {
                return Some(all[i].path.clone());
            }
            i = i + 1;
        }
        None
    }

    /// Add a path as a project, given what it turned out to be. Adding a registered one again gives
    /// the record it has and changes nothing.
    pub fn add(&mut self, asked: &str, facts: PathFacts) -> (r: Result<ProjectRecord, String>)
        ensures
            final(self).file() == old(self).file(),
            final(self).worktrees() == old(self).worktrees(),
            match r {
                Ok(rec) => {
                    &&& add_refusal(old(self).rows(), old(self).worktrees(), asked@, facts) is None
                    &&& facts.canonical matches Some(c) && facts.kind matches Some(k) && (
                    rec@,
                    final(self).rows(),
                    ) == added(old(self).rows(), c@, k)
                },
                Err(e) => {
                    &&& add_refusal(old(self).rows(), old(self).worktrees(), asked@, facts) == Some(e@)
                    &&& final(self).rows() == old(self).rows()
                },
            },
    {
        let canonical = match facts.canonical {
            None => {
                let mut m = "no such path: ".to_owned();
                m.append(asked);
                return Err(m);
            },
            Some(c) => c,
        };
        if !facts.is_dir {
            let mut m = "not a directory: ".to_owned();
            m.append(canonical.as_str());
            return Err(m);
        }
        let kind = match facts.kind {
            None => {
                let mut m = "not a git or jj repository: ".to_owned();
                m.append(canonical.as_str());
                return Err(m);
            },
            Some(k) => k,
        };
        match self.record_of(canonical.as_str()) {
            Some(rec) => return Ok(rec),
            None => {},
        }
        let base = match facts.canonical_base {
            Some(b) => WorktreeLayout::new(b),
            None => self.layout.copied(),
        };
        match self.find_owner(canonical.as_str(), &base) {
            Some(project) => {
                let mut m = canonical;
                m.append(" is a worktree of project ");
                m.append(project.as_str());
                m.append(" — add the project, not its worktree");
                return Err(m);
            },
            None => {},
        }
        if path::within(canonical.as_str(), base.base()) {
            let mut m = canonical;
            m.append(" is inside clowder's worktree directory — add the project it was created from");
            return Err(m);
        }
        let rec = ProjectRecord { path: canonical, kind: kind.as_str().to_owned() };
        let mut all = self.row_copies();
        let ghost before = all@;
        let row = rec.copied();
        all.push(row);
        assert(project_rows(all@) =~= project_rows(before).push(row@));
        self.store.commit(all);
        Ok(rec)
    }

    fn row_copies(&self) -> (out: Vec<ProjectRecord>)
        ensures
            project_rows(out@) == self.rows(),
    {
        let all = self.store.rows();
        let mut out: Vec<ProjectRecord> = Vec::new();
        let mut i: usize = 0;
        while i < all.len()
            invariant
                all@ == self.store.held(),
                i <= all.len(),
                out@.len() == i,
                forall|k: int| 0 <= k < i ==> (#[trigger] out@[k])@ == all@[k]@,
            decreases all.len() - i,
        {
            out.push(all[i].copied());
            i = i + 1;
        }
        assert(project_rows(out@) =~= self.rows());
        out
    }

    /// Take a path out of the list. One that is not in it is no error.
    pub fn remove(&mut self, canonical: &str)
        ensures
            final(self).file() == old(self).file(),
            final(self).worktrees() == old(self).worktrees(),
            final(self).rows() == without_path(old(self).rows(), canonical@),
    {
        let all = self.store.rows();
        let mut out: Vec<ProjectRecord> = Vec::new();
        let mut i: usize = 0;
        assert(self.rows().take(0) =~= seq![]);
        assert(project_rows(out@) =~= seq![]);
        while i < all.len()
            invariant
                all@ == self.store.held(),
                self.rows() == project_rows(all@),
                i <= all.len(),
                project_rows(out@) == without_path(self.rows().take(i as int), canonical@),
            decreases all.len() - i,
        {
            let ghost before = out@;
            assert(self.rows().take(i + 1).drop_last() =~= self.rows().take(i as int));
            assert(self.rows().take(i + 1).last() == all@[i as int]@);
            if !path::same_path(all[i].path.as_str(), canonical) {
                let row = all[i].copied();
                out.push(row);
                assert(project_rows(out@) =~= project_rows(before).push(row@));
            }
            i = i + 1;
        }
        assert(self.rows().take(self.rows().len() as int) =~= self.rows());
        self.store.commit(out);
    }
}

/// No two records have the same path.
pub open spec fn distinct_paths(all: Seq<ProjectRecordView>) -> bool {
    forall|a: int, b: int|
        0 <= a < b < all.len() ==> !same_place((#[trigger] all[a]).path, (#[trigger] all[b]).path)
}

proof fn lemma_record_is_registered(all: Seq<ProjectRecordView>, path: Seq<char>, from: int)
    requires
        0 <= from <= all.len(),
    ensures
        match record_at(all, path, from) {
            Some(rec) => exists|k: int|
                {
                    &&& from <= k < all.len()
                    &&& rec == #[trigger] all[k]
                    &&& same_place(rec.path, path)
                    &&& forall|j: int| from <= j < k ==> !same_place((#[trigger] all[j]).path, path)
                },
            None => forall|k: int| from <= k < all.len() ==> !same_place((#[trigger] all[k]).path, path),
        },
    decreases all.len() - from,
{
    if from < all.len() && !same_place(all[from].path, path) {
        lemma_record_is_registered(all, path, from + 1);
    }
}

proof fn lemma_record_after_push(
    all: Seq<ProjectRecordView>,
    rec: ProjectRecordView,
    path: Seq<char>,
    from: int,
)
    requires
        0 <= from <= all.len(),
        record_at(all, path, from) is None,
        same_place(rec.path, path),
    ensures
        record_at(all.push(rec), path, from) == Some(rec),
    decreases all.len() - from,
{
    if from < all.len() {
        lemma_record_after_push(all, rec, path, from + 1);
    }
}

/// Adding keeps the paths distinct and every record that was there, and the path is registered after.
pub proof fn law_added_paths_stay_distinct(
    all: Seq<ProjectRecordView>,
    path: Seq<char>,
    kind: WorkspaceKind,
)
    requires
        distinct_paths(all),
    ensures
        distinct_paths(added(all, path, kind).1),
        registered(added(all, path, kind).1, path),
        all.is_prefix_of(added(all, path, kind).1),
{
    lemma_record_is_registered(all, path, 0);
    let (rec, rows) = added(all, path, kind);
    if record_at(all, path, 0) is None {
        assert(rows[all.len() as int].path == path);
    }
}

/// Adding a registered path again, whatever kind of repository is found there by now and whatever else
/// has been registered since, is not refused; it gives the record that the first adding gave, and changes
/// nothing.
pub proof fn law_adding_again_gives_the_same_record(
    all: Seq<ProjectRecordView>,
    path: Seq<char>,
    kind: WorkspaceKind,
    later: WorkspaceKind,
    layout: WorktreeLayout,
    asked: Seq<char>,
    facts: PathFacts,
)
    requires
        facts.canonical matches Some(c) && c@ == path,
        facts.is_dir,
        facts.kind == Some(later),
    ensures
        registered(all, path) ==> add_refusal(all, layout, asked, facts) is None,
        added(added(all, path, kind).1, path, later) == added(all, path, kind),
        registered(all, path) ==> added(all, path, kind).1 == all && all.contains(
            added(all, path, kind).0,
        ),
{
    lemma_record_is_registered(all, path, 0);
    if record_at(all, path, 0) is None {
        lemma_record_after_push(all, added(all, path, kind).0, path, 0);
    }
}

/// A path that was taken out is not registered any more, and every other one is as before.
pub proof fn law_removed_path_is_gone(all: Seq<ProjectRecordView>, path: Seq<char>, other: Seq<char>)
    ensures
        !registered(without_path(all, path), path),
        !same_place(other, path) ==> registered(without_path(all, path), other) == registered(all, other),
    decreases all.len(),
{
    if all.len() > 0 {
        let before = all.drop_last();
        let rest = without_path(before, path);
        law_removed_path_is_gone(before, path, other);
        if !same_place(all.last().path, path) {
            let after = rest.push(all.last());
            assert forall|k: int| 0 <= k < after.len() implies !same_place(
                (#[trigger] after[k]).path,
                path,
            ) by {
                if k < rest.len() {
                    assert(!same_place(rest[k].path, path));
                }
            }
            if registered(rest, other) {
                let k = choose|k: int| 0 <= k < rest.len() && same_place((#[trigger] rest[k]).path, other);
                assert(same_place(after[k].path, other));
            }
            if same_place(all.last().path, other) {
                assert(same_place(after[rest.len() as int].path, other));
            } else if registered(after, other) {
                let k = choose|k: int|
                    0 <= k < after.len() && same_place((#[trigger] after[k]).path, other);
                assert(same_place(rest[k].path, other));
            }
        }
        if registered(before, other) {
            let k = choose|k: int| 0 <= k < before.len() && same_place((#[trigger] before[k]).path, other);
            assert(same_place(all[k].path, other));
        }
        if same_place(all.last().path, other) {
            assert(same_place(all[all.len() - 1].path, other));
        }
        if registered(all, other) {
            let k = choose|k: int| 0 <= k < all.len() && same_place((#[trigger] all[k]).path, other);
            if k < before.len() {
                assert(same_place(before[k].path, other));
            }
        }
    }
}

proof fn lemma_some_owner(all: Seq<ProjectRecordView>, path: Seq<char>, base: Seq<char>, from: int, k: int)
    requires
        0 <= from <= k < all.len(),
        is_worktree_of(path, base, all[k].path),
    ensures
        worktree_owner(all, path, base, from) is Some,
    decreases all.len() - from,
{
    if !is_worktree_of(path, base, all[from].path) {
        lemma_some_owner(all, path, base, from + 1, k);
    }
}

/// A worktree that was made for a project is never added as a project itself, unless it was registered
/// before.
pub proof fn law_a_worktree_is_no_project(
    all: Seq<ProjectRecordView>,
    layout: WorktreeLayout,
    asked: Seq<char>,
    facts: PathFacts,
    k: int,
    name: Seq<char>,
)
    requires
        0 <= k < all.len(),
        name_fault(name) is None,
        facts.canonical matches Some(c) && !registered(all, c@) && c@ == worktree_path_of(
            real_base(layout, facts),
            all[k].path,
            name,
        ),
    ensures
        add_refusal(all, layout, asked, facts) is Some,
{
    let base = real_base(layout, facts);
    law_worktrees_stand_below_the_base(base, all[k].path, name);
    lemma_some_owner(all, worktree_path_of(base, all[k].path, name), base, 0, k);
}

/// A project that was not registered is recorded behind the others, with the path that it has and the
/// kind of repository that it is.
pub proof fn law_a_new_project_is_recorded_as_found(
    all: Seq<ProjectRecordView>,
    path: Seq<char>,
    kind: WorkspaceKind,
)
    requires
        !registered(all, path),
    ensures
        added(all, path, kind).1.len() == all.len() + 1,
        added(all, path, kind).1.last() == added(all, path, kind).0,
        added(all, path, kind).0.path == path,
        kind is Git ==> added(all, path, kind).0.kind == "git"@,
        kind is Jj ==> added(all, path, kind).0.kind == "jj"@,
{
    lemma_record_is_registered(all, path, 0);
}

/// What is not there, is no directory or no repository is refused, registered or not.
pub proof fn law_only_a_repository_is_a_project(
    all: Seq<ProjectRecordView>,
    layout: WorktreeLayout,
    asked: Seq<char>,
    facts: PathFacts,
)
    ensures
        add_refusal(all, layout, asked, facts) is None ==> {
            &&& facts.canonical is Some
            &&& facts.is_dir
            &&& facts.kind is Some
        },
{
}

/// A repository that lies neither in the directory of the worktrees nor among the worktrees of a
/// project is not refused; one that lies in either is, unless it was registered before.
pub proof fn law_where_a_project_may_lie(
    all: Seq<ProjectRecordView>,
    layout: WorktreeLayout,
    asked: Seq<char>,
    facts: PathFacts,
    k: int,
)
    requires
        facts.is_dir,
        facts.kind is Some,
        facts.canonical is Some,
        !registered(all, facts.canonical->0@),
    ensures
        ({
            let path = facts.canonical->0@;
            let base = match facts.canonical_base {
                Some(b) => b@,
                None => layout.root(),
            };
            &&& is_within(path, base) ==> add_refusal(all, layout, asked, facts) is Some
            &&& 0 <= k < all.len() && is_within(path, joined(all[k].path, ".clowder/worktrees"@))
                ==> add_refusal(all, layout, asked, facts) is Some
            &&& 0 <= k < all.len() && is_within(path, project_dir_of(base, all[k].path)) ==> add_refusal(
                all,
                layout,
                asked,
                facts,
            ) is Some
            &&& !is_within(path, base) && (forall|j: int|
                0 <= j < all.len() ==> !is_within(
                    path,
                    joined((#[trigger] all[j]).path, ".clowder/worktrees"@),
                ) && !is_within(path, project_dir_of(base, all[j].path))) ==> add_refusal(
                all,
                layout,
                asked,
                facts,
            ) is None
        }),
{
    let path = facts.canonical->0@;
    let base = real_base(layout, facts);
    if 0 <= k < all.len() && is_worktree_of(path, base, all[k].path) {
        lemma_some_owner(all, path, base, 0, k);
    }
    if forall|j: int| 0 <= j < all.len() ==> !is_worktree_of(path, base, (#[trigger] all[j]).path) {
        lemma_no_owner(all, path, base, 0);
    }
}

proof fn lemma_no_owner(all: Seq<ProjectRecordView>, path: Seq<char>, base: Seq<char>, from: int)
    requires
        0 <= from,
        forall|j: int| from <= j < all.len() ==> !is_worktree_of(path, base, (#[trigger] all[j]).path),
    ensures
        worktree_owner(all, path, base, from) is None,
    decreases all.len() - from,
{
    if from < all.len() {
        lemma_no_owner(all, path, base, from + 1);
    }
}

/// Taking a path out adds nothing: every record that is left was there before, as it is.
pub proof fn law_what_is_left_was_there(all: Seq<ProjectRecordView>, path: Seq<char>, rec: ProjectRecordView)
    ensures
        without_path(all, path).contains(rec) <==> all.contains(rec) && !same_place(rec.path, path),
    decreases all.len(),
{
    if all.len() > 0 {
        let before = all.drop_last();
        let rest = without_path(before, path);
        law_what_is_left_was_there(before, path, rec);
        assert(before.push(all.last()) =~= all);
        assert(all.contains(rec) <==> before.contains(rec) || all.last() == rec) by {
            if before.contains(rec) {
                let k = choose|k: int| 0 <= k < before.len() && before[k] == rec;
                assert(all[k] == rec);
            }
            if all.last() == rec {
                assert(all[all.len() - 1] == rec);
            }
            if all.contains(rec) {
                let k = choose|k: int| 0 <= k < all.len() && all[k] == rec;
                if k < before.len() {
                    assert(before[k] == rec);
                }
            }
        }
        let after = rest.push(all.last());
        assert(after.contains(rec) <==> rest.contains(rec) || all.last() == rec) by {
            if rest.contains(rec) {
                let k = choose|k: int| 0 <= k < rest.len() && rest[k] == rec;
                assert(after[k] == rec);
            }
            if all.last() == rec {
                assert(after[rest.len() as int] == rec);
            }
            if after.contains(rec) {
                let k = choose|k: int| 0 <= k < after.len() && after[k] == rec;
                if k < rest.len() {
                    assert(rest[k] == rec);
                }
            }
        }
    }
}

} // verus!
