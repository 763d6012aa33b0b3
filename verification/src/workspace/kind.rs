//! Repositories and the working copies made from them.

use vstd::prelude::*;

use crate::path;
use crate::path::{parent_of, without_tail};
use crate::text;
use crate::text::texts;

verus! {

/// The system that keeps a repository.
#[derive(Debug, Clone, Copy, PartialEq, Eq, Structural)]
pub enum WorkspaceKind {
    Git,
    Jj,
}

impl WorkspaceKind {
    /// The name of the system.
    pub open spec fn name(self) -> Seq<char> {
        match self {
            WorkspaceKind::Git => "git"@,
            WorkspaceKind::Jj => "jj"@,
        }
    }

    /// The name of the system.
    pub fn as_str(&self) -> (s: &'static str)
        ensures
            s@ == self.name(),
    {
        match self {
            WorkspaceKind::Git => "git",
            WorkspaceKind::Jj => "jj",
        }
    }

    /// The system of this name.
    pub fn from_str(s: &str) -> (k: Option<WorkspaceKind>)
        ensures
            match k {
                Some(k) => s@ == k.name(),
                None => s@ != WorkspaceKind::Git.name() && s@ != WorkspaceKind::Jj.name(),
            },
    {
        if text::same(s, "git") {
            Some(WorkspaceKind::Git)
        } else if text::same(s, "jj") {
            Some(WorkspaceKind::Jj)
        } else {
            None
        }
    }
}

/// A system is read back from its name.
pub proof fn law_kind_roundtrips(a: WorkspaceKind, b: WorkspaceKind)
    requires
        a.name() == b.name(),
    ensures
        a == b,
{
    reveal_strlit("git");
    reveal_strlit("jj");
    assert("git"@.len() == 3);
    assert("jj"@.len() == 2);
}

/// A working copy of a project, on a branch of its own.
#[derive(Debug, Clone, PartialEq, Eq)]
pub struct Workspace {
    pub path: String,
    pub branch: String,
    pub project: String,
    pub kind: WorkspaceKind,
}

impl Workspace {
    /// The same workspace once more.
    pub fn copied(&self) -> (w: Workspace)
        ensures
            w == *self,
    {
        Workspace {
            path: self.path.clone(),
            branch: self.branch.clone(),
            project: self.project.clone(),
            kind: self.kind,
        }
    }
}

/// What marks a directory as the root of a repository.
#[derive(Debug, Clone, Copy, PartialEq, Eq, Structural)]
pub struct Markers {
    /// There is a directory `.jj`.
    pub jj: bool,
    /// There is a `.git`, be it a directory or the file of a linked worktree.
    pub git: bool,
}

/// The kind of the nearest marked directory, from index `from` on. Where both marks are there, jj
/// wins.
pub open spec fn nearest_kind(dirs: Seq<Markers>, from: int) -> Option<WorkspaceKind>
    decreases dirs.len() - from,
{
    if from < 0 || from >= dirs.len() {
        None
    } else if dirs[from].jj {
        Some(WorkspaceKind::Jj)
    } else if dirs[from].git {
        Some(WorkspaceKind::Git)
    } else {
        nearest_kind(dirs, from + 1)
    }
}

/// The kind of a project, given the marks of its directory and of those around it, the nearest
/// first; none where it is no repository at all.
pub fn detect_kind(dirs: &[Markers]) -> (k: Option<WorkspaceKind>)
    ensures
        k == nearest_kind(dirs@, 0),
{
    let mut i: usize = 0;
    while i < dirs.len()
        invariant
            i <= dirs.len(),
            nearest_kind(dirs@, 0) == nearest_kind(dirs@, i as int),
        decreases dirs.len() - i,
    {
        if dirs[i].jj {
            return Some(WorkspaceKind::Jj);
        }
        if dirs[i].git {
            return Some(WorkspaceKind::Git);
        }
        i = i + 1;
    }
    None
}

proof fn lemma_without_tail_shorter(p: Seq<char>)
    ensures
        without_tail(p).len() <= p.len(),
    decreases p.len(),
{
    if p.len() > 1 && (p.last() == '/' || (p.last() == '.' && p[p.len() - 2] == '/')) {
        lemma_without_tail_shorter(p.drop_last());
    }
}

proof fn lemma_after_last_slash(p: Seq<char>)
    ensures
        0 <= path::after_last_slash(p) <= p.len(),
        p.len() > 0 && p.last() != '/' ==> path::after_last_slash(p) < p.len(),
    decreases p.len(),
{
    if p.len() > 0 && p.last() != '/' {
        lemma_after_last_slash(p.drop_last());
    }
}

proof fn lemma_without_tail_end(p: Seq<char>)
    ensures
        without_tail(p).len() > 1 ==> without_tail(p).last() != '/',
    decreases p.len(),
{
    if p.len() > 1 && (p.last() == '/' || (p.last() == '.' && p[p.len() - 2] == '/')) {
        lemma_without_tail_end(p.drop_last());
    }
}

/// The directory around a path is written in fewer characters.
pub proof fn lemma_parent_shorter(p: Seq<char>)
    ensures
        parent_of(p) matches Some(dir) ==> dir.len() < p.len(),
{
    let t = without_tail(p);
    lemma_without_tail_shorter(p);
    lemma_without_tail_end(p);
    if parent_of(p) is Some {
        reveal_strlit("/");
        lemma_after_last_slash(t);
        assert(t.len() == 1 ==> t.last() != '/') by {
            if t.len() == 1 && t.last() == '/' {
                assert(t =~= "/"@);
            }
        }
        lemma_without_tail_shorter(t.take(path::after_last_slash(t)));
    }
}

/// A path and the directories around it, the nearest first.
pub open spec fn ancestors_of(p: Seq<char>) -> Seq<Seq<char>>
    decreases p.len(),
    via ancestors_end
{
    match parent_of(p) {
        Some(dir) => seq![p] + ancestors_of(dir),
        None => seq![p],
    }
}

#[via_fn]
proof fn ancestors_end(p: Seq<char>) {
    lemma_parent_shorter(p);
}

/// A path and the directories around it: where to look for the marks of a repository.
pub fn ancestors(p: &str) -> (out: Vec<String>)
    ensures
        texts(out@) == ancestors_of(p@),
{
    let mut out: Vec<String> = Vec::new();
    let mut cur = p.to_owned();
    assert(texts(out@) + ancestors_of(p@) =~= ancestors_of(p@));
    loop
        invariant
            texts(out@) + ancestors_of(cur@) == ancestors_of(p@),
        decreases cur@.len(),
    {
        let next = path::parent(cur.as_str());
        proof {
            lemma_parent_shorter(cur@);
        }
        let ghost before = texts(out@);
        out.push(cur.clone());
        proof {
            text::lemma_texts_push(out@.drop_last(), out@.last());
            assert(out@.drop_last().push(out@.last()) =~= out@);
            assert(texts(out@) =~= before + seq![cur@]);
        }
        match next {
            None => return out,
            Some(dir) => {
                proof {
                    assert(before + (seq![cur@] + ancestors_of(dir@)) =~= texts(out@) + ancestors_of(
                        dir@,
                    ));
                }
                cur = dir;
            },
        }
    }
}

/// The nearest directory that is marked at all decides, and where it has both marks it is jj's; where
/// none is marked there is no repository.
pub proof fn law_the_nearest_repository_decides(dirs: Seq<Markers>, k: int)
    requires
        0 <= k <= dirs.len(),
        forall|j: int| 0 <= j < k ==> !(#[trigger] dirs[j]).jj && !dirs[j].git,
    ensures
        k < dirs.len() && dirs[k].jj ==> nearest_kind(dirs, 0) == Some(WorkspaceKind::Jj),
        k < dirs.len() && dirs[k].git && !dirs[k].jj ==> nearest_kind(dirs, 0) == Some(
            WorkspaceKind::Git,
        ),
        k == dirs.len() ==> nearest_kind(dirs, 0) is None,
{
    lemma_unmarked(dirs, 0, k);
}

proof fn lemma_unmarked(dirs: Seq<Markers>, from: int, k: int)
    requires
        0 <= from <= k <= dirs.len(),
        forall|j: int| from <= j < k ==> !(#[trigger] dirs[j]).jj && !dirs[j].git,
    ensures
        nearest_kind(dirs, from) == nearest_kind(dirs, k),
    decreases k - from,
{
    if from < k {
        assert(!dirs[from].jj);
        lemma_unmarked(dirs, from + 1, k);
    }
}

/// The search begins at the path itself, and from a name in a directory it goes on as from the
/// directory.
pub proof fn law_the_search_goes_outwards(dir: Seq<char>, name: Seq<char>)
    requires
        dir.len() > 0,
        dir.last() != '/',
        dir.last() != '.',
        name.len() > 0,
        name != "."@,
        name != ".."@,
        forall|k: int| 0 <= k < name.len() ==> name[k] != '/',
        path::parts(name) == seq![name],
    ensures
        ancestors_of(path::joined(dir, name)) == seq![path::joined(dir, name)] + ancestors_of(dir),
        ancestors_of(dir)[0] == dir,
{
    path::law_a_name_is_in_its_directory(dir, name);
}

} // verus!
