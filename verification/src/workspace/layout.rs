//! Where a worktree goes, and what its branch and its jj workspace are called.

use vstd::prelude::*;
use vstd::utf8::encode_utf8;

use crate::path;
use crate::path::joined;
use crate::proto::auth::hex_digit;
use crate::text;
use crate::text::without_prefix;
use crate::workspace::name::{law_valid_name_is_one_path_part, name_fault};

verus! {

/// The directories of the worktrees: `<base>/<slug>-<hash>/<name>`.
#[derive(Debug, Clone, PartialEq, Eq)]
pub struct WorktreeLayout {
    base: String,
}

/// A character that a slug keeps.
pub open spec fn plain(c: char) -> bool {
    ||| 'a' <= c <= 'z'
    ||| 'A' <= c <= 'Z'
    ||| '0' <= c <= '9'
    ||| c == '.'
    ||| c == '_'
    ||| c == '-'
}

/// The character, or a dash where a slug does not keep it.
pub open spec fn plain_or_dash(c: char) -> char {
    if plain(c) {
        c
    } else {
        '-'
    }
}

/// At most 32 characters.
pub open spec fn shortened(s: Seq<char>) -> Seq<char> {
    if s.len() > 32 {
        s.take(32)
    } else {
        s
    }
}

/// The text without the dots and dashes at its start.
pub open spec fn without_leading_marks(s: Seq<char>) -> Seq<char>
    decreases s.len(),
{
    if s.len() > 0 && (s[0] == '.' || s[0] == '-') {
        without_leading_marks(s.drop_first())
    } else {
        s
    }
}

/// A readable stand-in for the name of the project's directory: its first 32 characters, with a dash
/// for each that is not plain, without dots and dashes at the start; `project` where nothing is
/// left.
pub open spec fn slug_of(project: Seq<char>) -> Seq<char> {
    let raw = match path::name_of(project) {
        Some(name) => name,
        None => seq![],
    };
    let s = without_leading_marks(shortened(raw.map_values(|c: char| plain_or_dash(c))));
    if s.len() == 0 {
        "project"@
    } else {
        s
    }
}

/// A readable stand-in for the name of the project's directory.
pub fn slug(project: &str) -> (s: String)
    ensures
        s@ == slug_of(project@),
{
    let raw = match path::file_name(project) {
        Some(name) => name,
        None => String::new(),
    };
    let v = text::chars_of(raw.as_str());
    let ghost mapped = raw@.map_values(|c: char| plain_or_dash(c));
    let mut out: Vec<char> = Vec::new();
    let mut i: usize = 0;
    while i < v.len() && i < 32
        invariant
            v@ == raw@,
            i <= v.len(),
            i <= 32,
            mapped == raw@.map_values(|c: char| plain_or_dash(c)),
            out@ == mapped.take(i as int),
        decreases v.len() - i,
    {
        let c = v[i];
        let keep = ('a' <= c && c <= 'z') || ('A' <= c && c <= 'Z') || ('0' <= c && c <= '9') || c == '.'
            || c == '_' || c == '-';
        out.push(
            if keep {
                c
            } else {
                '-'
            },
        );
        assert(mapped.take(i + 1) =~= mapped.take(i as int).push(mapped[i as int]));
        i = i + 1;
    }
    assert(out@ =~= shortened(mapped));
    let mut k: usize = 0;
    assert(out@.skip(0) =~= out@);
    while k < out.len() && (out[k] == '.' || out[k] == '-')
        invariant
            k <= out.len(),
            without_leading_marks(out@.skip(k as int)) == without_leading_marks(out@),
        decreases out.len() - k,
    {
        assert(out@.skip(k as int).drop_first() =~= out@.skip(k + 1));
        k = k + 1;
    }
    assert(out@.skip(k as int) =~= out@.subrange(k as int, out@.len() as int));
    if k == out.len() {
        "project".to_owned()
    } else {
        text::text_between(&out, k, out.len())
    }
}

/// The FNV-1a hash of a byte string, in 64 bits.
pub open spec fn fnv1a(bytes: Seq<u8>) -> u64
    decreases bytes.len(),
{
    if bytes.len() == 0 {
        0xcbf29ce484222325
    } else {
        (fnv1a(bytes.drop_last()) ^ (bytes.last() as u64)).wrapping_mul(0x100000001b3)
    }
}

/// The last `digits` digits of a number in lowercase hex.
pub open spec fn hex_fixed(n: nat, digits: nat) -> Seq<char>
    decreases digits,
{
    if digits == 0 {
        seq![]
    } else {
        hex_fixed(n / 16, (digits - 1) as nat).push(hex_digit((n % 16) as u8))
    }
}

/// The first twelve of the sixteen hex digits of the hash of a path.
pub open spec fn short_hash_of(project: Seq<char>) -> Seq<char> {
    hex_fixed(fnv1a(encode_utf8(project)) as nat, 16).take(12)
}

proof fn lemma_hex_fixed_prefix(n: nat, digits: nat, k: nat)
    requires
        k <= digits,
    ensures
        hex_fixed(n, digits).len() == digits,
        k < digits ==> hex_fixed(n, digits).take(k as int) == hex_fixed(n / 16, (digits - 1) as nat).take(
            k as int,
        ),
        k == digits ==> hex_fixed(n, digits).take(k as int) == hex_fixed(n, digits),
    decreases digits,
{
    if digits > 0 {
        lemma_hex_fixed_prefix(n / 16, (digits - 1) as nat, 0);
        if k < digits {
            assert(hex_fixed(n, digits).take(k as int) =~= hex_fixed(n / 16, (digits - 1) as nat).take(
                k as int,
            ));
        } else {
            assert(hex_fixed(n, digits).take(k as int) =~= hex_fixed(n, digits));
        }
    }
}

fn show_hex(n: u64, digits: usize) -> (s: String)
    ensures
        s@ == hex_fixed(n as nat, digits as nat),
    decreases digits,
{
    if digits == 0 {
        let s = String::new();
        assert(s@ =~= hex_fixed(n as nat, 0));
        return s;
    }
    let mut s = show_hex(n / 16, digits - 1);
    let d: u8 = (n % 16) as u8;
    let c: char = if d < 10 {
        (d + 48) as char
    } else {
        (d + 87) as char
    };
    s.push(c);
    s
}

/// What keeps projects of the same name apart: part of a hash of the path. It must never change, since
/// it stands in the paths of worktrees on disk.
pub fn short_hash(project: &str) -> (s: String)
    ensures
        s@ == short_hash_of(project@),
        s@.len() == 12,
{
    let bytes = project.as_bytes();
    let mut h: u64 = 0xcbf29ce484222325;
    let mut i: usize = 0;
    assert(bytes@.take(0) =~= seq![]);
    while i < bytes.len()
        invariant
            i <= bytes.len(),
            h == fnv1a(bytes@.take(i as int)),
        decreases bytes.len() - i,
    {
        assert(bytes@.take(i + 1).drop_last() =~= bytes@.take(i as int));
        h = (h ^ (bytes[i] as u64)).wrapping_mul(0x100000001b3);
        i = i + 1;
    }
    assert(bytes@.take(bytes@.len() as int) =~= bytes@);
    proof {
        let n = h as nat;
        lemma_hex_fixed_prefix(n, 16, 12);
        lemma_hex_fixed_prefix(n / 16, 15, 12);
        lemma_hex_fixed_prefix(n / 16 / 16, 14, 12);
        lemma_hex_fixed_prefix(n / 16 / 16 / 16, 13, 12);
        lemma_hex_fixed_prefix(n / 16 / 16 / 16 / 16, 12, 12);
        assert(n / 16 / 16 / 16 / 16 == n / 65536);
    }
    show_hex(h / 65536, 12)
}

/// The directory of every worktree of a project.
pub open spec fn project_dir_of(base: Seq<char>, project: Seq<char>) -> Seq<char> {
    joined(base, slug_of(project) + "-"@ + short_hash_of(project))
}

/// Where the worktree `name` of a project goes.
pub open spec fn worktree_path_of(base: Seq<char>, project: Seq<char>, name: Seq<char>) -> Seq<char> {
    joined(project_dir_of(base, project), name)
}

impl WorktreeLayout {
    /// The directory under which every worktree stands.
    pub closed spec fn root(&self) -> Seq<char> {
        self.base@
    }

    /// The layout under a directory.
    pub fn new(base: String) -> (l: WorktreeLayout)
        ensures
            l.root() == base@,
    {
        WorktreeLayout { base }
    }

    /// The directory under which every worktree stands.
    pub fn base(&self) -> (b: &str)
        ensures
            b@ == self.root(),
    {
        self.base.as_str()
    }

    /// The same layout once more.
    pub fn copied(&self) -> (l: WorktreeLayout)
        ensures
            l.root() == self.root(),
    {
        WorktreeLayout { base: self.base.clone() }
    }

    /// The directory of every worktree of a project, whose path is canonical.
    pub fn project_dir(&self, project: &str) -> (dir: String)
        ensures
            dir@ == project_dir_of(self.root(), project@),
    {
        let mut name = slug(project);
        name.append("-");
        name.append(short_hash(project).as_str());
        path::join(self.base.as_str(), name.as_str())
    }

    /// Where the worktree `name` of a project goes.
    pub fn worktree_path(&self, project: &str, name: &str) -> (p: String)
        ensures
            p@ == worktree_path_of(self.root(), project@, name@),
    {
        path::join(self.project_dir(project).as_str(), name)
    }

    /// The file that keeps the worktrees out of a repository around them, and what it holds.
    pub fn ignore_file(&self) -> (f: (String, String))
        ensures
            f.0@ == joined(self.root(), ".gitignore"@),
            f.1@ == "# clowder-managed worktrees; never part of an enclosing repo\n*\n"@,
    {
        (
            path::join(self.base.as_str(), ".gitignore"),
            "# clowder-managed worktrees; never part of an enclosing repo\n*\n".to_owned(),
        )
    }
}

/// The branch, or bookmark, on which the work of a worktree lands.
pub open spec fn branch_of(name: Seq<char>) -> Seq<char> {
    "clowder/"@ + name
}

/// The branch, or bookmark, on which the work of a worktree lands.
pub fn branch_name(name: &str) -> (b: String)
    ensures
        b@ == branch_of(name@),
{
    let mut b = "clowder/".to_owned();
    b.append(name);
    b
}

/// The name of the worktree of a branch; any other branch is its own.
pub open spec fn task_of(branch: Seq<char>) -> Seq<char> {
    match without_prefix(branch, "clowder/"@) {
        Some(name) => name,
        None => branch,
    }
}

/// The name of the worktree of a branch.
pub fn task_from_branch(branch: &str) -> (t: String)
    ensures
        t@ == task_of(branch@),
{
    match text::strip_prefix(branch, "clowder/") {
        Some(name) => name,
        None => branch.to_owned(),
    }
}

/// The name of the jj workspace of a worktree.
pub fn jj_workspace_name(name: &str) -> (n: String)
    ensures
        n@ == "clowder-"@ + name@,
{
    let mut n = "clowder-".to_owned();
    n.append(name);
    n
}

/// The name of a worktree is read back from its branch.
pub proof fn law_branch_roundtrips(name: Seq<char>)
    ensures
        task_of(branch_of(name)) == name,
{
    let b = branch_of(name);
    assert("clowder/"@.is_prefix_of(b));
    assert(b.skip("clowder/"@.len() as int) =~= name);
}

/// Two worktrees of one project never share a directory.
pub proof fn law_worktree_paths_differ(base: Seq<char>, project: Seq<char>, a: Seq<char>, b: Seq<char>)
    requires
        a != b,
        !path::is_absolute(a),
        !path::is_absolute(b),
    ensures
        worktree_path_of(base, project, a) != worktree_path_of(base, project, b),
{
    let dir = project_dir_of(base, project);
    let x = joined(dir, a);
    let y = joined(dir, b);
    if x == y {
        let n = x.len() - a.len();
        assert(a =~= x.skip(n));
        assert(y.len() - b.len() == n);
        assert(b =~= y.skip(n));
    }
}

proof fn lemma_marks_go_and_nothing_comes(s: Seq<char>)
    requires
        forall|i: int| 0 <= i < s.len() ==> plain(#[trigger] s[i]),
    ensures
        forall|i: int| 0 <= i < without_leading_marks(s).len() ==> plain(#[trigger] without_leading_marks(s)[i]),
    decreases s.len(),
{
    if s.len() > 0 && (s[0] == '.' || s[0] == '-') {
        let rest = s.drop_first();
        assert forall|i: int| 0 <= i < rest.len() implies plain(#[trigger] rest[i]) by {
            assert(plain(s[i + 1]));
        }
        lemma_marks_go_and_nothing_comes(rest);
        assert(without_leading_marks(s) == without_leading_marks(rest));
    } else {
        assert(without_leading_marks(s) == s);
    }
}

/// A slug is a plain name.
proof fn lemma_slug_is_plain(project: Seq<char>)
    ensures
        slug_of(project).len() > 0,
        plain(slug_of(project)[0]),
{
    let raw = match path::name_of(project) {
        Some(name) => name,
        None => seq![],
    };
    reveal_strlit("project");
    lemma_marks_go_and_nothing_comes(shortened(raw.map_values(|c: char| plain_or_dash(c))));
}

/// Every worktree stands in the directory of its project, and that below the one of all worktrees.
pub proof fn law_worktrees_stand_below_the_base(base: Seq<char>, project: Seq<char>, name: Seq<char>)
    requires
        name_fault(name) is None,
    ensures
        path::is_within(worktree_path_of(base, project, name), project_dir_of(base, project)),
        path::is_within(worktree_path_of(base, project, name), base),
{
    let own = slug_of(project) + "-"@ + short_hash_of(project);
    lemma_slug_is_plain(project);
    law_valid_name_is_one_path_part(name);
    path::law_joined_is_within(project_dir_of(base, project), name);
    if base.len() > 0 {
        path::law_joined_is_within(base, own);
    } else {
        assert(base =~= seq![]);
        path::law_everything_is_within_the_empty_path(worktree_path_of(base, project, name));
    }
}

proof fn lemma_hex_digits(n: nat, digits: nat)
    ensures
        hex_fixed(n, digits).len() == digits,
        forall|k: int| 0 <= k < digits ==> plain(#[trigger] hex_fixed(n, digits)[k]) && hex_fixed(n, digits)[k] != '.',
    decreases digits,
{
    if digits > 0 {
        let before = hex_fixed(n / 16, (digits - 1) as nat);
        lemma_hex_digits(n / 16, (digits - 1) as nat);
        assert forall|k: int| 0 <= k < digits implies plain(#[trigger] hex_fixed(n, digits)[k]) && hex_fixed(
            n,
            digits,
        )[k] != '.' by {
            if k < before.len() {
                assert(hex_fixed(n, digits)[k] == before[k]);
            } else {
                let d = (n % 16) as u8;
                assert(d < 16);
            }
        }
    }
}

/// A worktree stands right in the directory of its project, under its own name.
pub proof fn law_a_worktree_has_its_name_and_place(base: Seq<char>, project: Seq<char>, name: Seq<char>)
    requires
        name_fault(name) is None,
    ensures
        path::parent_of(worktree_path_of(base, project, name)) == Some(project_dir_of(base, project)),
        path::name_of(worktree_path_of(base, project, name)) == Some(name),
{
    let hash = short_hash_of(project);
    let own = slug_of(project) + "-"@ + hash;
    let dir = project_dir_of(base, project);
    lemma_slug_is_plain(project);
    lemma_hex_digits(fnv1a(encode_utf8(project)) as nat, 16);
    assert(hash.last() == hex_fixed(fnv1a(encode_utf8(project)) as nat, 16)[11]);
    assert(own.last() == hash.last());
    assert(dir.last() == own.last());
    law_valid_name_is_one_path_part(name);
    path::law_a_name_is_in_its_directory(dir, name);
}

/// A project whose directory has a short and plain name keeps that name in the paths of its worktrees.
pub proof fn law_a_plain_name_is_its_own_slug(dir: Seq<char>, name: Seq<char>)
    requires
        dir.len() > 0,
        dir.last() != '/',
        dir.last() != '.',
        name_fault(name) is None,
        name.len() <= 32,
    ensures
        slug_of(joined(dir, name)) == name,
{
    law_valid_name_is_one_path_part(name);
    crate::workspace::name::law_what_is_a_name(name);
    path::law_a_name_is_in_its_directory(dir, name);
    let mapped = name.map_values(|c: char| plain_or_dash(c));
    assert forall|k: int| 0 <= k < name.len() implies #[trigger] mapped[k] == name[k] by {
        assert(plain(name[k]));
    }
    assert(mapped =~= name);
}

/// Whatever a project is called, what stands for it in a path is short and plain, and is no hidden
/// directory and no flag.
pub proof fn law_a_slug_is_short_and_plain(project: Seq<char>, k: int)
    ensures
        1 <= slug_of(project).len() <= 32,
        0 <= k < slug_of(project).len() ==> plain(slug_of(project)[k]),
        slug_of(project)[0] != '.' && slug_of(project)[0] != '-',
{
    reveal_strlit("project");
    let raw = match path::name_of(project) {
        Some(name) => name,
        None => seq![],
    };
    let s = shortened(raw.map_values(|c: char| plain_or_dash(c)));
    assert forall|j: int| 0 <= j < s.len() implies plain(#[trigger] s[j]) by {}
    lemma_leading_marks_gone(s);
}

proof fn lemma_leading_marks_gone(s: Seq<char>)
    requires
        forall|j: int| 0 <= j < s.len() ==> plain(#[trigger] s[j]),
    ensures
        without_leading_marks(s).len() <= s.len(),
        without_leading_marks(s).len() > 0 ==> without_leading_marks(s)[0] != '.'
            && without_leading_marks(s)[0] != '-',
        forall|j: int|
            0 <= j < without_leading_marks(s).len() ==> plain(#[trigger] without_leading_marks(s)[j]),
    decreases s.len(),
{
    if s.len() > 0 && (s[0] == '.' || s[0] == '-') {
        lemma_leading_marks_gone(s.drop_first());
    }
}

/// The part of a path that keeps projects apart is twelve digits of hex, and spells the hash without
/// its last sixteen bits.
pub proof fn law_the_hash_is_twelve_digits(project: Seq<char>)
    ensures
        short_hash_of(project).len() == 12,
        hex_value(short_hash_of(project)) == fnv1a(encode_utf8(project)) as nat / 65536,
{
    let n = fnv1a(encode_utf8(project)) as nat;
    lemma_hex_fixed_prefix(n, 16, 12);
    lemma_hex_fixed_prefix(n / 16, 15, 12);
    lemma_hex_fixed_prefix(n / 16 / 16, 14, 12);
    lemma_hex_fixed_prefix(n / 16 / 16 / 16, 13, 12);
    lemma_hex_fixed_prefix(n / 16 / 16 / 16 / 16, 12, 12);
    let m = n / 65536;
    assert(n / 16 / 16 / 16 / 16 == m);
    assert(m < 0x1_0000_0000_0000);
    assert(power_of_16(12) == 0x1_0000_0000_0000) by {
        reveal_with_fuel(power_of_16, 13);
    }
    lemma_hex_read_back(m, 12);
}

/// The number that digits of lowercase hex spell.
pub open spec fn hex_value(s: Seq<char>) -> nat
    decreases s.len(),
{
    if s.len() == 0 {
        0
    } else {
        let c = s.last();
        hex_value(s.drop_last()) * 16 + (if '0' <= c <= '9' {
            (c as u32 - '0' as u32) as nat
        } else {
            (c as u32 - 'a' as u32 + 10) as nat
        })
    }
}

spec fn power_of_16(k: nat) -> nat
    decreases k,
{
    if k == 0 {
        1
    } else {
        16 * power_of_16((k - 1) as nat)
    }
}

proof fn lemma_hex_read_back(n: nat, digits: nat)
    requires
        n < power_of_16(digits),
    ensures
        hex_value(hex_fixed(n, digits)) == n,
    decreases digits,
{
    if digits > 0 {
        let d = (n % 16) as u8;
        assert(n / 16 < power_of_16((digits - 1) as nat));
        lemma_hex_read_back(n / 16, (digits - 1) as nat);
        let s = hex_fixed(n, digits);
        assert(s.drop_last() =~= hex_fixed(n / 16, (digits - 1) as nat));
        assert(s.last() == hex_digit(d));
        assert(d < 10 ==> hex_digit(d) as u32 == d + 48);
        assert(d >= 10 ==> hex_digit(d) as u32 == d + 87);
        assert(n == n / 16 * 16 + n % 16);
    } else {
        assert(hex_fixed(n, 0) =~= seq![]);
    }
}

} // verus!
