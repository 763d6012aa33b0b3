//! The names of worktrees, which are git references and directories at once.

use vstd::prelude::*;

use crate::text;
use crate::text::{contains, decimal, quoted, quoted_char};
use crate::workspace::layout::plain;

verus! {

/// The first character from index `from` on that a name may not hold.
pub open spec fn first_odd(s: Seq<char>, from: int) -> Option<char>
    decreases s.len() - from,
{
    if from < 0 || from >= s.len() {
        None
    } else if !plain(s[from]) {
        Some(s[from])
    } else {
        first_odd(s, from + 1)
    }
}

/// What is wrong with the name of a worktree.
pub open spec fn name_fault(name: Seq<char>) -> Option<Seq<char>> {
    if name.len() == 0 {
        Some("worktree name must not be empty"@)
    } else if name.len() > 64 {
        Some("worktree name must be 64 characters or fewer (got "@ + decimal(name.len()) + ")"@)
    } else if name == "."@ || name == ".."@ {
        Some("worktree name must not be "@ + quoted(name))
    } else if contains(name, ".."@) {
        Some("worktree name must not contain '..'"@)
    } else if ".lock"@.is_suffix_of(name) {
        Some("worktree name must not end with '.lock' (git reserves that suffix)"@)
    } else if name.last() == '.' {
        Some("worktree name must not end with '.' (git rejects it as a ref)"@)
    } else if first_odd(name, 0) is Some {
        Some(
            "worktree name must contain only letters, digits, '.', '_' or '-' (found "@ + quoted_char(
                first_odd(name, 0)->0,
            ) + ")"@,
        )
    } else if name[0] == '.' || name[0] == '-' {
        Some("worktree name must not start with "@ + quoted_char(name[0]))
    } else {
        None
    }
}

/// Check the name of a worktree. The messages are for users.
pub fn validate_workspace_name(name: &str) -> (r: Result<(), String>)
    ensures
        match r {
            Ok(_) => name_fault(name@) is None,
            Err(e) => name_fault(name@) == Some(e@),
        },
{
    let v = text::chars_of(name);
    if v.len() == 0 {
        return Err("worktree name must not be empty".to_owned());
    }
    if v.len() > 64 {
        let mut m = "worktree name must be 64 characters or fewer (got ".to_owned();
        m.append(text::show(v.len() as u128).as_str());
        m.append(")");
        return Err(m);
    }
    if text::same(name, ".") || text::same(name, "..") {
        let mut m = "worktree name must not be ".to_owned();
        m.append(text::quote(name).as_str());
        return Err(m);
    }
    if text::holds(name, "..") {
        return Err("worktree name must not contain '..'".to_owned());
    }
    if text::ends(name, ".lock") {
        return Err("worktree name must not end with '.lock' (git reserves that suffix)".to_owned());
    }
    if v[v.len() - 1] == '.' {
        return Err("worktree name must not end with '.' (git rejects it as a ref)".to_owned());
    }
    let mut i: usize = 0;
    while i < v.len()
        invariant
            v@ == name@,
            0 < v.len() <= 64,
            i <= v.len(),
            first_odd(v@, 0) == first_odd(v@, i as int),
            name@ != "."@,
            name@ != ".."@,
            !contains(name@, ".."@),
            !".lock"@.is_suffix_of(name@),
            name@.last() != '.',
        decreases v.len() - i,
    {
        let c = v[i];
        if !(('a' <= c && c <= 'z') || ('A' <= c && c <= 'Z') || ('0' <= c && c <= '9') || c == '.' || c
            == '_' || c == '-') {
            let mut m =
                "worktree name must contain only letters, digits, '.', '_' or '-' (found ".to_owned();
            m.append(text::quote_char(c).as_str());
            m.append(")");
            return Err(m);
        }
        i = i + 1;
    }
    if v[0] == '.' || v[0] == '-' {
        let mut m = "worktree name must not start with ".to_owned();
        m.append(text::quote_char(v[0]).as_str());
        return Err(m);
    }
    Ok(())
}

proof fn lemma_none_odd(s: Seq<char>, from: int, k: int)
    requires
        0 <= from <= k < s.len(),
        first_odd(s, from) is None,
    ensures
        plain(s[k]),
    decreases s.len() - from,
{
    if from < k {
        lemma_none_odd(s, from + 1, k);
    }
}

/// A name that passes is one part of a path that says something, and no flag of a command: it holds
/// no slash and no white space, is neither `.` nor `..`, and starts neither with a dot nor with a
/// dash.
pub proof fn law_valid_name_is_one_path_part(name: Seq<char>)
    requires
        name_fault(name) is None,
    ensures
        0 < name.len() <= 64,
        name != "."@,
        name != ".."@,
        name[0] != '.',
        name[0] != '-',
        forall|k: int| 0 <= k < name.len() ==> #[trigger] name[k] != '/' && !text::is_white(name[k]),
        !crate::path::is_absolute(name),
        crate::path::parts(name) == seq![name],
{
    assert forall|k: int| 0 <= k < name.len() implies #[trigger] name[k] != '/' && !text::is_white(
        name[k],
    ) by {
        lemma_none_odd(name, 0, k);
    }
    text::lemma_split_on_none(name, '/');
    let keep = |p: Seq<char>| crate::path::says_something(p);
    let empty = Seq::<Seq<char>>::empty();
    assert(seq![name] =~= empty.push(name));
    empty.lemma_filter_push(name, keep);
    assert(empty.filter(keep) =~= empty) by {
        empty.lemma_filter_len(keep);
    }
    assert(keep(name));
    assert(crate::path::parts(name) =~= seq![name]);
}

/// A name is made of letters and digits of ASCII, dots, underscores and dashes, between one and 64 of
/// them. It starts with neither a dot nor a dash, ends neither with a dot nor with `.lock`, and holds no
/// two dots in a row. Whatever is made so passes.
pub proof fn law_what_is_a_name(name: Seq<char>)
    ensures
        name_fault(name) is None <==> {
            &&& 1 <= name.len() <= 64
            &&& name[0] != '.' && name[0] != '-'
            &&& name.last() != '.'
            &&& !(name.len() >= 5 && name.skip(name.len() - 5) == seq!['.', 'l', 'o', 'c', 'k'])
            &&& forall|k: int| 0 < k < name.len() && name[k - 1] == '.' ==> #[trigger] name[k] != '.'
            &&& forall|k: int|
                0 <= k < name.len() ==> {
                    let c = #[trigger] name[k];
                    'a' <= c <= 'z' || 'A' <= c <= 'Z' || '0' <= c <= '9' || c == '.' || c == '_' || c == '-'
                }
        },
{
    reveal_strlit(".");
    reveal_strlit("..");
    reveal_strlit(".lock");
    assert(".lock"@ =~= seq!['.', 'l', 'o', 'c', 'k']);
    assert(".."@ =~= seq!['.', '.']);
    lemma_first_odd(name, 0);
    if name.len() >= 5 {
        assert(name.skip(name.len() - 5) =~= name.subrange(name.len() - 5, name.len() as int));
    }
    if contains(name, ".."@) {
        let i = choose|i: int| text::occurs_at(name, ".."@, i);
        let two = name.subrange(i, i + 2);
        assert(two[0] == name[i] && two[1] == name[i + 1]);
        assert(name[i + 1 - 1] == '.' && name[i + 1] == '.');
    }
    if exists|k: int| 0 < k < name.len() && name[k - 1] == '.' && #[trigger] name[k] == '.' {
        let k = choose|k: int| 0 < k < name.len() && name[k - 1] == '.' && #[trigger] name[k] == '.';
        assert(name.subrange(k - 1, k + 1) =~= ".."@);
        assert(text::occurs_at(name, ".."@, k - 1));
    }
}

proof fn lemma_first_odd(s: Seq<char>, from: int)
    requires
        0 <= from,
    ensures
        first_odd(s, from) is None <==> forall|k: int| from <= k < s.len() ==> plain(#[trigger] s[k]),
    decreases s.len() - from,
{
    if from < s.len() && plain(s[from]) {
        lemma_first_odd(s, from + 1);
    }
}

} // verus!
