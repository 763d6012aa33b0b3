//! The narrow names that users give to hosts and agents.

use vstd::prelude::*;

use crate::text;
use crate::text::quoted_char;

verus! {

/// The greatest length of a label.
pub const MAX_LABEL: usize = 64;

/// A character that a label may hold: an ASCII letter or digit, `.`, `_` or `-`.
pub open spec fn label_char(c: char) -> bool {
    ||| 'a' <= c <= 'z'
    ||| 'A' <= c <= 'Z'
    ||| '0' <= c <= '9'
    ||| c == '.'
    ||| c == '_'
    ||| c == '-'
}

/// The first character from index `from` on that a label may not hold.
pub open spec fn first_stray(s: Seq<char>, from: int) -> Option<char>
    decreases s.len() - from,
{
    if from < 0 || from >= s.len() {
        None
    } else if !label_char(s[from]) {
        Some(s[from])
    } else {
        first_stray(s, from + 1)
    }
}

/// What is wrong with a label, in a message that calls it `noun`.
pub open spec fn label_fault(noun: Seq<char>, s: Seq<char>) -> Option<Seq<char>> {
    if s.len() == 0 {
        Some(noun + " must not be empty"@)
    } else if s.len() > MAX_LABEL {
        Some(noun + " must be at most 64 characters"@)
    } else if first_stray(s, 0) is Some {
        Some(
            noun + " may only contain letters, digits, '.', '_' and '-' (found "@ + quoted_char(
                first_stray(s, 0)->0,
            ) + ")"@,
        )
    } else if s == "."@ || s == ".."@ {
        Some(noun + " must not be '.' or '..'"@)
    } else {
        None
    }
}

/// Check a label, in messages that call it `noun`.
pub fn check_label(noun: &str, s: &str) -> (r: Result<(), String>)
    ensures
        match r {
            Ok(_) => label_fault(noun@, s@) is None,
            Err(e) => label_fault(noun@, s@) == Some(e@),
        },
{
    let v = text::chars_of(s);
    if v.len() == 0 {
        let mut m = noun.to_owned();
        m.append(" must not be empty");
        return Err(m);
    }
    if v.len() > MAX_LABEL {
        let mut m = noun.to_owned();
        m.append(" must be at most 64 characters");
        return Err(m);
    }
    let mut i: usize = 0;
    while i < v.len()
        invariant
            v@ == s@,
            0 < v.len() <= MAX_LABEL,
            i <= v.len(),
            first_stray(v@, 0) == first_stray(v@, i as int),
        decreases v.len() - i,
    {
        let c = v[i];
        if !(('a' <= c && c <= 'z') || ('A' <= c && c <= 'Z') || ('0' <= c && c <= '9') || c == '.' || c
            == '_' || c == '-') {
            let mut m = noun.to_owned();
            m.append(" may only contain letters, digits, '.', '_' and '-' (found ");
            m.append(text::quote_char(c).as_str());
            m.append(")");
            return Err(m);
        }
        i = i + 1;
    }
    if text::same(s, ".") || text::same(s, "..") {
        let mut m = noun.to_owned();
        m.append(" must not be '.' or '..'");
        return Err(m);
    }
    Ok(())
}

proof fn lemma_no_stray(s: Seq<char>, from: int, k: int)
    requires
        0 <= from <= k < s.len(),
        first_stray(s, from) is None,
    ensures
        label_char(s[k]),
    decreases s.len() - from,
{
    if from < k {
        lemma_no_stray(s, from + 1, k);
    }
}

/// A label that passes is safe as the name of a directory: it holds no separator and no white
/// space, and is neither `.` nor `..`.
pub proof fn law_label_is_a_safe_directory_name(noun: Seq<char>, s: Seq<char>)
    requires
        label_fault(noun, s) is None,
    ensures
        0 < s.len() <= MAX_LABEL,
        forall|k: int| 0 <= k < s.len() ==> #[trigger] s[k] != '/' && !text::is_white(s[k]),
        s != "."@,
        s != ".."@,
{
    assert forall|k: int| 0 <= k < s.len() implies #[trigger] s[k] != '/' && !text::is_white(s[k]) by {
        lemma_no_stray(s, 0, k);
    }
}

/// A label is made of letters and digits of ASCII, dots, underscores and dashes, between one and 64
/// of them, and is neither `.` nor `..`; whatever is made so passes.
pub proof fn law_what_is_a_label(noun: Seq<char>, s: Seq<char>)
    ensures
        label_fault(noun, s) is None <==> {
            &&& 1 <= s.len() <= 64
            &&& s != seq!['.'] && s != seq!['.', '.']
            &&& forall|k: int|
                0 <= k < s.len() ==> {
                    let c = #[trigger] s[k];
                    'a' <= c <= 'z' || 'A' <= c <= 'Z' || '0' <= c <= '9' || c == '.' || c == '_' || c == '-'
                }
        },
{
    reveal_strlit(".");
    reveal_strlit("..");
    assert("."@ =~= seq!['.']);
    assert(".."@ =~= seq!['.', '.']);
    lemma_first_stray(s, 0);
}

proof fn lemma_first_stray(s: Seq<char>, from: int)
    requires
        0 <= from,
    ensures
        first_stray(s, from) is None <==> forall|k: int| from <= k < s.len() ==> label_char(#[trigger] s[k]),
    decreases s.len() - from,
{
    if from < s.len() && label_char(s[from]) {
        lemma_first_stray(s, from + 1);
    }
}

} // verus!
