//! Lines that look like a program that waits for the user. A line that is not known to be one is none:
//! a bare shell prompt never is.

use vstd::prelude::*;

use crate::text;
use crate::text::{ascii_lower, ascii_small, contains, is_white, occurs_at, trim_end, trim_start, trimmed};

verus! {

/// The text in lower case.
pub uninterp spec fn lower(s: Seq<char>) -> Seq<char>;

/// Every character of the text is an ASCII character.
pub open spec fn all_ascii(s: Seq<char>) -> bool {
    forall|k: int| 0 <= k < s.len() ==> (#[trigger] s[k]) as u32 <= 0x7f
}

/// `str::to_lowercase`: the result is a function of the text alone, here `lower`. Of a text that is all
/// ASCII, the letters `A` to `Z` become `a` to `z` and nothing else changes.
#[verifier::external_body]
fn to_lower(s: &str) -> (l: String)
    ensures
        l@ == lower(s@),
        all_ascii(s@) ==> l@ == ascii_lower(s@),
{
    s.to_lowercase()
}

/// The text ends in `mark`, or in that and a question mark or a colon.
pub open spec fn asks(s: Seq<char>, mark: Seq<char>) -> bool {
    mark.is_suffix_of(s) || (mark + "?"@).is_suffix_of(s) || (mark + ":"@).is_suffix_of(s)
}

/// A line without white space around it, and the same in lower case, look like a prompt.
pub open spec fn is_prompt(line: Seq<char>, small: Seq<char>) -> bool {
    line.len() > 0 && {
        // A question to be answered with yes or no.
        ||| asks(small, "(y/n)"@)
        ||| asks(small, "(yes/no)"@)
        ||| asks(small, "[y/n]"@)
        ||| asks(small, "[yes/no]"@)
        // A secret.
        ||| "password:"@.is_suffix_of(small)
        ||| "passphrase:"@.is_suffix_of(small)
        ||| contains(small, "password for"@) && ":"@.is_suffix_of(small)
        ||| contains(small, "passphrase for"@) && ":"@.is_suffix_of(small)
        // A key to be pressed.
        ||| contains(small, "press enter"@)
        ||| contains(small, "press return"@)
        ||| contains(small, "press any key"@)
        // A pager.
        ||| contains(line, "--More--"@)
        ||| "(end)"@.is_suffix_of(small)
        // A menu.
        ||| "? "@.is_prefix_of(line)
        // An interpreter.
        ||| ">>>"@.is_suffix_of(small)
        ||| "in ["@.is_prefix_of(small) && "]:"@.is_suffix_of(small)
    }
}

fn ends_asking(s: &str, mark: &str) -> (yes: bool)
    ensures
        yes == asks(s@, mark@),
{
    let mut question = mark.to_owned();
    question.append("?");
    let mut colon = mark.to_owned();
    colon.append(":");
    text::ends(s, mark) || text::ends(s, question.as_str()) || text::ends(s, colon.as_str())
}

/// Whether a line without white space around it, and the same in lower case, look like a prompt.
pub fn looks_like_prompt(line: &str, small: &str) -> (yes: bool)
    ensures
        yes == is_prompt(line@, small@),
{
    if line.is_empty() {
        return false;
    }
    if ends_asking(small, "(y/n)") || ends_asking(small, "(yes/no)") || ends_asking(small, "[y/n]")
        || ends_asking(small, "[yes/no]") {
        return true;
    }
    if text::ends(small, "password:") || text::ends(small, "passphrase:") || (text::holds(
        small,
        "password for",
    ) && text::ends(small, ":")) || (text::holds(small, "passphrase for") && text::ends(small, ":")) {
        return true;
    }
    if text::holds(small, "press enter") || text::holds(small, "press return") || text::holds(
        small,
        "press any key",
    ) {
        return true;
    }
    if text::holds(line, "--More--") || text::ends(small, "(end)") {
        return true;
    }
    if text::begins(line, "? ") {
        return true;
    }
    if text::ends(small, ">>>") {
        return true;
    }
    text::begins(small, "in [") && text::ends(small, "]:")
}

/// A line of a screen looks like a program that waits for the user.
pub open spec fn blocks(line: Seq<char>) -> bool {
    is_prompt(trimmed(line), lower(trimmed(line)))
}

/// The same, of a line that is all ASCII.
pub open spec fn ascii_line_blocks(line: Seq<char>) -> bool {
    is_prompt(trimmed(line), ascii_lower(trimmed(line)))
}

/// Whether a line of a screen looks like a program that waits for the user.
pub fn is_blocking_prompt(line: &str) -> (yes: bool)
    ensures
        yes == blocks(line@),
        all_ascii(line@) ==> yes == ascii_line_blocks(line@),
{
    let t = text::trim(line);
    proof {
        lemma_trimmed_is_part(line@);
    }
    let small = to_lower(t.as_str());
    looks_like_prompt(t.as_str(), small.as_str())
}

proof fn lemma_trim_start(s: Seq<char>)
    ensures
        exists|i: int|
            {
                &&& 0 <= i <= s.len()
                &&& trim_start(s) == #[trigger] s.skip(i)
                &&& forall|k: int| 0 <= k < i ==> is_white(#[trigger] s[k])
            },
        trim_start(s).len() > 0 ==> !is_white(trim_start(s)[0]),
    decreases s.len(),
{
    if s.len() > 0 && is_white(s[0]) {
        let rest = s.drop_first();
        lemma_trim_start(rest);
        let i = choose|i: int|
            {
                &&& 0 <= i <= rest.len()
                &&& trim_start(rest) == #[trigger] rest.skip(i)
                &&& forall|k: int| 0 <= k < i ==> is_white(#[trigger] rest[k])
            };
        assert(rest.skip(i) =~= s.skip(i + 1));
        assert forall|k: int| 0 <= k < i + 1 implies is_white(#[trigger] s[k]) by {
            if k > 0 {
                assert(s[k] == rest[k - 1]);
            }
        }
    } else {
        assert(s.skip(0) =~= s);
    }
}

proof fn lemma_trim_end(s: Seq<char>)
    ensures
        trim_end(s).len() <= s.len(),
        trim_end(s) == s.take(trim_end(s).len() as int),
        trim_end(s).len() > 0 ==> !is_white(trim_end(s).last()),
    decreases s.len(),
{
    if s.len() > 0 && is_white(s.last()) {
        let rest = s.drop_last();
        lemma_trim_end(rest);
        assert(rest.take(trim_end(rest).len() as int) =~= s.take(trim_end(s).len() as int));
    } else {
        assert(s.take(s.len() as int) =~= s);
    }
}

proof fn lemma_trimmed_is_part(s: Seq<char>)
    ensures
        all_ascii(s) ==> all_ascii(trimmed(s)),
        trimmed(s).len() > 0 ==> !is_white(trimmed(s)[0]) && !is_white(trimmed(s).last()),
        forall|pat: Seq<char>| #[trigger] contains(trimmed(s), pat) ==> contains(s, pat),
{
    lemma_trim_start(s);
    let i = choose|i: int|
        {
            &&& 0 <= i <= s.len()
            &&& trim_start(s) == #[trigger] s.skip(i)
            &&& forall|k: int| 0 <= k < i ==> is_white(#[trigger] s[k])
        };
    let left = trim_start(s);
    lemma_trim_end(left);
    assert forall|k: int| all_ascii(s) && 0 <= k < trimmed(s).len() implies (
    #[trigger] trimmed(s)[k]) as u32 <= 0x7f by {
        assert(trimmed(s)[k] == left.take(trimmed(s).len() as int)[k]);
        assert(trimmed(s)[k] == s[i + k]);
    }
    if trimmed(s).len() > 0 {
        assert(trimmed(s)[0] == left.take(trimmed(s).len() as int)[0]);
    }
    assert forall|pat: Seq<char>| #[trigger] contains(trimmed(s), pat) implies contains(s, pat) by {
        let j = choose|j: int| occurs_at(trimmed(s), pat, j);
        assert(trimmed(s) == s.skip(i).take(trimmed(s).len() as int));
        assert(s.subrange(i + j, i + j + pat.len()) =~= trimmed(s).subrange(j, j + pat.len()));
        assert(occurs_at(s, pat, i + j));
    }
}

/// White space around a line is of no account, and a line of nothing else is no prompt.
pub proof fn law_white_space_around_a_line_is_of_no_account(line: Seq<char>)
    ensures
        trimmed(trimmed(line)) == trimmed(line),
        blocks(trimmed(line)) == blocks(line),
        (forall|k: int| 0 <= k < line.len() ==> is_white(#[trigger] line[k])) ==> !blocks(line),
{
    let t = trimmed(line);
    lemma_trimmed_is_part(line);
    assert(trim_start(t) == t);
    assert(trim_end(t) == t);
    if forall|k: int| 0 <= k < line.len() ==> is_white(#[trigger] line[k]) {
        lemma_trim_start(line);
        let left = trim_start(line);
        let i = choose|i: int|
            {
                &&& 0 <= i <= line.len()
                &&& left == #[trigger] line.skip(i)
                &&& forall|k: int| 0 <= k < i ==> is_white(#[trigger] line[k])
            };
        if i < line.len() {
            assert(left[0] == line[i]);
        }
        assert(t.len() == 0);
    }
}

proof fn lemma_case_keeps_white(c: char)
    ensures
        is_white(ascii_small(c)) == is_white(c),
        ascii_small(c) == '?' <==> c == '?',
        ascii_small(c) == ' ' <==> c == ' ',
{
}

proof fn lemma_lower_of_trim_start(s: Seq<char>)
    ensures
        trim_start(ascii_lower(s)) == ascii_lower(trim_start(s)),
    decreases s.len(),
{
    if s.len() > 0 {
        lemma_case_keeps_white(s[0]);
        if is_white(s[0]) {
            lemma_lower_of_trim_start(s.drop_first());
            assert(ascii_lower(s).drop_first() =~= ascii_lower(s.drop_first()));
        }
    }
}

proof fn lemma_lower_of_trim_end(s: Seq<char>)
    ensures
        trim_end(ascii_lower(s)) == ascii_lower(trim_end(s)),
    decreases s.len(),
{
    if s.len() > 0 {
        lemma_case_keeps_white(s.last());
        if is_white(s.last()) {
            lemma_lower_of_trim_end(s.drop_last());
            assert(ascii_lower(s).drop_last() =~= ascii_lower(s.drop_last()));
        }
    }
}

proof fn lemma_pager_in_lower_case(s: Seq<char>)
    requires
        contains(s, "--More--"@),
    ensures
        contains(ascii_lower(s), "--more--"@),
{
    let i = choose|i: int| occurs_at(s, "--More--"@, i);
    reveal_strlit("--More--");
    reveal_strlit("--more--");
    let part = s.subrange(i, i + 8);
    assert forall|k: int| 0 <= k < 8 implies ascii_lower(s).subrange(i, i + 8)[k] == "--more--"@[k] by {
        assert(part[k] == "--More--"@[k]);
        assert(ascii_lower(s)[i + k] == ascii_small(part[k]));
    }
    assert(ascii_lower(s).subrange(i, i + 8) =~= "--more--"@);
    assert(occurs_at(ascii_lower(s), "--more--"@, i));
}

proof fn lemma_menu_in_lower_case(s: Seq<char>)
    ensures
        "? "@.is_prefix_of(ascii_lower(s)) == "? "@.is_prefix_of(s),
{
    reveal_strlit("? ");
    if s.len() >= 2 {
        lemma_case_keeps_white(s[0]);
        lemma_case_keeps_white(s[1]);
        assert(ascii_lower(s).take(2)[0] == ascii_small(s[0]));
        assert(ascii_lower(s).take(2)[1] == ascii_small(s[1]));
        if s[0] == '?' && s[1] == ' ' {
            assert("? "@ =~= s.take(2));
            assert("? "@ =~= ascii_lower(s).take(2));
        }
    }
}

/// Two ASCII lines that differ only in the case of their letters, such as a line and the same in
/// capitals, are both prompts or both none, but for the pager's `--More--`, which is written in one way
/// alone.
pub proof fn law_case_is_of_no_account(a: Seq<char>, b: Seq<char>)
    requires
        ascii_lower(a) == ascii_lower(b),
        !contains(ascii_lower(a), "--more--"@),
    ensures
        ascii_line_blocks(a) == ascii_line_blocks(b),
{
    lemma_trimmed_is_part(ascii_lower(a));
    lemma_lower_of_trim_start(a);
    lemma_lower_of_trim_start(b);
    lemma_lower_of_trim_end(trim_start(a));
    lemma_lower_of_trim_end(trim_start(b));
    let (ta, tb) = (trimmed(a), trimmed(b));
    assert(ascii_lower(ta) == ascii_lower(tb));
    assert(ta.len() == ascii_lower(ta).len());
    assert(tb.len() == ascii_lower(tb).len());
    lemma_menu_in_lower_case(ta);
    lemma_menu_in_lower_case(tb);
    if contains(ta, "--More--"@) {
        lemma_pager_in_lower_case(ta);
    }
    if contains(tb, "--More--"@) {
        lemma_pager_in_lower_case(tb);
    }
}

/// Whatever stands before it, a question to be answered with yes or no is a prompt, with or without a
/// question mark or a colon behind it; so is a question for a password or a passphrase, the last line of
/// a pager, and the prompt of an interpreter.
pub proof fn law_what_a_prompt_ends_in(line: Seq<char>, head: Seq<char>)
    requires
        line.len() > 0,
    ensures
        is_prompt(line, head + "(y/n)"@),
        is_prompt(line, head + "(yes/no)"@),
        is_prompt(line, head + "[y/n]"@),
        is_prompt(line, head + "[yes/no]"@),
        is_prompt(line, head + ("(y/n)"@ + "?"@)),
        is_prompt(line, head + ("(y/n)"@ + ":"@)),
        is_prompt(line, head + ("[yes/no]"@ + "?"@)),
        is_prompt(line, head + ("(yes/no)"@ + ":"@)),
        is_prompt(line, head + "password:"@),
        is_prompt(line, head + "passphrase:"@),
        is_prompt(line, head + "(end)"@),
        is_prompt(line, head + ">>>"@),
{
    lemma_ends_in(head, "(y/n)"@);
    lemma_ends_in(head, "(yes/no)"@);
    lemma_ends_in(head, "[y/n]"@);
    lemma_ends_in(head, "[yes/no]"@);
    lemma_ends_in(head, "(y/n)"@ + "?"@);
    lemma_ends_in(head, "(y/n)"@ + ":"@);
    lemma_ends_in(head, "[yes/no]"@ + "?"@);
    lemma_ends_in(head, "(yes/no)"@ + ":"@);
    lemma_ends_in(head, "password:"@);
    lemma_ends_in(head, "passphrase:"@);
    lemma_ends_in(head, "(end)"@);
    lemma_ends_in(head, ">>>"@);
}

proof fn lemma_ends_in(head: Seq<char>, mark: Seq<char>)
    ensures
        mark.is_suffix_of(head + mark),
{
    let all = head + mark;
    assert(all.subrange(all.len() - mark.len(), all.len() as int) =~= mark);
}

proof fn lemma_holds(head: Seq<char>, mark: Seq<char>, tail: Seq<char>)
    ensures
        contains(head + mark + tail, mark),
{
    let all = head + mark + tail;
    assert(all.subrange(head.len() as int, head.len() as int + mark.len()) =~= mark);
    assert(occurs_at(all, mark, head.len() as int));
}

/// Wherever it stands, a request to press a key is a prompt, and so is the pager's mark; a question for
/// a secret of someone's is one where it ends in a colon, and a menu begins with a question mark.
pub proof fn law_what_a_prompt_holds(line: Seq<char>, small: Seq<char>, head: Seq<char>, tail: Seq<char>)
    requires
        line.len() > 0,
    ensures
        is_prompt(line, head + "press enter"@ + tail),
        is_prompt(line, head + "press return"@ + tail),
        is_prompt(line, head + "press any key"@ + tail),
        is_prompt(line, head + "password for"@ + (tail + ":"@)),
        is_prompt(line, head + "passphrase for"@ + (tail + ":"@)),
        is_prompt(head + "--More--"@ + tail, small),
        is_prompt("? "@ + tail, small),
        is_prompt(line, "in ["@ + tail + "]:"@),
{
    reveal_strlit("--More--");
    reveal_strlit("? ");
    lemma_holds(head, "press enter"@, tail);
    lemma_holds(head, "press return"@, tail);
    lemma_holds(head, "press any key"@, tail);
    lemma_holds(head, "password for"@, tail + ":"@);
    lemma_ends_in(head + "password for"@ + tail, ":"@);
    assert(head + "password for"@ + (tail + ":"@) =~= head + "password for"@ + tail + ":"@);
    lemma_holds(head, "passphrase for"@, tail + ":"@);
    lemma_ends_in(head + "passphrase for"@ + tail, ":"@);
    assert(head + "passphrase for"@ + (tail + ":"@) =~= head + "passphrase for"@ + tail + ":"@);
    lemma_holds(head, "--More--"@, tail);
    assert(("? "@ + tail).subrange(0, 2) =~= "? "@);
    lemma_ends_in("in ["@ + tail, "]:"@);
    let cell = "in ["@ + tail + "]:"@;
    assert(cell.subrange(0, "in ["@.len() as int) =~= "in ["@);
}

/// A bare shell prompt is none, and no line is one that ends in anything but a bracket, a colon, a
/// question mark or `>`, unless it asks for a key, is a pager's or begins as a menu does.
pub proof fn law_a_shell_prompt_is_none(line: Seq<char>, small: Seq<char>)
    requires
        small.len() > 0,
        small.last() != ')' && small.last() != ']' && small.last() != ':' && small.last() != '?'
            && small.last() != '>',
        !contains(small, "press enter"@),
        !contains(small, "press return"@),
        !contains(small, "press any key"@),
        !contains(line, "--More--"@),
        !(line.len() > 1 && line[0] == '?' && line[1] == ' '),
    ensures
        !is_prompt(line, small),
{
    reveal_strlit("(y/n)");
    reveal_strlit("(yes/no)");
    reveal_strlit("[y/n]");
    reveal_strlit("[yes/no]");
    reveal_strlit("password:");
    reveal_strlit("passphrase:");
    reveal_strlit(":");
    reveal_strlit("?");
    reveal_strlit("(end)");
    reveal_strlit(">>>");
    reveal_strlit("]:");
    reveal_strlit("? ");
    lemma_last_of_suffix(small, "(y/n)"@);
    lemma_last_of_suffix(small, "(yes/no)"@);
    lemma_last_of_suffix(small, "[y/n]"@);
    lemma_last_of_suffix(small, "[yes/no]"@);
    lemma_last_of_suffix(small, "(y/n)"@ + "?"@);
    lemma_last_of_suffix(small, "(yes/no)"@ + "?"@);
    lemma_last_of_suffix(small, "[y/n]"@ + "?"@);
    lemma_last_of_suffix(small, "[yes/no]"@ + "?"@);
    lemma_last_of_suffix(small, "(y/n)"@ + ":"@);
    lemma_last_of_suffix(small, "(yes/no)"@ + ":"@);
    lemma_last_of_suffix(small, "[y/n]"@ + ":"@);
    lemma_last_of_suffix(small, "[yes/no]"@ + ":"@);
    lemma_last_of_suffix(small, "password:"@);
    lemma_last_of_suffix(small, "passphrase:"@);
    lemma_last_of_suffix(small, ":"@);
    lemma_last_of_suffix(small, "(end)"@);
    lemma_last_of_suffix(small, ">>>"@);
    lemma_last_of_suffix(small, "]:"@);
    if "? "@.is_prefix_of(line) {
        let two = line.subrange(0, 2);
        assert(two[0] == line[0] && two[1] == line[1]);
        assert("? "@[0] == '?' && "? "@[1] == ' ');
    }
}

proof fn lemma_last_of_suffix(s: Seq<char>, mark: Seq<char>)
    ensures
        mark.len() > 0 && mark.is_suffix_of(s) ==> s.len() > 0 && s.last() == mark.last(),
{
    if mark.len() > 0 && mark.is_suffix_of(s) {
        let end = s.subrange(s.len() - mark.len(), s.len() as int);
        assert(end.last() == mark.last());
    }
}

} // verus!
