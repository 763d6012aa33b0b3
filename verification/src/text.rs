//! Text as sequences of characters: searching, trimming, splitting and joining.

use vstd::prelude::*;

verus! {

/// `String::push`: the character goes to the end of the string.
pub assume_specification[ String::push ](string: &mut String, ch: char)
    ensures
        final(string)@ == old(string)@.push(ch),
;

/// The texts that a sequence of strings holds.
pub open spec fn texts(strings: Seq<String>) -> Seq<Seq<char>> {
    strings.map_values(|s: String| s@)
}

/// The text that an optional string holds.
pub open spec fn opt_text(string: Option<String>) -> Option<Seq<char>> {
    match string {
        Some(s) => Some(s@),
        None => None,
    }
}

/// The text that an optional string slice holds.
pub open spec fn opt_str(string: Option<&str>) -> Option<Seq<char>> {
    match string {
        Some(s) => Some(s@),
        None => None,
    }
}

/// The characters of a string, in order.
pub fn chars_of(s: &str) -> (chars: Vec<char>)
    ensures
        chars@ == s@,
{
    let mut chars: Vec<char> = Vec::new();
    for c in iter: s.chars()
        invariant
            iter.seq() == s@,
            chars@ == s@.take(iter.index()),
    {
        chars.push(c);
        proof {
            assert(s@.take(iter.index() + 1) == s@.take(iter.index()).push(s@[iter.index()]));
        }
    }
    assert(s@.take(s@.len() as int) == s@);
    chars
}

/// The string made of these characters.
pub fn text_of(chars: &[char]) -> (s: String)
    ensures
        s@ == chars@,
{
    let mut s = String::new();
    let mut i: usize = 0;
    while i < chars.len()
        invariant
            i <= chars.len(),
            s@ == chars@.take(i as int),
        decreases chars.len() - i,
    {
        s.push(chars[i]);
        proof {
            assert(chars@.take(i + 1) == chars@.take(i as int).push(chars@[i as int]));
        }
        i = i + 1;
    }
    assert(chars@.take(chars@.len() as int) == chars@);
    s
}

/// The string made of the characters from `from` up to `to`.
pub fn text_between(chars: &[char], from: usize, to: usize) -> (s: String)
    requires
        from <= to <= chars.len(),
    ensures
        s@ == chars@.subrange(from as int, to as int),
{
    let mut s = String::new();
    let mut i: usize = from;
    while i < to
        invariant
            from <= i <= to <= chars.len(),
            s@ == chars@.subrange(from as int, i as int),
        decreases to - i,
    {
        s.push(chars[i]);
        proof {
            assert(chars@.subrange(from as int, i + 1) == chars@.subrange(from as int, i as int).push(
                chars@[i as int],
            ));
        }
        i = i + 1;
    }
    s
}

/// Whether two texts are the same.
pub fn same(a: &str, b: &str) -> (equal: bool)
    ensures
        equal == (a@ == b@),
{
    a.to_owned() == b.to_owned()
}

/// An owned copy of an optional text.
pub fn owned(s: Option<&str>) -> (o: Option<String>)
    ensures
        opt_text(o) == opt_str(s),
{
    match s {
        Some(s) => Some(s.to_owned()),
        None => None,
    }
}

/// A copy of each of the strings, in order.
pub fn copies(strings: &[String]) -> (copy: Vec<String>)
    ensures
        copy@ == strings@,
        texts(copy@) == texts(strings@),
{
    let mut copy: Vec<String> = Vec::new();
    let mut i: usize = 0;
    while i < strings.len()
        invariant
            i <= strings.len(),
            copy@ == strings@.take(i as int),
        decreases strings.len() - i,
    {
        copy.push(strings[i].clone());
        proof {
            assert(strings@.take(i + 1) == strings@.take(i as int).push(strings@[i as int]));
        }
        i = i + 1;
    }
    assert(strings@.take(strings@.len() as int) == strings@);
    copy
}

/// Adding one string adds its text.
pub broadcast proof fn lemma_texts_push(strings: Seq<String>, s: String)
    ensures
        #[trigger] texts(strings.push(s)) == texts(strings).push(s@),
{
    assert(texts(strings.push(s)) =~= texts(strings).push(s@));
}

/// The characters with the Unicode property `White_Space`.
pub open spec fn is_white(c: char) -> bool {
    ||| 0x09 <= c as u32 <= 0x0d
    ||| c as u32 == 0x20
    ||| c as u32 == 0x85
    ||| c as u32 == 0xa0
    ||| c as u32 == 0x1680
    ||| 0x2000 <= c as u32 <= 0x200a
    ||| c as u32 == 0x2028
    ||| c as u32 == 0x2029
    ||| c as u32 == 0x202f
    ||| c as u32 == 0x205f
    ||| c as u32 == 0x3000
}

/// Whether the character is white space.
pub fn white(c: char) -> (yes: bool)
    ensures
        yes == is_white(c),
{
    let n: u32 = c as u32;
    (0x09 <= n && n <= 0x0d) || n == 0x20 || n == 0x85 || n == 0xa0 || n == 0x1680 || (0x2000 <= n && n
        <= 0x200a) || n == 0x2028 || n == 0x2029 || n == 0x202f || n == 0x205f || n == 0x3000
}

/// `pat` stands in `s` at index `i`.
pub open spec fn occurs_at(s: Seq<char>, pat: Seq<char>, i: int) -> bool {
    0 <= i && i + pat.len() <= s.len() && s.subrange(i, i + pat.len()) == pat
}

/// The first index from `from` on at which `pat` stands in `s`.
pub open spec fn find_from(s: Seq<char>, pat: Seq<char>, from: int) -> Option<int>
    decreases s.len() + 1 - from,
{
    if from < 0 || from + pat.len() > s.len() {
        None
    } else if s.subrange(from, from + pat.len()) == pat {
        Some(from)
    } else {
        find_from(s, pat, from + 1)
    }
}

/// The first index from `from` on at which `c` stands in `s`.
pub open spec fn index_from(s: Seq<char>, c: char, from: int) -> Option<int>
    decreases s.len() - from,
{
    if from < 0 || from >= s.len() {
        None
    } else if s[from] == c {
        Some(from)
    } else {
        index_from(s, c, from + 1)
    }
}

/// What `index_from` gives is an occurrence, and there is none before it.
pub proof fn lemma_index_from(s: Seq<char>, c: char, from: int)
    requires
        0 <= from,
    ensures
        match index_from(s, c, from) {
            Some(i) => from <= i < s.len() && s[i] == c && forall|j: int|
                from <= j < i ==> s[j] != c,
            None => forall|j: int| from <= j < s.len() ==> s[j] != c,
        },
    decreases s.len() - from,
{
    if from < s.len() && s[from] != c {
        lemma_index_from(s, c, from + 1);
    }
}

/// The first index from `from` on at which `c` stands in `s`.
pub fn position_from(s: &[char], c: char, from: usize) -> (found: Option<usize>)
    ensures
        match found {
            Some(i) => index_from(s@, c, from as int) == Some(i as int) && from <= i < s.len(),
            None => index_from(s@, c, from as int) is None,
        },
{
    let mut i: usize = from;
    while i < s.len()
        invariant
            from <= i,
            index_from(s@, c, from as int) == index_from(s@, c, i as int),
        decreases s.len() - i,
    {
        if s[i] == c {
            return Some(i);
        }
        i = i + 1;
    }
    None
}

/// The first index at which `pat` stands in `s`.
pub open spec fn find(s: Seq<char>, pat: Seq<char>) -> Option<int> {
    find_from(s, pat, 0)
}

/// `pat` stands somewhere in `s`.
pub open spec fn contains(s: Seq<char>, pat: Seq<char>) -> bool {
    exists|i: int| occurs_at(s, pat, i)
}

/// What `find_from` gives is an occurrence, and there is none before it.
pub proof fn lemma_find_from(s: Seq<char>, pat: Seq<char>, from: int)
    requires
        0 <= from,
    ensures
        match find_from(s, pat, from) {
            Some(i) => from <= i && occurs_at(s, pat, i) && forall|j: int|
                from <= j < i ==> !occurs_at(s, pat, j),
            None => forall|j: int| from <= j ==> !occurs_at(s, pat, j),
        },
    decreases s.len() + 1 - from,
{
    if from + pat.len() <= s.len() && s.subrange(from, from + pat.len()) != pat {
        lemma_find_from(s, pat, from + 1);
    }
}

/// Whether `pat` stands in `s` at index `i`.
pub fn stands_at(s: &[char], pat: &[char], i: usize) -> (yes: bool)
    ensures
        yes == occurs_at(s@, pat@, i as int),
{
    if pat.len() > s.len() || i > s.len() - pat.len() {
        return false;
    }
    let mut k: usize = 0;
    while k < pat.len()
        invariant
            k <= pat.len(),
            i + pat.len() <= s.len(),
            forall|j: int| 0 <= j < k ==> s@[i + j] == pat@[j],
        decreases pat.len() - k,
    {
        if s[i + k] != pat[k] {
            assert(s@.subrange(i as int, i + pat@.len())[k as int] != pat@[k as int]);
            return false;
        }
        k = k + 1;
    }
    assert(s@.subrange(i as int, i + pat@.len()) == pat@);
    true
}

/// The first index from `from` on at which `pat` stands in `s`.
pub fn search_from(s: &[char], pat: &[char], from: usize) -> (found: Option<usize>)
    ensures
        match found {
            Some(i) => find_from(s@, pat@, from as int) == Some(i as int),
            None => find_from(s@, pat@, from as int) is None,
        },
        match found {
            Some(i) => from <= i && i + pat.len() <= s.len(),
            None => true,
        },
{
    let mut i: usize = from;
    while pat.len() <= s.len() && i <= s.len() - pat.len()
        invariant
            from <= i,
            find_from(s@, pat@, from as int) == find_from(s@, pat@, i as int),
        decreases s.len() + 1 - i,
    {
        if stands_at(s, pat, i) {
            return Some(i);
        }
        assert(pat@.len() == 0 ==> s@.subrange(i as int, i as int) =~= pat@);
        i = i + 1;
    }
    None
}

/// Whether `pat` stands somewhere in `s`.
pub fn holds(s: &str, pat: &str) -> (yes: bool)
    ensures
        yes == contains(s@, pat@),
{
    let s = chars_of(s);
    let pat = chars_of(pat);
    proof {
        lemma_find_from(s@, pat@, 0);
    }
    search_from(&s, &pat, 0).is_some()
}

/// Whether `s` begins with `prefix`.
pub fn begins(s: &str, prefix: &str) -> (yes: bool)
    ensures
        yes == prefix@.is_prefix_of(s@),
{
    let s = chars_of(s);
    let prefix = chars_of(prefix);
    assert(occurs_at(s@, prefix@, 0) <==> prefix@.is_prefix_of(s@));
    stands_at(&s, &prefix, 0)
}

/// Whether `s` ends in `suffix`.
pub fn ends(s: &str, suffix: &str) -> (yes: bool)
    ensures
        yes == suffix@.is_suffix_of(s@),
{
    let s = chars_of(s);
    let suffix = chars_of(suffix);
    if suffix.len() > s.len() {
        return false;
    }
    assert(occurs_at(s@, suffix@, s@.len() - suffix@.len()) <==> suffix@.is_suffix_of(s@));
    stands_at(&s, &suffix, s.len() - suffix.len())
}

/// What follows `prefix` in `s`, where `s` begins with it.
pub open spec fn without_prefix(s: Seq<char>, prefix: Seq<char>) -> Option<Seq<char>> {
    if prefix.is_prefix_of(s) {
        Some(s.skip(prefix.len() as int))
    } else {
        None
    }
}

/// What follows `prefix` in `s`, where `s` begins with it.
pub fn strip_prefix(s: &str, prefix: &str) -> (rest: Option<String>)
    ensures
        opt_text(rest) == without_prefix(s@, prefix@),
{
    let all = chars_of(s);
    let pre = chars_of(prefix);
    assert(occurs_at(s@, prefix@, 0) <==> prefix@.is_prefix_of(s@));
    if stands_at(&all, &pre, 0) {
        Some(text_between(&all, pre.len(), all.len()))
    } else {
        None
    }
}

/// `s` without the white space at its start.
pub open spec fn trim_start(s: Seq<char>) -> Seq<char>
    decreases s.len(),
{
    if s.len() > 0 && is_white(s[0]) {
        trim_start(s.drop_first())
    } else {
        s
    }
}

/// `s` without the white space at its end.
pub open spec fn trim_end(s: Seq<char>) -> Seq<char>
    decreases s.len(),
{
    if s.len() > 0 && is_white(s.last()) {
        trim_end(s.drop_last())
    } else {
        s
    }
}

/// `s` without the white space at either end.
pub open spec fn trimmed(s: Seq<char>) -> Seq<char> {
    trim_end(trim_start(s))
}

/// `s` without the white space at its start.
pub fn trim_left(s: &str) -> (t: String)
    ensures
        t@ == trim_start(s@),
{
    let v = chars_of(s);
    let mut i: usize = 0;
    assert(v@.skip(0) == v@);
    while i < v.len() && white(v[i])
        invariant
            i <= v.len(),
            trim_start(v@) == trim_start(v@.skip(i as int)),
        decreases v.len() - i,
    {
        assert(v@.skip(i as int).drop_first() == v@.skip(i + 1));
        i = i + 1;
    }
    assert(v@.skip(i as int) == v@.subrange(i as int, v@.len() as int));
    text_between(&v, i, v.len())
}

/// `s` without the white space at its end.
pub fn trim_right(s: &str) -> (t: String)
    ensures
        t@ == trim_end(s@),
{
    let v = chars_of(s);
    let mut j: usize = v.len();
    assert(v@.take(v@.len() as int) == v@);
    while j > 0 && white(v[j - 1])
        invariant
            j <= v.len(),
            trim_end(v@) == trim_end(v@.take(j as int)),
        decreases j,
    {
        assert(v@.take(j as int).drop_last() == v@.take(j - 1));
        j = j - 1;
    }
    text_between(&v, 0, j)
}

/// `s` without the white space at either end.
pub fn trim(s: &str) -> (t: String)
    ensures
        t@ == trimmed(s@),
{
    let left = trim_left(s);
    trim_right(&left)
}

/// The texts with `sep` between each two.
pub open spec fn joined(parts: Seq<Seq<char>>, sep: Seq<char>) -> Seq<char>
    decreases parts.len(),
{
    if parts.len() == 0 {
        seq![]
    } else if parts.len() == 1 {
        parts[0]
    } else {
        joined(parts.drop_last(), sep) + sep + parts.last()
    }
}

/// The strings with `sep` between each two.
pub fn join(parts: &[String], sep: &str) -> (s: String)
    ensures
        s@ == joined(texts(parts@), sep@),
{
    let mut s = String::new();
    let mut i: usize = 0;
    while i < parts.len()
        invariant
            i <= parts.len(),
            s@ == joined(texts(parts@.take(i as int)), sep@),
        decreases parts.len() - i,
    {
        proof {
            let here = texts(parts@.take(i + 1));
            assert(here.drop_last() =~= texts(parts@.take(i as int)));
            assert(here.last() == parts@[i as int]@);
            assert(i == 0 ==> here.len() == 1 && s@ + parts@[0]@ =~= parts@[0]@);
        }
        if i > 0 {
            s.append(sep);
        }
        s.append(parts[i].as_str());
        i = i + 1;
    }
    assert(parts@.take(parts@.len() as int) == parts@);
    s
}

/// The parts of `s` between the characters `sep`: one more than there are of those.
pub open spec fn split_on(s: Seq<char>, sep: char) -> Seq<Seq<char>>
    decreases s.len(),
{
    if s.len() == 0 {
        seq![seq![]]
    } else if s.last() == sep {
        split_on(s.drop_last(), sep).push(seq![])
    } else {
        let before = split_on(s.drop_last(), sep);
        before.drop_last().push(before.last().push(s.last()))
    }
}

/// There is always a part.
pub proof fn lemma_split_on_nonempty(s: Seq<char>, sep: char)
    ensures
        split_on(s, sep).len() > 0,
    decreases s.len(),
{
    if s.len() > 0 {
        lemma_split_on_nonempty(s.drop_last(), sep);
    }
}

/// The parts of `s` between the characters `sep`.
pub fn split(s: &str, sep: char) -> (parts: Vec<String>)
    ensures
        texts(parts@) == split_on(s@, sep),
        parts@.len() > 0,
{
    let v = chars_of(s);
    let mut parts: Vec<String> = Vec::new();
    let mut part = String::new();
    let mut i: usize = 0;
    assert(texts(parts@).push(part@) =~= split_on(v@.take(0), sep));
    while i < v.len()
        invariant
            i <= v.len(),
            texts(parts@).push(part@) == split_on(v@.take(i as int), sep),
        decreases v.len() - i,
    {
        broadcast use lemma_texts_push;

        assert(v@.take(i + 1).drop_last() == v@.take(i as int));
        assert(texts(parts@).push(part@).drop_last() =~= texts(parts@));
        if v[i] == sep {
            parts.push(part);
            part = String::new();
        } else {
            part.push(v[i]);
        }
        i = i + 1;
    }
    assert(v@.take(v@.len() as int) == v@);
    parts.push(part);
    proof {
        broadcast use lemma_texts_push;

    }
    parts
}

/// What is added behind a separator is split by itself.
pub proof fn lemma_split_on_concat(a: Seq<char>, b: Seq<char>, sep: char)
    ensures
        split_on(a.push(sep) + b, sep) == split_on(a, sep) + split_on(b, sep),
    decreases b.len(),
{
    let whole = a.push(sep) + b;
    lemma_split_on_nonempty(b, sep);
    if b.len() == 0 {
        assert(whole =~= a.push(sep));
        assert(whole.drop_last() =~= a);
        assert(split_on(whole, sep) =~= split_on(a, sep) + split_on(b, sep));
    } else {
        assert(whole.drop_last() =~= a.push(sep) + b.drop_last());
        assert(whole.last() == b.last());
        lemma_split_on_concat(a, b.drop_last(), sep);
        lemma_split_on_nonempty(b.drop_last(), sep);
        let before = split_on(a, sep) + split_on(b.drop_last(), sep);
        assert(split_on(whole, sep) =~= split_on(a, sep) + split_on(b, sep));
    }
}

/// A text without separators is one part.
pub proof fn lemma_split_on_none(s: Seq<char>, sep: char)
    requires
        forall|k: int| 0 <= k < s.len() ==> s[k] != sep,
    ensures
        split_on(s, sep) == seq![s],
    decreases s.len(),
{
    if s.len() > 0 {
        lemma_split_on_none(s.drop_last(), sep);
        assert(s.drop_last().push(s.last()) =~= s);
        assert(split_on(s, sep) =~= seq![s]);
    } else {
        assert(s =~= seq![]);
    }
}

/// The words that are complete in `s`, and the one that its end may go on with.
pub open spec fn word_scan(s: Seq<char>) -> (Seq<Seq<char>>, Seq<char>)
    decreases s.len(),
{
    if s.len() == 0 {
        (seq![], seq![])
    } else {
        let (done, word) = word_scan(s.drop_last());
        if !is_white(s.last()) {
            (done, word.push(s.last()))
        } else if word.len() > 0 {
            (done.push(word), seq![])
        } else {
            (done, word)
        }
    }
}

/// The words of a text: what stands between white space.
pub open spec fn words(s: Seq<char>) -> Seq<Seq<char>> {
    let (done, word) = word_scan(s);
    if word.len() > 0 {
        done.push(word)
    } else {
        done
    }
}

/// The words of a text.
pub fn split_words(s: &str) -> (out: Vec<String>)
    ensures
        texts(out@) == words(s@),
{
    let v = chars_of(s);
    let mut out: Vec<String> = Vec::new();
    let mut word = String::new();
    let mut i: usize = 0;
    assert(texts(out@) =~= seq![]);
    while i < v.len()
        invariant
            i <= v.len(),
            word_scan(v@.take(i as int)) == (texts(out@), word@),
        decreases v.len() - i,
    {
        broadcast use lemma_texts_push;

        assert(v@.take(i + 1).drop_last() == v@.take(i as int));
        if !white(v[i]) {
            word.push(v[i]);
        } else if !word.as_str().is_empty() {
            out.push(word);
            word = String::new();
        }
        i = i + 1;
    }
    assert(v@.take(v@.len() as int) == v@);
    if !word.as_str().is_empty() {
        out.push(word);
        proof {
            broadcast use lemma_texts_push;

        }
    }
    out
}

/// Text without white space goes on with the last word.
pub proof fn lemma_word_scan_extends(a: Seq<char>, b: Seq<char>)
    requires
        forall|k: int| 0 <= k < b.len() ==> !is_white(#[trigger] b[k]),
    ensures
        word_scan(a + b) == (word_scan(a).0, word_scan(a).1 + b),
    decreases b.len(),
{
    if b.len() == 0 {
        assert(a + b =~= a);
        assert(word_scan(a).1 + b =~= word_scan(a).1);
    } else {
        assert((a + b).drop_last() =~= a + b.drop_last());
        lemma_word_scan_extends(a, b.drop_last());
        assert((word_scan(a).1 + b.drop_last()).push(b.last()) =~= word_scan(a).1 + b);
    }
}

/// The decimal digits of a number.
pub open spec fn decimal(n: nat) -> Seq<char>
    decreases n,
{
    if n < 10 {
        seq![digit(n)]
    } else {
        decimal(n / 10).push(digit(n % 10))
    }
}

/// The character for a digit.
pub open spec fn digit(n: nat) -> char {
    (('0' as u32) + n) as char
}

/// Different numbers have different decimals.
pub proof fn lemma_decimal_injective(a: nat, b: nat)
    requires
        decimal(a) == decimal(b),
    ensures
        a == b,
    decreases a,
{
    assert(decimal(a).last() == digit(a % 10));
    assert(decimal(b).last() == digit(b % 10));
    assert(digit(a % 10) as u32 == 48 + a % 10);
    assert(digit(b % 10) as u32 == 48 + b % 10);
    if a >= 10 && b >= 10 {
        assert(decimal(a).drop_last() =~= decimal(a / 10));
        assert(decimal(b).drop_last() =~= decimal(b / 10));
        lemma_decimal_injective(a / 10, b / 10);
    } else if a >= 10 {
        lemma_decimal_nonempty(a / 10);
        assert(decimal(a).len() >= 2);
    } else if b >= 10 {
        lemma_decimal_nonempty(b / 10);
        assert(decimal(b).len() >= 2);
    }
}

/// A number has at least one digit, and digits are all that it has.
pub proof fn lemma_decimal_nonempty(n: nat)
    ensures
        decimal(n).len() > 0,
        forall|k: int| 0 <= k < decimal(n).len() ==> is_digit(#[trigger] decimal(n)[k]),
    decreases n,
{
    if n >= 10 {
        lemma_decimal_nonempty(n / 10);
    }
}

/// The number in decimal.
pub fn show(n: u128) -> (s: String)
    ensures
        s@ == decimal(n as nat),
    decreases n,
{
    let c: char = (48u8 + (n % 10) as u8) as char;
    let mut s = if n < 10 {
        String::new()
    } else {
        show(n / 10)
    };
    s.push(c);
    assert(n < 10 ==> s@ =~= decimal(n as nat));
    s
}

/// The character is a decimal digit.
pub open spec fn is_digit(c: char) -> bool {
    '0' <= c <= '9'
}

/// The number that decimal digits spell.
pub open spec fn digits_value(s: Seq<char>) -> nat
    decreases s.len(),
{
    if s.len() == 0 {
        0
    } else {
        digits_value(s.drop_last()) * 10 + (s.last() as u32 - '0' as u32) as nat
    }
}

/// The number that a text spells: decimal digits, at least one, after at most one `+`.
pub open spec fn number(s: Seq<char>) -> Option<nat> {
    if s.len() > 0 && s[0] == '+' {
        unsigned(s.skip(1))
    } else {
        unsigned(s)
    }
}

/// The number that decimal digits spell, at least one.
pub open spec fn unsigned(s: Seq<char>) -> Option<nat> {
    if s.len() > 0 && (forall|k: int| 0 <= k < s.len() ==> is_digit(#[trigger] s[k])) {
        Some(digits_value(s))
    } else {
        None
    }
}

/// The number that a text spells, where it is at most `max`.
pub open spec fn number_up_to(s: Seq<char>, max: nat) -> Option<nat> {
    match number(s) {
        Some(n) if n <= max => Some(n),
        _ => None,
    }
}

/// The number that a text spells, where it is at most `max`.
pub fn parse_up_to(s: &str, max: u64) -> (n: Option<u64>)
    ensures
        match n {
            Some(n) => number_up_to(s@, max as nat) == Some(n as nat),
            None => number_up_to(s@, max as nat) is None,
        },
{
    let v = chars_of(s);
    let start: usize = if v.len() > 0 && v[0] == '+' {
        1
    } else {
        0
    };
    if start >= v.len() {
        return None;
    }
    let ghost digits = v@.skip(start as int);
    let mut n: u64 = 0;
    let mut i: usize = start;
    let mut over = false;
    assert(v@.skip(0) == v@);
    assert(number(s@) == unsigned(digits));
    while i < v.len()
        invariant
            start <= i <= v.len(),
            start < v.len(),
            digits == v@.skip(start as int),
            number(s@) == unsigned(digits),
            forall|k: int| 0 <= k < i - start ==> is_digit(#[trigger] digits[k]),
            over <==> digits_value(digits.take(i - start)) > max,
            !over ==> n == digits_value(digits.take(i - start)),
        decreases v.len() - i,
    {
        let c = v[i];
        if !('0' <= c && c <= '9') {
            assert(!is_digit(digits[i - start]));
            return None;
        }
        let d: u64 = (c as u32 - 48) as u64;
        assert(digits.take(i - start + 1).drop_last() == digits.take(i - start));
        if !over {
            if n > max / 10 || (n == max / 10 && d > max % 10) {
                over = true;
            } else {
                n = n * 10 + d;
            }
        }
        i = i + 1;
    }
    assert(digits.take(digits.len() as int) == digits);
    if over {
        None
    } else {
        Some(n)
    }
}

/// The character, an ASCII capital made small.
pub open spec fn ascii_small(c: char) -> char {
    if 'A' <= c <= 'Z' {
        (c as u32 + 32) as char
    } else {
        c
    }
}

/// The text with its ASCII capitals made small.
pub open spec fn ascii_lower(s: Seq<char>) -> Seq<char> {
    s.map_values(|c: char| ascii_small(c))
}

/// The text with its ASCII capitals made small.
pub fn lower_ascii(s: &str) -> (t: String)
    ensures
        t@ == ascii_lower(s@),
{
    let v = chars_of(s);
    let mut t = String::new();
    let mut i: usize = 0;
    while i < v.len()
        invariant
            i <= v.len(),
            t@ == ascii_lower(v@.take(i as int)),
        decreases v.len() - i,
    {
        let c = v[i];
        let small: char = if 'A' <= c && c <= 'Z' {
            (c as u8 + 32) as char
        } else {
            c
        };
        t.push(small);
        assert(ascii_lower(v@.take(i + 1)) =~= ascii_lower(v@.take(i as int)).push(ascii_small(c)));
        i = i + 1;
    }
    assert(v@.take(v@.len() as int) == v@);
    t
}

/// The text comes before another: at the first place where they differ it has the smaller character,
/// or it ends there.
pub open spec fn precedes(a: Seq<char>, b: Seq<char>) -> bool
    decreases a.len(),
{
    if b.len() == 0 {
        false
    } else if a.len() == 0 {
        true
    } else if a[0] != b[0] {
        a[0] < b[0]
    } else {
        precedes(a.drop_first(), b.drop_first())
    }
}

/// Whether a text comes before another.
pub fn before(a: &str, b: &str) -> (yes: bool)
    ensures
        yes == precedes(a@, b@),
{
    let av = chars_of(a);
    let bv = chars_of(b);
    let mut i: usize = 0;
    assert(av@.skip(0) =~= av@);
    assert(bv@.skip(0) =~= bv@);
    while i < av.len() && i < bv.len()
        invariant
            i <= av.len(),
            i <= bv.len(),
            av@ == a@,
            bv@ == b@,
            precedes(a@, b@) == precedes(av@.skip(i as int), bv@.skip(i as int)),
        decreases av.len() - i,
    {
        assert(av@.skip(i as int).drop_first() =~= av@.skip(i + 1));
        assert(bv@.skip(i as int).drop_first() =~= bv@.skip(i + 1));
        if av[i] != bv[i] {
            return av[i] < bv[i];
        }
        i = i + 1;
    }
    i < bv.len()
}

/// Of two texts that differ exactly one comes before the other, and none before itself.
pub proof fn lemma_precedes_total(a: Seq<char>, b: Seq<char>)
    ensures
        a != b ==> precedes(a, b) != precedes(b, a),
        a == b ==> !precedes(a, b),
    decreases a.len(),
{
    if a.len() > 0 && b.len() > 0 && a[0] == b[0] {
        let (x, y) = (a.drop_first(), b.drop_first());
        lemma_precedes_total(x, y);
        if x == y {
            assert(a =~= seq![a[0]] + x);
            assert(b =~= seq![b[0]] + y);
        }
    } else if a.len() == 0 && b.len() == 0 {
        assert(a =~= b);
    }
}

/// Of two texts that go the same way up to some place, the one with the smaller character there comes first;
/// and a text comes before whatever goes on behind it.
pub proof fn law_texts_are_ordered_by_their_first_difference(
    head: Seq<char>,
    c: char,
    d: char,
    x: Seq<char>,
    y: Seq<char>,
)
    ensures
        c < d ==> precedes(head + seq![c] + x, head + seq![d] + y),
        c < d ==> !precedes(head + seq![d] + y, head + seq![c] + x),
        precedes(head, head + seq![c] + x),
    decreases head.len(),
{
    let a = head + seq![c] + x;
    let b = head + seq![d] + y;
    if head.len() > 0 {
        let rest = head.drop_first();
        law_texts_are_ordered_by_their_first_difference(rest, c, d, x, y);
        assert(a.drop_first() =~= rest + seq![c] + x);
        assert(b.drop_first() =~= rest + seq![d] + y);
        assert(a[0] == head[0] && b[0] == head[0]);
    } else {
        assert(a[0] == c && b[0] == d);
    }
}

/// What comes before a text comes before all that follow it.
pub proof fn lemma_precedes_transitive(a: Seq<char>, b: Seq<char>, c: Seq<char>)
    requires
        precedes(a, b),
        precedes(b, c),
    ensures
        precedes(a, c),
    decreases a.len(),
{
    if a.len() > 0 && a[0] == b[0] && b[0] == c[0] {
        lemma_precedes_transitive(a.drop_first(), b.drop_first(), c.drop_first());
    }
}

/// The text in double quotes, with escapes, as `Debug` writes it.
pub uninterp spec fn quoted(s: Seq<char>) -> Seq<char>;

/// `Debug` of `str`, through `format!`: the result is a function of the text alone, here `quoted`.
#[verifier::external_body]
pub(crate) fn quote(s: &str) -> (q: String)
    ensures
        q@ == quoted(s@),
{
    format!("{:?}", s)
}

/// The character in single quotes, with escapes, as `Debug` writes it.
pub uninterp spec fn quoted_char(c: char) -> Seq<char>;

/// `Debug` of `char`, through `format!`: the result is a function of the character alone, here
/// `quoted_char`.
#[verifier::external_body]
pub(crate) fn quote_char(c: char) -> (q: String)
    ensures
        q@ == quoted_char(c),
{
    format!("{:?}", c)
}

/// A number that is written in decimal is read back as itself, with or without a `+` before it,
/// and not at all where it is above the bound. A text with any other character is no number.
pub proof fn law_a_number_is_read_back(n: nat, max: nat, s: Seq<char>, k: int)
    ensures
        n <= max ==> number_up_to(decimal(n), max) == Some(n),
        n <= max ==> number_up_to(seq!['+'] + decimal(n), max) == Some(n),
        n > max ==> number_up_to(decimal(n), max) is None,
        0 < k < s.len() && !('0' <= s[k] <= '9') ==> number_up_to(s, max) is None,
        s.len() == 0 ==> number_up_to(s, max) is None,
{
    lemma_decimal_nonempty(n);
    lemma_digits_value(n);
    assert(is_digit(decimal(n)[0]));
    assert((seq!['+'] + decimal(n)).skip(1) =~= decimal(n));
    if 0 < k < s.len() && !('0' <= s[k] <= '9') {
        if s[0] == '+' {
            assert(s.skip(1)[k - 1] == s[k]);
            assert(!is_digit(s.skip(1)[k - 1]));
        } else {
            assert(!is_digit(s[k]));
        }
    }
}

proof fn lemma_digits_value(n: nat)
    ensures
        digits_value(decimal(n)) == n,
    decreases n,
{
    assert(digit(n % 10) as u32 == 48 + n % 10);
    if n >= 10 {
        lemma_digits_value(n / 10);
        assert(decimal(n).drop_last() =~= decimal(n / 10));
    } else {
        assert(decimal(n).drop_last() =~= seq![]);
        assert(digits_value(seq![]) == 0);
    }
}

/// Space, tab, line feed and carriage return are white space; no printing character of ASCII is.
pub proof fn law_what_is_white(c: char)
    ensures
        c == ' ' || c == '\t' || c == '\n' || c == '\r' ==> is_white(c),
        '!' <= c <= '~' ==> !is_white(c),
{
}

/// Trimming takes off all the white space on either side of a text and nothing else.
pub proof fn law_trimming_takes_white_space_off(before: Seq<char>, s: Seq<char>, after: Seq<char>)
    requires
        forall|k: int| 0 <= k < before.len() ==> is_white(#[trigger] before[k]),
        forall|k: int| 0 <= k < after.len() ==> is_white(#[trigger] after[k]),
        s.len() > 0 ==> !is_white(s[0]) && !is_white(s.last()),
    ensures
        trimmed(before + s + after) == s,
{
    lemma_start_trimmed(before, s + after);
    assert(before + s + after =~= before + (s + after));
    if s.len() > 0 {
        assert((s + after)[0] == s[0]);
        lemma_end_trimmed(s, after);
    } else {
        assert(s + after =~= after + seq![]);
        lemma_start_trimmed(after, seq![]);
        assert(s =~= seq![]);
    }
}

proof fn lemma_start_trimmed(before: Seq<char>, s: Seq<char>)
    requires
        forall|k: int| 0 <= k < before.len() ==> is_white(#[trigger] before[k]),
    ensures
        trim_start(before + s) == trim_start(s),
    decreases before.len(),
{
    if before.len() > 0 {
        assert((before + s)[0] == before[0]);
        assert((before + s).drop_first() =~= before.drop_first() + s);
        lemma_start_trimmed(before.drop_first(), s);
    } else {
        assert(before + s =~= s);
    }
}

proof fn lemma_end_trimmed(s: Seq<char>, after: Seq<char>)
    requires
        forall|k: int| 0 <= k < after.len() ==> is_white(#[trigger] after[k]),
        s.len() > 0 && !is_white(s.last()),
    ensures
        trim_end(s + after) == s,
    decreases after.len(),
{
    if after.len() > 0 {
        assert((s + after).last() == after.last());
        assert((s + after).drop_last() =~= s + after.drop_last());
        lemma_end_trimmed(s, after.drop_last());
    } else {
        assert(s + after =~= s);
    }
}

/// The parts of a text with the separator between them are the text, and no part holds one.
pub proof fn law_the_parts_make_the_text(s: Seq<char>, sep: char, k: int)
    ensures
        joined(split_on(s, sep), seq![sep]) == s,
        0 <= k < split_on(s, sep).len() ==> !split_on(s, sep)[k].contains(sep),
    decreases s.len(),
{
    if s.len() > 0 {
        let head = s.drop_last();
        let before = split_on(head, sep);
        lemma_split_on_nonempty(head, sep);
        law_the_parts_make_the_text(head, sep, k);
        law_the_parts_make_the_text(head, sep, before.len() - 1);
        assert(s =~= head.push(s.last()));
        if s.last() == sep {
            let parts = before.push(seq![]);
            assert(parts.drop_last() =~= before);
            assert(joined(parts, seq![sep]) =~= joined(before, seq![sep]) + seq![sep] + seq![]);
            assert(joined(parts, seq![sep]) =~= s);
        } else {
            let grown = before.last().push(s.last());
            let parts = before.drop_last().push(grown);
            assert(parts.drop_last() =~= before.drop_last());
            if parts.len() == 1 {
                assert(before.len() == 1);
                assert(joined(parts, seq![sep]) =~= before[0].push(s.last()));
            } else {
                assert(joined(parts, seq![sep]) =~= joined(before.drop_last(), seq![sep]) + seq![sep]
                    + grown);
                assert(joined(before, seq![sep]) =~= joined(before.drop_last(), seq![sep]) + seq![sep]
                    + before.last());
            }
            assert(joined(parts, seq![sep]) =~= s);
            assert forall|j: int| 0 <= j < grown.len() implies #[trigger] grown[j] != sep by {
                if j < before.last().len() {
                    assert(before.last()[j] == grown[j]);
                    assert(before.last().contains(before.last()[j]));
                }
            }
            if 0 <= k < parts.len() - 1 {
                assert(parts[k] == before[k]);
            }
        }
    } else {
        assert(split_on(s, sep) =~= seq![seq![]]);
    }
}

/// A text without white space is one word, and white space between two texts parts their words.
pub proof fn law_white_space_parts_the_words(a: Seq<char>, space: char, b: Seq<char>)
    requires
        is_white(space),
    ensures
        words(a.push(space) + b) == words(a) + words(b),
        a.len() > 0 && (forall|k: int| 0 <= k < a.len() ==> !is_white(#[trigger] a[k])) ==> words(a)
            == seq![a],
        words(seq![]) == Seq::<Seq<char>>::empty(),
{
    lemma_words_parted(a, space, b);
    let (x, y) = word_scan(b);
    let (p, q) = word_scan(a.push(space) + b);
    assert(words(a.push(space) + b) =~= words(a) + words(b));
    if forall|k: int| 0 <= k < a.len() ==> !is_white(#[trigger] a[k]) {
        lemma_one_word(a);
        assert(a.len() > 0 ==> words(a) =~= seq![a]);
    }
    assert(word_scan(seq![]).0.len() == 0);
}

proof fn lemma_words_parted(a: Seq<char>, space: char, b: Seq<char>)
    requires
        is_white(space),
    ensures
        word_scan(a.push(space) + b) == (words(a) + word_scan(b).0, word_scan(b).1),
    decreases b.len(),
{
    if b.len() == 0 {
        assert(a.push(space) + b =~= a.push(space));
        assert(a.push(space).drop_last() =~= a);
        assert(words(a) + word_scan(b).0 =~= words(a));
    } else {
        lemma_words_parted(a, space, b.drop_last());
        assert((a.push(space) + b).drop_last() =~= a.push(space) + b.drop_last());
        assert((a.push(space) + b).last() == b.last());
        let (done, word) = word_scan(b.drop_last());
        assert((words(a) + done).push(word) =~= words(a) + done.push(word));
    }
}

proof fn lemma_one_word(a: Seq<char>)
    requires
        forall|k: int| 0 <= k < a.len() ==> !is_white(#[trigger] a[k]),
    ensures
        word_scan(a) == (Seq::<Seq<char>>::empty(), a),
    decreases a.len(),
{
    if a.len() > 0 {
        lemma_one_word(a.drop_last());
        assert(a.drop_last().push(a.last()) =~= a);
    } else {
        assert(a =~= seq![]);
    }
}

/// Making a text small changes its capitals and nothing else, and each into the letter of its own
/// place in the alphabet.
pub proof fn law_only_capitals_are_made_small(s: Seq<char>, k: int)
    requires
        0 <= k < s.len(),
    ensures
        ascii_lower(s).len() == s.len(),
        !('A' <= s[k] <= 'Z') ==> ascii_lower(s)[k] == s[k],
        'A' <= s[k] <= 'Z' ==> 'a' <= ascii_lower(s)[k] <= 'z' && ascii_lower(s)[k] as u32 - 'a' as u32
            == s[k] as u32 - 'A' as u32,
{
}

} // verus!
