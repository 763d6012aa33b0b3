//! Flags and positional arguments of the command line.

use vstd::prelude::*;

use crate::text;
use crate::text::{index_from, opt_text, quoted, texts, without_prefix};

verus! {

/// A flag that takes a value. Every other flag is a switch, so that `--tls studio` leaves `studio`
/// as a positional argument.
pub open spec fn takes_value(key: Seq<char>) -> bool {
    ||| key == "address"@
    ||| key == "token"@
    ||| key == "rename"@
    ||| key == "fingerprint"@
    ||| key == "timeout"@
    ||| key == "socket-dir"@
    ||| key == "base"@
    ||| key == "name"@
    ||| key == "args"@
}

fn is_value_flag(key: &str) -> (yes: bool)
    ensures
        yes == takes_value(key@),
{
    text::same(key, "address") || text::same(key, "token") || text::same(key, "rename") || text::same(
        key,
        "fingerprint",
    ) || text::same(key, "timeout") || text::same(key, "socket-dir") || text::same(key, "base")
        || text::same(key, "name") || text::same(key, "args")
}

/// The flags and the positional arguments of a command. A flag given twice has its last value.
#[derive(Debug)]
pub struct Flags {
    flags: Vec<(String, Option<String>)>,
    positional: Vec<String>,
}

/// What pairs of a flag and a value say, the last of a flag counting.
pub open spec fn flag_map(pairs: Seq<(String, Option<String>)>) -> Map<Seq<char>, Option<Seq<char>>>
    decreases pairs.len(),
{
    if pairs.len() == 0 {
        Map::empty()
    } else {
        flag_map(pairs.drop_last()).insert(pairs.last().0@, opt_text(pairs.last().1))
    }
}

/// What the arguments say: each flag with its value, and the positional arguments in order.
pub struct FlagsView {
    pub flags: Map<Seq<char>, Option<Seq<char>>>,
    pub positional: Seq<Seq<char>>,
}

impl View for Flags {
    type V = FlagsView;

    closed spec fn view(&self) -> FlagsView {
        FlagsView { flags: flag_map(self.flags@), positional: texts(self.positional@) }
    }
}

/// The key and the inline value of what follows `--`.
pub open spec fn key_and_value(rest: Seq<char>) -> (Seq<char>, Option<Seq<char>>) {
    match index_from(rest, '=', 0) {
        Some(i) => (rest.take(i), Some(rest.skip(i + 1))),
        None => (rest, None),
    }
}

/// What the arguments from index `from` on say, after `seen`.
pub open spec fn parse_rest(seen: FlagsView, args: Seq<Seq<char>>, from: int) -> Result<
    FlagsView,
    Seq<char>,
>
    decreases args.len() - from,
{
    if from < 0 || from >= args.len() {
        Ok(seen)
    } else {
        match without_prefix(args[from], "--"@) {
            None => parse_rest(
                FlagsView { flags: seen.flags, positional: seen.positional.push(args[from]) },
                args,
                from + 1,
            ),
            Some(rest) => {
                let (key, inline) = key_and_value(rest);
                if key.len() == 0 {
                    Err("malformed flag "@ + quoted(args[from]))
                } else if inline is None && takes_value(key) {
                    if from + 1 >= args.len() {
                        Err("--"@ + key + " needs a value"@)
                    } else {
                        parse_rest(
                            FlagsView {
                                flags: seen.flags.insert(key, Some(args[from + 1])),
                                positional: seen.positional,
                            },
                            args,
                            from + 2,
                        )
                    }
                } else {
                    parse_rest(
                        FlagsView {
                            flags: seen.flags.insert(key, inline),
                            positional: seen.positional,
                        },
                        args,
                        from + 1,
                    )
                }
            },
        }
    }
}

/// What the arguments say: `--key value` for a flag that takes one, `--key=value`, `--key`, and
/// positional arguments.
pub open spec fn parsed(args: Seq<Seq<char>>) -> Result<FlagsView, Seq<char>> {
    parse_rest(FlagsView { flags: Map::empty(), positional: seq![] }, args, 0)
}

/// Read the arguments of a command.
pub fn parse_flags(args: &[String]) -> (r: Result<Flags, String>)
    ensures
        match r {
            Ok(f) => parsed(texts(args@)) == Ok::<FlagsView, Seq<char>>(f@),
            Err(e) => parsed(texts(args@)) == Err::<FlagsView, Seq<char>>(e@),
        },
{
    let mut out = Flags { flags: Vec::new(), positional: Vec::new() };
    let mut i: usize = 0;
    assert(texts(out.positional@) =~= seq![]);
    while i < args.len()
        invariant
            i <= args.len(),
            parse_rest(out@, texts(args@), i as int) == parsed(texts(args@)),
        decreases args.len() - i,
    {
        broadcast use text::lemma_texts_push;

        let a = &args[i];
        assert(texts(args@)[i as int] == a@);
        match text::strip_prefix(a.as_str(), "--") {
            None => {
                out.positional.push(a.clone());
            },
            Some(rest) => {
                let v = text::chars_of(rest.as_str());
                let (key, inline) = match text::position_from(&v, '=', 0) {
                    Some(k) => (
                        text::text_between(&v, 0, k),
                        Some(text::text_between(&v, k + 1, v.len())),
                    ),
                    None => (rest.clone(), None),
                };
                proof {
                    assert(key_and_value(rest@) == (key@, opt_text(inline)));
                }
                if key.as_str().is_empty() {
                    let mut m = "malformed flag ".to_owned();
                    m.append(text::quote(a.as_str()).as_str());
                    return Err(m);
                }
                let value = match inline {
                    Some(v) => Some(v),
                    None => if is_value_flag(key.as_str()) {
                        i = i + 1;
                        if i >= args.len() {
                            let mut m = "--".to_owned();
                            m.append(key.as_str());
                            m.append(" needs a value");
                            return Err(m);
                        }
                        assert(texts(args@)[i as int] == args@[i as int]@);
                        Some(args[i].clone())
                    } else {
                        None
                    },
                };
                let ghost before = out.flags@;
                out.flags.push((key, value));
                assert(out.flags@.drop_last() =~= before);
            },
        }
        i = i + 1;
    }
    Ok(out)
}

/// Some flag is none of those allowed.
pub open spec fn has_unknown(flags: Map<Seq<char>, Option<Seq<char>>>, allowed: Seq<Seq<char>>) -> bool {
    exists|k: Seq<char>| #[trigger] flags.dom().contains(k) && !allowed.contains(k)
}

/// The message for a flag that is none of those allowed.
pub open spec fn unknown_flag(key: Seq<char>, allowed: Seq<Seq<char>>) -> Seq<char> {
    "unknown flag --"@ + key + " (expected one of: "@ + text::joined(dashed(allowed), ", "@) + ")"@
}

/// The keys with `--` before them.
pub open spec fn dashed(keys: Seq<Seq<char>>) -> Seq<Seq<char>> {
    keys.map_values(|k: Seq<char>| "--"@ + k)
}

/// The message names one of the flags that are not allowed.
pub open spec fn names_unknown(
    message: Seq<char>,
    flags: Map<Seq<char>, Option<Seq<char>>>,
    allowed: Seq<Seq<char>>,
) -> bool {
    exists|k: Seq<char>|
        #[trigger] flags.dom().contains(k) && !allowed.contains(k) && message == unknown_flag(k, allowed)
}

/// The texts of string slices.
pub open spec fn slices(s: Seq<&str>) -> Seq<Seq<char>> {
    s.map_values(|x: &str| x@)
}

/// What a map of flags holds is in the pairs, and the other way round.
proof fn lemma_flag_map_dom(pairs: Seq<(String, Option<String>)>, key: Seq<char>)
    ensures
        flag_map(pairs).dom().contains(key) <==> exists|k: int|
            0 <= k < pairs.len() && (#[trigger] pairs[k]).0@ == key,
    decreases pairs.len(),
{
    if pairs.len() > 0 {
        let before = pairs.drop_last();
        lemma_flag_map_dom(before, key);
        if flag_map(before).dom().contains(key) {
            let k = choose|k: int| 0 <= k < before.len() && (#[trigger] before[k]).0@ == key;
            assert(pairs[k].0@ == key);
        }
        if exists|k: int| 0 <= k < pairs.len() && (#[trigger] pairs[k]).0@ == key {
            let k = choose|k: int| 0 <= k < pairs.len() && (#[trigger] pairs[k]).0@ == key;
            if k < before.len() {
                assert(before[k].0@ == key);
            }
        }
    }
}

impl Flags {
    /// The positional argument at index `n`.
    pub fn positional(&self, n: usize) -> (arg: Option<&str>)
        ensures
            match arg {
                Some(a) => n < self@.positional.len() && a@ == self@.positional[n as int],
                None => n >= self@.positional.len(),
            },
    {
        if n < self.positional.len() {
            assert(self@.positional[n as int] == self.positional@[n as int]@);
            Some(self.positional[n].as_str())
        } else {
            None
        }
    }

    /// The index of the pair that counts for a flag.
    fn position(&self, key: &str) -> (found: Option<usize>)
        ensures
            match found {
                Some(k) => k < self.flags.len() && self@.flags.dom().contains(key@)
                    && self@.flags[key@] == opt_text(self.flags@[k as int].1),
                None => !self@.flags.dom().contains(key@),
            },
    {
        let mut i: usize = self.flags.len();
        assert(self.flags@.take(self.flags@.len() as int) =~= self.flags@);
        while i > 0
            invariant
                i <= self.flags.len(),
                flag_map(self.flags@).dom().contains(key@) == flag_map(
                    self.flags@.take(i as int),
                ).dom().contains(key@),
                flag_map(self.flags@).dom().contains(key@) ==> flag_map(self.flags@)[key@] == flag_map(
                    self.flags@.take(i as int),
                )[key@],
            decreases i,
        {
            assert(self.flags@.take(i as int).drop_last() =~= self.flags@.take(i - 1));
            if text::same(self.flags[i - 1].0.as_str(), key) {
                return Some(i - 1);
            }
            i = i - 1;
        }
        None
    }

    /// The value of a flag that has one.
    pub fn str(&self, key: &str) -> (value: Option<&str>)
        ensures
            text::opt_str(value) == flag_value(self@.flags, key@),
    {
        match self.position(key) {
            Some(k) => match &self.flags[k].1 {
                Some(v) => Some(v.as_str()),
                None => None,
            },
            None => None,
        }
    }

    /// Whether the flag was given, with a value or without.
    pub fn bool(&self, key: &str) -> (given: bool)
        ensures
            given == self@.flags.dom().contains(key@),
    {
        self.position(key).is_some()
    }

    /// Refuse flags that are none of those allowed: a typo must not be passed over in silence.
    pub fn reject_unknown(&self, allowed: &[&str]) -> (r: Result<(), String>)
        ensures
            match r {
                Ok(_) => !has_unknown(self@.flags, slices(allowed@)),
                Err(e) => names_unknown(e@, self@.flags, slices(allowed@)) && has_unknown(
                    self@.flags,
                    slices(allowed@),
                ),
            },
    {
        let mut i: usize = 0;
        while i < self.flags.len()
            invariant
                i <= self.flags.len(),
                forall|k: int| 0 <= k < i ==> slices(allowed@).contains((#[trigger] self.flags@[k]).0@),
            decreases self.flags.len() - i,
        {
            let key = &self.flags[i].0;
            if !is_allowed(key.as_str(), allowed) {
                let mut named: Vec<String> = Vec::new();
                let mut j: usize = 0;
                while j < allowed.len()
                    invariant
                        j <= allowed.len(),
                        named@.len() == j,
                        forall|k: int| 0 <= k < j ==> (#[trigger] named@[k])@ == "--"@ + allowed@[k]@,
                    decreases allowed.len() - j,
                {
                    let mut flag = "--".to_owned();
                    flag.append(allowed[j]);
                    named.push(flag);
                    j = j + 1;
                }
                assert(texts(named@) =~= dashed(slices(allowed@)));
                let mut m = "unknown flag --".to_owned();
                m.append(key.as_str());
                m.append(" (expected one of: ");
                m.append(text::join(&named, ", ").as_str());
                m.append(")");
                proof {
                    lemma_flag_map_dom(self.flags@, key@);
                    assert(self@.flags.dom().contains(key@));
                }
                return Err(m);
            }
            i = i + 1;
        }
        proof {
            assert forall|k: Seq<char>| #[trigger] self@.flags.dom().contains(k) implies slices(
                allowed@,
            ).contains(k) by {
                lemma_flag_map_dom(self.flags@, k);
            }
        }
        Ok(())
    }

    /// What a pair of opposed switches says: on, off, or nothing. Both at once contradict.
    pub fn tristate(&self, on: &str, off: &str) -> (r: Result<Option<bool>, String>)
        ensures
            is_switched(self@.flags, on@, off@, r),
    {
        if self.bool(on) {
            if self.bool(off) {
                let mut m = "--".to_owned();
                m.append(on);
                m.append(" and --");
                m.append(off);
                m.append(" contradict each other");
                Err(m)
            } else {
                Ok(Some(true))
            }
        } else if self.bool(off) {
            Ok(Some(false))
        } else {
            Ok(None)
        }
    }
}

/// The value of a flag that has one.
pub open spec fn flag_value(flags: Map<Seq<char>, Option<Seq<char>>>, key: Seq<char>) -> Option<
    Seq<char>,
> {
    if flags.dom().contains(key) {
        flags[key]
    } else {
        None
    }
}

/// Whether the key is one of those allowed.
fn is_allowed(key: &str, allowed: &[&str]) -> (yes: bool)
    ensures
        yes == slices(allowed@).contains(key@),
{
    let mut i: usize = 0;
    while i < allowed.len()
        invariant
            i <= allowed.len(),
            forall|k: int| 0 <= k < i ==> (#[trigger] slices(allowed@)[k]) != key@,
        decreases allowed.len() - i,
    {
        assert(slices(allowed@)[i as int] == allowed@[i as int]@);
        if text::same(key, allowed[i]) {
            return true;
        }
        i = i + 1;
    }
    false
}

/// An argument that does not begin with two dashes is one of the positional arguments, in its place.
pub proof fn law_plain_arguments_are_positional(seen: FlagsView, args: Seq<Seq<char>>, from: int)
    requires
        0 <= from < args.len(),
        !(args[from].len() >= 2 && args[from][0] == '-' && args[from][1] == '-'),
    ensures
        parse_rest(seen, args, from) == parse_rest(
            FlagsView { positional: seen.positional.push(args[from]), ..seen },
            args,
            from + 1,
        ),
{
    reveal_strlit("--");
    if "--"@.is_prefix_of(args[from]) {
        assert(args[from].take(2)[0] == '-' && args[from].take(2)[1] == '-');
    }
}

/// `--key=value` gives the flag that value, whatever the flag is.
pub proof fn law_a_flag_has_the_value_behind_its_sign(
    seen: FlagsView,
    args: Seq<Seq<char>>,
    from: int,
    key: Seq<char>,
    value: Seq<char>,
)
    requires
        0 <= from < args.len(),
        key.len() > 0,
        !key.contains('='),
        args[from] == seq!['-', '-'] + key + seq!['='] + value,
    ensures
        parse_rest(seen, args, from) == parse_rest(
            FlagsView { flags: seen.flags.insert(key, Some(value)), ..seen },
            args,
            from + 1,
        ),
{
    reveal_strlit("--");
    assert("--"@ =~= seq!['-', '-']);
    let a = args[from];
    let rest = key + seq!['='] + value;
    assert(a.take(2) =~= "--"@);
    assert("--"@.is_prefix_of(a));
    assert(a.skip(2) =~= rest);
    text::lemma_index_from(rest, '=', 0);
    assert(rest[key.len() as int] == '=');
    assert forall|k: int| 0 <= k < key.len() implies rest[k] != '=' by {
        assert(rest[k] == key[k]);
        assert(key.contains(key[k]));
    }
    assert(index_from(rest, '=', 0) == Some(key.len() as int));
    assert(rest.take(key.len() as int) =~= key);
    assert(rest.skip(key.len() as int + 1) =~= value);
}

/// `--key` before another argument takes that one for its value where the flag is one of those that have a
/// value, and leaves it alone where the flag is a switch.
pub proof fn law_a_switch_swallows_nothing(
    seen: FlagsView,
    args: Seq<Seq<char>>,
    from: int,
    key: Seq<char>,
)
    requires
        0 <= from,
        from + 1 < args.len(),
        key.len() > 0,
        !key.contains('='),
        args[from] == seq!['-', '-'] + key,
    ensures
        key == "address"@ || key == "token"@ || key == "rename"@ || key == "fingerprint"@ || key == "timeout"@
            || key == "socket-dir"@ || key == "base"@ || key == "name"@ || key == "args"@ ==> parse_rest(
            seen,
            args,
            from,
        ) == parse_rest(
            FlagsView { flags: seen.flags.insert(key, Some(args[from + 1])), ..seen },
            args,
            from + 2,
        ),
        !(key == "address"@ || key == "token"@ || key == "rename"@ || key == "fingerprint"@ || key
            == "timeout"@ || key == "socket-dir"@ || key == "base"@ || key == "name"@ || key == "args"@)
            ==> parse_rest(seen, args, from) == parse_rest(
            FlagsView { flags: seen.flags.insert(key, None), ..seen },
            args,
            from + 1,
        ),
{
    reveal_strlit("--");
    assert("--"@ =~= seq!['-', '-']);
    let a = args[from];
    assert(a.take(2) =~= "--"@);
    assert("--"@.is_prefix_of(a));
    assert(a.skip(2) =~= key);
    text::lemma_index_from(key, '=', 0);
    if let Some(i) = index_from(key, '=', 0) {
        assert(key.contains(key[i]));
    }
}

/// What a pair of opposed switches says.
pub open spec fn is_switched(
    flags: Map<Seq<char>, Option<Seq<char>>>,
    on: Seq<char>,
    off: Seq<char>,
    r: Result<Option<bool>, String>,
) -> bool {
    let yes = flags.dom().contains(on);
    let no = flags.dom().contains(off);
    match r {
        Ok(None) => !yes && !no,
        Ok(Some(b)) => yes == b && no == !b,
        Err(e) => yes && no && e@ == "--"@ + on + " and --"@ + off + " contradict each other"@,
    }
}

/// A switch that was given turns on or off what it names, both at once are refused, and neither leaves
/// things as they are.
pub proof fn law_what_two_switches_say(
    flags: Map<Seq<char>, Option<Seq<char>>>,
    on: Seq<char>,
    off: Seq<char>,
    r: Result<Option<bool>, String>,
)
    requires
        is_switched(flags, on, off, r),
    ensures
        flags.dom().contains(on) && flags.dom().contains(off) <==> r is Err,
        flags.dom().contains(on) && !flags.dom().contains(off) ==> r is Ok && r->Ok_0 == Some(true),
        !flags.dom().contains(on) && flags.dom().contains(off) ==> r is Ok && r->Ok_0 == Some(false),
        !flags.dom().contains(on) && !flags.dom().contains(off) ==> r is Ok && r->Ok_0 is None,
{
}

} // verus!
