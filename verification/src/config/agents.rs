//! Agent profiles: named wrappers around the built-in adapters that can be switched off, each with
//! a template of arguments that follow the adapter's own.

use vstd::prelude::*;

use crate::config::label;
use crate::path;
use crate::text;
use crate::text::{find_from, is_white, quoted, texts};

verus! {

/// Where the splitter stands: outside quotes, between single quotes, or between double quotes.
pub enum Quoting {
    Bare,
    Single,
    Double,
}

/// What is left to say of `rest`, when `words` are complete, `word` is being read (none between
/// two words) and `mode` tells the quotes around it.
pub open spec fn split_rest(
    words: Seq<Seq<char>>,
    word: Option<Seq<char>>,
    mode: Quoting,
    rest: Seq<char>,
) -> Result<Seq<Seq<char>>, Seq<char>>
    decreases rest.len(),
{
    let text = match word {
        Some(w) => w,
        None => seq![],
    };
    if rest.len() == 0 {
        match mode {
            Quoting::Bare => match word {
                Some(w) => Ok(words.push(w)),
                None => Ok(words),
            },
            Quoting::Single => Err("unterminated single quote (') in arguments"@),
            Quoting::Double => Err("unterminated double quote (\") in arguments"@),
        }
    } else {
        let c = rest[0];
        let tail = rest.skip(1);
        match mode {
            Quoting::Bare => if is_white(c) {
                match word {
                    Some(w) => split_rest(words.push(w), None, Quoting::Bare, tail),
                    None => split_rest(words, None, Quoting::Bare, tail),
                }
            } else if c == '\'' {
                split_rest(words, Some(text), Quoting::Single, tail)
            } else if c == '"' {
                split_rest(words, Some(text), Quoting::Double, tail)
            } else if c == '\\' {
                if tail.len() == 0 {
                    Err("trailing backslash (\\) in arguments"@)
                } else {
                    split_rest(words, Some(text.push(tail[0])), Quoting::Bare, tail.skip(1))
                }
            } else {
                split_rest(words, Some(text.push(c)), Quoting::Bare, tail)
            },
            Quoting::Single => if c == '\'' {
                split_rest(words, Some(text), Quoting::Bare, tail)
            } else {
                split_rest(words, Some(text.push(c)), Quoting::Single, tail)
            },
            Quoting::Double => if c == '"' {
                split_rest(words, Some(text), Quoting::Bare, tail)
            } else if c == '\\' {
                if tail.len() == 0 {
                    Err("unterminated double quote (\") in arguments"@)
                } else if tail[0] == '"' || tail[0] == '\\' {
                    split_rest(words, Some(text.push(tail[0])), Quoting::Double, tail.skip(1))
                } else {
                    split_rest(words, Some(text.push('\\').push(tail[0])), Quoting::Double, tail.skip(1))
                }
            } else {
                split_rest(words, Some(text.push(c)), Quoting::Double, tail)
            },
        }
    }
}

/// The arguments that a template spells: words between white space, `'…'` literal, `"…"` with the
/// escapes `\"` and `\\`, and `\` before any character outside quotes. Nothing else is special.
pub open spec fn arguments(s: Seq<char>) -> Result<Seq<Seq<char>>, Seq<char>> {
    split_rest(seq![], None, Quoting::Bare, s)
}

/// The texts of a list of arguments, or of the message that stands in their place.
pub open spec fn arguments_view(r: Result<Vec<String>, String>) -> Result<Seq<Seq<char>>, Seq<char>> {
    match r {
        Ok(v) => Ok(texts(v@)),
        Err(e) => Err(e@),
    }
}

/// Split an argument template the way a shell splits a command line, and no more: `|`, `>`, `&&`,
/// `$VAR` and `~` are ordinary characters, since the arguments never reach a shell.
pub fn split_args(s: &str) -> (r: Result<Vec<String>, String>)
    ensures
        arguments_view(r) == arguments(s@),
{
    let v = text::chars_of(s);
    let mut words: Vec<String> = Vec::new();
    let mut word = String::new();
    let mut reading = false;
    let mut mode = Quoting::Bare;
    let mut i: usize = 0;
    assert(v@.skip(0) == v@);
    assert(texts(words@) =~= seq![]);
    while i < v.len()
        invariant
            i <= v.len(),
            reading || (mode is Bare && word@ == Seq::<char>::empty()),
            split_rest(
                texts(words@),
                if reading {
                    Some(word@)
                } else {
                    None
                },
                mode,
                v@.skip(i as int),
            ) == arguments(s@),
        decreases v.len() - i,
    {
        broadcast use text::lemma_texts_push;

        let c = v[i];
        proof {
            assert(v@.skip(i as int)[0] == c);
            assert(v@.skip(i as int).skip(1) == v@.skip(i + 1));
            assert(v@.skip(i + 1).len() > 0 ==> v@.skip(i + 1)[0] == v@[i + 1]);
            assert(v@.skip(i + 1).len() > 0 ==> v@.skip(i + 1).skip(1) == v@.skip(i + 2));
        }
        match mode {
            Quoting::Bare => {
                if text::white(c) {
                    if reading {
                        words.push(word);
                        word = String::new();
                        reading = false;
                    }
                } else if c == '\'' {
                    reading = true;
                    mode = Quoting::Single;
                } else if c == '"' {
                    reading = true;
                    mode = Quoting::Double;
                } else if c == '\\' {
                    i = i + 1;
                    if i >= v.len() {
                        return Err("trailing backslash (\\) in arguments".to_owned());
                    }
                    reading = true;
                    word.push(v[i]);
                } else {
                    reading = true;
                    word.push(c);
                }
            },
            Quoting::Single => {
                if c == '\'' {
                    mode = Quoting::Bare;
                } else {
                    word.push(c);
                }
            },
            Quoting::Double => {
                if c == '"' {
                    mode = Quoting::Bare;
                } else if c == '\\' {
                    i = i + 1;
                    if i >= v.len() {
                        return Err("unterminated double quote (\") in arguments".to_owned());
                    }
                    let e = v[i];
                    if e != '"' && e != '\\' {
                        word.push('\\');
                    }
                    word.push(e);
                } else {
                    word.push(c);
                }
            },
        }
        i = i + 1;
    }
    match mode {
        Quoting::Bare => {
            if reading {
                words.push(word);
                proof {
                    broadcast use text::lemma_texts_push;

                }
            }
            Ok(words)
        },
        Quoting::Single => Err("unterminated single quote (') in arguments".to_owned()),
        Quoting::Double => Err("unterminated double quote (\") in arguments".to_owned()),
    }
}

proof fn lemma_words_before(
    before: Seq<Seq<char>>,
    words: Seq<Seq<char>>,
    word: Option<Seq<char>>,
    mode: Quoting,
    rest: Seq<char>,
)
    ensures
        split_rest(before + words, word, mode, rest) == (match split_rest(words, word, mode, rest) {
            Ok(v) => Ok(before + v),
            Err(e) => Err(e),
        }),
    decreases rest.len(),
{
    let text = match word {
        Some(w) => w,
        None => seq![],
    };
    if rest.len() == 0 {
        if let Some(w) = word {
            assert((before + words).push(w) =~= before + words.push(w));
        }
    } else {
        let c = rest[0];
        let tail = rest.skip(1);
        if let Some(w) = word {
            assert((before + words).push(w) =~= before + words.push(w));
            lemma_words_before(before, words.push(w), None, Quoting::Bare, tail);
        }
        lemma_words_before(before, words, None, Quoting::Bare, tail);
        lemma_words_before(before, words, Some(text), Quoting::Bare, tail);
        lemma_words_before(before, words, Some(text), Quoting::Single, tail);
        lemma_words_before(before, words, Some(text), Quoting::Double, tail);
        lemma_words_before(before, words, Some(text.push(c)), mode, tail);
        if tail.len() > 0 {
            lemma_words_before(before, words, Some(text.push(tail[0])), mode, tail.skip(1));
            lemma_words_before(before, words, Some(text.push('\\').push(tail[0])), mode, tail.skip(1));
        }
    }
}

proof fn lemma_split_past_space(
    words: Seq<Seq<char>>,
    word: Option<Seq<char>>,
    mode: Quoting,
    a: Seq<char>,
    b: Seq<char>,
)
    requires
        split_rest(words, word, mode, a) is Ok,
    ensures
        split_rest(words, word, mode, a + seq![' '] + b) == split_rest(
            split_rest(words, word, mode, a)->Ok_0,
            None,
            Quoting::Bare,
            b,
        ),
    decreases a.len(),
{
    let all = a + seq![' '] + b;
    let text = match word {
        Some(w) => w,
        None => seq![],
    };
    if a.len() == 0 {
        assert(all[0] == ' ');
        assert(all.skip(1) =~= b);
    } else {
        let c = a[0];
        let tail = a.skip(1);
        assert(all[0] == c);
        assert(all.skip(1) =~= tail + seq![' '] + b);
        if tail.len() > 0 {
            assert(all.skip(1)[0] == tail[0]);
            assert(all.skip(1).skip(1) =~= tail.skip(1) + seq![' '] + b);
        }
        match mode {
            Quoting::Bare => if is_white(c) {
                match word {
                    Some(w) => lemma_split_past_space(words.push(w), None, Quoting::Bare, tail, b),
                    None => lemma_split_past_space(words, None, Quoting::Bare, tail, b),
                }
            } else if c == '\'' {
                lemma_split_past_space(words, Some(text), Quoting::Single, tail, b);
            } else if c == '"' {
                lemma_split_past_space(words, Some(text), Quoting::Double, tail, b);
            } else if c == '\\' {
                lemma_split_past_space(
                    words,
                    Some(text.push(tail[0])),
                    Quoting::Bare,
                    tail.skip(1),
                    b,
                );
            } else {
                lemma_split_past_space(words, Some(text.push(c)), Quoting::Bare, tail, b);
            },
            Quoting::Single => if c == '\'' {
                lemma_split_past_space(words, Some(text), Quoting::Bare, tail, b);
            } else {
                lemma_split_past_space(words, Some(text.push(c)), Quoting::Single, tail, b);
            },
            Quoting::Double => if c == '"' {
                lemma_split_past_space(words, Some(text), Quoting::Bare, tail, b);
            } else if c == '\\' {
                let word = if tail[0] == '"' || tail[0] == '\\' {
                    text.push(tail[0])
                } else {
                    text.push('\\').push(tail[0])
                };
                lemma_split_past_space(words, Some(word), Quoting::Double, tail.skip(1), b);
            } else {
                lemma_split_past_space(words, Some(text.push(c)), Quoting::Double, tail, b);
            },
        }
    }
}

/// A template that splits, a space and another template spell the arguments of the first and then those
/// of the second; where the second does not split, the whole does not, for the same reason.
pub proof fn law_joined_templates_join_their_arguments(a: Seq<char>, b: Seq<char>)
    requires
        arguments(a) is Ok,
    ensures
        arguments(a + seq![' '] + b) == (match arguments(b) {
            Ok(v) => Ok(arguments(a)->Ok_0 + v),
            Err(e) => Err(e),
        }),
{
    let before = arguments(a)->Ok_0;
    lemma_split_past_space(seq![], None, Quoting::Bare, a, b);
    lemma_words_before(before, seq![], None, Quoting::Bare, b);
    assert(before + Seq::<Seq<char>>::empty() =~= before);
}

proof fn lemma_between_single_quotes(words: Seq<Seq<char>>, word: Seq<char>, x: Seq<char>)
    requires
        !x.contains('\''),
    ensures
        split_rest(words, Some(word), Quoting::Single, x.push('\'')) == Ok::<Seq<Seq<char>>, Seq<char>>(
            words.push(word + x),
        ),
    decreases x.len(),
{
    let all = x.push('\'');
    if x.len() == 0 {
        assert(all.skip(1).len() == 0);
        assert(word + x =~= word);
        assert(split_rest(words, Some(word), Quoting::Bare, all.skip(1)) == Ok::<
            Seq<Seq<char>>,
            Seq<char>,
        >(words.push(word)));
    } else {
        assert(x.contains(x[0]));
        assert(all[0] == x[0]);
        assert(all.skip(1) =~= x.skip(1).push('\''));
        assert forall|k: int| 0 <= k < x.skip(1).len() implies x.skip(1)[k] != '\'' by {
            assert(x.contains(x[k + 1]));
        }
        lemma_between_single_quotes(words, word.push(x[0]), x.skip(1));
        assert(word.push(x[0]) + x.skip(1) =~= word + x);
    }
}

/// Any text without a single quote, put between single quotes, is one argument: the text itself.
pub proof fn law_single_quotes_keep_a_text_whole(x: Seq<char>)
    requires
        !x.contains('\''),
    ensures
        arguments(seq!['\''] + x + seq!['\'']) == Ok::<Seq<Seq<char>>, Seq<char>>(seq![x]),
{
    let all = seq!['\''] + x + seq!['\''];
    assert(all[0] == '\'');
    assert(all.skip(1) =~= x.push('\''));
    lemma_between_single_quotes(seq![], seq![], x);
    assert(Seq::<char>::empty() + x =~= x);
    assert(Seq::<Seq<char>>::empty().push(x) =~= seq![x]);
}

/// The tokens that a template may use. Each has one exact spelling.
pub open spec fn is_token(t: Seq<char>) -> bool {
    ||| t == "project_name"@
    ||| t == "project_path"@
    ||| t == "workspace_name"@
    ||| t == "workspace_path"@
    ||| t == "branch"@
}

/// Whether a template may use this token.
pub fn known_token(t: &str) -> (yes: bool)
    ensures
        yes == is_token(t@),
{
    text::same(t, "project_name") || text::same(t, "project_path") || text::same(t, "workspace_name")
        || text::same(t, "workspace_path") || text::same(t, "branch")
}

/// The values that the tokens take, known once the worktree is provisioned.
pub struct TokenContext<'a> {
    pub project_path: &'a str,
    pub workspace_path: &'a str,
    pub workspace_name: &'a str,
    pub branch: &'a str,
}

impl TokenContext<'_> {
    /// The last name of the project's path, or the whole path where it ends in none.
    pub open spec fn project_name(&self) -> Seq<char> {
        match path::name_of(self.project_path@) {
            Some(name) => name,
            None => self.project_path@,
        }
    }

    /// The value of a token.
    pub open spec fn token_value(&self, token: Seq<char>) -> Option<Seq<char>> {
        if token == "project_name"@ {
            Some(self.project_name())
        } else if token == "project_path"@ {
            Some(self.project_path@)
        } else if token == "workspace_name"@ {
            Some(self.workspace_name@)
        } else if token == "workspace_path"@ {
            Some(self.workspace_path@)
        } else if token == "branch"@ {
            Some(self.branch@)
        } else {
            None
        }
    }

    /// The value of a token.
    pub fn value(&self, token: &str) -> (v: Option<String>)
        ensures
            text::opt_text(v) == self.token_value(token@),
    {
        if text::same(token, "project_name") {
            match path::file_name(self.project_path) {
                Some(name) => Some(name),
                None => Some(self.project_path.to_owned()),
            }
        } else if text::same(token, "project_path") {
            Some(self.project_path.to_owned())
        } else if text::same(token, "workspace_name") {
            Some(self.workspace_name.to_owned())
        } else if text::same(token, "workspace_path") {
            Some(self.workspace_path.to_owned())
        } else if text::same(token, "branch") {
            Some(self.branch.to_owned())
        } else {
            None
        }
    }
}

/// The next token of an argument from index `from` on: where its `{{` and its `}}` stand (the
/// second missing where the first is not closed).
pub open spec fn next_token(arg: Seq<char>, from: int) -> Option<(int, Option<int>)> {
    match find_from(arg, "{{"@, from) {
        None => None,
        Some(start) => Some((start, find_from(arg, "}}"@, start + 2))),
    }
}

/// What is wrong with the first bad token of an argument, from index `from` on.
pub open spec fn argument_fault(arg: Seq<char>, from: int) -> Option<Seq<char>>
    decreases arg.len() - from,
    when 0 <= from
    via argument_fault_ends
{
    match next_token(arg, from) {
        None => None,
        Some((start, None)) => Some("unclosed '{{' in "@ + quoted(arg)),
        Some((start, Some(end))) => {
            let token = arg.subrange(start + 2, end);
            if is_token(token) {
                argument_fault(arg, end + 2)
            } else {
                Some(unknown_token(token))
            }
        },
    }
}

#[via_fn]
proof fn argument_fault_ends(arg: Seq<char>, from: int) {
    lemma_next_token(arg, from);
}

/// The message for a token that is none.
pub open spec fn unknown_token(token: Seq<char>) -> Seq<char> {
    "unknown token {{"@ + token
        + "}} — valid tokens are {{project_name}}, {{project_path}}, {{workspace_name}}, {{workspace_path}}, {{branch}}"@
}

/// A token lies inside the argument, after its start.
pub proof fn lemma_next_token(arg: Seq<char>, from: int)
    requires
        0 <= from,
    ensures
        "{{"@.len() == 2,
        "}}"@.len() == 2,
        match next_token(arg, from) {
            None => true,
            Some((start, None)) => from <= start && start + 2 <= arg.len(),
            Some((start, Some(end))) => from <= start && start + 2 <= end && end + 2 <= arg.len(),
        },
{
    reveal_strlit("{{");
    reveal_strlit("}}");
    text::lemma_find_from(arg, "{{"@, from);
    if let Some(start) = find_from(arg, "{{"@, from) {
        text::lemma_find_from(arg, "}}"@, start + 2);
    }
}

/// What is wrong with the first bad argument, from the argument `from` on.
pub open spec fn first_fault(args: Seq<Seq<char>>, from: int) -> Option<Seq<char>>
    decreases args.len() - from,
{
    if from < 0 || from >= args.len() {
        None
    } else {
        match argument_fault(args[from], 0) {
            Some(fault) => Some(fault),
            None => first_fault(args, from + 1),
        }
    }
}

/// What is wrong with a template, where anything is.
pub open spec fn template_fault(template: Seq<char>) -> Option<Seq<char>> {
    match arguments(template) {
        Err(fault) => Some(fault),
        Ok(args) => first_fault(args, 0),
    }
}

/// Whether the call was refused, and with which message.
pub open spec fn refusal(r: Result<(), String>) -> Option<Seq<char>> {
    match r {
        Ok(_) => None,
        Err(e) => Some(e@),
    }
}

/// Check the tokens of one argument.
fn check_argument(arg: &str) -> (r: Result<(), String>)
    ensures
        refusal(r) == argument_fault(arg@, 0),
{
    let v = text::chars_of(arg);
    let open = text::chars_of("{{");
    let close = text::chars_of("}}");
    let mut from: usize = 0;
    loop
        invariant
            v@ == arg@,
            open@ == "{{"@,
            close@ == "}}"@,
            from <= v.len(),
            argument_fault(v@, from as int) == argument_fault(arg@, 0),
        decreases v.len() - from,
    {
        proof {
            lemma_next_token(v@, from as int);
        }
        match text::search_from(&v, &open, from) {
            None => return Ok(()),
            Some(start) => match text::search_from(&v, &close, start + 2) {
                None => {
                    let mut m = "unclosed '{{' in ".to_owned();
                    m.append(text::quote(arg).as_str());
                    return Err(m);
                },
                Some(end) => {
                    let token = text::text_between(&v, start + 2, end);
                    if !known_token(token.as_str()) {
                        let mut m = "unknown token {{".to_owned();
                        m.append(token.as_str());
                        m.append(
                            "}} — valid tokens are {{project_name}}, {{project_path}}, {{workspace_name}}, {{workspace_path}}, {{branch}}",
                        );
                        return Err(m);
                    }
                    from = end + 2;
                },
            },
        }
    }
}

/// Check that a template splits cleanly and that every `{{…}}` in it names a known token.
pub fn validate_template(args: &str) -> (r: Result<(), String>)
    ensures
        refusal(r) == template_fault(args@),
{
    match split_args(args) {
        Err(e) => Err(e),
        Ok(words) => {
            let mut i: usize = 0;
            while i < words.len()
                invariant
                    i <= words.len(),
                    arguments(args@) == Ok::<Seq<Seq<char>>, Seq<char>>(texts(words@)),
                    first_fault(texts(words@), i as int) == template_fault(args@),
                decreases words.len() - i,
            {
                match check_argument(words[i].as_str()) {
                    Err(e) => return Err(e),
                    Ok(_) => {},
                }
                i = i + 1;
            }
            Ok(())
        },
    }
}

/// An argument with its tokens replaced, from index `from` on. What is not a known token stays.
pub open spec fn expanded(ctx: TokenContext, arg: Seq<char>, from: int) -> Seq<char>
    decreases arg.len() - from,
    when 0 <= from <= arg.len()
    via expanded_ends
{
    match next_token(arg, from) {
        Some((start, Some(end))) => {
            let head = match ctx.token_value(arg.subrange(start + 2, end)) {
                Some(v) => arg.subrange(from, start) + v,
                None => arg.subrange(from, end + 2),
            };
            head + expanded(ctx, arg, end + 2)
        },
        _ => arg.skip(from),
    }
}

#[via_fn]
proof fn expanded_ends(ctx: TokenContext, arg: Seq<char>, from: int) {
    lemma_next_token(arg, from);
}

/// One argument with its tokens replaced.
fn expand(arg: &str, ctx: &TokenContext) -> (out: String)
    ensures
        out@ == expanded(*ctx, arg@, 0),
{
    let v = text::chars_of(arg);
    let open = text::chars_of("{{");
    let close = text::chars_of("}}");
    let mut out = String::new();
    let mut from: usize = 0;
    assert(out@ + expanded(*ctx, arg@, 0) =~= expanded(*ctx, arg@, 0));
    loop
        invariant
            v@ == arg@,
            open@ == "{{"@,
            close@ == "}}"@,
            from <= v.len(),
            out@ + expanded(*ctx, v@, from as int) == expanded(*ctx, arg@, 0),
        decreases v.len() - from,
    {
        proof {
            lemma_next_token(v@, from as int);
            assert(v@.skip(from as int) =~= v@.subrange(from as int, v@.len() as int));
        }
        match text::search_from(&v, &open, from) {
            None => {
                out.append(text::text_between(&v, from, v.len()).as_str());
                return out;
            },
            Some(start) => match text::search_from(&v, &close, start + 2) {
                None => {
                    out.append(text::text_between(&v, from, v.len()).as_str());
                    return out;
                },
                Some(end) => {
                    let ghost before = out@;
                    let token = text::text_between(&v, start + 2, end);
                    let head = match ctx.value(token.as_str()) {
                        Some(value) => {
                            let mut head = text::text_between(&v, from, start);
                            head.append(value.as_str());
                            head
                        },
                        None => text::text_between(&v, from, end + 2),
                    };
                    out.append(head.as_str());
                    proof {
                        let tail = expanded(*ctx, v@, end + 2);
                        assert(before + (head@ + tail) =~= (before + head@) + tail);
                    }
                    from = end + 2;
                },
            },
        }
    }
}

/// Replace the tokens in each argument of an already split template. A value stays inside the one
/// argument whose token it replaces, so none can add an argument.
pub fn substitute(args: &[String], ctx: &TokenContext) -> (out: Vec<String>)
    ensures
        texts(out@) == texts(args@).map_values(|a: Seq<char>| expanded(*ctx, a, 0)),
        out@.len() == args@.len(),
{
    let mut out: Vec<String> = Vec::new();
    let mut i: usize = 0;
    while i < args.len()
        invariant
            i <= args.len(),
            out@.len() == i,
            forall|k: int| 0 <= k < i ==> (#[trigger] out@[k])@ == expanded(*ctx, args@[k]@, 0),
        decreases args.len() - i,
    {
        out.push(expand(args[i].as_str(), ctx));
        i = i + 1;
    }
    assert(texts(out@) =~= texts(args@).map_values(|a: Seq<char>| expanded(*ctx, a, 0)));
    out
}

/// Every token of the argument from index `from` on is closed and known.
pub open spec fn only_known_tokens(arg: Seq<char>, from: int) -> bool
    decreases arg.len() - from,
    when 0 <= from
    via only_known_tokens_ends
{
    match next_token(arg, from) {
        None => true,
        Some((start, None)) => false,
        Some((start, Some(end))) => is_token(arg.subrange(start + 2, end)) && only_known_tokens(
            arg,
            end + 2,
        ),
    }
}

#[via_fn]
proof fn only_known_tokens_ends(arg: Seq<char>, from: int) {
    lemma_next_token(arg, from);
}

proof fn lemma_fault_free(arg: Seq<char>, from: int)
    requires
        0 <= from,
        argument_fault(arg, from) is None,
    ensures
        only_known_tokens(arg, from),
    decreases arg.len() - from,
{
    lemma_next_token(arg, from);
    if let Some((start, Some(end))) = next_token(arg, from) {
        lemma_fault_free(arg, end + 2);
    }
}

proof fn lemma_no_fault_in_any(args: Seq<Seq<char>>, from: int, k: int)
    requires
        0 <= from <= k < args.len(),
        first_fault(args, from) is None,
    ensures
        argument_fault(args[k], 0) is None,
    decreases args.len() - from,
{
    if from < k {
        lemma_no_fault_in_any(args, from + 1, k);
    }
}

/// A template that passes splits, and each of its arguments uses closed, known tokens only: at a
/// spawn no token is left standing for want of a value.
pub proof fn law_valid_template_has_only_known_tokens(template: Seq<char>)
    requires
        template_fault(template) is None,
    ensures
        arguments(template) is Ok,
        forall|k: int|
            0 <= k < arguments(template)->Ok_0.len() ==> only_known_tokens(
                #[trigger] arguments(template)->Ok_0[k],
                0,
            ),
{
    let args = arguments(template)->Ok_0;
    assert forall|k: int| 0 <= k < args.len() implies only_known_tokens(#[trigger] args[k], 0) by {
        lemma_no_fault_in_any(args, 0, k);
        lemma_fault_free(args[k], 0);
    }
}

/// Each token that a template may use has a value.
pub proof fn law_known_tokens_have_values(ctx: TokenContext, token: Seq<char>)
    ensures
        ctx.token_value(token) is Some <==> is_token(token),
{
}

/// A row of the user's agent profiles.
#[derive(Debug, Clone, PartialEq, Eq)]
pub struct AgentProfile {
    pub id: String,
    /// The built-in adapter that the profile wraps.
    pub base: String,
    pub display_name: String,
    pub enabled: bool,
    /// The template of the arguments that follow the adapter's own.
    pub args: String,
}

/// What a profile says.
pub struct AgentProfileView {
    pub id: Seq<char>,
    pub base: Seq<char>,
    pub display_name: Seq<char>,
    pub enabled: bool,
    pub args: Seq<char>,
}

impl View for AgentProfile {
    type V = AgentProfileView;

    open spec fn view(&self) -> AgentProfileView {
        AgentProfileView {
            id: self.id@,
            base: self.base@,
            display_name: self.display_name@,
            enabled: self.enabled,
            args: self.args@,
        }
    }
}

impl AgentProfile {
    /// A copy that says the same.
    pub fn copied(&self) -> (p: AgentProfile)
        ensures
            p@ == self@,
    {
        AgentProfile {
            id: self.id.clone(),
            base: self.base.clone(),
            display_name: self.display_name.clone(),
            enabled: self.enabled,
            args: self.args.clone(),
        }
    }
}

/// A profile as it takes effect, and whether it is built in.
#[derive(Debug, Clone, PartialEq, Eq)]
pub struct EffectiveProfile {
    pub profile: AgentProfile,
    pub builtin: bool,
}

/// What an effective profile says.
pub struct EffectiveProfileView {
    pub profile: AgentProfileView,
    pub builtin: bool,
}

impl View for EffectiveProfile {
    type V = EffectiveProfileView;

    open spec fn view(&self) -> EffectiveProfileView {
        EffectiveProfileView { profile: self.profile@, builtin: self.builtin }
    }
}

/// What the rows say.
pub open spec fn rows(profiles: Seq<AgentProfile>) -> Seq<AgentProfileView> {
    profiles.map_values(|p: AgentProfile| p@)
}

/// What the effective profiles say.
pub open spec fn effective_rows(profiles: Seq<EffectiveProfile>) -> Seq<EffectiveProfileView> {
    profiles.map_values(|p: EffectiveProfile| p@)
}

/// The texts of pairs of an id and a display name.
pub open spec fn pair_texts(pairs: Seq<(&str, &str)>) -> Seq<(Seq<char>, Seq<char>)> {
    pairs.map_values(|p: (&str, &str)| (p.0@, p.1@))
}

/// One of the built-in adapters has this id.
pub open spec fn is_builtin(builtins: Seq<(Seq<char>, Seq<char>)>, id: Seq<char>) -> bool {
    exists|k: int| 0 <= k < builtins.len() && (#[trigger] builtins[k]).0 == id
}

/// Whether one of the built-in adapters has this id.
pub fn has_builtin(builtins: &[(&str, &str)], id: &str) -> (yes: bool)
    ensures
        yes == is_builtin(pair_texts(builtins@), id@),
{
    let mut i: usize = 0;
    while i < builtins.len()
        invariant
            i <= builtins.len(),
            forall|k: int| 0 <= k < i ==> (#[trigger] pair_texts(builtins@)[k]).0 != id@,
        decreases builtins.len() - i,
    {
        assert(pair_texts(builtins@)[i as int].0 == builtins@[i as int].0@);
        if text::same(builtins[i].0, id) {
            return true;
        }
        i = i + 1;
    }
    false
}

/// The first row with this id, from index `from` on.
pub open spec fn row_with_id(file: Seq<AgentProfileView>, id: Seq<char>, from: int) -> Option<
    AgentProfileView,
>
    decreases file.len() - from,
{
    if from < 0 || from >= file.len() {
        None
    } else if file[from].id == id {
        Some(file[from])
    } else {
        row_with_id(file, id, from + 1)
    }
}

/// A built-in as it takes effect: the user's row for it, else the adapter with no arguments.
pub open spec fn effective_builtin(
    file: Seq<AgentProfileView>,
    builtin: (Seq<char>, Seq<char>),
) -> EffectiveProfileView {
    let profile = match row_with_id(file, builtin.0, 0) {
        Some(row) => row,
        None => AgentProfileView {
            id: builtin.0,
            base: builtin.0,
            display_name: builtin.1,
            enabled: true,
            args: seq![],
        },
    };
    EffectiveProfileView { profile, builtin: true }
}

/// The profiles that take effect: every built-in, in order, then the user's own, in order.
pub open spec fn merged(
    file: Seq<AgentProfileView>,
    builtins: Seq<(Seq<char>, Seq<char>)>,
) -> Seq<EffectiveProfileView> {
    builtins.map_values(|b: (Seq<char>, Seq<char>)| effective_builtin(file, b)) + own_rows(
        file,
        builtins,
    )
}

/// The user's own profiles, in order.
pub open spec fn own_rows(
    file: Seq<AgentProfileView>,
    builtins: Seq<(Seq<char>, Seq<char>)>,
) -> Seq<EffectiveProfileView>
    decreases file.len(),
{
    if file.len() == 0 {
        seq![]
    } else {
        let before = own_rows(file.drop_last(), builtins);
        if is_builtin(builtins, file.last().id) {
            before
        } else {
            before.push(EffectiveProfileView { profile: file.last(), builtin: false })
        }
    }
}

/// The profiles that take effect: the file holds only what differs from the built-ins.
pub fn merged_profiles(file: Vec<AgentProfile>, builtins: &[(&str, &str)]) -> (out: Vec<
    EffectiveProfile,
>)
    ensures
        effective_rows(out@) == merged(rows(file@), pair_texts(builtins@)),
{
    let mut out: Vec<EffectiveProfile> = Vec::new();
    let mut i: usize = 0;
    while i < builtins.len()
        invariant
            i <= builtins.len(),
            out@.len() == i,
            forall|k: int|
                0 <= k < i ==> (#[trigger] out@[k])@ == effective_builtin(
                    rows(file@),
                    pair_texts(builtins@)[k],
                ),
        decreases builtins.len() - i,
    {
        let profile = match find_row(&file, builtins[i].0) {
            Some(k) => file[k].copied(),
            None => AgentProfile {
                id: builtins[i].0.to_owned(),
                base: builtins[i].0.to_owned(),
                display_name: builtins[i].1.to_owned(),
                enabled: true,
                args: String::new(),
            },
        };
        out.push(EffectiveProfile { profile, builtin: true });
        i = i + 1;
    }
    let mut j: usize = 0;
    assert(rows(file@).take(0) =~= seq![]);
    assert(effective_rows(out@) =~= pair_texts(builtins@).map_values(
        |b: (Seq<char>, Seq<char>)| effective_builtin(rows(file@), b),
    ) + own_rows(rows(file@).take(0), pair_texts(builtins@)));
    while j < file.len()
        invariant
            j <= file.len(),
            effective_rows(out@) == pair_texts(builtins@).map_values(
                |b: (Seq<char>, Seq<char>)| effective_builtin(rows(file@), b),
            ) + own_rows(rows(file@).take(j as int), pair_texts(builtins@)),
        decreases file.len() - j,
    {
        let ghost before = out@;
        assert(rows(file@).take(j + 1).drop_last() =~= rows(file@).take(j as int));
        assert(rows(file@).take(j + 1).last() == file@[j as int]@);
        if !has_builtin(builtins, file[j].id.as_str()) {
            let own = EffectiveProfile { profile: file[j].copied(), builtin: false };
            out.push(own);
            assert(effective_rows(out@) =~= effective_rows(before).push(own@));
        }
        j = j + 1;
    }
    assert(rows(file@).take(file@.len() as int) =~= rows(file@));
    out
}

/// The index of the first row with this id.
fn find_row(file: &[AgentProfile], id: &str) -> (found: Option<usize>)
    ensures
        match found {
            Some(k) => k < file.len() && row_with_id(rows(file@), id@, 0) == Some(file@[k as int]@),
            None => row_with_id(rows(file@), id@, 0) is None,
        },
{
    let mut i: usize = 0;
    while i < file.len()
        invariant
            i <= file.len(),
            row_with_id(rows(file@), id@, 0) == row_with_id(rows(file@), id@, i as int),
        decreases file.len() - i,
    {
        assert(rows(file@)[i as int] == file@[i as int]@);
        if text::same(file[i].id.as_str(), id) {
            return Some(i);
        }
        i = i + 1;
    }
    None
}

/// Check the id of a profile: what is a valid name for a host is a valid id.
pub fn validate_id(id: &str) -> (r: Result<(), String>)
    ensures
        refusal(r) == label::label_fault("id"@, id@),
{
    label::check_label("id", id)
}

/// The message for a base that is no built-in.
pub open spec fn unknown_base(base: Seq<char>, ids: Seq<Seq<char>>) -> Seq<char> {
    "unknown agent "@ + quoted(base) + " — must be one of "@ + text::joined(ids, ", "@)
}

/// The message for a base that is no built-in.
pub fn unknown_base_message(base: &str, ids: &[String]) -> (m: String)
    ensures
        m@ == unknown_base(base@, texts(ids@)),
{
    let mut m = "unknown agent ".to_owned();
    m.append(text::quote(base).as_str());
    m.append(" — must be one of ");
    m.append(text::join(ids, ", ").as_str());
    m
}

/// The ids of the built-ins, in order.
pub open spec fn builtin_ids(builtins: Seq<(Seq<char>, Seq<char>)>) -> Seq<Seq<char>> {
    builtins.map_values(|b: (Seq<char>, Seq<char>)| b.0)
}

/// What is wrong with a profile: its id, its display name, its base or its arguments.
pub open spec fn profile_fault(
    p: AgentProfileView,
    builtins: Seq<(Seq<char>, Seq<char>)>,
) -> Option<Seq<char>> {
    match label::label_fault("id"@, p.id) {
        Some(fault) => Some(fault),
        None => if text::trimmed(p.display_name).len() == 0 {
            Some("display name must not be empty"@)
        } else if !is_builtin(builtins, p.base) {
            Some(unknown_base(p.base, builtin_ids(builtins)))
        } else {
            template_fault(p.args)
        },
    }
}

/// Check a profile before it is stored.
pub fn validate_profile(p: &AgentProfile, builtins: &[(&str, &str)]) -> (r: Result<(), String>)
    ensures
        refusal(r) == profile_fault(p@, pair_texts(builtins@)),
{
    match validate_id(p.id.as_str()) {
        Err(e) => return Err(e),
        Ok(_) => {},
    }
    if text::trim(p.display_name.as_str()).as_str().is_empty() {
        return Err("display name must not be empty".to_owned());
    }
    if !has_builtin(builtins, p.base.as_str()) {
        let mut ids: Vec<String> = Vec::new();
        let mut i: usize = 0;
        while i < builtins.len()
            invariant
                i <= builtins.len(),
                ids@.len() == i,
                forall|k: int| 0 <= k < i ==> (#[trigger] ids@[k])@ == builtins@[k].0@,
            decreases builtins.len() - i,
        {
            ids.push(builtins[i].0.to_owned());
            i = i + 1;
        }
        assert(texts(ids@) =~= builtin_ids(pair_texts(builtins@)));
        return Err(unknown_base_message(p.base.as_str(), &ids));
    }
    validate_template(p.args.as_str())
}

/// The text with a backslash before each double quote and each backslash.
pub open spec fn escaped(x: Seq<char>) -> Seq<char>
    decreases x.len(),
{
    if x.len() == 0 {
        seq![]
    } else if x[0] == '"' || x[0] == '\\' {
        seq!['\\', x[0]] + escaped(x.skip(1))
    } else {
        seq![x[0]] + escaped(x.skip(1))
    }
}

/// The text with a backslash before each character.
pub open spec fn slashed(x: Seq<char>) -> Seq<char>
    decreases x.len(),
{
    if x.len() == 0 {
        seq![]
    } else {
        seq!['\\', x[0]] + slashed(x.skip(1))
    }
}

/// Neither white space nor a quote nor a backslash.
pub open spec fn is_plain_char(c: char) -> bool {
    !is_white(c) && c != '\'' && c != '"' && c != '\\'
}

proof fn lemma_between_double_quotes(words: Seq<Seq<char>>, word: Seq<char>, x: Seq<char>)
    ensures
        split_rest(words, Some(word), Quoting::Double, escaped(x).push('"')) == Ok::<
            Seq<Seq<char>>,
            Seq<char>,
        >(words.push(word + x)),
    decreases x.len(),
{
    let all = escaped(x).push('"');
    if x.len() == 0 {
        assert(all.skip(1).len() == 0);
        assert(word + x =~= word);
        assert(split_rest(words, Some(word), Quoting::Bare, all.skip(1)) == Ok::<
            Seq<Seq<char>>,
            Seq<char>,
        >(words.push(word)));
    } else {
        lemma_between_double_quotes(words, word.push(x[0]), x.skip(1));
        assert(word.push(x[0]) + x.skip(1) =~= word + x);
        let rest = escaped(x.skip(1)).push('"');
        if x[0] == '"' || x[0] == '\\' {
            assert(all =~= seq!['\\', x[0]] + rest);
            assert(all.skip(1)[0] == x[0]);
            assert(all.skip(1).skip(1) =~= rest);
        } else {
            assert(all =~= seq![x[0]] + rest);
            assert(all.skip(1) =~= rest);
        }
    }
}

proof fn lemma_slashed(words: Seq<Seq<char>>, word: Seq<char>, x: Seq<char>)
    ensures
        split_rest(words, Some(word), Quoting::Bare, slashed(x)) == Ok::<Seq<Seq<char>>, Seq<char>>(
            words.push(word + x),
        ),
    decreases x.len(),
{
    if x.len() == 0 {
        assert(word + x =~= word);
    } else {
        let all = slashed(x);
        lemma_slashed(words, word.push(x[0]), x.skip(1));
        assert(word.push(x[0]) + x.skip(1) =~= word + x);
        assert(all.skip(1)[0] == x[0]);
        assert(all.skip(1).skip(1) =~= slashed(x.skip(1)));
        lemma_marks_are_not_white();
    }
}

proof fn lemma_marks_are_not_white()
    ensures
        !is_white('\\') && !is_white('"') && !is_white('\''),
{
    text::law_what_is_white('\\');
    text::law_what_is_white('"');
    text::law_what_is_white('\'');
}

proof fn lemma_plain_goes_on(words: Seq<Seq<char>>, word: Seq<char>, x: Seq<char>, rest: Seq<char>)
    requires
        forall|k: int| 0 <= k < x.len() ==> is_plain_char(#[trigger] x[k]),
    ensures
        split_rest(words, Some(word), Quoting::Bare, x + rest) == split_rest(
            words,
            Some(word + x),
            Quoting::Bare,
            rest,
        ),
    decreases x.len(),
{
    if x.len() == 0 {
        assert(x + rest =~= rest);
        assert(word + x =~= word);
    } else {
        assert(is_plain_char(x[0]));
        assert((x + rest)[0] == x[0]);
        assert((x + rest).skip(1) =~= x.skip(1) + rest);
        lemma_plain_goes_on(words, word.push(x[0]), x.skip(1), rest);
        assert(word.push(x[0]) + x.skip(1) =~= word + x);
    }
}

/// Any text at all is one argument between double quotes, once its own double quotes and backslashes
/// have a backslash before them.
pub proof fn law_double_quotes_keep_a_text_whole(x: Seq<char>)
    ensures
        arguments(seq!['"'] + escaped(x) + seq!['"']) == Ok::<Seq<Seq<char>>, Seq<char>>(seq![x]),
{
    let all = seq!['"'] + escaped(x) + seq!['"'];
    lemma_marks_are_not_white();
    assert(all[0] == '"');
    assert(all.skip(1) =~= escaped(x).push('"'));
    lemma_between_double_quotes(seq![], seq![], x);
    assert(Seq::<char>::empty() + x =~= x);
    assert(Seq::<Seq<char>>::empty().push(x) =~= seq![x]);
}

/// Outside quotes a backslash makes any character part of the argument, and nothing more than that.
pub proof fn law_a_backslash_keeps_a_character(x: Seq<char>)
    requires
        x.len() > 0,
    ensures
        arguments(slashed(x)) == Ok::<Seq<Seq<char>>, Seq<char>>(seq![x]),
{
    let all = slashed(x);
    lemma_marks_are_not_white();
    assert(all[0] == '\\');
    assert(all.skip(1)[0] == x[0]);
    assert(all.skip(1).skip(1) =~= slashed(x.skip(1)));
    lemma_slashed(seq![], seq![x[0]], x.skip(1));
    assert(Seq::<char>::empty().push(x[0]) =~= seq![x[0]]);
    assert(seq![x[0]] + x.skip(1) =~= x);
    assert(Seq::<Seq<char>>::empty().push(x) =~= seq![x]);
}

/// A word of plain characters is an argument, and what is quoted right behind it goes on with it:
/// quotes end no argument.
pub proof fn law_quotes_end_no_argument(x: Seq<char>, y: Seq<char>)
    requires
        x.len() > 0,
        forall|k: int| 0 <= k < x.len() ==> is_plain_char(#[trigger] x[k]),
        !y.contains('\''),
    ensures
        arguments(x) == Ok::<Seq<Seq<char>>, Seq<char>>(seq![x]),
        arguments(x + seq!['\''] + y + seq!['\'']) == Ok::<Seq<Seq<char>>, Seq<char>>(seq![x + y]),
{
    let quoted = seq!['\''] + y + seq!['\''];
    lemma_marks_are_not_white();
    lemma_first_plain(x, seq![]);
    assert(x + seq![] =~= x);
    assert(Seq::<Seq<char>>::empty().push(x) =~= seq![x]);
    lemma_first_plain(x, quoted);
    assert(x + seq!['\''] + y + seq!['\''] =~= x + quoted);
    assert(quoted[0] == '\'');
    assert(quoted.skip(1) =~= y.push('\''));
    lemma_between_single_quotes(seq![], x, y);
    assert(Seq::<Seq<char>>::empty().push(x + y) =~= seq![x + y]);
}

proof fn lemma_first_plain(x: Seq<char>, rest: Seq<char>)
    requires
        x.len() > 0,
        forall|k: int| 0 <= k < x.len() ==> is_plain_char(#[trigger] x[k]),
    ensures
        arguments(x + rest) == split_rest(seq![], Some(x), Quoting::Bare, rest),
{
    assert(is_plain_char(x[0]));
    assert((x + rest)[0] == x[0]);
    assert((x + rest).skip(1) =~= x.skip(1) + rest);
    lemma_plain_goes_on(seq![], seq![x[0]], x.skip(1), rest);
    assert(Seq::<char>::empty().push(x[0]) =~= seq![x[0]]);
    assert(seq![x[0]] + x.skip(1) =~= x);
}

/// A quote that nothing closes, or a backslash with nothing behind it, is refused.
pub proof fn law_what_is_left_open_is_refused(x: Seq<char>, y: Seq<char>)
    requires
        x.len() > 0,
        forall|k: int| 0 <= k < x.len() ==> is_plain_char(#[trigger] x[k]),
    ensures
        !y.contains('\'') ==> arguments(x + seq!['\''] + y) is Err,
        !y.contains('"') ==> arguments(x + seq!['"'] + y) is Err,
        arguments(x + seq!['\\']) is Err,
{
    lemma_marks_are_not_white();
    lemma_first_plain(x, seq!['\\']);
    assert(seq!['\\'].skip(1).len() == 0);
    if !y.contains('\'') {
        let rest = seq!['\''] + y;
        assert(x + seq!['\''] + y =~= x + rest);
        lemma_first_plain(x, rest);
        assert(rest[0] == '\'');
        assert(rest.skip(1) =~= y);
        lemma_never_closed(seq![], x, Quoting::Single, y);
    }
    if !y.contains('"') {
        let rest = seq!['"'] + y;
        assert(x + seq!['"'] + y =~= x + rest);
        lemma_first_plain(x, rest);
        assert(rest[0] == '"');
        assert(rest.skip(1) =~= y);
        lemma_never_closed(seq![], x, Quoting::Double, y);
    }
}

proof fn lemma_never_closed(words: Seq<Seq<char>>, word: Seq<char>, mode: Quoting, y: Seq<char>)
    requires
        mode is Single && !y.contains('\'') || mode is Double && !y.contains('"'),
    ensures
        split_rest(words, Some(word), mode, y) is Err,
    decreases y.len(),
{
    if y.len() > 0 {
        assert(y.contains(y[0]));
        let tail = y.skip(1);
        assert forall|k: int| 0 <= k < tail.len() implies y.contains(#[trigger] tail[k]) by {
            assert(y[k + 1] == tail[k]);
        }
        lemma_never_closed(words, word.push(y[0]), mode, tail);
        if tail.len() > 0 {
            let more = tail.skip(1);
            assert forall|k: int| 0 <= k < more.len() implies y.contains(#[trigger] more[k]) by {
                assert(y[k + 2] == more[k]);
            }
            lemma_never_closed(words, word.push(tail[0]), mode, more);
            lemma_never_closed(words, word.push('\\').push(tail[0]), mode, more);
        }
    }
}

proof fn lemma_find_shifted(a: Seq<char>, b: Seq<char>, pat: Seq<char>, from: int)
    requires
        0 <= from,
    ensures
        find_from(a + b, pat, a.len() + from) == (match find_from(b, pat, from) {
            Some(i) => Some(a.len() + i),
            None => None,
        }),
    decreases b.len() + 1 - from,
{
    if from + pat.len() <= b.len() {
        assert((a + b).subrange(a.len() + from, a.len() + from + pat.len()) =~= b.subrange(
            from,
            from + pat.len(),
        ));
        lemma_find_shifted(a, b, pat, from + 1);
    }
}

proof fn lemma_expanded_shifted(ctx: TokenContext, a: Seq<char>, b: Seq<char>, from: int)
    requires
        0 <= from <= b.len(),
    ensures
        expanded(ctx, a + b, a.len() + from) == expanded(ctx, b, from),
    decreases b.len() - from,
{
    lemma_next_token(a + b, a.len() + from);
    lemma_next_token(b, from);
    lemma_find_shifted(a, b, "{{"@, from);
    match find_from(b, "{{"@, from) {
        Some(start) => {
            lemma_find_shifted(a, b, "}}"@, start + 2);
            match find_from(b, "}}"@, start + 2) {
                Some(end) => {
                    let n = a.len();
                    lemma_expanded_shifted(ctx, a, b, end + 2);
                    assert((a + b).subrange(n + start + 2, n + end) =~= b.subrange(start + 2, end));
                    assert((a + b).subrange(n + from, n + start) =~= b.subrange(from, start));
                    assert((a + b).subrange(n + from, n + end + 2) =~= b.subrange(from, end + 2));
                },
                None => {
                    assert((a + b).skip(a.len() + from) =~= b.skip(from));
                },
            }
        },
        None => {
            assert((a + b).skip(a.len() + from) =~= b.skip(from));
        },
    }
}

proof fn lemma_first_pair(s: Seq<char>, c: char, from: int, at: int)
    requires
        0 <= from <= at,
        at + 2 <= s.len(),
        s[at] == c && s[at + 1] == c,
        forall|j: int| from <= j < at ==> #[trigger] s[j] != c,
    ensures
        find_from(s, seq![c, c], from) == Some(at),
    decreases at - from,
{
    let here = s.subrange(from, from + 2);
    if from < at {
        assert(s[from] != c);
        assert(here[0] == s[from]);
        assert(here[0] != seq![c, c][0]);
        lemma_first_pair(s, c, from + 1, at);
    } else {
        assert(here =~= seq![c, c]);
    }
}

proof fn lemma_token_found(before: Seq<char>, token: Seq<char>, rest: Seq<char>)
    requires
        !before.contains('{'),
        !token.contains('}'),
    ensures
        next_token(before + seq!['{', '{'] + token + seq!['}', '}'] + rest, 0) == Some(
            (before.len() as int, Some(before.len() as int + 2 + token.len())),
        ),
{
    let arg = before + seq!['{', '{'] + token + seq!['}', '}'] + rest;
    let start = before.len() as int;
    let end = start + 2 + token.len();
    assert forall|j: int| 0 <= j < start implies #[trigger] arg[j] != '{' by {
        assert(arg[j] == before[j]);
        assert(before.contains(before[j]));
    }
    assert forall|j: int| start + 2 <= j < end implies #[trigger] arg[j] != '}' by {
        assert(arg[j] == token[j - start - 2]);
        assert(token.contains(token[j - start - 2]));
    }
    assert(arg[start] == '{' && arg[start + 1] == '{');
    assert(arg[end] == '}' && arg[end + 1] == '}');
    lemma_first_pair(arg, '{', 0, start);
    lemma_first_pair(arg, '}', start + 2, end);
    reveal_strlit("{{");
    reveal_strlit("}}");
    assert("{{"@ =~= seq!['{', '{']);
    assert("}}"@ =~= seq!['}', '}']);
}

proof fn lemma_token_replaced(ctx: TokenContext, before: Seq<char>, token: Seq<char>, rest: Seq<char>)
    requires
        !before.contains('{'),
        !token.contains('}'),
    ensures
        ({
            let open = before + seq!['{', '{'] + token + seq!['}', '}'];
            expanded(ctx, open + rest, 0) == (match ctx.token_value(token) {
                Some(v) => before + v,
                None => open,
            }) + expanded(ctx, rest, 0)
        }),
{
    let open = before + seq!['{', '{'] + token + seq!['}', '}'];
    let arg = open + rest;
    let start = before.len() as int;
    let end = start + 2 + token.len();
    lemma_token_found(before, token, rest);
    lemma_next_token(arg, 0);
    lemma_expanded_shifted(ctx, open, rest, 0);
    assert(arg.subrange(start + 2, end) =~= token);
    assert(arg.subrange(0, start) =~= before);
    assert(arg.subrange(0, end + 2) =~= open);
    assert(open.len() + 0 == end + 2);
}

/// A token in double braces is replaced by what it names, in its place: the text before it stays,
/// and what follows is treated as if it stood alone. The five tokens name the project, where it is, the
/// workspace, where that is, and its branch; anything else in braces stays as it is.
pub proof fn law_a_token_is_replaced_in_its_place(
    ctx: TokenContext,
    before: Seq<char>,
    token: Seq<char>,
    rest: Seq<char>,
)
    requires
        !before.contains('{'),
        !token.contains('}'),
    ensures
        ({
            let open = before + seq!['{', '{'] + token + seq!['}', '}'];
            let got = expanded(ctx, open + rest, 0);
            let after = expanded(ctx, rest, 0);
            &&& token == "project_path"@ ==> got == before + ctx.project_path@ + after
            &&& token == "workspace_path"@ ==> got == before + ctx.workspace_path@ + after
            &&& token == "workspace_name"@ ==> got == before + ctx.workspace_name@ + after
            &&& token == "branch"@ ==> got == before + ctx.branch@ + after
            &&& token == "project_name"@ ==> (match path::name_of(ctx.project_path@) {
                Some(name) => got == before + name + after,
                None => got == before + ctx.project_path@ + after,
            })
            &&& token != "project_path"@ && token != "workspace_path"@ && token != "workspace_name"@
                && token != "branch"@ && token != "project_name"@ ==> got == open + after
        }),
{
    lemma_token_replaced(ctx, before, token, rest);
    lemma_tokens_differ();
}

proof fn lemma_tokens_differ()
    ensures
        "project_name"@ != "project_path"@,
        "project_name"@ != "workspace_name"@,
        "project_name"@ != "workspace_path"@,
        "project_name"@ != "branch"@,
        "project_path"@ != "workspace_name"@,
        "project_path"@ != "workspace_path"@,
        "project_path"@ != "branch"@,
        "workspace_name"@ != "workspace_path"@,
        "workspace_name"@ != "branch"@,
        "workspace_path"@ != "branch"@,
{
    reveal_strlit("project_name");
    reveal_strlit("project_path");
    reveal_strlit("workspace_name");
    reveal_strlit("workspace_path");
    reveal_strlit("branch");
    assert("project_name"@[8] == 'n' && "project_path"@[8] == 'p');
    assert("workspace_name"@[10] == 'n' && "workspace_path"@[10] == 'p');
    assert("project_name"@.len() == 12 && "workspace_name"@.len() == 14 && "branch"@.len() == 6);
}

/// An argument without double braces is handed on as it is.
pub proof fn law_an_argument_without_tokens_stays(ctx: TokenContext, arg: Seq<char>)
    requires
        !text::contains(arg, seq!['{', '{']),
    ensures
        expanded(ctx, arg, 0) == arg,
        argument_fault(arg, 0) is None,
{
    reveal_strlit("{{");
    assert("{{"@ =~= seq!['{', '{']);
    text::lemma_find_from(arg, "{{"@, 0);
    assert(arg.skip(0) =~= arg);
}

/// A row of the user's for a built-in stands in its place, with all that it says; a built-in without
/// one is on, under its own name, with itself for a base and no arguments. Every other row is there
/// as well, as it was written, and is no built-in.
pub proof fn law_what_the_user_writes_takes_effect(
    file: Seq<AgentProfileView>,
    builtins: Seq<(Seq<char>, Seq<char>)>,
    b: int,
    k: int,
)
    requires
        0 <= b < builtins.len(),
        forall|i: int, j: int| 0 <= i < j < file.len() ==> (#[trigger] file[i]).id != (#[trigger] file[j]).id,
    ensures
        ({
            let got = merged(file, builtins);
            &&& b < got.len() && got[b].builtin
            &&& 0 <= k < file.len() && file[k].id == builtins[b].0 ==> got[b].profile == file[k]
            &&& (forall|i: int| 0 <= i < file.len() ==> (#[trigger] file[i]).id != builtins[b].0) ==> {
                &&& got[b].profile.enabled
                &&& got[b].profile.id == builtins[b].0
                &&& got[b].profile.base == builtins[b].0
                &&& got[b].profile.display_name == builtins[b].1
                &&& got[b].profile.args.len() == 0
            }
        }),
        0 <= k < file.len() && (forall|i: int|
            0 <= i < builtins.len() ==> (#[trigger] builtins[i]).0 != file[k].id) ==> merged(
            file,
            builtins,
        ).contains((EffectiveProfileView { profile: file[k], builtin: false })),
{
    let got = merged(file, builtins);
    assert(got[b] == effective_builtin(file, builtins[b]));
    lemma_row_found(file, builtins[b].0, 0);
    if 0 <= k < file.len() && (forall|i: int|
        0 <= i < builtins.len() ==> (#[trigger] builtins[i]).0 != file[k].id) {
        let own = EffectiveProfileView { profile: file[k], builtin: false };
        lemma_own_row_kept(file, builtins, k);
        let at = choose|i: int|
            0 <= i < own_rows(file, builtins).len() && own_rows(file, builtins)[i] == own;
        assert(got[builtins.len() + at] == own);
    }
}

proof fn lemma_row_found(file: Seq<AgentProfileView>, id: Seq<char>, from: int)
    requires
        0 <= from <= file.len(),
    ensures
        match row_with_id(file, id, from) {
            Some(row) => exists|k: int| from <= k < file.len() && #[trigger] file[k] == row && row.id == id,
            None => forall|k: int| from <= k < file.len() ==> (#[trigger] file[k]).id != id,
        },
    decreases file.len() - from,
{
    if from < file.len() && file[from].id != id {
        lemma_row_found(file, id, from + 1);
    }
}

proof fn lemma_own_row_kept(
    file: Seq<AgentProfileView>,
    builtins: Seq<(Seq<char>, Seq<char>)>,
    k: int,
)
    requires
        0 <= k < file.len(),
        forall|i: int| 0 <= i < builtins.len() ==> (#[trigger] builtins[i]).0 != file[k].id,
    ensures
        own_rows(file, builtins).contains((EffectiveProfileView { profile: file[k], builtin: false })),
    decreases file.len(),
{
    let own = EffectiveProfileView { profile: file[k], builtin: false };
    let before = own_rows(file.drop_last(), builtins);
    if k < file.len() - 1 {
        assert(file.drop_last()[k] == file[k]);
        lemma_own_row_kept(file.drop_last(), builtins, k);
        let at = choose|i: int| 0 <= i < before.len() && before[i] == own;
        assert(own_rows(file, builtins)[at] == own);
    } else {
        assert(own_rows(file, builtins).last() == own);
    }
}

} // verus!
