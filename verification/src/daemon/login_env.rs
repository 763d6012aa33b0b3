//! The environment that every pane starts from: that of the user's login shell, with what the daemon
//! insists on laid over it.

use vstd::prelude::*;

use vstd::utf8::{decode_utf8, encode_utf8, valid_utf8};

use crate::daemon::command::{env_texts, PaneCommand};
use crate::daemon::env::{env_map, in_order, over, EnvMap};
use crate::path;
use crate::path::same_place;
use crate::proto::auth::{hex_encode, hex_text};
use crate::proto::remote;
use crate::text;
use crate::text::{opt_str, opt_text, split_on, texts};

verus! {

/// Set for the shell that is asked for its environment, so that a start-up file can skip heavy work. No
/// pane has it.
pub const CAPTURE_MARKER_VAR: &'static str = "CLOWDER_LOGIN_ENV_CAPTURE";

/// The terminal that a pane is, where the daemon has none of its own to name.
pub const DEFAULT_TERM: &'static str = "xterm-256color";

/// The colours that a pane shows, where the daemon names none.
pub const DEFAULT_COLORTERM: &'static str = "truecolor";

/// The variable describes the shell that was asked, not the pane.
pub open spec fn is_artefact(k: Seq<char>) -> bool {
    ||| k == "PWD"@
    ||| k == "OLDPWD"@
    ||| k == "SHLVL"@
    ||| k == "_"@
    ||| k == "COLUMNS"@
    ||| k == "LINES"@
    ||| k == "TERMCAP"@
    ||| k == "CLOWDER_LOGIN_ENV_CAPTURE"@
}

/// The variables that describe the shell that was asked, not the pane.
pub fn capture_artefacts() -> (names: Vec<&'static str>)
    ensures
        forall|k: Seq<char>| #[trigger] is_artefact(k) <==> exists|i: int|
            0 <= i < names@.len() && (#[trigger] names@[i])@ == k,
{
    let mut names: Vec<&'static str> = Vec::new();
    names.push("PWD");
    names.push("OLDPWD");
    names.push("SHLVL");
    names.push("_");
    names.push("COLUMNS");
    names.push("LINES");
    names.push("TERMCAP");
    names.push(CAPTURE_MARKER_VAR);
    assert(names@[0]@ == "PWD"@);
    assert(names@[1]@ == "OLDPWD"@);
    assert(names@[2]@ == "SHLVL"@);
    assert(names@[3]@ == "_"@);
    assert(names@[4]@ == "COLUMNS"@);
    assert(names@[5]@ == "LINES"@);
    assert(names@[6]@ == "TERMCAP"@);
    assert(names@[7]@ == "CLOWDER_LOGIN_ENV_CAPTURE"@);
    names
}

/// How the login shell is asked for its environment.
#[derive(Debug, Clone, PartialEq, Eq)]
pub struct CaptureSpec {
    pub shell: String,
    /// How long to wait for it, in milliseconds.
    pub timeout_ms: u64,
    /// Where to run it.
    pub cwd: Option<String>,
}

/// The value of a variable that is set and not empty.
pub open spec fn set_in(m: Map<Seq<char>, Seq<char>>, k: Seq<char>) -> Option<Seq<char>> {
    if m.dom().contains(k) && m[k].len() > 0 {
        Some(m[k])
    } else {
        None
    }
}

/// The value of a variable, or the default.
pub open spec fn value_or(m: Map<Seq<char>, Seq<char>>, k: Seq<char>, default: Seq<char>) -> Seq<char> {
    if m.dom().contains(k) {
        m[k]
    } else {
        default
    }
}

/// The variable is the daemon's own to set.
pub open spec fn is_own(k: Seq<char>) -> bool {
    "CLOWDER_"@.is_prefix_of(k) && k != "CLOWDER_LOGIN_ENV_CAPTURE"@
}

/// The search path names the directory.
pub open spec fn on_path(path: Seq<char>, dir: Seq<char>) -> bool {
    exists|i: int|
        0 <= i < split_on(path, ':').len() && same_place(#[trigger] split_on(path, ':')[i], dir)
}

/// The search path with a directory in front, unless it is named there already.
pub open spec fn path_with(path: Seq<char>, dir: Option<Seq<char>>) -> Seq<char> {
    match dir {
        Some(d) if d.len() > 0 && !on_path(path, d) => if path.len() == 0 {
            d
        } else {
            d + ":"@ + path
        },
        _ => path,
    }
}

/// The environment before the search path and the shell are set: what the login shell has, or the
/// daemon where nothing was captured, without what describes that shell; the terminal is the daemon's,
/// and so are the variables that are its own.
pub open spec fn layered(
    captured: Option<Map<Seq<char>, Seq<char>>>,
    daemon: Map<Seq<char>, Seq<char>>,
) -> Map<Seq<char>, Seq<char>> {
    let base = match captured {
        Some(c) => c,
        None => daemon,
    };
    base.remove_keys(Set::new(|k: Seq<char>| is_artefact(k))).insert(
        "TERM"@,
        value_or(daemon, "TERM"@, "xterm-256color"@),
    ).insert("COLORTERM"@, value_or(daemon, "COLORTERM"@, "truecolor"@)).union_prefer_right(
        daemon.restrict(Set::new(|k: Seq<char>| is_own(k))),
    )
}

/// The search path of every pane: the captured one, or the daemon's where that is not set or empty, with
/// the daemon's own directory in front.
pub open spec fn search_path(
    vars: Map<Seq<char>, Seq<char>>,
    daemon: Map<Seq<char>, Seq<char>>,
    exe_dir: Option<Seq<char>>,
) -> Seq<char> {
    let path = match set_in(vars, "PATH"@) {
        Some(p) => p,
        None => match set_in(daemon, "PATH"@) {
            Some(p) => p,
            None => seq![],
        },
    };
    path_with(path, exe_dir)
}

/// The environment of every pane.
pub open spec fn resolved_env(
    captured: Option<Map<Seq<char>, Seq<char>>>,
    daemon: Map<Seq<char>, Seq<char>>,
    exe_dir: Option<Seq<char>>,
    shell: Seq<char>,
) -> Map<Seq<char>, Seq<char>> {
    let vars = layered(captured, daemon);
    let path = search_path(vars, daemon, exe_dir);
    (if path.len() > 0 {
        vars.insert("PATH"@, path)
    } else {
        vars
    }).insert("SHELL"@, shell)
}

/// The environment that every pane starts from.
#[derive(Debug, PartialEq, Eq)]
pub struct PaneEnv {
    vars: EnvMap,
}

impl View for PaneEnv {
    type V = Map<Seq<char>, Seq<char>>;

    closed spec fn view(&self) -> Map<Seq<char>, Seq<char>> {
        self.vars@
    }
}

fn without_artefacts(vars: &mut EnvMap)
    ensures
        final(vars)@ == old(vars)@.remove_keys(Set::new(|k: Seq<char>| is_artefact(k))),
{
    let ghost start = vars@;
    let names = capture_artefacts();
    let mut i: usize = 0;
    let ghost gone = |n: int|
        Set::new(|k: Seq<char>| exists|j: int| 0 <= j < n && (#[trigger] names@[j])@ == k);
    assert(start.remove_keys(gone(0)) =~= start);
    while i < names.len()
        invariant
            i <= names.len(),
            gone == (|n: int|
                Set::new(|k: Seq<char>| exists|j: int| 0 <= j < n && (#[trigger] names@[j])@ == k)),
            vars@ == start.remove_keys(gone(i as int)),
        decreases names.len() - i,
    {
        vars.remove(names[i]);
        proof {
            let a = gone(i as int);
            let b = gone(i + 1);
            let new = names@[i as int]@;
            assert forall|k: Seq<char>| #[trigger] b.contains(k) <==> a.contains(k) || k == new by {
                if a.contains(k) {
                    let j = choose|j: int| 0 <= j < i && (#[trigger] names@[j])@ == k;
                    assert(names@[j]@ == k);
                }
                if k == new {
                    assert(names@[i as int]@ == k);
                }
                if b.contains(k) {
                    let j = choose|j: int| 0 <= j < i + 1 && (#[trigger] names@[j])@ == k;
                    if j < i {
                        assert(names@[j]@ == k);
                    }
                }
            }
            assert(start.remove_keys(a).remove(new) =~= start.remove_keys(b));
        }
        i = i + 1;
    }
    proof {
        assert(gone(names@.len() as int) =~= Set::new(|k: Seq<char>| is_artefact(k))) by {
            assert forall|k: Seq<char>| gone(names@.len() as int).contains(k) <==> is_artefact(k) by {}
        }
    }
}

fn with_own(vars: &mut EnvMap, daemon: &EnvMap)
    ensures
        final(vars)@ == old(vars)@.union_prefer_right(
            daemon@.restrict(Set::new(|k: Seq<char>| is_own(k))),
        ),
{
    let ghost start = vars@;
    let rows = daemon.entries();
    let ghost views = env_texts(rows@);
    let ghost own = Set::new(|k: Seq<char>| is_own(k));
    let mut i: usize = 0;
    assert(views.take(0) =~= seq![]);
    assert(start.union_prefer_right(env_map(views.take(0)).restrict(own)) =~= start);
    while i < rows.len()
        invariant
            i <= rows.len(),
            views == env_texts(rows@),
            own == Set::new(|k: Seq<char>| is_own(k)),
            vars@ == start.union_prefer_right(env_map(views.take(i as int)).restrict(own)),
        decreases rows.len() - i,
    {
        let k = rows[i].0.as_str();
        let ghost before = env_map(views.take(i as int));
        let ghost after = env_map(views.take(i + 1));
        proof {
            assert(views.take(i + 1).drop_last() =~= views.take(i as int));
            assert(views.take(i + 1).last() == (rows@[i as int].0@, rows@[i as int].1@));
            assert(after == before.insert(rows@[i as int].0@, rows@[i as int].1@));
        }
        if text::begins(k, "CLOWDER_") && !text::same(k, CAPTURE_MARKER_VAR) {
            vars.insert(rows[i].0.clone(), rows[i].1.clone());
            assert(start.union_prefer_right(before.restrict(own)).insert(
                rows@[i as int].0@,
                rows@[i as int].1@,
            ) =~= start.union_prefer_right(after.restrict(own)));
        } else {
            assert(start.union_prefer_right(before.restrict(own)) =~= start.union_prefer_right(
                after.restrict(own),
            ));
        }
        i = i + 1;
    }
    assert(views.take(views.len() as int) =~= views);
}

fn value_in(m: &EnvMap, k: &str, default: &str) -> (v: String)
    ensures
        v@ == value_or(m@, k@, default@),
{
    match m.get(k) {
        Some(v) => v.to_owned(),
        None => default.to_owned(),
    }
}

fn is_on_path(path: &str, dir: &str) -> (yes: bool)
    ensures
        yes == on_path(path@, dir@),
{
    let parts = text::split(path, ':');
    let mut i: usize = 0;
    while i < parts.len()
        invariant
            i <= parts.len(),
            texts(parts@) == split_on(path@, ':'),
            forall|k: int| 0 <= k < i ==> !same_place(#[trigger] split_on(path@, ':')[k], dir@),
        decreases parts.len() - i,
    {
        assert(split_on(path@, ':')[i as int] == parts@[i as int]@);
        if path::same_path(parts[i].as_str(), dir) {
            return true;
        }
        i = i + 1;
    }
    false
}

fn search_path_of(vars: &EnvMap, daemon: &EnvMap, exe_dir: Option<&str>) -> (p: String)
    ensures
        p@ == search_path(vars@, daemon@, opt_str(exe_dir)),
{
    let mut path = String::new();
    assert(path@ =~= seq![]);
    match daemon.get("PATH") {
        Some(p) => if !p.is_empty() {
            path = p.to_owned();
        },
        None => {},
    }
    match vars.get("PATH") {
        Some(p) => if !p.is_empty() {
            path = p.to_owned();
        },
        None => {},
    }
    match exe_dir {
        Some(dir) => {
            if !dir.is_empty() && !is_on_path(path.as_str(), dir) {
                if path.as_str().is_empty() {
                    return dir.to_owned();
                }
                let mut p = dir.to_owned();
                p.append(":");
                p.append(path.as_str());
                return p;
            }
        },
        None => {},
    }
    path
}

impl PaneEnv {
    /// The daemon's own environment.
    pub fn inherited(daemon: EnvMap, exe_dir: Option<&str>, shell: &str) -> (e: PaneEnv)
        ensures
            e@ == resolved_env(None, daemon@, opt_str(exe_dir), shell@),
    {
        PaneEnv::resolve(None, daemon, exe_dir, shell)
    }

    /// The environment of every pane, given what the login shell has, if it was asked, and what the
    /// daemon has.
    pub fn resolve(
        captured: Option<EnvMap>,
        daemon: EnvMap,
        exe_dir: Option<&str>,
        shell: &str,
    ) -> (e: PaneEnv)
        ensures
            e@ == resolved_env(
                match captured {
                    Some(c) => Some(c@),
                    None => None,
                },
                daemon@,
                opt_str(exe_dir),
                shell@,
            ),
    {
        let mut vars = match captured {
            Some(c) => c,
            None => daemon.copied(),
        };
        without_artefacts(&mut vars);
        vars.insert("TERM".to_owned(), value_in(&daemon, "TERM", DEFAULT_TERM));
        vars.insert("COLORTERM".to_owned(), value_in(&daemon, "COLORTERM", DEFAULT_COLORTERM));
        with_own(&mut vars, &daemon);
        let path = search_path_of(&vars, &daemon, exe_dir);
        if !path.as_str().is_empty() {
            vars.insert("PATH".to_owned(), path);
        }
        vars.insert("SHELL".to_owned(), shell.to_owned());
        PaneEnv { vars }
    }

    /// The variables, in the order of their names.
    pub fn iter(&self) -> (rows: &Vec<(String, String)>)
        ensures
            in_order(env_texts(rows@)),
            env_map(env_texts(rows@)) == self@,
    {
        self.vars.entries()
    }

    /// The value of a variable.
    pub fn get(&self, key: &str) -> (v: Option<&str>)
        ensures
            match v {
                Some(x) => self@.dom().contains(key@) && x@ == self@[key@],
                None => !self@.dom().contains(key@),
            },
    {
        self.vars.get(key)
    }

    /// How many variables there are.
    pub fn len(&self) -> (n: usize)
        ensures
            n == self@.dom().len(),
    {
        self.vars.len()
    }

    /// Whether there are none.
    pub fn is_empty(&self) -> (yes: bool)
        ensures
            yes == (self@.dom().len() == 0),
    {
        self.vars.len() == 0
    }

    /// The environment of one pane: this one, with the variables of the pane on top.
    pub fn with_pane(&self, pane: &[(String, String)]) -> (m: EnvMap)
        ensures
            m@ == over(self@, env_texts(pane@)),
    {
        let mut m = self.vars.copied();
        m.insert_all(pane);
        m
    }
}

/// No variable that describes the shell that was asked reaches a pane.
pub proof fn law_artefacts_reach_no_pane(
    captured: Option<Map<Seq<char>, Seq<char>>>,
    daemon: Map<Seq<char>, Seq<char>>,
    exe_dir: Option<Seq<char>>,
    shell: Seq<char>,
    k: Seq<char>,
)
    requires
        is_artefact(k),
    ensures
        !resolved_env(captured, daemon, exe_dir, shell).dom().contains(k),
{
    reveal_strlit("PWD");
    reveal_strlit("OLDPWD");
    reveal_strlit("SHLVL");
    reveal_strlit("_");
    reveal_strlit("COLUMNS");
    reveal_strlit("LINES");
    reveal_strlit("TERMCAP");
    reveal_strlit("CLOWDER_LOGIN_ENV_CAPTURE");
    reveal_strlit("TERM");
    reveal_strlit("COLORTERM");
    reveal_strlit("PATH");
    reveal_strlit("SHELL");
    reveal_strlit("CLOWDER_");
    assert(k.len() != 4);
    assert(k.len() == 5 ==> k[2] != 'E');
    assert(k.len() != 9);
    assert("SHELL"@[2] == 'E');
    assert(!is_own(k)) by {
        assert("CLOWDER_"@.len() == 8);
        assert("CLOWDER_"@[0] == 'C' && "CLOWDER_"@[1] == 'L');
    }
}

/// The shell of a pane is the one that was resolved, and what is the daemon's own is as the daemon has
/// it.
pub proof fn law_the_daemon_has_the_last_word(
    captured: Option<Map<Seq<char>, Seq<char>>>,
    daemon: Map<Seq<char>, Seq<char>>,
    exe_dir: Option<Seq<char>>,
    shell: Seq<char>,
    k: Seq<char>,
)
    ensures
        resolved_env(captured, daemon, exe_dir, shell)["SHELL"@] == shell,
        is_own(k) && daemon.dom().contains(k) ==> resolved_env(captured, daemon, exe_dir, shell).dom().contains(
            k,
        ) && resolved_env(captured, daemon, exe_dir, shell)[k] == daemon[k],
{
    reveal_strlit("CLOWDER_");
    reveal_strlit("PATH");
    reveal_strlit("SHELL");
    assert("CLOWDER_"@[0] == 'C');
    assert("PATH"@[0] == 'P');
    assert("SHELL"@[0] == 'S');
}

/// The daemon's own directory is on the search path of every pane, where it has a name.
pub proof fn law_own_directory_is_on_the_path(path: Seq<char>, dir: Seq<char>)
    requires
        dir.len() > 0,
        !dir.contains(':'),
    ensures
        on_path(path_with(path, Some(dir)), dir),
{
    if !on_path(path, dir) {
        if path.len() == 0 {
            text::lemma_split_on_none(dir, ':');
            assert(split_on(dir, ':')[0] == dir);
        } else {
            let p = dir + ":"@ + path;
            reveal_strlit(":");
            assert(":"@ =~= seq![':']);
            lemma_split_front(dir, path, ':');
            assert(p =~= dir + seq![':'] + path);
            assert(split_on(p, ':')[0] == dir);
        }
    }
}

proof fn lemma_split_front(head: Seq<char>, tail: Seq<char>, sep: char)
    requires
        !head.contains(sep),
    ensures
        split_on(head + seq![sep] + tail, sep) == seq![head] + split_on(tail, sep),
    decreases tail.len(),
{
    let all = head + seq![sep] + tail;
    text::lemma_split_on_nonempty(tail, sep);
    if tail.len() == 0 {
        assert(all.drop_last() =~= head);
        text::lemma_split_on_none(head, sep);
        assert(split_on(all, sep) =~= seq![head] + split_on(tail, sep));
    } else {
        assert(all.drop_last() =~= head + seq![sep] + tail.drop_last());
        lemma_split_front(head, tail.drop_last(), sep);
        text::lemma_split_on_nonempty(tail.drop_last(), sep);
        let before = split_on(tail.drop_last(), sep);
        assert((seq![head] + before).drop_last() =~= seq![head] + before.drop_last());
        assert(split_on(all, sep) =~= seq![head] + split_on(tail, sep));
    }
}

/// What the login shell runs: its environment, between two marks. The programs are named by their whole
/// paths, which no alias of the user's can replace.
pub open spec fn script(begin: Seq<char>, end: Seq<char>) -> Seq<char> {
    "/usr/bin/printf %s '"@ + begin + "'; /usr/bin/env -0; /usr/bin/printf %s '"@ + end + "'"@
}

/// What the login shell runs.
pub fn capture_script(begin: &str, end: &str) -> (s: String)
    ensures
        s@ == script(begin@, end@),
{
    let mut s = "/usr/bin/printf %s '".to_owned();
    s.append(begin);
    s.append("'; /usr/bin/env -0; /usr/bin/printf %s '");
    s.append(end);
    s.append("'");
    s
}

/// The marks of one capture.
pub open spec fn marks(nonce: Seq<char>) -> (Seq<char>, Seq<char>) {
    ("__CLOWDER_ENV_BEGIN_"@ + nonce + "__"@, "__CLOWDER_ENV_END_"@ + nonce + "__"@)
}

/// The marks of one capture.
pub fn capture_marks(nonce: &str) -> (m: (String, String))
    ensures
        (m.0@, m.1@) == marks(nonce@),
{
    let mut begin = "__CLOWDER_ENV_BEGIN_".to_owned();
    begin.append(nonce);
    begin.append("__");
    let mut end = "__CLOWDER_ENV_END_".to_owned();
    end.append(nonce);
    end.append("__");
    (begin, end)
}

/// Whether, and how, the login shell is asked for its environment.
pub open spec fn is_capture(
    wanted: bool,
    shell: Seq<char>,
    timeout_ms: u64,
    home: Option<Seq<char>>,
    p: Option<CaptureSpec>,
) -> bool {
    match p {
        Some(spec) => wanted && spec.shell@ == shell && spec.timeout_ms == timeout_ms && opt_text(
            spec.cwd,
        ) == home,
        None => !wanted,
    }
}

/// Whether, and how, the login shell is asked for its environment.
pub fn capture_plan(wanted: bool, shell: &str, timeout_ms: u64, home: Option<&str>) -> (p: Option<
    CaptureSpec,
>)
    ensures
        is_capture(wanted, shell@, timeout_ms, opt_str(home), p),
{
    if !wanted {
        return None;
    }
    let cwd = match home {
        Some(h) => Some(h.to_owned()),
        None => None,
    };
    Some(CaptureSpec { shell: shell.to_owned(), timeout_ms, cwd })
}

impl CaptureSpec {
    /// The command asks the login shell for its environment between two marks.
    pub open spec fn is_asked_by(&self, begin: Seq<char>, end: Seq<char>, c: PaneCommand) -> bool {
        &&& c.program@ == self.shell@
        &&& texts(c.args@) == seq!["-l"@, "-i"@, "-c"@, script(begin, end)]
        &&& opt_text(c.cwd) == opt_text(self.cwd)
        &&& env_texts(c.env@) == seq![("CLOWDER_LOGIN_ENV_CAPTURE"@, "1"@)]
    }
}

/// The command that asks the login shell: a login shell that is interactive too, since start-up files
/// of both kinds add to the search path.
pub fn capture_command(spec: &CaptureSpec, begin: &str, end: &str) -> (c: PaneCommand)
    ensures
        spec.is_asked_by(begin@, end@, c),
{
    let mut args: Vec<String> = Vec::new();
    args.push("-l".to_owned());
    args.push("-i".to_owned());
    args.push("-c".to_owned());
    args.push(capture_script(begin, end));
    assert(texts(args@) =~= seq!["-l"@, "-i"@, "-c"@, script(begin@, end@)]);
    let mut env: Vec<(String, String)> = Vec::new();
    env.push((CAPTURE_MARKER_VAR.to_owned(), "1".to_owned()));
    assert(env_texts(env@) =~= seq![("CLOWDER_LOGIN_ENV_CAPTURE"@, "1"@)]);
    let cwd = match &spec.cwd {
        Some(d) => Some(d.clone()),
        None => None,
    };
    PaneCommand { program: spec.shell.clone(), args, cwd, env }
}

/// `getrandom::getrandom`: as many bytes as were asked for, which are chance, or the message of the
/// error.
#[verifier::external_body]
pub(crate) fn random_bytes(n: usize) -> (r: Result<Vec<u8>, String>)
    requires
        n <= i32::MAX,
    ensures
        r matches Ok(v) ==> v@.len() == n,
{
    let mut raw = vec![0u8; n];
    getrandom::getrandom(&mut raw).map(|_| raw).map_err(|e| e.to_string())
}

/// What the marks of a capture are told apart by, given bytes that are chance: their hex digits. Where
/// there is no chance to be had, a word.
pub fn nonce_of(raw: Option<&[u8]>) -> (s: String)
    ensures
        s@ == (match raw {
            Some(b) => hex_text(b@),
            None => "fallback"@,
        }),
{
    match raw {
        Some(b) => hex_encode(b),
        None => "fallback".to_owned(),
    }
}

/// What the marks of a capture are told apart by.
pub fn nonce() -> (s: String)
    ensures
        s@ == "fallback"@ || exists|raw: Seq<u8>| raw.len() == 8 && s@ == #[trigger] hex_text(raw),
{
    match random_bytes(8) {
        Ok(raw) => {
            let s = nonce_of(Some(&raw));
            assert(s@ == hex_text(raw@));
            s
        },
        Err(_) => nonce_of(None),
    }
}

/// Where bytes stand in others, from index `from` on.
pub open spec fn found(hay: Seq<u8>, needle: Seq<u8>, from: int) -> Option<int>
    decreases hay.len() + 1 - from,
{
    if from < 0 || from + needle.len() > hay.len() {
        None
    } else if hay.subrange(from, from + needle.len()) == needle {
        Some(from)
    } else {
        found(hay, needle, from + 1)
    }
}

proof fn lemma_found(hay: Seq<u8>, needle: Seq<u8>, from: int)
    requires
        0 <= from,
    ensures
        found(hay, needle, from) matches Some(k) ==> from <= k && k + needle.len() <= hay.len(),
    decreases hay.len() + 1 - from,
{
    if from + needle.len() <= hay.len() && hay.subrange(from, from + needle.len()) != needle {
        lemma_found(hay, needle, from + 1);
    }
}

fn same_bytes(hay: &[u8], at: usize, needle: &[u8]) -> (yes: bool)
    requires
        at + needle@.len() <= hay@.len(),
    ensures
        yes == (hay@.subrange(at as int, at + needle@.len()) == needle@),
{
    let n: usize = hay.len();
    let mut i: usize = 0;
    while i < needle.len()
        invariant
            i <= needle.len(),
            n == hay@.len(),
            at + needle@.len() <= n,
            forall|k: int| 0 <= k < i ==> hay@[at + k] == needle@[k],
        decreases needle.len() - i,
    {
        if hay[at + i] != needle[i] {
            assert(hay@.subrange(at as int, at + needle@.len())[i as int] != needle@[i as int]);
            return false;
        }
        i = i + 1;
    }
    assert(hay@.subrange(at as int, at + needle@.len()) =~= needle@);
    true
}

fn find(hay: &[u8], needle: &[u8]) -> (at: Option<usize>)
    requires
        needle@.len() > 0,
    ensures
        match at {
            Some(k) => found(hay@, needle@, 0) == Some(k as int) && k + needle@.len() <= hay@.len(),
            None => found(hay@, needle@, 0) is None,
        },
{
    let n: usize = hay.len();
    if needle.len() > n {
        return None;
    }
    let last: usize = n - needle.len();
    let mut i: usize = 0;
    while i <= last
        invariant
            needle@.len() > 0,
            n == hay@.len(),
            last == n - needle@.len(),
            i <= last + 1,
            found(hay@, needle@, 0) == found(hay@, needle@, i as int),
        decreases last + 1 - i,
    {
        if same_bytes(hay, i, needle) {
            return Some(i);
        }
        i = i + 1;
    }
    None
}

/// The pieces between the NUL bytes.
pub open spec fn pieces(s: Seq<u8>) -> Seq<Seq<u8>>
    decreases s.len(),
{
    if s.len() == 0 {
        seq![seq![]]
    } else if s.last() == 0 {
        pieces(s.drop_last()).push(seq![])
    } else {
        let before = pieces(s.drop_last());
        before.drop_last().push(before.last().push(s.last()))
    }
}

/// The index of the first `=`, from index `from` on.
pub open spec fn equals_at(s: Seq<u8>, from: int) -> Option<int>
    decreases s.len() - from,
{
    if from < 0 || from >= s.len() {
        None
    } else if s[from] == 0x3d {
        Some(from)
    } else {
        equals_at(s, from + 1)
    }
}

/// The variable that a piece sets. One without `=` or without a name sets none, nor one that is no
/// UTF-8.
pub open spec fn variable(piece: Seq<u8>) -> Option<(Seq<char>, Seq<char>)> {
    match equals_at(piece, 0) {
        Some(e) => {
            let k = piece.take(e);
            let v = piece.skip(e + 1);
            if k.len() > 0 && valid_utf8(k) && valid_utf8(v) {
                Some((decode_utf8(k), decode_utf8(v)))
            } else {
                None
            }
        },
        None => None,
    }
}

/// The variables that pieces set, the last of a name counting.
pub open spec fn variables(all: Seq<Seq<u8>>) -> Map<Seq<char>, Seq<char>>
    decreases all.len(),
{
    if all.len() == 0 {
        Map::empty()
    } else {
        let before = variables(all.drop_last());
        match variable(all.last()) {
            Some((k, v)) => before.insert(k, v),
            None => before,
        }
    }
}

/// The environment between two marks in the output of the login shell.
pub open spec fn marked_env(out: Seq<u8>, begin: Seq<u8>, end: Seq<u8>) -> Result<
    Map<Seq<char>, Seq<char>>,
    Seq<char>,
> {
    match found(out, begin, 0) {
        None => Err("capture output has no start marker"@),
        Some(b) => {
            let rest = out.skip(b + begin.len());
            match found(rest, end, 0) {
                None => Err("capture output has no end marker"@),
                Some(e) => {
                    let vars = variables(pieces(rest.take(e)));
                    if vars.dom().len() == 0 {
                        Err("capture produced no environment entries"@)
                    } else {
                        Ok(vars)
                    }
                },
            }
        },
    }
}

fn piece_variable(piece: &Vec<u8>) -> (v: Option<(String, String)>)
    ensures
        match v {
            Some((k, x)) => variable(piece@) == Some((k@, x@)),
            None => variable(piece@) is None,
        },
{
    let mut e: usize = 0;
    while e < piece.len() && piece[e] != 0x3d
        invariant
            e <= piece.len(),
            equals_at(piece@, 0) == equals_at(piece@, e as int),
        decreases piece.len() - e,
    {
        e = e + 1;
    }
    if e >= piece.len() {
        return None;
    }
    if e == 0 {
        return None;
    }
    let k = part_of(piece, 0, e);
    let v = part_of(piece, e + 1, piece.len());
    assert(k@ =~= piece@.take(e as int));
    assert(v@ =~= piece@.skip(e + 1));
    let key = match remote::text_from_utf8(k) {
        Ok(s) => s,
        Err(_) => return None,
    };
    let value = match remote::text_from_utf8(v) {
        Ok(s) => s,
        Err(_) => return None,
    };
    Some((key, value))
}

fn part_of(s: &[u8], from: usize, to: usize) -> (v: Vec<u8>)
    requires
        from <= to <= s@.len(),
    ensures
        v@ == s@.subrange(from as int, to as int),
{
    let mut v: Vec<u8> = Vec::new();
    let mut i: usize = from;
    while i < to
        invariant
            from <= i <= to <= s@.len(),
            v@ == s@.subrange(from as int, i as int),
        decreases to - i,
    {
        v.push(s[i]);
        assert(s@.subrange(from as int, i + 1) =~= s@.subrange(from as int, i as int).push(s@[i as int]));
        i = i + 1;
    }
    v
}

fn take_in(vars: &mut EnvMap, piece: &Vec<u8>)
    ensures
        final(vars)@ == (match variable(piece@) {
            Some((k, v)) => old(vars)@.insert(k, v),
            None => old(vars)@,
        }),
{
    match piece_variable(piece) {
        Some((k, v)) => vars.insert(k, v),
        None => {},
    }
}

proof fn lemma_pieces_nonempty(s: Seq<u8>)
    ensures
        pieces(s).len() > 0,
    decreases s.len(),
{
    if s.len() > 0 {
        lemma_pieces_nonempty(s.drop_last());
    }
}

/// The environment between two marks in the output of the login shell. What start-up files print before
/// and after it does not matter.
pub fn parse_marked_env(stdout: &[u8], begin: &str, end: &str) -> (r: Result<EnvMap, String>)
    requires
        begin@.len() > 0,
        end@.len() > 0,
    ensures
        match r {
            Ok(m) => marked_env(stdout@, encode_utf8(begin@), encode_utf8(end@)) == Ok::<
                Map<Seq<char>, Seq<char>>,
                Seq<char>,
            >(m@),
            Err(e) => marked_env(stdout@, encode_utf8(begin@), encode_utf8(end@)) == Err::<
                Map<Seq<char>, Seq<char>>,
                Seq<char>,
            >(e@),
        },
{
    let b = begin.as_bytes();
    let e = end.as_bytes();
    proof {
        lemma_encoded_nonempty(begin@);
        lemma_encoded_nonempty(end@);
    }
    let n: usize = stdout.len();
    let start: usize = match find(stdout, b) {
        Some(k) => {
            assert(k + b@.len() <= n);
            k + b.len()
        },
        None => return Err("capture output has no start marker".to_owned()),
    };
    let rest = part_of(stdout, start, stdout.len());
    assert(rest@ =~= stdout@.skip(start as int));
    let len = match find(&rest, e) {
        Some(k) => k,
        None => return Err("capture output has no end marker".to_owned()),
    };
    let ghost region = rest@.take(len as int);
    let mut vars = EnvMap::new();
    let mut piece: Vec<u8> = Vec::new();
    let mut i: usize = 0;
    proof {
        assert(region.take(0) =~= seq![]);
        assert(pieces(region.take(0)) =~= seq![seq![]]);
        assert(pieces(region.take(0)).drop_last() =~= seq![]);
        assert(piece@ =~= seq![]);
    }
    while i < len
        invariant
            i <= len <= rest@.len(),
            region == rest@.take(len as int),
            piece@ == pieces(region.take(i as int)).last(),
            vars@ == variables(pieces(region.take(i as int)).drop_last()),
            pieces(region.take(i as int)).len() > 0,
        decreases len - i,
    {
        let c = rest[i];
        let ghost before = pieces(region.take(i as int));
        let ghost after = pieces(region.take(i + 1));
        proof {
            assert(region.take(i + 1).drop_last() =~= region.take(i as int));
            assert(region.take(i + 1).last() == c);
            lemma_pieces_nonempty(region.take(i + 1));
        }
        if c == 0 {
            take_in(&mut vars, &piece);
            piece = Vec::new();
            assert(after.drop_last() =~= before);
            assert(piece@ =~= after.last());
        } else {
            piece.push(c);
            assert(after.drop_last() =~= before.drop_last());
        }
        i = i + 1;
    }
    assert(region.take(len as int) =~= region);
    take_in(&mut vars, &piece);
    if vars.len() == 0 {
        return Err("capture produced no environment entries".to_owned());
    }
    Ok(vars)
}

proof fn lemma_encoded_nonempty(s: Seq<char>)
    requires
        s.len() > 0,
    ensures
        encode_utf8(s).len() > 0,
{
    vstd::utf8::encode_utf8_decode_utf8(s);
    if encode_utf8(s).len() == 0 {
        assert(encode_utf8(s) =~= encode_utf8(Seq::<char>::empty()));
        vstd::utf8::encode_utf8_decode_utf8(Seq::<char>::empty());
    }
}

/// The environment that the login shell printed, given how it ended.
pub open spec fn is_captured(
    success: bool,
    status: Seq<char>,
    stdout: Seq<u8>,
    begin: Seq<char>,
    end: Seq<char>,
    r: Result<EnvMap, String>,
) -> bool {
    let read = if success {
        marked_env(stdout, encode_utf8(begin), encode_utf8(end))
    } else {
        Err("login-env capture shell exited with "@ + status)
    };
    match r {
        Ok(m) => read == Ok::<Map<Seq<char>, Seq<char>>, Seq<char>>(m@),
        Err(e) => read == Err::<Map<Seq<char>, Seq<char>>, Seq<char>>(e@),
    }
}

/// The environment that the login shell printed, given how it ended.
pub fn captured_env(success: bool, status: &str, stdout: &[u8], begin: &str, end: &str) -> (r: Result<
    EnvMap,
    String,
>)
    requires
        begin@.len() > 0,
        end@.len() > 0,
    ensures
        is_captured(success, status@, stdout@, begin@, end@, r),
{
    if !success {
        let mut m = "login-env capture shell exited with ".to_owned();
        m.append(status);
        return Err(m);
    }
    parse_marked_env(stdout, begin, end)
}

/// A variable as a shell prints it for the capture.
pub open spec fn entry(row: (Seq<char>, Seq<char>)) -> Seq<u8> {
    encode_utf8(row.0).push(0x3d) + encode_utf8(row.1)
}

/// Variables as a shell prints them for the capture, each with a NUL byte behind it.
pub open spec fn printed(rows: Seq<(Seq<char>, Seq<char>)>) -> Seq<u8>
    decreases rows.len(),
{
    if rows.len() == 0 {
        seq![]
    } else {
        (printed(rows.drop_last()) + entry(rows.last())).push(0)
    }
}

/// The variables that the rows set, the last of a name counting.
pub open spec fn rows_set(rows: Seq<(Seq<char>, Seq<char>)>) -> Map<Seq<char>, Seq<char>>
    decreases rows.len(),
{
    if rows.len() == 0 {
        Map::empty()
    } else {
        rows_set(rows.drop_last()).insert(rows.last().0, rows.last().1)
    }
}

/// A row that an environment can hold: it has a name, without `=`, and neither the name nor the value
/// holds a NUL.
pub open spec fn can_stand(row: (Seq<char>, Seq<char>)) -> bool {
    &&& row.0.len() > 0
    &&& !encode_utf8(row.0).contains(0x3d)
    &&& !encode_utf8(row.0).contains(0)
    &&& !encode_utf8(row.1).contains(0)
}

proof fn lemma_pieces_go_on(s: Seq<u8>, p: Seq<u8>)
    requires
        !p.contains(0),
    ensures
        pieces(s + p) == pieces(s).drop_last().push(pieces(s).last() + p),
    decreases p.len(),
{
    lemma_pieces_nonempty(s);
    if p.len() == 0 {
        assert(s + p =~= s);
        assert(pieces(s).last() + p =~= pieces(s).last());
        assert(pieces(s).drop_last().push(pieces(s).last()) =~= pieces(s));
    } else {
        assert(p.contains(p.last()));
        assert forall|x: u8| p.drop_last().contains(x) implies p.contains(x) by {
            let k = choose|k: int| 0 <= k < p.drop_last().len() && p.drop_last()[k] == x;
            assert(p[k] == x);
        }
        lemma_pieces_go_on(s, p.drop_last());
        assert((s + p).drop_last() =~= s + p.drop_last());
        assert((s + p).last() == p.last());
        let before = pieces(s + p.drop_last());
        assert(before.drop_last() =~= pieces(s).drop_last());
        assert(before.last().push(p.last()) =~= pieces(s).last() + p);
    }
}

proof fn lemma_entry_is_read_back(row: (Seq<char>, Seq<char>))
    requires
        can_stand(row),
    ensures
        variable(entry(row)) == Some(row),
        !entry(row).contains(0),
{
    let k = encode_utf8(row.0);
    let v = encode_utf8(row.1);
    let e = entry(row);
    lemma_encoded_nonempty(row.0);
    assert(e.take(k.len() as int) =~= k);
    lemma_equals_at(e, k, 0);
    assert(e.skip(k.len() as int + 1) =~= v);
    vstd::utf8::encode_utf8_valid_utf8(row.0);
    vstd::utf8::encode_utf8_valid_utf8(row.1);
    vstd::utf8::encode_utf8_decode_utf8(row.0);
    vstd::utf8::encode_utf8_decode_utf8(row.1);
    if e.contains(0) {
        let i = choose|i: int| 0 <= i < e.len() && e[i] == 0;
        if i < k.len() {
            assert(k.contains(k[i]));
        } else if i > k.len() {
            assert(v.contains(v[i - k.len() - 1]));
        }
    }
}

proof fn lemma_equals_at(e: Seq<u8>, k: Seq<u8>, from: int)
    requires
        0 <= from <= k.len() < e.len(),
        e.take(k.len() as int) == k,
        !k.contains(0x3d),
        e[k.len() as int] == 0x3d,
    ensures
        equals_at(e, from) == Some(k.len() as int),
    decreases k.len() - from,
{
    if from < k.len() {
        assert(k.contains(k[from]));
        assert(e.take(k.len() as int)[from] == e[from]);
        lemma_equals_at(e, k, from + 1);
    }
}

proof fn lemma_printed_is_read_back(rows: Seq<(Seq<char>, Seq<char>)>)
    requires
        forall|i: int| 0 <= i < rows.len() ==> can_stand(#[trigger] rows[i]),
    ensures
        pieces(printed(rows)).last() == Seq::<u8>::empty(),
        variables(pieces(printed(rows))) == rows_set(rows),
        rows.len() > 0 ==> rows_set(rows).dom().len() > 0,
        rows_set(rows).dom().finite(),
    decreases rows.len(),
{
    lemma_pieces_nonempty(printed(rows));
    if rows.len() == 0 {
        let all = pieces(printed(rows));
        assert(all =~= seq![seq![]]);
        assert(variable(all.last()) is None);
        assert(all.drop_last() =~= seq![]);
        assert(variables(all.drop_last()) == Map::<Seq<char>, Seq<char>>::empty());
    } else {
        let before = printed(rows.drop_last());
        let e = entry(rows.last());
        assert(rows.last() == rows[rows.len() - 1]);
        lemma_printed_is_read_back(rows.drop_last());
        lemma_entry_is_read_back(rows.last());
        lemma_pieces_nonempty(before);
        lemma_pieces_go_on(before, e);
        let all = pieces(printed(rows));
        assert(printed(rows).drop_last() =~= before + e);
        assert(all == pieces(before + e).push(seq![]));
        assert(pieces(before).last() + e =~= e);
        assert(all.drop_last() =~= pieces(before).drop_last().push(e));
        assert(all.drop_last().drop_last() =~= pieces(before).drop_last());
        // An empty piece sets nothing.
        assert(variable(Seq::<u8>::empty()) is None);
        assert(all.last() =~= Seq::<u8>::empty());
        assert(variables(pieces(before)) == variables(pieces(before).drop_last()));
        assert(variables(all.drop_last()) == rows_set(rows));
        assert(rows_set(rows).dom().contains(rows.last().0));
    }
}

/// What a shell prints between the marks is what is read, whatever start-up files print before and
/// after. Values may hold anything but NUL, so also line breaks. The marks stand nowhere else before
/// their own place: they hold bytes of chance for that.
pub proof fn law_a_printed_environment_is_read_back(
    noise: Seq<u8>,
    begin: Seq<u8>,
    rows: Seq<(Seq<char>, Seq<char>)>,
    end: Seq<u8>,
    more: Seq<u8>,
)
    requires
        rows.len() > 0,
        forall|i: int| 0 <= i < rows.len() ==> can_stand(#[trigger] rows[i]),
        found(noise + begin + printed(rows) + end + more, begin, 0) == Some(noise.len() as int),
        found(printed(rows) + end + more, end, 0) == Some(printed(rows).len() as int),
    ensures
        marked_env(noise + begin + printed(rows) + end + more, begin, end) == Ok::<
            Map<Seq<char>, Seq<char>>,
            Seq<char>,
        >(rows_set(rows)),
{
    let out = noise + begin + printed(rows) + end + more;
    let rest = out.skip(noise.len() as int + begin.len());
    assert(rest =~= printed(rows) + end + more);
    assert(rest.take(printed(rows).len() as int) =~= printed(rows));
    lemma_printed_is_read_back(rows);
}

/// The names that the daemon gives a value of its own in every pane.
pub open spec fn is_set_anew(k: Seq<char>) -> bool {
    k == "TERM"@ || k == "COLORTERM"@ || k == "PATH"@ || k == "SHELL"@
}

proof fn lemma_layers(
    captured: Option<Map<Seq<char>, Seq<char>>>,
    daemon: Map<Seq<char>, Seq<char>>,
    exe_dir: Option<Seq<char>>,
    shell: Seq<char>,
)
    ensures
        ({
            let got = resolved_env(captured, daemon, exe_dir, shell);
            &&& got.dom().contains("TERM"@) && got["TERM"@] == value_or(
                daemon,
                "TERM"@,
                "xterm-256color"@,
            )
            &&& got.dom().contains("COLORTERM"@) && got["COLORTERM"@] == value_or(
                daemon,
                "COLORTERM"@,
                "truecolor"@,
            )
        }),
        !is_artefact("PATH"@) && !is_own("PATH"@),
        "PATH"@ != "TERM"@ && "PATH"@ != "COLORTERM"@ && "PATH"@ != "SHELL"@,
{
    reveal_strlit("PWD");
    reveal_strlit("OLDPWD");
    reveal_strlit("SHLVL");
    reveal_strlit("_");
    reveal_strlit("COLUMNS");
    reveal_strlit("LINES");
    reveal_strlit("TERMCAP");
    reveal_strlit("CLOWDER_LOGIN_ENV_CAPTURE");
    reveal_strlit("TERM");
    reveal_strlit("COLORTERM");
    reveal_strlit("PATH");
    reveal_strlit("SHELL");
    reveal_strlit("CLOWDER_");
    assert("CLOWDER_"@[0] == 'C' && "CLOWDER_"@[1] == 'L');
    assert("COLORTERM"@[1] == 'O' && "TERM"@[0] == 'T' && "PATH"@[0] == 'P' && "SHELL"@[0] == 'S');
    assert("PATH"@.len() == 4);
    assert("CLOWDER_"@.len() == 8);
    assert("TERMCAP"@.len() == 7 && "COLUMNS"@.len() == 7 && "OLDPWD"@.len() == 6);
}

/// Of every other variable a pane has what the login shell has, or the daemon where nothing was
/// captured: the same value, and none where that has none.
pub proof fn law_a_pane_has_what_the_login_shell_has(
    captured: Option<Map<Seq<char>, Seq<char>>>,
    daemon: Map<Seq<char>, Seq<char>>,
    exe_dir: Option<Seq<char>>,
    shell: Seq<char>,
    k: Seq<char>,
)
    requires
        !is_set_anew(k),
        !"CLOWDER_"@.is_prefix_of(k),
        k != "PWD"@ && k != "OLDPWD"@ && k != "SHLVL"@ && k != "_"@ && k != "COLUMNS"@ && k != "LINES"@
            && k != "TERMCAP"@,
    ensures
        ({
            let got = resolved_env(captured, daemon, exe_dir, shell);
            &&& captured matches Some(c) ==> (got.dom().contains(k) <==> c.dom().contains(k)) && (
            c.dom().contains(k) ==> got[k] == c[k])
            &&& captured is None ==> (got.dom().contains(k) <==> daemon.dom().contains(k)) && (
            daemon.dom().contains(k) ==> got[k] == daemon[k])
        }),
{
    assert(k != "CLOWDER_LOGIN_ENV_CAPTURE"@) by {
        reveal_strlit("CLOWDER_LOGIN_ENV_CAPTURE");
        reveal_strlit("CLOWDER_");
        assert("CLOWDER_"@ =~= "CLOWDER_LOGIN_ENV_CAPTURE"@.take(8));
    }
}

/// What describes the shell that was asked reaches no pane: where it stood, how deep it was nested,
/// how large its window was, and that it was asked.
pub proof fn law_what_describes_the_asked_shell_stays_with_it(
    captured: Option<Map<Seq<char>, Seq<char>>>,
    daemon: Map<Seq<char>, Seq<char>>,
    exe_dir: Option<Seq<char>>,
    shell: Seq<char>,
)
    ensures
        ({
            let got = resolved_env(captured, daemon, exe_dir, shell).dom();
            &&& !got.contains("PWD"@) && !got.contains("OLDPWD"@)
            &&& !got.contains("SHLVL"@) && !got.contains("_"@)
            &&& !got.contains("COLUMNS"@) && !got.contains("LINES"@)
            &&& !got.contains("TERMCAP"@) && !got.contains("CLOWDER_LOGIN_ENV_CAPTURE"@)
        }),
{
    law_artefacts_reach_no_pane(captured, daemon, exe_dir, shell, "PWD"@);
    law_artefacts_reach_no_pane(captured, daemon, exe_dir, shell, "OLDPWD"@);
    law_artefacts_reach_no_pane(captured, daemon, exe_dir, shell, "SHLVL"@);
    law_artefacts_reach_no_pane(captured, daemon, exe_dir, shell, "_"@);
    law_artefacts_reach_no_pane(captured, daemon, exe_dir, shell, "COLUMNS"@);
    law_artefacts_reach_no_pane(captured, daemon, exe_dir, shell, "LINES"@);
    law_artefacts_reach_no_pane(captured, daemon, exe_dir, shell, "TERMCAP"@);
    law_artefacts_reach_no_pane(captured, daemon, exe_dir, shell, "CLOWDER_LOGIN_ENV_CAPTURE"@);
}

/// The terminal of a pane is the daemon's, whatever the login shell took itself to run in: two
/// captures make no difference to it, and a daemon without one has a terminal of many colours.
pub proof fn law_the_terminal_is_the_daemons(
    captured: Option<Map<Seq<char>, Seq<char>>>,
    daemon: Map<Seq<char>, Seq<char>>,
    exe_dir: Option<Seq<char>>,
    shell: Seq<char>,
)
    ensures
        ({
            let got = resolved_env(captured, daemon, exe_dir, shell);
            &&& got.dom().contains("TERM"@) && got.dom().contains("COLORTERM"@)
            &&& daemon.dom().contains("TERM"@) ==> got["TERM"@] == daemon["TERM"@]
            &&& daemon.dom().contains("COLORTERM"@) ==> got["COLORTERM"@] == daemon["COLORTERM"@]
            &&& !daemon.dom().contains("TERM"@) ==> got["TERM"@] == "xterm-256color"@
            &&& !daemon.dom().contains("COLORTERM"@) ==> got["COLORTERM"@] == "truecolor"@
        }),
{
    lemma_layers(captured, daemon, exe_dir, shell);
}

/// A search path that the login shell has is the end of every pane's; where it has none, or an empty
/// one, the daemon's is. Nothing but the daemon's own directory ever stands before it, and that only
/// where the path does not name it.
pub proof fn law_the_search_path_is_kept(
    captured: Map<Seq<char>, Seq<char>>,
    daemon: Map<Seq<char>, Seq<char>>,
    exe_dir: Option<Seq<char>>,
    shell: Seq<char>,
    path: Seq<char>,
)
    requires
        path.len() > 0,
        (captured.dom().contains("PATH"@) && captured["PATH"@] == path) || ((
        !captured.dom().contains("PATH"@) || captured["PATH"@].len() == 0) && daemon.dom().contains(
            "PATH"@,
        ) && daemon["PATH"@] == path),
    ensures
        ({
            let got = resolved_env(Some(captured), daemon, exe_dir, shell);
            &&& got.dom().contains("PATH"@)
            &&& exe_dir is None ==> got["PATH"@] == path
            &&& exe_dir matches Some(dir) ==> {
                &&& on_path(path, dir) ==> got["PATH"@] == path
                &&& dir.len() > 0 && !on_path(path, dir) ==> got["PATH"@] == dir + seq![':'] + path
            }
        }),
{
    lemma_layers(Some(captured), daemon, exe_dir, shell);
    reveal_strlit(":");
    assert(":"@ =~= seq![':']);
}

/// The login shell is asked where that is wanted and never else: the shell that was resolved, as a login
/// shell that is interactive, in the home directory, with the variable that tells start-up files that they
/// run for this; and what it runs begins with printing the first mark and ends with printing the second.
pub proof fn law_how_the_login_shell_is_asked(
    wanted: bool,
    shell: Seq<char>,
    timeout_ms: u64,
    home: Option<Seq<char>>,
    p: Option<CaptureSpec>,
    begin: Seq<char>,
    end: Seq<char>,
    c: PaneCommand,
)
    requires
        is_capture(wanted, shell, timeout_ms, home, p),
        p is Some ==> p->0.is_asked_by(begin, end, c),
    ensures
        p is Some <==> wanted,
        wanted ==> {
            &&& p->0.timeout_ms == timeout_ms
            &&& c.program@ == shell
            &&& opt_text(c.cwd) == home
            &&& texts(c.args@).contains("-l"@) && texts(c.args@).contains("-i"@)
            &&& texts(c.args@).last() == "/usr/bin/printf %s '"@ + begin
                + "'; /usr/bin/env -0; /usr/bin/printf %s '"@ + end + "'"@
            &&& env_texts(c.env@).contains(("CLOWDER_LOGIN_ENV_CAPTURE"@, "1"@))
        },
{
    if wanted {
        assert(texts(c.args@)[0] == "-l"@);
        assert(texts(c.args@)[1] == "-i"@);
        assert(env_texts(c.env@)[0] == ("CLOWDER_LOGIN_ENV_CAPTURE"@, "1"@));
    }
}

/// Nothing that a shell printed before it failed counts.
pub proof fn law_a_failed_shell_captures_nothing(
    status: Seq<char>,
    stdout: Seq<u8>,
    begin: Seq<char>,
    end: Seq<char>,
    r: Result<EnvMap, String>,
)
    requires
        is_captured(false, status, stdout, begin, end, r),
    ensures
        r is Err,
{
}

} // verus!
