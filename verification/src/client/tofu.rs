//! Trust on first use: the certificate that a host once showed is the one that it must show again.

use vstd::prelude::*;

use crate::config::resolve;
use crate::config::vars::Vars;
use crate::path;
use crate::text;
use crate::text::{is_white, lemma_split_on_concat, lemma_split_on_none, split_on, texts, words};

verus! {

/// How a dial decides about a server's certificate.
#[derive(Debug, Clone, PartialEq, Eq)]
pub enum Trust {
    /// It must have this fingerprint.
    Pinned(String),
    /// It must be the one that the known hosts hold for `host`, and is recorded where they hold none.
    Tofu { host: String, known_hosts: String },
    /// Any will do: its fingerprint is only reported.
    Capture,
}

/// The file of the known hosts: lines of a host and a fingerprint.
pub open spec fn known_hosts_file(env: Vars) -> Seq<char> {
    path::joined(resolve::state_dir(env), "remote_known_hosts"@)
}

/// The file of the known hosts.
pub fn known_hosts_path(env: &Vars) -> (p: String)
    ensures
        p@ == known_hosts_file(*env),
{
    path::join(resolve::remote_state_dir(env).as_str(), "remote_known_hosts")
}

/// The fingerprint that the first line for `host` holds, from line `from` on.
pub open spec fn known_from(lines: Seq<Seq<char>>, host: Seq<char>, from: int) -> Option<Seq<char>>
    decreases lines.len() - from,
{
    if from < 0 || from >= lines.len() {
        None
    } else {
        let w = words(lines[from]);
        if w.len() >= 2 && w[0] == host {
            Some(w[1])
        } else {
            known_from(lines, host, from + 1)
        }
    }
}

/// The fingerprint that the known hosts hold for `host`.
pub open spec fn known(content: Seq<char>, host: Seq<char>) -> Option<Seq<char>> {
    known_from(split_on(content, '\n'), host, 0)
}

/// The known hosts with a line for `host` behind them.
pub open spec fn recorded(content: Seq<char>, host: Seq<char>, fp: Seq<char>) -> Seq<char> {
    let before = if content.len() > 0 && content.last() != '\n' {
        content.push('\n')
    } else {
        content
    };
    before + host + " "@ + fp + "\n"@
}

/// What came of looking a certificate up.
#[derive(Debug, PartialEq, Eq)]
pub enum Verdict {
    /// It is the one that is known.
    Trusted,
    /// The host is new: the known hosts become this.
    Record(String),
    /// It is another one.
    Refused(String),
}

/// The message for a certificate that changed.
pub open spec fn changed_message(
    host: Seq<char>,
    known_fp: Seq<char>,
    fp: Seq<char>,
    path: Seq<char>,
) -> Seq<char> {
    "REMOTE DAEMON IDENTIFICATION HAS CHANGED for "@ + host + ": known "@ + known_fp + ", got "@ + fp
        + ". If you rotated the daemon cert, remove the line from "@ + path
        + "; otherwise this may be a MITM."@
}

/// What comes of looking a certificate up.
pub open spec fn is_verdict(
    content: Seq<char>,
    path: Seq<char>,
    host: Seq<char>,
    fp: Seq<char>,
    v: Verdict,
) -> bool {
    match known(content, host) {
        Some(k) => if k == fp {
            v is Trusted
        } else {
            v matches Verdict::Refused(m) && m@ == changed_message(host, k, fp, path)
        },
        None => v matches Verdict::Record(c) && c@ == recorded(content, host, fp),
    }
}

/// Look up the certificate `fp` that `host` shows in the known hosts, which stand at `path` and hold
/// `content`.
pub fn check(content: &str, path: &str, host: &str, fp: &str) -> (v: Verdict)
    ensures
        is_verdict(content@, path@, host@, fp@, v),
{
    let lines = text::split(content, '\n');
    let mut i: usize = 0;
    while i < lines.len()
        invariant
            i <= lines.len(),
            texts(lines@) == split_on(content@, '\n'),
            known(content@, host@) == known_from(texts(lines@), host@, i as int),
        decreases lines.len() - i,
    {
        assert(texts(lines@)[i as int] == lines@[i as int]@);
        let w = text::split_words(lines[i].as_str());
        assert(w@.len() == words(lines@[i as int]@).len());
        if w.len() >= 2 {
            assert(w@[0]@ == texts(w@)[0]);
            assert(w@[1]@ == texts(w@)[1]);
            if text::same(w[0].as_str(), host) {
                if text::same(w[1].as_str(), fp) {
                    return Verdict::Trusted;
                }
                let mut m = "REMOTE DAEMON IDENTIFICATION HAS CHANGED for ".to_owned();
                m.append(host);
                m.append(": known ");
                m.append(w[1].as_str());
                m.append(", got ");
                m.append(fp);
                m.append(". If you rotated the daemon cert, remove the line from ");
                m.append(path);
                m.append("; otherwise this may be a MITM.");
                return Verdict::Refused(m);
            }
        }
        i = i + 1;
    }
    let mut c = content.to_owned();
    let v = text::chars_of(content);
    if v.len() > 0 && v[v.len() - 1] != '\n' {
        c.push('\n');
    }
    c.append(host);
    c.append(" ");
    c.append(fp);
    c.append("\n");
    Verdict::Record(c)
}

/// A text that stands in a line of the known hosts as one word.
pub open spec fn is_word(s: Seq<char>) -> bool {
    s.len() > 0 && forall|k: int| 0 <= k < s.len() ==> !is_white(#[trigger] s[k])
}

/// A line of a host and a fingerprint is read as those two words.
proof fn lemma_line_words(host: Seq<char>, fp: Seq<char>)
    requires
        is_word(host),
        is_word(fp),
    ensures
        words(host + " "@ + fp) == seq![host, fp],
        forall|k: int| 0 <= k < (host + " "@ + fp).len() ==> (host + " "@ + fp)[k] != '\n',
{
    reveal_strlit(" ");
    let empty = Seq::<char>::empty();
    text::lemma_word_scan_extends(empty, host);
    assert(empty + host =~= host);
    let spaced = host + " "@;
    assert(spaced.drop_last() =~= host);
    assert(text::word_scan(spaced) == (seq![host], empty));
    text::lemma_word_scan_extends(spaced, fp);
    assert(empty + fp =~= fp);
    assert(words(spaced + fp) =~= seq![host, fp]);
}

/// Lines behind others do not matter where the others hold the host.
proof fn lemma_known_from_prefix(lines: Seq<Seq<char>>, more: Seq<Seq<char>>, host: Seq<char>, from: int)
    requires
        0 <= from <= lines.len(),
    ensures
        known_from(lines + more, host, from) == (match known_from(lines, host, from) {
            Some(fp) => Some(fp),
            None => known_from(lines + more, host, lines.len() as int),
        }),
    decreases lines.len() - from,
{
    if from < lines.len() {
        assert((lines + more)[from] == lines[from]);
        lemma_known_from_prefix(lines, more, host, from + 1);
    }
}

/// The lines after a record: those before, perhaps an empty one less, the new one, and an empty one.
proof fn lemma_recorded_lines(content: Seq<char>, host: Seq<char>, fp: Seq<char>, other: Seq<char>)
    requires
        is_word(host),
        is_word(fp),
    ensures
        known(recorded(content, host, fp), other) == (match known(content, other) {
            Some(k) => Some(k),
            None => if other == host {
                Some(fp)
            } else {
                None
            },
        }),
{
    reveal_strlit("\n");
    let line = host + " "@ + fp;
    lemma_line_words(host, fp);
    let empty = Seq::<char>::empty();
    assert(words(empty) =~= seq![]);
    lemma_split_on_none(line, '\n');
    lemma_split_on_none(empty, '\n');
    lemma_split_on_concat(line, empty, '\n');
    assert(line.push('\n') + empty =~= line + "\n"@);
    let tail = seq![line, empty];
    assert(split_on(line + "\n"@, '\n') =~= tail);
    let all = recorded(content, host, fp);
    if content.len() == 0 {
        assert(all =~= line + "\n"@);
        assert(split_on(content, '\n') =~= seq![empty]);
        assert(known_from(seq![empty], other, 0) == known_from(seq![empty], other, 1));
        assert(known_from(tail, other, 2) is None);
        assert(known_from(tail, other, 1) == known_from(tail, other, 2));
    } else {
        let body = if content.last() == '\n' {
            content.drop_last()
        } else {
            content
        };
        assert(all =~= body.push('\n') + (line + "\n"@));
        lemma_split_on_concat(body, line + "\n"@, '\n');
        let lines = split_on(body, '\n');
        assert(split_on(all, '\n') == lines + tail);
        lemma_known_from_prefix(lines, tail, other, 0);
        let n = lines.len() as int;
        assert((lines + tail)[n] == line);
        assert((lines + tail)[n + 1] == empty);
        assert(known_from(lines + tail, other, n + 2) is None);
        assert(known_from(lines + tail, other, n + 1) == known_from(lines + tail, other, n + 2));
        if content.last() == '\n' {
            assert(body.push('\n') =~= content);
            assert(split_on(content, '\n') == lines.push(empty));
            assert(lines.push(empty) =~= lines + seq![empty]);
            lemma_known_from_prefix(lines, seq![empty], other, 0);
            assert((lines + seq![empty])[n] == empty);
            assert(known_from(lines + seq![empty], other, n + 1) is None);
        }
    }
}

/// What is recorded for a host is what is known of it from then on: the same certificate is trusted,
/// any other is refused. `host` and `fp` hold no white space, as checked addresses and fingerprints
/// never do.
pub proof fn law_recorded_certificate_is_known(content: Seq<char>, host: Seq<char>, fp: Seq<char>)
    requires
        is_word(host),
        is_word(fp),
        known(content, host) is None,
    ensures
        known(recorded(content, host, fp), host) == Some(fp),
{
    lemma_recorded_lines(content, host, fp, host);
}

/// Recording one host changes nothing of what is known of another.
pub proof fn law_recording_keeps_other_hosts(
    content: Seq<char>,
    host: Seq<char>,
    fp: Seq<char>,
    other: Seq<char>,
)
    requires
        is_word(host),
        is_word(fp),
        other != host,
    ensures
        known(recorded(content, host, fp), other) == known(content, other),
{
    lemma_recorded_lines(content, host, fp, other);
}

/// What comes of a fingerprint that is shown under a pin.
pub open spec fn is_pin_checked(pinned: Seq<char>, fp: Seq<char>, r: Result<(), String>) -> bool {
    match r {
        Ok(_) => pinned == fp,
        Err(e) => pinned != fp && e@ == "certificate fingerprint mismatch: pinned "@ + pinned + ", got "@
            + fp,
    }
}

/// A fingerprint shown under a pin is the pinned one, or it is refused.
pub fn check_pin(pinned: &str, fp: &str) -> (r: Result<(), String>)
    ensures
        is_pin_checked(pinned@, fp@, r),
{
    if text::same(pinned, fp) {
        return Ok(());
    }
    let mut m = "certificate fingerprint mismatch: pinned ".to_owned();
    m.append(pinned);
    m.append(", got ");
    m.append(fp);
    Err(m)
}

/// Trust on first use: a host that shows a certificate for the first time is recorded, and from then on that
/// certificate is trusted and any other refused. What was known of other hosts stays known.
pub proof fn law_trust_on_first_use(
    content: Seq<char>,
    path: Seq<char>,
    host: Seq<char>,
    fp: Seq<char>,
    first: Verdict,
    again: Seq<char>,
    second: Verdict,
    other: Seq<char>,
)
    requires
        is_word(host),
        is_word(fp),
        other != host,
        is_verdict(content, path, host, fp, first),
        first matches Verdict::Record(c) && is_verdict(c@, path, host, again, second),
    ensures
        second is Trusted <==> again == fp,
        second is Refused <==> again != fp,
        first matches Verdict::Record(c) && known(c@, other) == known(content, other) && content.is_prefix_of(
            c@,
        ),
{
    law_recorded_certificate_is_known(content, host, fp);
    law_recording_keeps_other_hosts(content, host, fp, other);
    if let Verdict::Record(c) = first {
        assert(content =~= c@.take(content.len() as int));
    }
}

/// A certificate is trusted only where it is the one that is known, and is recorded only for a host of which
/// none is: a known host is never recorded anew.
pub proof fn law_a_known_host_is_never_recorded_anew(
    content: Seq<char>,
    path: Seq<char>,
    host: Seq<char>,
    fp: Seq<char>,
    v: Verdict,
)
    requires
        is_verdict(content, path, host, fp, v),
    ensures
        v is Trusted <==> known(content, host) == Some(fp),
        v is Record <==> known(content, host) is None,
        v is Refused <==> known(content, host) is Some && known(content, host) != Some(fp),
{
}

/// Under one pin one fingerprint passes, the pinned one.
pub proof fn law_a_pin_lets_one_certificate_pass(
    pinned: Seq<char>,
    fp: Seq<char>,
    r: Result<(), String>,
    other: Seq<char>,
    s: Result<(), String>,
)
    requires
        is_pin_checked(pinned, fp, r),
        is_pin_checked(pinned, other, s),
    ensures
        r is Ok <==> fp == pinned,
        r is Ok && s is Ok ==> fp == other,
{
}

/// What stands behind the host and the fingerprint on a line is of no account: the second word is what is
/// known of the host.
pub proof fn law_a_line_may_go_on(host: Seq<char>, fp: Seq<char>, more: Seq<char>)
    requires
        is_word(host),
        is_word(fp),
        !more.contains('\n'),
    ensures
        known(host.push(' ') + (fp.push(' ') + more), host) == Some(fp),
{
    let rest = fp.push(' ') + more;
    let line = host.push(' ') + rest;
    text::law_what_is_white(' ');
    text::law_what_is_white('\n');
    text::law_white_space_parts_the_words(host, ' ', rest);
    text::law_white_space_parts_the_words(fp, ' ', more);
    let w = words(line);
    assert(w =~= seq![host] + (seq![fp] + words(more)));
    assert(w[0] == host && w[1] == fp);
    assert forall|k: int| 0 <= k < line.len() implies line[k] != '\n' by {
        if k < host.len() {
            assert(line[k] == host[k]);
        } else if host.len() < k <= host.len() + fp.len() {
            assert(line[k] == fp[k - host.len() - 1]);
        } else if k > host.len() + 1 + fp.len() {
            assert(line[k] == more[k - host.len() - fp.len() - 2]);
            assert(more.contains(more[k - host.len() - fp.len() - 2]));
        }
    }
    text::lemma_split_on_none(line, '\n');
    assert(split_on(line, '\n')[0] == line);
}

} // verus!
