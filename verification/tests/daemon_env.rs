use clowder::daemon::env::EnvMap;
use clowder::daemon::login_env::{
    capture_artefacts, capture_command, capture_marks, capture_plan, capture_script, captured_env, nonce,
    nonce_of, parse_marked_env, PaneEnv, CAPTURE_MARKER_VAR, DEFAULT_COLORTERM, DEFAULT_TERM,
};

fn map(pairs: &[(&str, &str)]) -> EnvMap {
    let rows: Vec<(String, String)> =
        pairs.iter().map(|(k, v)| (k.to_string(), v.to_string())).collect();
    EnvMap::from_rows(&rows)
}

fn framed(begin: &str, end: &str, entries: &[&str]) -> Vec<u8> {
    let mut out = begin.as_bytes().to_vec();
    for e in entries {
        out.extend_from_slice(e.as_bytes());
        out.push(0);
    }
    out.extend_from_slice(end.as_bytes());
    out
}

#[test]
fn parses_a_clean_dump() {
    let out = framed("BEGIN1", "END1", &["PATH=/a:/b", "HOME=/home/rc"]);
    let env = parse_marked_env(&out, "BEGIN1", "END1").unwrap();
    assert_eq!(env.get("PATH").unwrap(), "/a:/b");
    assert_eq!(env.get("HOME").unwrap(), "/home/rc");
}

#[test]
fn discards_rc_noise_on_both_sides_including_a_decoy_marker() {
    let mut out = b"Welcome to zsh!\nnvm: using v20\nBEGIN_OTHERNONCE PATH=/junk\n".to_vec();
    out.extend_from_slice(&framed("BEGIN_abc123", "END_abc123", &["PATH=/real"]));
    out.extend_from_slice(b"\nGoodbye\n");
    let env = parse_marked_env(&out, "BEGIN_abc123", "END_abc123").unwrap();
    assert_eq!(env.get("PATH").unwrap(), "/real");
    assert_eq!(env.len(), 1);
}

#[test]
fn keeps_values_containing_equals_and_newlines() {
    let out = framed("B", "E", &["BASH_FUNC_x%%=() {\nPATH=/injected\n}", "OPTS=a=b=c"]);
    let env = parse_marked_env(&out, "B", "E").unwrap();
    assert_eq!(env.get("OPTS").unwrap(), "a=b=c");
    assert_eq!(env.get("BASH_FUNC_x%%").unwrap(), "() {\nPATH=/injected\n}");
    assert_eq!(env.get("PATH"), None, "an embedded newline must not inject a record");
}

#[test]
fn skips_malformed_entries_but_keeps_the_rest() {
    let mut out = b"B".to_vec();
    out.extend_from_slice(b"no-equals-sign\0");
    out.extend_from_slice(b"=novalue\0");
    out.extend_from_slice(b"BAD=\xff\xfe\0");
    out.extend_from_slice(b"GOOD=yes\0");
    out.extend_from_slice(b"E");
    let env = parse_marked_env(&out, "B", "E").unwrap();
    assert_eq!(env.get("GOOD").unwrap(), "yes");
    assert_eq!(env.len(), 1);
}

#[test]
fn rejects_missing_markers_and_an_empty_region() {
    let out = framed("B", "E", &["PATH=/a"]);
    assert!(parse_marked_env(&out, "NOPE", "E").is_err());
    assert!(parse_marked_env(&out, "B", "NOPE").is_err());
    assert!(parse_marked_env(b"BE", "B", "E").is_err());
    assert!(parse_marked_env(b"", "B", "E").is_err());
}

#[test]
fn capture_script_dumps_between_the_markers() {
    let s = capture_script("BEGIN_x", "END_x");
    let begin = s.find("BEGIN_x").unwrap();
    let dump = s.find("/usr/bin/env -0").unwrap();
    let end = s.find("END_x").unwrap();
    assert!(begin < dump && dump < end, "markers must bracket the dump: {s}");
    assert!(s.contains("/usr/bin/printf"), "printf must be absolute (aliases expand under -i)");
}

#[test]
fn captured_path_beats_the_daemons() {
    let env = PaneEnv::resolve(
        Some(map(&[("PATH", "/opt/homebrew/bin:/usr/bin")])),
        map(&[("PATH", "/usr/bin:/bin")]),
        None,
        "/bin/zsh",
    );
    assert_eq!(env.get("PATH").unwrap(), "/opt/homebrew/bin:/usr/bin");
}

#[test]
fn an_absent_or_empty_captured_path_falls_back_to_the_daemons() {
    let daemon = map(&[("PATH", "/usr/bin:/bin")]);
    for captured in [map(&[]), map(&[("PATH", "")])] {
        let env = PaneEnv::resolve(Some(captured), daemon.copied(), None, "/bin/sh");
        assert_eq!(env.get("PATH").unwrap(), "/usr/bin:/bin");
    }
}

#[test]
fn the_exe_dir_is_prepended_exactly_once() {
    let exe = "/Apps/Clowder.app/Contents/MacOS";
    let env = PaneEnv::resolve(Some(map(&[("PATH", "/usr/bin")])), map(&[]), Some(exe), "/bin/sh");
    assert_eq!(env.get("PATH").unwrap(), "/Apps/Clowder.app/Contents/MacOS:/usr/bin");

    let already = map(&[("PATH", "/usr/bin:/Apps/Clowder.app/Contents/MacOS")]);
    let env = PaneEnv::resolve(Some(already), map(&[]), Some(exe), "/bin/sh");
    assert_eq!(env.get("PATH").unwrap(), "/usr/bin:/Apps/Clowder.app/Contents/MacOS");
}

#[test]
fn the_daemon_owns_the_clowder_namespace() {
    let env = PaneEnv::resolve(
        Some(map(&[("CLOWDER_SOCK", "/stale/clowder.sock"), ("EDITOR", "hx")])),
        map(&[("CLOWDER_SOCK", "/real/clowder.sock"), ("EDITOR", "vi")]),
        None,
        "/bin/sh",
    );
    assert_eq!(env.get("CLOWDER_SOCK").unwrap(), "/real/clowder.sock");
    assert_eq!(env.get("EDITOR").unwrap(), "hx");
}

#[test]
fn term_comes_from_the_daemon_never_the_capture() {
    let env = PaneEnv::resolve(
        Some(map(&[("TERM", "screen-256color")])),
        map(&[("TERM", "xterm-ghostty")]),
        None,
        "/bin/sh",
    );
    assert_eq!(env.get("TERM").unwrap(), "xterm-ghostty");

    let env = PaneEnv::resolve(Some(map(&[("TERM", "screen-256color")])), map(&[]), None, "/bin/sh");
    assert_eq!(env.get("TERM").unwrap(), DEFAULT_TERM);
}

#[test]
fn colorterm_comes_from_the_daemon_never_the_capture() {
    let env = PaneEnv::resolve(
        Some(map(&[("COLORTERM", "24bit")])),
        map(&[("COLORTERM", "truecolor")]),
        None,
        "/bin/sh",
    );
    assert_eq!(env.get("COLORTERM").unwrap(), "truecolor");

    let env = PaneEnv::resolve(Some(map(&[("COLORTERM", "24bit")])), map(&[]), None, "/bin/sh");
    assert_eq!(env.get("COLORTERM").unwrap(), DEFAULT_COLORTERM);
}

#[test]
fn capture_artefacts_never_reach_a_pane() {
    let artefacts = map(&[
        ("PWD", "/Users/rc"),
        ("OLDPWD", "/"),
        ("SHLVL", "2"),
        ("_", "/usr/bin/env"),
        ("COLUMNS", "80"),
        ("LINES", "24"),
        ("TERMCAP", "junk"),
        (CAPTURE_MARKER_VAR, "1"),
    ]);
    let env = PaneEnv::resolve(Some(artefacts.copied()), artefacts, None, "/bin/sh");
    for key in capture_artefacts() {
        assert_eq!(env.get(key), None, "{key} must not survive into a pane");
    }
}

#[test]
fn shell_is_forced_to_the_resolved_shell() {
    let env = PaneEnv::resolve(Some(map(&[("SHELL", "/bin/bash")])), map(&[]), None, "/bin/zsh");
    assert_eq!(env.get("SHELL").unwrap(), "/bin/zsh");

    let env = PaneEnv::resolve(Some(map(&[("PATH", "/usr/bin")])), map(&[]), None, "/bin/zsh");
    assert_eq!(env.get("SHELL").unwrap(), "/bin/zsh");
}

#[test]
fn no_capture_falls_back_to_the_daemons_environment() {
    let daemon = map(&[("PATH", "/usr/bin:/bin"), ("HOME", "/Users/rc"), ("PWD", "/tmp")]);
    let env = PaneEnv::resolve(None, daemon, None, "/bin/zsh");
    assert_eq!(env.get("PATH").unwrap(), "/usr/bin:/bin");
    assert_eq!(env.get("HOME").unwrap(), "/Users/rc");
    assert_eq!(env.get("PWD"), None);
    assert_eq!(env.get("SHELL").unwrap(), "/bin/zsh");
}

#[test]
fn an_environment_is_listed_in_the_order_of_its_names() {
    let mut m = map(&[("b", "2"), ("a", "1"), ("é", "4"), ("c", "3"), ("a", "5")]);
    let keys: Vec<&str> = m.entries().iter().map(|(k, _)| k.as_str()).collect();
    assert_eq!(keys, vec!["a", "b", "c", "é"]);
    assert_eq!(m.get("a"), Some("5"));
    m.remove("b");
    assert_eq!((m.get("b"), m.len()), (None, 3));
}

#[test]
fn what_a_pane_adds_wins_over_the_environment() {
    let env = PaneEnv::inherited(map(&[("HOME", "/h"), ("X", "old")]), None, "/bin/sh");
    let own = vec![("X".to_string(), "new".to_string()), ("Y".to_string(), "1".to_string())];
    let all = env.with_pane(&own);
    assert_eq!(all.get("X"), Some("new"));
    assert_eq!(all.get("Y"), Some("1"));
    assert_eq!(all.get("HOME"), Some("/h"));
    assert!(!env.is_empty());
    assert_eq!(env.len(), env.iter().len());
}

#[test]
fn a_capture_asks_a_login_shell() {
    let spec = capture_plan(true, "/bin/zsh", 5000, Some("/home/rc")).unwrap();
    let (begin, end) = capture_marks("00ff");
    assert_eq!(begin, "__CLOWDER_ENV_BEGIN_00ff__");
    assert_eq!(end, "__CLOWDER_ENV_END_00ff__");
    let c = capture_command(&spec, &begin, &end);
    assert_eq!(c.program, "/bin/zsh");
    assert_eq!(c.args, vec!["-l", "-i", "-c", capture_script(&begin, &end).as_str()]);
    assert_eq!(c.cwd.as_deref(), Some("/home/rc"));
    assert_eq!(c.env, vec![(CAPTURE_MARKER_VAR.to_string(), "1".to_string())]);
    assert!(capture_plan(false, "/bin/zsh", 5000, None).is_none());
}

#[test]
fn a_shell_that_fails_gives_no_environment() {
    let out = framed("B", "E", &["PATH=/a"]);
    assert_eq!(captured_env(true, "exit status: 0", &out, "B", "E").unwrap().get("PATH"), Some("/a"));
    let e = captured_env(false, "exit status: 3", &out, "B", "E").unwrap_err();
    assert!(e.contains("exit status: 3"), "{e}");
}

#[test]
fn a_nonce_is_random_hex() {
    assert_eq!(nonce_of(Some(&[0, 255])), "00ff");
    assert_eq!(nonce_of(None), "fallback");
    let a = nonce();
    let b = nonce();
    assert_eq!(a.len(), 16);
    assert!(a.chars().all(|c| c.is_ascii_hexdigit()));
    assert_ne!(a, b);
}

#[test]
fn survives_rc_noise_a_decoy_marker_and_multiline_values() {
    let (begin, end) = capture_marks("0123abcd");
    let mut out = b"Welcome! You have mail.\n".to_vec();
    out.extend_from_slice(
        b"__CLOWDER_ENV_BEGIN_deadbeef__ PATH=/decoy __CLOWDER_ENV_END_deadbeef__\n",
    );
    let multi = "MULTI=line one\nPATH=/injected\nline three";
    out.extend(framed(&begin, &end, &[multi, "PATH=/usr/bin"]));
    out.extend_from_slice(b"goodbye\n");
    let env = captured_env(true, "exit status: 0", &out, &begin, &end).unwrap();
    assert_eq!(env.get("MULTI"), Some("line one\nPATH=/injected\nline three"));
    assert_eq!(env.get("PATH"), Some("/usr/bin"));
}

#[test]
fn a_shell_that_prints_no_markers_is_an_error_not_an_empty_environment() {
    let (begin, end) = capture_marks("n");
    assert!(captured_env(true, "exit status: 0", b"", &begin, &end).is_err());
    assert!(captured_env(true, "exit status: 0", b"hello\n", &begin, &end).is_err());
}
