use clowder::client::agent_cli::{plan, profile_line, Action};
use clowder::client::cli::{parse_command, Command};
use clowder::client::forward::{
    backoff, dial_failure, forwarder_dir, forwarder_sockets, RemoteTarget,
};
use clowder::client::host_cli::plan_hosts;
use clowder::client::probe::{probe, ProbeAction, ProbeEvent, ProbeResult};
use clowder::client::remote_cli::parse_flags;
use clowder::client::session::{pump, reply, resize_msg, Awaiting, PumpAction, PumpEvent, Reply};
use clowder::client::target::resolve_target;
use clowder::client::tofu::{check, check_pin, known_hosts_path, Trust, Verdict};
use clowder::config::hosts::{HostEntry, HostRecord, HostSource};
use clowder::config::resolve::Config;
use clowder::config::vars::Vars;
use clowder::proto::{AgentProfileInfo, ClientToDaemon, ControlEvent, DaemonToClient, PaneId};

fn profile(id: &str, base: &str, name: &str, args: &str, builtin: bool) -> AgentProfileInfo {
    AgentProfileInfo {
        id: id.into(),
        base: base.into(),
        display_name: name.into(),
        enabled: true,
        args: args.into(),
        builtin,
    }
}

fn existing() -> Vec<AgentProfileInfo> {
    vec![
        profile("pilot", "pilot", "Pilot", "", true),
        profile("codex", "codex", "OpenAI Codex", "", true),
        profile("shell", "shell", "Shell", "", true),
        profile("opus", "pilot", "Pilot (Opus)", "--model opus", false),
    ]
}

fn words(s: &str) -> Vec<String> {
    s.split_whitespace().map(String::from).collect()
}

fn args(v: &[&str]) -> Vec<String> {
    v.iter().map(|s| s.to_string()).collect()
}

fn vars(pairs: &[(&str, &str)]) -> Vars {
    Vars { pairs: pairs.iter().map(|(k, v)| (k.to_string(), v.to_string())).collect() }
}

// Agent profiles on the command line.

#[test]
fn add_builds_a_profile_from_flags() {
    let a = words("add plan --base pilot --name Planner --args --permission-mode=plan");
    match plan(&a, &existing()).unwrap() {
        Action::Add(p) => {
            assert_eq!((p.id.as_str(), p.base.as_str()), ("plan", "pilot"));
            assert_eq!(p.display_name, "Planner");
            assert_eq!(p.args, "--permission-mode=plan");
            assert!(p.enabled);
        }
        other => panic!("expected Add, got {other:?}"),
    }
}

#[test]
fn add_defaults_the_display_name_to_the_id_and_honours_disabled() {
    match plan(&words("add plan --base shell --disabled"), &existing()).unwrap() {
        Action::Add(p) => {
            assert_eq!(p.display_name, "plan");
            assert!(!p.enabled);
            assert_eq!(p.args, "");
        }
        other => panic!("expected Add, got {other:?}"),
    }
}

#[test]
fn add_requires_a_base_and_a_valid_id_and_valid_args() {
    assert!(plan(&words("add plan"), &existing()).is_err(), "--base is required");
    let spaced = args(&["add", "has space", "--base", "pilot"]);
    let e = plan(&spaced, &existing()).unwrap_err();
    assert!(e.contains("letters") || e.contains("may only contain"), "must explain: {e}");
    let e = plan(&words("add p --base pilot --args {{nope}}"), &existing()).unwrap_err();
    assert!(e.contains("nope"), "args are validated before the daemon is dialled: {e}");
}

#[test]
fn add_rejects_a_base_that_is_not_a_builtin() {
    let e = plan(&words("add p --base emacs"), &existing()).unwrap_err();
    assert!(e.contains("emacs"), "must name the offender: {e}");
    assert!(e.contains("pilot") && e.contains("codex"), "must list the valid bases: {e}");
    assert!(plan(&words("add p --base opus"), &existing()).is_err());
}

#[test]
fn a_blank_display_name_is_refused_before_the_daemon_is_dialled() {
    for blank in ["", "   "] {
        let add = args(&["add", "p", "--base", "pilot", "--name", blank]);
        assert!(plan(&add, &existing()).is_err(), "add --name {blank:?} must be refused");

        let set = args(&["set", "opus", "--name", blank]);
        assert!(plan(&set, &existing()).is_err(), "set --name {blank:?} must be refused");
    }
}

#[test]
fn set_patches_only_the_flags_given() {
    match plan(&words("set opus --name Opus"), &existing()).unwrap() {
        Action::Update(p) => {
            assert_eq!(p.display_name, "Opus");
            assert_eq!(p.args, "--model opus", "an untouched field keeps its stored value");
            assert!(p.enabled);
        }
        other => panic!("expected Update, got {other:?}"),
    }
}

#[test]
fn enable_and_disable_flip_only_that_field() {
    match plan(&words("disable opus"), &existing()).unwrap() {
        Action::Update(p) => {
            assert!(!p.enabled);
            assert_eq!(p.args, "--model opus");
            assert_eq!(p.display_name, "Pilot (Opus)");
        }
        other => panic!("expected Update, got {other:?}"),
    }
    match plan(&words("enable opus"), &existing()).unwrap() {
        Action::Update(p) => assert!(p.enabled),
        other => panic!("expected Update, got {other:?}"),
    }
}

#[test]
fn set_and_rm_reject_an_unknown_id() {
    assert!(plan(&words("set ghost --name x"), &existing()).unwrap_err().contains("ghost"));
    assert!(plan(&words("rm ghost"), &existing()).unwrap_err().contains("ghost"));
}

#[test]
fn rm_refuses_a_builtin_locally_with_the_same_advice_as_the_daemon() {
    let e = plan(&words("rm pilot"), &existing()).unwrap_err();
    assert!(e.contains("built-in") && e.contains("disable"), "{e}");
}

#[test]
fn list_needs_no_id() {
    assert!(matches!(plan(&words("list"), &existing()).unwrap(), Action::List));
}

#[test]
fn list_rejects_an_unknown_flag_instead_of_ignoring_it() {
    let e = plan(&words("list --typo"), &existing()).unwrap_err();
    assert!(e.contains("unknown flag"), "{e}");
}

#[test]
fn an_unknown_subcommand_reports_usage() {
    assert!(plan(&words("frobnicate"), &existing()).unwrap_err().contains("usage"));
    assert!(plan(&[], &existing()).unwrap_err().contains("usage"));
}

#[test]
fn rm_of_a_user_profile_removes_it() {
    match plan(&words("rm opus"), &existing()).unwrap() {
        Action::Remove(id) => assert_eq!(id, "opus"),
        other => panic!("expected Remove, got {other:?}"),
    }
}

#[test]
fn a_profile_line_names_what_the_profile_is() {
    let line = profile_line(&existing()[3]);
    assert!(line.contains("opus") && line.contains("Pilot (Opus)"), "{line}");
}

// Flags.

#[test]
fn parses_positionals_and_both_flag_spellings() {
    let f = parse_flags(&args(&["add", "studio", "--address=h:1", "--tls", "--token", "t"])).unwrap();
    assert_eq!(f.positional(0), Some("add"));
    assert_eq!(f.positional(1), Some("studio"));
    assert_eq!(f.positional(2), None);
    assert_eq!(f.str("address"), Some("h:1"));
    assert_eq!(f.str("token"), Some("t"));
    assert!(f.bool("tls"));
    assert!(!f.bool("json"));
}

#[test]
fn a_flag_with_no_value_is_a_bool_even_before_a_positional() {
    let f = parse_flags(&args(&["--tls", "studio"])).unwrap();
    assert!(f.bool("tls"));
    assert_eq!(f.positional(0), Some("studio"));
}

#[test]
fn unknown_flags_are_rejected_loudly() {
    let f = parse_flags(&args(&["--tsl"])).unwrap();
    let err = f.reject_unknown(&["tls", "json"]).unwrap_err();
    assert!(err.contains("tsl"), "must echo the typo: {err}");
}

#[test]
fn tristate_reads_a_pair_of_opposing_flags() {
    let on = parse_flags(&args(&["--tls"])).unwrap();
    assert_eq!(on.tristate("tls", "no-tls").unwrap(), Some(true));
    let off = parse_flags(&args(&["--no-tls"])).unwrap();
    assert_eq!(off.tristate("tls", "no-tls").unwrap(), Some(false));
    let neither = parse_flags(&args(&[])).unwrap();
    assert_eq!(neither.tristate("tls", "no-tls").unwrap(), None);
    let both = parse_flags(&args(&["--tls", "--no-tls"])).unwrap();
    assert!(both.tristate("tls", "no-tls").is_err(), "contradictory flags must not pick one");
}

#[test]
fn a_bare_double_dash_flag_with_an_empty_name_is_an_error() {
    assert!(parse_flags(&args(&["--"])).is_err());
    assert!(parse_flags(&args(&["--=x"])).is_err());
}

// Commands.

fn command(words: &[&str]) -> Result<Command, String> {
    parse_command(&args(words), "pilot")
}

#[test]
fn commands_are_told_apart() {
    assert_eq!(command(&["attach", "7"]), Ok(Command::Attach { pane: 7 }));
    assert_eq!(command(&["7"]), Ok(Command::Attach { pane: 7 }));
    assert_eq!(command(&["project", "add", "/p"]), Ok(Command::ProjectAdd { path: "/p".into() }));
    assert_eq!(command(&["project", "list"]), Ok(Command::ProjectList));
    assert_eq!(command(&["project", "rm", "/p"]), Ok(Command::ProjectRemove { path: "/p".into() }));
    assert_eq!(command(&["agent", "list"]), Ok(Command::Agent { rest: vec!["list".into()] }));
    assert_eq!(command(&["remote-host"]), Ok(Command::RemoteHost));
    assert_eq!(command(&["remote-token"]), Ok(Command::RemoteToken));
    assert_eq!(command(&["remote", "list"]), Ok(Command::Remote { rest: vec!["list".into()] }));
    assert_eq!(command(&["connect"]), Ok(Command::Connect { rest: vec![] }));
}

#[test]
fn a_spawn_without_an_adapter_gets_the_default_one() {
    let spawn = |adapter: &str| Command::Spawn {
        project: "/p".into(),
        name: "feat".into(),
        adapter: adapter.into(),
    };
    assert_eq!(command(&["spawn", "/p", "feat"]), Ok(spawn("pilot")));
    assert_eq!(command(&["spawn", "/p", "feat", "codex"]), Ok(spawn("codex")));
}

#[test]
fn an_incomplete_command_is_answered_with_its_usage() {
    assert_eq!(command(&["spawn", "/p"]), Err("usage: clowder spawn <project> <name> [adapter]".into()));
    assert_eq!(command(&["attach", "x"]), Err("usage: clowder attach <pane-id>".into()));
    assert_eq!(command(&["project"]), Err("usage: clowder project <add|list|rm> [path]".into()));
    assert_eq!(command(&["project", "rm"]), Err("usage: clowder project rm <path>".into()));
    assert_eq!(command(&["what"]), command(&[]));
}

// Targets.

fn entry(name: &str, address: &str, tls: bool, token: Option<&str>, fp: Option<&str>) -> HostEntry {
    HostEntry {
        record: HostRecord {
            name: name.into(),
            address: address.into(),
            tls,
            token: token.map(String::from),
            fingerprint: fp.map(String::from),
        },
        source: HostSource::Registry,
    }
}

fn cfg(host: Option<&str>, tls: bool, token: Option<&str>) -> Config {
    Config {
        remote_host: host.map(String::from),
        remote_tls: tls,
        remote_token: token.map(String::from),
        ..Default::default()
    }
}

#[test]
fn no_selector_uses_the_only_configured_host() {
    let hosts = vec![entry("config", "h:1", true, Some("entok"), None)];
    let t = resolve_target(None, &hosts, &cfg(Some("h:1"), false, None)).unwrap();
    assert_eq!(t.label, "config", "must consult the registry, not fall straight to adhoc");
    assert_eq!(t.address, "h:1");
    assert_eq!(t.token.as_deref(), Some("entok"), "entry's token must be used");
    assert!(t.tls, "entry's tls must be used");
}

#[test]
fn no_selector_with_no_config_host_is_an_error_naming_the_fix() {
    let err = resolve_target(None, &[], &cfg(None, false, None)).unwrap_err();
    assert!(err.contains("clowder remote"), "must point at the fix: {err}");
}

#[test]
fn a_name_selects_that_entry_with_its_pin() {
    let hosts = vec![
        entry("other", "h:1", false, None, None),
        entry("studio", "s:7777", true, Some("tok"), Some("aa11")),
    ];
    let t = resolve_target(Some("studio"), &hosts, &cfg(None, false, None)).unwrap();
    assert_eq!(t.label, "studio");
    assert_eq!(t.address, "s:7777");
    assert_eq!(t.token.as_deref(), Some("tok"));
    assert!(t.tls);
    assert_eq!(t.fingerprint.as_deref(), Some("aa11"));
}

#[test]
fn an_address_matching_an_entry_selects_that_entry() {
    let hosts = vec![entry("studio", "s:7777", true, Some("tok"), Some("aa11"))];
    let t = resolve_target(Some("s:7777"), &hosts, &cfg(None, false, None)).unwrap();
    assert_eq!(t.label, "studio", "an address match must still use the entry's identity");
    assert_eq!(t.fingerprint.as_deref(), Some("aa11"));
}

#[test]
fn a_name_match_takes_precedence_over_an_address_match() {
    let hosts = vec![
        entry("studio", "s:7777", false, None, Some("aa11")),
        entry("s:7777", "b:2", true, None, Some("bb22")),
    ];
    let t = resolve_target(Some("s:7777"), &hosts, &cfg(None, false, None)).unwrap();
    assert_eq!(t.label, "s:7777", "must resolve to the name match (entry B), not the address match (entry A)");
    assert_eq!(t.address, "b:2", "entry B's address confirms the name match was chosen");
    assert_eq!(t.fingerprint.as_deref(), Some("bb22"), "entry B's fingerprint confirms the name match was chosen");
    assert!(t.tls, "entry B's tls=true confirms the name match was chosen");
}

#[test]
fn an_unknown_address_becomes_an_adhoc_tofu_target_from_config() {
    let t = resolve_target(Some("10.0.0.9:7777"), &[], &cfg(None, false, Some("ctok"))).unwrap();
    assert_eq!(t.label, "10.0.0.9:7777");
    assert_eq!(t.address, "10.0.0.9:7777");
    assert_eq!(t.token.as_deref(), Some("ctok"));
    assert!(t.tls, "a configured token implies TLS on the ad-hoc path too");
    assert_eq!(t.fingerprint, None, "ad-hoc dials stay TOFU");
}

#[test]
fn an_unknown_name_is_an_error_naming_the_fix() {
    let hosts = vec![entry("studio", "s:7777", false, None, None)];
    let err = resolve_target(Some("studi"), &hosts, &cfg(None, false, None)).unwrap_err();
    assert!(err.contains("studi"), "must echo what was typed: {err}");
    assert!(err.contains("clowder remote list"), "must point at the fix: {err}");
}

#[test]
fn a_token_without_tls_is_refused() {
    let hosts = vec![entry("studio", "s:7777", false, Some("tok"), None)];
    let err = resolve_target(Some("studio"), &hosts, &cfg(None, false, None)).unwrap_err();
    assert!(err.to_lowercase().contains("tls"), "must explain the fix: {err}");
}

// Forwarding.

fn plain_target(addr: &str) -> RemoteTarget {
    RemoteTarget {
        label: "test".into(),
        address: addr.into(),
        token: None,
        tls: false,
        fingerprint: None,
    }
}

#[test]
fn trust_is_pinned_when_the_entry_has_a_fingerprint() {
    let mut t = plain_target("h:1");
    t.fingerprint = Some("aa11".into());
    assert!(matches!(t.trust(&vars(&[])), Trust::Pinned(fp) if fp == "aa11"));
}

#[test]
fn trust_falls_back_to_tofu_keyed_on_the_dial_address() {
    let t = plain_target("studio.tail:7777");
    match t.trust(&vars(&[])) {
        Trust::Tofu { host, .. } => assert_eq!(host, "studio.tail:7777"),
        other => panic!("expected Tofu, got {other:?}"),
    }
}

#[test]
fn dialling_waits_longer_each_time_and_then_gives_up() {
    let mut waits = Vec::new();
    let mut n = 1;
    while let Some(ms) = backoff(n) {
        waits.push(ms);
        n += 1;
    }
    assert!(!waits.is_empty());
    assert!(waits.windows(2).all(|w| w[0] <= w[1]), "{waits:?}");
    assert!(dial_failure("h:1", "boom").contains("boom"));
}

#[test]
fn forwarder_sockets_stand_side_by_side() {
    let s = forwarder_sockets(&plain_target("h:1"), "/run/fwd");
    assert!(s.render.starts_with("/run/fwd/"), "{}", s.render);
    assert!(s.control.starts_with("/run/fwd/"), "{}", s.control);
    assert_ne!(s.render, s.control);
    assert_eq!(forwarder_dir(Some("/x"), "/run/c/clowder-control.sock").unwrap(), "/x");
}

// Trust on first use.

fn trusted(content: &mut String, host: &str, fp: &str) -> Result<(), String> {
    match check(content, "known_hosts", host, fp) {
        Verdict::Trusted => Ok(()),
        Verdict::Record(now) => {
            *content = now;
            Ok(())
        }
        Verdict::Refused(e) => Err(e),
    }
}

#[test]
fn tofu_records_then_verifies_then_refuses_on_change() {
    let mut kh = String::new();
    assert!(trusted(&mut kh, "host:7777", "aa11").is_ok());
    assert!(trusted(&mut kh, "host:7777", "aa11").is_ok());
    let err = trusted(&mut kh, "host:7777", "bb22").unwrap_err();
    assert!(err.to_lowercase().contains("changed"), "loud refuse: {err}");
    assert!(trusted(&mut kh, "other:7777", "cc33").is_ok());
}

#[test]
fn a_second_sight_records_nothing() {
    let mut kh = String::new();
    assert!(matches!(check(&kh, "k", "host:7777", "aa11"), Verdict::Record(_)));
    trusted(&mut kh, "host:7777", "aa11").unwrap();
    assert!(matches!(check(&kh, "k", "host:7777", "aa11"), Verdict::Trusted));
}

#[test]
fn a_pin_lets_one_fingerprint_through() {
    assert!(check_pin("aa11", "aa11").is_ok());
    assert!(check_pin("aa11", "bb22").is_err());
}

#[test]
fn known_hosts_stand_among_the_durable_state() {
    let p = known_hosts_path(&vars(&[("XDG_STATE_HOME", "/st")]));
    assert!(p.starts_with("/st/clowder/"), "{p}");
}

// Probing.

#[test]
fn a_dead_port_is_unreachable_and_fails_fast() {
    let r = probe(ProbeEvent::DialFailed("refused".into()), &plain_target("h:1"), None, "3s");
    match r {
        ProbeAction::Report(r) => {
            assert!(!r.reachable);
            assert!(!r.authenticated);
            assert!(r.error.unwrap().contains("refused"));
        }
        other => panic!("expected a report, got {other:?}"),
    }
}

#[test]
fn a_plaintext_daemon_reports_no_fingerprint() {
    let t = plain_target("h:1");
    assert!(matches!(probe(ProbeEvent::Dialed, &t, None, "3s"), ProbeAction::SendHello(None)));
    match probe(ProbeEvent::Greeted, &t, None, "3s") {
        ProbeAction::Report(r) => {
            assert_eq!(
                r,
                ProbeResult { reachable: true, fingerprint: None, authenticated: true, error: None }
            );
        }
        other => panic!("expected a report, got {other:?}"),
    }
}

// Sessions.

#[test]
fn resize_msg_builds_resize_variant() {
    let m = resize_msg(PaneId(7), 120, 40);
    assert_eq!(m, ClientToDaemon::Resize { pane: PaneId(7), cols: 120, rows: 40 });
}

#[test]
fn pump_forwards_resize_from_channel() {
    let pane = PaneId(3);
    match pump(pane, PumpEvent::Resized(100, 40)) {
        PumpAction::Send(m) => assert_eq!(m, ClientToDaemon::Resize { pane, cols: 100, rows: 40 }),
        _ => panic!("expected a resize"),
    }
}

#[test]
fn lib_pump_forwards_input_renders_output_and_shuts_down_on_eof() {
    let p = PaneId(3);
    match pump(p, PumpEvent::Typed(b"ls\n".to_vec())) {
        PumpAction::Send(ClientToDaemon::Input { pane, bytes }) => {
            assert_eq!(pane, p);
            assert_eq!(bytes, b"ls\n".to_vec());
        }
        _ => panic!("expected input"),
    }
    assert!(matches!(
        pump(p, PumpEvent::Typed(Vec::new())),
        PumpAction::SendAndStop(ClientToDaemon::Detach)
    ));
    assert!(matches!(
        pump(p, PumpEvent::Message(DaemonToClient::Output { pane: p, bytes: vec![65] })),
        PumpAction::Show(b) if b == vec![65]
    ));
    assert!(matches!(
        pump(p, PumpEvent::Message(DaemonToClient::PaneExited { pane: p, code: Some(0) })),
        PumpAction::Stop
    ));
}

#[test]
fn spawn_via_control_returns_pane_id() {
    let noise = ControlEvent::AgentRemoved { pane: PaneId(9) };
    assert!(reply(Awaiting::Spawn, noise).is_none());
    match reply(Awaiting::Spawn, ControlEvent::AgentSpawned { pane: PaneId(4) }) {
        Some(Ok(Reply::Spawned(p))) => assert_eq!(p, PaneId(4)),
        _ => panic!("expected the pane"),
    }
    match reply(Awaiting::Spawn, ControlEvent::Error { message: "no".into() }) {
        Some(Err(e)) => assert_eq!(e, "no"),
        _ => panic!("expected the error"),
    }
}

#[test]
fn a_probe_shows_a_fingerprint_only_of_a_handshake_that_was_done() {
    let mut t = plain_target("h:1");
    t.tls = true;
    let seen = || Some("aa11".to_string());
    for (event, why) in [
        (ProbeEvent::HandshakeTimedOut, "TLS handshake timed out after 3s"),
        (ProbeEvent::HandshakeFailed("bad record".into()), "TLS handshake failed: bad record"),
    ] {
        match probe(event, &t, seen(), "3s") {
            ProbeAction::Report(r) => {
                assert!(r.reachable && !r.authenticated);
                assert_eq!(r.fingerprint, None);
                assert_eq!(r.error.as_deref(), Some(why));
            }
            _ => panic!("a report"),
        }
    }
    match probe(ProbeEvent::GreetingClosed, &t, seen(), "3s") {
        ProbeAction::Report(r) => assert_eq!(r.fingerprint.as_deref(), Some("aa11")),
        _ => panic!("a report"),
    }
    match probe(ProbeEvent::Greeted, &plain_target("h:1"), seen(), "3s") {
        ProbeAction::Report(r) => assert_eq!(r.fingerprint, None),
        _ => panic!("a report"),
    }
}

fn host(name: &str, address: &str) -> HostRecord {
    HostRecord { name: name.into(), address: address.into(), tls: false, token: None, fingerprint: None }
}

fn hosts_after(args: &[&str], all: &[HostRecord]) -> Result<Vec<HostRecord>, String> {
    let args: Vec<String> = args.iter().map(|a| a.to_string()).collect();
    plan_hosts(&parse_flags(&args).unwrap(), all)
}

#[test]
fn a_host_is_added_once() {
    let all = vec![host("a", "a:1")];
    let more = hosts_after(&["add", "b", "b:2", "--tls", "--token", "t"], &all).unwrap();
    assert_eq!(more[0], all[0]);
    assert_eq!(more[1], HostRecord { tls: true, token: Some("t".into()), ..host("b", "b:2") });
    assert_eq!(more.len(), 2);
    assert_eq!(hosts_after(&["add", "a", "c:3"], &all), Err("a host named a already exists".into()));
    assert!(hosts_after(&["add", "b", "nowhere"], &all).unwrap_err().contains("host:port"));
    assert!(hosts_after(&["add", "b c", "b:2"], &all).is_err());
    assert!(hosts_after(&["add", "b", "b:2", "--fingerprint", "XY"], &all).is_err());
    assert!(hosts_after(&["add", "b", "b:2", "--tsl"], &all).unwrap_err().contains("tsl"));
    assert!(hosts_after(&["add", "b"], &all).unwrap_err().starts_with("usage:"));
}

#[test]
fn a_host_is_changed_in_its_place() {
    let all = vec![host("a", "a:1"), HostRecord { token: Some("t".into()), ..host("b", "b:2") }];
    let set = hosts_after(&["set", "b", "--tls", "--address", "c:3", "--rename", "c"], &all).unwrap();
    assert_eq!(set[0], all[0]);
    assert_eq!(set[1], HostRecord { tls: true, token: Some("t".into()), ..host("c", "c:3") });
    assert_eq!(hosts_after(&["set", "b", "--no-token"], &all).unwrap()[1], host("b", "b:2"));
    assert_eq!(hosts_after(&["set", "b"], &all).unwrap(), all);
    assert_eq!(
        hosts_after(&["set", "b", "--rename", "a"], &all),
        Err("a host named a already exists".into())
    );
    assert_eq!(hosts_after(&["set", "z"], &all), Err("no host named z".into()));
    assert_eq!(
        hosts_after(&["set", "b", "--tls", "--no-tls"], &all),
        Err("--tls and --no-tls contradict each other".into())
    );
}

#[test]
fn a_host_is_removed_by_its_name() {
    let all = vec![host("a", "a:1"), host("b", "b:2")];
    assert_eq!(hosts_after(&["rm", "a"], &all).unwrap(), vec![host("b", "b:2")]);
    assert_eq!(hosts_after(&["rm", "z"], &all), Err("no host named z".into()));
    assert!(hosts_after(&["trim", "a"], &all).unwrap_err().starts_with("usage:"));
}
