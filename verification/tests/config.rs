use clowder::config::agents::{
    merged_profiles, split_args, substitute, validate_id, validate_profile, validate_template,
    AgentProfile, TokenContext,
};
use clowder::config::hosts::{
    merged_hosts, remote_hosts_path, validate_address, validate_fingerprint, validate_name, FileRead,
    HostRecord, HostSource, HostsStore,
};
use clowder::config::label::check_label;
use clowder::config::resolve::{
    config_path, login_shell, passwd_shell, remote_cert_path, remote_key_path, remote_token_path,
    runtime_dir, Config, EnvCfg, FileConfig, PaneCfg, Remote, Sockets, Worktrees,
};
use clowder::config::vars::Vars;
use clowder::muxy;

fn vars(pairs: &[(&str, &str)]) -> Vars {
    Vars { pairs: pairs.iter().map(|(k, v)| (k.to_string(), v.to_string())).collect() }
}

fn no_env() -> Vars {
    vars(&[])
}

// Settings.

#[test]
fn defaults_when_empty() {
    let c = Config::resolve(FileConfig::default(), &no_env());
    assert_eq!(c.client_sock, "/tmp/clowder/clowder.sock");
    assert_eq!(c.backlog_cap, 262144);
    assert_eq!(c.shell, "/bin/sh");
    assert_eq!((c.default_cols, c.default_rows), (80, 24));
    assert_eq!(c.worktree_base, "/tmp/clowder/worktrees");
}

#[test]
fn shell_resolves_env_then_file_then_passwd_then_sh() {
    let passwd = || Some("/opt/homebrew/bin/fish".to_string());
    let shell_env = vars(&[("SHELL", "/bin/bash")]);
    let with_shell = || FileConfig {
        pane: Some(PaneCfg { shell: Some("/bin/ksh".into()), ..Default::default() }),
        ..Default::default()
    };

    assert_eq!(Config::resolve_with(with_shell(), &shell_env, passwd()).shell, "/bin/bash");
    assert_eq!(Config::resolve_with(with_shell(), &no_env(), passwd()).shell, "/bin/ksh");
    assert_eq!(
        Config::resolve_with(FileConfig::default(), &no_env(), passwd()).shell,
        "/opt/homebrew/bin/fish"
    );
    assert_eq!(Config::resolve_with(FileConfig::default(), &no_env(), None).shell, "/bin/sh");
}

#[test]
fn passwd_shell_is_absent_or_usable() {
    assert_eq!(passwd_shell(Some("/bin/zsh".into()), true).as_deref(), Some("/bin/zsh"));
    assert_eq!(passwd_shell(Some("/bin/zsh".into()), false), None);
    assert_eq!(passwd_shell(Some("".into()), true), None);
    assert_eq!(passwd_shell(None, true), None);
    assert_eq!(login_shell(&no_env(), None), "/bin/sh");
}

#[test]
fn empty_shell_is_treated_as_unset_at_every_tier() {
    let empty_env = vars(&[("SHELL", "")]);
    let passwd = || Some("/bin/zsh".to_string());
    assert_eq!(
        Config::resolve_with(FileConfig::default(), &empty_env, passwd()).shell,
        "/bin/zsh"
    );

    let f = FileConfig {
        pane: Some(PaneCfg { shell: Some("".into()), ..Default::default() }),
        ..Default::default()
    };
    assert_eq!(Config::resolve_with(f, &empty_env, passwd()).shell, "/bin/zsh");
}

#[test]
fn worktree_base_honors_xdg_data_home_then_home_then_tmp() {
    let base = |env: &[(&str, &str)]| Config::resolve(FileConfig::default(), &vars(env)).worktree_base;
    assert_eq!(base(&[("XDG_DATA_HOME", "/xdg/data")]), "/xdg/data/clowder/worktrees");
    assert_eq!(
        base(&[("XDG_DATA_HOME", "/xdg/data"), ("HOME", "/home/rc")]),
        "/xdg/data/clowder/worktrees"
    );
    assert_eq!(base(&[("HOME", "/home/rc")]), "/home/rc/.local/share/clowder/worktrees");
    assert_eq!(base(&[]), "/tmp/clowder/worktrees");
    assert_eq!(base(&[("XDG_DATA_HOME", ""), ("HOME", "")]), "/tmp/clowder/worktrees");
    assert_eq!(
        base(&[("XDG_DATA_HOME", ""), ("HOME", "/home/rc")]),
        "/home/rc/.local/share/clowder/worktrees"
    );
}

fn worktrees_in(base: &str) -> FileConfig {
    FileConfig { worktrees: Some(Worktrees { base: Some(base.into()) }), ..Default::default() }
}

#[test]
fn worktree_base_env_over_file_then_default() {
    let env = vars(&[("CLOWDER_WORKTREE_BASE", "/env/wt")]);
    assert_eq!(Config::resolve(worktrees_in("/file/wt"), &env).worktree_base, "/env/wt");

    let home = vars(&[("HOME", "/home/rc")]);
    assert_eq!(Config::resolve(worktrees_in("/file/wt"), &home).worktree_base, "/file/wt");
}

#[test]
fn empty_worktree_base_is_treated_as_unset() {
    let env = vars(&[("CLOWDER_WORKTREE_BASE", ""), ("HOME", "/home/rc")]);
    assert_eq!(
        Config::resolve(FileConfig::default(), &env).worktree_base,
        "/home/rc/.local/share/clowder/worktrees"
    );

    let home = vars(&[("HOME", "/home/rc")]);
    assert_eq!(
        Config::resolve(worktrees_in(""), &home).worktree_base,
        "/home/rc/.local/share/clowder/worktrees"
    );
}

#[test]
fn default_socket_dir_honors_xdg_runtime_dir_then_tmpdir() {
    let c = Config::resolve(FileConfig::default(), &vars(&[("XDG_RUNTIME_DIR", "/run/user/501")]));
    assert_eq!(c.client_sock, "/run/user/501/clowder/clowder.sock");
    assert_eq!(c.control_sock, "/run/user/501/clowder/clowder-control.sock");
    assert_eq!(c.hook_sock, "/run/user/501/clowder/clowder-hook.sock");

    let c2 = Config::resolve(FileConfig::default(), &vars(&[("TMPDIR", "/var/folders/xy")]));
    assert_eq!(c2.client_sock, "/var/folders/xy/clowder/clowder.sock");
}

#[test]
fn env_socket_overrides_per_user_default() {
    let env = vars(&[("XDG_RUNTIME_DIR", "/run/user/501"), ("CLOWDER_SOCK", "/env/explicit.sock")]);
    let c = Config::resolve(FileConfig::default(), &env);
    assert_eq!(c.client_sock, "/env/explicit.sock");
    assert_eq!(c.control_sock, "/run/user/501/clowder/clowder-control.sock");
}

#[test]
fn file_overrides_default() {
    let f = FileConfig {
        sockets: Some(Sockets { client: Some("/run/c.sock".into()), ..Default::default() }),
        pane: Some(PaneCfg { backlog_cap: Some(1024), cols: Some(120), ..Default::default() }),
        ..Default::default()
    };
    let c = Config::resolve(f, &no_env());
    assert_eq!(c.client_sock, "/run/c.sock");
    assert_eq!(c.backlog_cap, 1024);
    assert_eq!(c.default_cols, 120);
    assert_eq!(c.default_rows, 24);
}

#[test]
fn env_overrides_file() {
    let f = FileConfig {
        sockets: Some(Sockets { client: Some("/run/c.sock".into()), ..Default::default() }),
        pane: Some(PaneCfg { backlog_cap: Some(1024), ..Default::default() }),
        ..Default::default()
    };
    let env = vars(&[("CLOWDER_SOCK", "/env/c.sock"), ("CLOWDER_BACKLOG_CAP", "4096")]);
    let c = Config::resolve(f, &env);
    assert_eq!(c.client_sock, "/env/c.sock");
    assert_eq!(c.backlog_cap, 4096);
}

#[test]
fn invalid_backlog_env_falls_through_to_file() {
    let f = FileConfig {
        pane: Some(PaneCfg { backlog_cap: Some(1024), ..Default::default() }),
        ..Default::default()
    };
    let env = vars(&[("CLOWDER_BACKLOG_CAP", "notanumber")]);
    assert_eq!(Config::resolve(f, &env).backlog_cap, 1024);
}

fn remote(listen: Option<&str>, host: Option<&str>) -> FileConfig {
    FileConfig {
        remote: Some(Remote {
            listen: listen.map(String::from),
            host: host.map(String::from),
            ..Default::default()
        }),
        ..Default::default()
    }
}

#[test]
fn remote_listen_env_over_file_then_none() {
    let env = vars(&[("CLOWDER_LISTEN", "127.0.0.1:2")]);
    let f = remote(Some("127.0.0.1:1"), None);
    assert_eq!(Config::resolve(f, &env).remote_listen.as_deref(), Some("127.0.0.1:2"));

    let f2 = remote(Some("127.0.0.1:3"), None);
    assert_eq!(Config::resolve(f2, &no_env()).remote_listen.as_deref(), Some("127.0.0.1:3"));

    assert_eq!(Config::resolve(FileConfig::default(), &no_env()).remote_listen, None);

    let f3 = remote(Some(""), None);
    assert_eq!(Config::resolve(f3, &no_env()).remote_listen, None);
}

#[test]
fn remote_host_env_over_file_then_none() {
    let env = vars(&[("CLOWDER_REMOTE_HOST", "h:2")]);
    let f = remote(None, Some("h:1"));
    assert_eq!(Config::resolve(f, &env).remote_host.as_deref(), Some("h:2"));

    let f2 = remote(None, Some("h:3"));
    assert_eq!(Config::resolve(f2, &no_env()).remote_host.as_deref(), Some("h:3"));

    assert_eq!(Config::resolve(FileConfig::default(), &no_env()).remote_host, None);

    let f4 = remote(None, Some(""));
    assert_eq!(Config::resolve(f4, &no_env()).remote_host, None);
}

#[test]
fn remote_tls_and_token_resolve_env_over_file() {
    let f = FileConfig {
        remote: Some(Remote {
            listen: None,
            host: None,
            tls: Some(true),
            token: Some("filetok".into()),
        }),
        ..Default::default()
    };
    let c = Config::resolve(f, &vars(&[("CLOWDER_REMOTE_TOKEN", "envtok")]));
    assert!(c.remote_tls);
    assert_eq!(c.remote_token.as_deref(), Some("envtok"));
}

fn login(capture: Option<bool>, timeout_ms: Option<u64>) -> FileConfig {
    FileConfig {
        env: Some(EnvCfg { capture_login: capture, timeout_ms }),
        ..Default::default()
    }
}

#[test]
fn login_env_capture_resolves_env_over_file_then_on() {
    let c = Config::resolve(FileConfig::default(), &no_env());
    assert!(c.capture_login_env);
    assert_eq!(c.login_env_timeout_ms, 3000);

    let c = Config::resolve(login(Some(false), Some(5000)), &no_env());
    assert!(!c.capture_login_env);
    assert_eq!(c.login_env_timeout_ms, 5000);

    let env = vars(&[("CLOWDER_CAPTURE_LOGIN_ENV", "1"), ("CLOWDER_LOGIN_ENV_TIMEOUT_MS", "2000")]);
    let c = Config::resolve(login(Some(false), Some(5000)), &env);
    assert!(c.capture_login_env);
    assert_eq!(c.login_env_timeout_ms, 2000);

    let off = vars(&[("CLOWDER_CAPTURE_LOGIN_ENV", "0")]);
    assert!(!Config::resolve(FileConfig::default(), &off).capture_login_env);
}

#[test]
fn unparseable_login_env_settings_fall_through_to_the_file() {
    let junk =
        vars(&[("CLOWDER_CAPTURE_LOGIN_ENV", "yes-please"), ("CLOWDER_LOGIN_ENV_TIMEOUT_MS", "soon")]);
    let c = Config::resolve(login(Some(false), Some(5000)), &junk);
    assert!(!c.capture_login_env);
    assert_eq!(c.login_env_timeout_ms, 5000);
}

#[test]
fn login_env_timeout_is_clamped() {
    let low = vars(&[("CLOWDER_LOGIN_ENV_TIMEOUT_MS", "1")]);
    assert_eq!(Config::resolve(FileConfig::default(), &low).login_env_timeout_ms, 1000);

    let high = vars(&[("CLOWDER_LOGIN_ENV_TIMEOUT_MS", "600000")]);
    assert_eq!(Config::resolve(FileConfig::default(), &high).login_env_timeout_ms, 30_000);

    assert_eq!(Config::resolve(login(None, Some(0)), &no_env()).login_env_timeout_ms, 1000);
}

#[test]
fn remote_tls_defaults_false_and_token_none() {
    let c = Config::resolve(FileConfig::default(), &no_env());
    assert!(!c.remote_tls);
    assert_eq!(c.remote_token, None);
}

#[test]
fn durable_state_has_fixed_names() {
    let env = vars(&[("XDG_STATE_HOME", "/st"), ("XDG_RUNTIME_DIR", "/run/u")]);
    assert_eq!(remote_cert_path(&env), "/st/clowder/remote-cert.pem");
    assert_eq!(remote_key_path(&env), "/st/clowder/remote-key.pem");
    assert_eq!(remote_token_path(&env), "/st/clowder/remote-token");
    assert_eq!(runtime_dir(&env), "/run/u/clowder");
    assert_eq!(config_path(&vars(&[("HOME", "/h")]), "clowder").unwrap(), "/h/.config/clowder/config.toml");
    assert_eq!(config_path(&no_env(), "clowder"), None);
}

// Muxy.

#[test]
fn lib_defaults_when_empty() {
    let c = muxy::Config::resolve(muxy::FileConfig::default(), &no_env());
    assert_eq!(c.client_sock, "/tmp/muxy/muxy.sock");
    assert_eq!(c.backlog_cap, 262144);
    assert_eq!(c.shell, "/bin/sh");
    assert_eq!((c.default_cols, c.default_rows), (80, 24));
}

#[test]
fn lib_default_socket_dir_honors_xdg_runtime_dir_then_tmpdir() {
    let xdg = vars(&[("XDG_RUNTIME_DIR", "/run/user/501")]);
    let c = muxy::Config::resolve(muxy::FileConfig::default(), &xdg);
    assert_eq!(c.client_sock, "/run/user/501/muxy/muxy.sock");
    assert_eq!(c.control_sock, "/run/user/501/muxy/muxy-control.sock");
    assert_eq!(c.hook_sock, "/run/user/501/muxy/muxy-hook.sock");

    let tmp = vars(&[("TMPDIR", "/var/folders/xy")]);
    let c2 = muxy::Config::resolve(muxy::FileConfig::default(), &tmp);
    assert_eq!(c2.client_sock, "/var/folders/xy/muxy/muxy.sock");
}

#[test]
fn lib_env_socket_overrides_per_user_default() {
    let env = vars(&[("XDG_RUNTIME_DIR", "/run/user/501"), ("MUXY_SOCK", "/env/explicit.sock")]);
    let c = muxy::Config::resolve(muxy::FileConfig::default(), &env);
    assert_eq!(c.client_sock, "/env/explicit.sock");
    assert_eq!(c.control_sock, "/run/user/501/muxy/muxy-control.sock");
}

#[test]
fn lib_file_overrides_default() {
    let f = muxy::FileConfig {
        sockets: Some(Sockets { client: Some("/run/c.sock".into()), ..Default::default() }),
        pane: Some(PaneCfg { backlog_cap: Some(1024), cols: Some(120), ..Default::default() }),
    };
    let c = muxy::Config::resolve(f, &no_env());
    assert_eq!(c.client_sock, "/run/c.sock");
    assert_eq!(c.backlog_cap, 1024);
    assert_eq!(c.default_cols, 120);
    assert_eq!(c.default_rows, 24);
}

#[test]
fn lib_env_overrides_file() {
    let f = muxy::FileConfig {
        sockets: Some(Sockets { client: Some("/run/c.sock".into()), ..Default::default() }),
        pane: Some(PaneCfg { backlog_cap: Some(1024), ..Default::default() }),
    };
    let env = vars(&[("MUXY_SOCK", "/env/c.sock"), ("MUXY_BACKLOG_CAP", "4096")]);
    let c = muxy::Config::resolve(f, &env);
    assert_eq!(c.client_sock, "/env/c.sock");
    assert_eq!(c.backlog_cap, 4096);
}

#[test]
fn lib_invalid_backlog_env_falls_through_to_file() {
    let f = muxy::FileConfig {
        sockets: None,
        pane: Some(PaneCfg { backlog_cap: Some(1024), ..Default::default() }),
    };
    let env = vars(&[("MUXY_BACKLOG_CAP", "notanumber")]);
    assert_eq!(muxy::Config::resolve(f, &env).backlog_cap, 1024);
}

#[test]
fn the_first_argument_names_the_pane() {
    assert_eq!(muxy::pane_arg(Some("12")).0, 12);
    assert_eq!(muxy::pane_arg(Some("twelve")).0, 1);
    assert_eq!(muxy::pane_arg(None).0, 1);
    assert_eq!(muxy::client_sock(&no_env()), "/tmp/muxy.sock");
}

// Agent profiles.

#[test]
fn unterminated_quote_error_says_so() {
    let e = split_args("--a \"b").unwrap_err();
    assert!(e.contains("quote"), "unhelpful: {e}");
}

#[test]
fn unknown_token_error_names_the_token_and_the_valid_set() {
    let e = validate_template("--x {{nope}}").unwrap_err();
    assert!(e.contains("nope"), "must name the offender: {e}");
    assert!(e.contains("workspace_name"), "must list the valid tokens: {e}");
}

fn ctx() -> TokenContext<'static> {
    TokenContext {
        project_path: "/Users/rc/code/my project",
        workspace_path: "/data/clowder/worktrees/my project-abc/task-a",
        workspace_name: "task-a",
        branch: "clowder/task-a",
    }
}

#[test]
fn substitute_replaces_every_token() {
    let argv = split_args(
        "--p {{project_name}} --pp {{project_path}} --w {{workspace_name}} --wp {{workspace_path}} --b {{branch}}",
    )
    .unwrap();
    assert_eq!(
        substitute(&argv, &ctx()),
        vec![
            "--p", "my project",
            "--pp", "/Users/rc/code/my project",
            "--w", "task-a",
            "--wp", "/data/clowder/worktrees/my project-abc/task-a",
            "--b", "clowder/task-a",
        ]
    );
}

#[test]
fn a_value_containing_spaces_stays_one_argument() {
    let argv = split_args("--prompt \"work on {{project_name}}\"").unwrap();
    let out = substitute(&argv, &ctx());
    assert_eq!(out, vec!["--prompt", "work on my project"]);
    assert_eq!(out.len(), 2, "a space in the value must not add an argument");
}

#[test]
fn repeated_and_adjacent_tokens_all_substitute() {
    let argv = split_args("{{workspace_name}}-{{workspace_name}}").unwrap();
    assert_eq!(substitute(&argv, &ctx()), vec!["task-a-task-a"]);
}

#[test]
fn quotes_and_backslashes_group_arguments() {
    assert_eq!(split_args("").unwrap(), Vec::<String>::new());
    assert_eq!(split_args("a  b").unwrap(), vec!["a", "b"]);
    assert_eq!(split_args("'a b' \"c d\"").unwrap(), vec!["a b", "c d"]);
    assert_eq!(split_args("''").unwrap(), vec![""]);
}

fn own(id: &str, base: &str, name: &str, args: &str) -> AgentProfile {
    AgentProfile {
        id: id.into(),
        base: base.into(),
        display_name: name.into(),
        enabled: true,
        args: args.into(),
    }
}

#[test]
fn profiles_are_checked_field_by_field() {
    let builtins = [("pilot", "Pilot")];
    assert!(validate_profile(&own("opus", "pilot", "Opus", "--model opus"), &builtins).is_ok());
    assert!(validate_profile(&own("has space", "pilot", "x", ""), &builtins).is_err());
    assert!(validate_profile(&own("p", "emacs", "x", ""), &builtins).is_err());
    assert!(validate_profile(&own("p", "pilot", "  ", ""), &builtins).is_err());
    assert!(validate_profile(&own("p", "pilot", "x", "\"open"), &builtins).is_err());
    assert!(validate_id("").is_err());
    assert!(check_label("id", "ok").is_ok());
    assert!(check_label("id", "").is_err());
}

#[test]
fn builtins_come_first_and_a_row_overrides_its_builtin() {
    let builtins = [("pilot", "Pilot"), ("shell", "Shell")];
    let file = vec![own("mine", "shell", "Mine", ""), own("pilot", "pilot", "Renamed", "-x")];
    let all = merged_profiles(file, &builtins);
    let ids: Vec<&str> = all.iter().map(|e| e.profile.id.as_str()).collect();
    assert_eq!(ids, vec!["pilot", "shell", "mine"]);
    assert_eq!(all[0].profile.args, "-x");
    assert!(all[0].builtin && all[1].builtin && !all[2].builtin);
}

// Hosts.

fn rec(name: &str, address: &str) -> HostRecord {
    HostRecord { name: name.into(), address: address.into(), tls: false, token: None, fingerprint: None }
}

fn cfg_with_host(host: Option<&str>, tls: bool, token: Option<&str>) -> Config {
    Config {
        remote_host: host.map(String::from),
        remote_tls: tls,
        remote_token: token.map(String::from),
        ..Config::default()
    }
}

#[test]
fn valid_names_are_accepted_and_invalid_ones_rejected() {
    for good in ["studio", "mac-studio", "box_1", "a.b", "A", &"x".repeat(64)] {
        assert!(validate_name(good).is_ok(), "{good:?} should be valid");
    }
    for bad in ["", "has space", "sl/ash", "quote\"", &"x".repeat(65), "tab\there", ".", ".."] {
        assert!(validate_name(bad).is_err(), "{bad:?} should be invalid");
    }
    for good in ["...", "a..b", ".a", "a."] {
        assert!(validate_name(good).is_ok(), "{good:?} should still be valid");
    }
}

#[test]
fn fingerprints_must_be_even_length_lowercase_hex() {
    for good in ["aa11", "00", &"ab".repeat(32)] {
        assert!(validate_fingerprint(good).is_ok(), "{good:?} should be valid");
    }
    for bad in ["", "aa 11", "aa\t11", "AA11", "aa1", "zz11", "aa:11", "aa11\n"] {
        assert!(validate_fingerprint(bad).is_err(), "{bad:?} should be invalid");
    }
}

#[test]
fn addresses_require_a_host_and_a_port() {
    for good in ["h:7777", "10.0.0.5:1", "studio.tail1234.ts.net:7777", "[::1]:7777", "[fd7a::1]:22"] {
        assert!(validate_address(good).is_ok(), "{good:?} should be valid");
    }
    for bad in [
        "", "h", "h:", ":7777", "h:0", "h:70000", "h:abc", "::1:7777", "[::1]7777",
        "a b:7777", " h:7777", "h:7777 ", "h :7777", "h:77\t77", "h:7777\n",
    ] {
        assert!(validate_address(bad).is_err(), "{bad:?} should be invalid");
    }
}

#[test]
fn file_records_come_first_in_file_order() {
    let file = vec![rec("b", "hb:1"), rec("a", "ha:1")];
    let out = merged_hosts(file, &cfg_with_host(None, false, None));
    assert_eq!(out.iter().map(|e| e.record.name.as_str()).collect::<Vec<_>>(), ["b", "a"]);
    assert!(out.iter().all(|e| e.source == HostSource::Registry));
}

#[test]
fn config_host_appears_as_a_virtual_entry() {
    let out = merged_hosts(vec![], &cfg_with_host(Some("10.0.0.5:7777"), false, Some("tok")));
    assert_eq!(out.len(), 1);
    assert_eq!(out[0].source, HostSource::Config);
    assert_eq!(out[0].record.name, "config");
    assert_eq!(out[0].record.address, "10.0.0.5:7777");
    assert_eq!(out[0].record.token.as_deref(), Some("tok"));
    assert!(out[0].record.tls);
}

#[test]
fn config_host_without_a_token_is_plaintext_unless_tls_is_set() {
    let out = merged_hosts(vec![], &cfg_with_host(Some("h:1"), false, None));
    assert!(!out[0].record.tls);
    let out = merged_hosts(vec![], &cfg_with_host(Some("h:1"), true, None));
    assert!(out[0].record.tls);
}

#[test]
fn a_file_record_with_the_same_address_wins_entirely() {
    let mut r = rec("studio", "10.0.0.5:7777");
    r.token = Some("registry-token".into());
    let out = merged_hosts(vec![r], &cfg_with_host(Some("10.0.0.5:7777"), false, Some("config-token")));
    assert_eq!(out.len(), 1, "the config host must not be added twice");
    assert_eq!(out[0].source, HostSource::Registry);
    assert_eq!(out[0].record.token.as_deref(), Some("registry-token"));
}

#[test]
fn a_taken_config_name_falls_back_to_the_address() {
    let out = merged_hosts(vec![rec("config", "other:1")], &cfg_with_host(Some("h:2"), false, None));
    assert_eq!(out.len(), 2);
    assert_eq!(out[1].record.name, "h:2");
    assert_eq!(out[1].source, HostSource::Config);
}

#[test]
fn no_config_host_means_no_virtual_entry() {
    let out = merged_hosts(vec![rec("a", "h:1")], &cfg_with_host(None, false, None));
    assert_eq!(out.len(), 1);
    assert_eq!(out[0].source, HostSource::Registry);
}

#[test]
fn chained_collision_remains_unique() {
    let file = vec![rec("config", "other:1"), rec("10.0.0.5:7777", "other:2")];
    let out = merged_hosts(file, &cfg_with_host(Some("10.0.0.5:7777"), false, None));
    assert_eq!(out.len(), 3, "both file records plus the config virtual entry");

    let names: Vec<&str> = out.iter().map(|e| e.record.name.as_str()).collect();
    let mut names_sorted = names.clone();
    names_sorted.sort();
    names_sorted.dedup();
    assert_eq!(names_sorted.len(), names.len(), "all names must be unique, got: {names:?}");
    assert_eq!(out[2].source, HostSource::Config);
    assert_eq!(out[2].record.name, "10.0.0.5:7777-2", "should suffix when primary and secondary are taken");
}

#[test]
fn merged_hosts_is_idempotent() {
    let orig_file = vec![rec("studio", "s:7777")];
    let cfg = cfg_with_host(Some("h:2"), false, None);

    let first = merged_hosts(orig_file.clone(), &cfg);
    assert_eq!(first.len(), 2, "original file record + config virtual");

    let second_input: Vec<HostRecord> = first.iter().map(|e| e.record.clone()).collect();
    let second = merged_hosts(second_input, &cfg);

    assert_eq!(second.len(), first.len(), "merging the output should produce the same length");
    assert_eq!(
        second.iter().map(|e| &e.record).collect::<Vec<_>>(),
        first.iter().map(|e| &e.record).collect::<Vec<_>>(),
        "all records must be identical on re-merge"
    );
}

#[test]
fn default_path_honors_the_env_override() {
    assert_eq!(
        remote_hosts_path(&vars(&[("CLOWDER_HOSTS_FILE", "/custom/hosts.json")])),
        "/custom/hosts.json"
    );
    assert_eq!(
        remote_hosts_path(&vars(&[("XDG_STATE_HOME", "/xdg/state")])),
        "/xdg/state/clowder/hosts.json"
    );
}

#[test]
fn an_empty_hosts_file_is_an_empty_registry_and_a_bad_one_is_left_alone() {
    let store = HostsStore::new("/st/hosts.json".into());
    assert_eq!(store.mutation_source(FileRead::Missing), Ok(None));
    assert_eq!(store.mutation_source(FileRead::Bytes(b"  \n".to_vec())), Ok(None));
    assert!(store.mutation_source(FileRead::Failed).is_err());
    assert!(store.load_for_mutation(Err("expected value".into())).is_err());
    assert_eq!(store.load(None), Vec::<HostRecord>::new());
    assert_ne!(store.temp_path(1, 1), store.temp_path(1, 2));
}

#[test]
fn an_empty_value_is_no_shell_wherever_it_stands() {
    let empty_file = || FileConfig {
        pane: Some(PaneCfg { shell: Some("".into()), ..Default::default() }),
        ..Default::default()
    };
    let env = vars(&[("SHELL", "")]);
    assert_eq!(Config::resolve_with(empty_file(), &env, Some("".into())).shell, "/bin/sh");
    assert_eq!(Config::resolve_with(empty_file(), &env, Some("/bin/fish".into())).shell, "/bin/fish");
    assert_eq!(Config::resolve_with(FileConfig::default(), &no_env(), Some("".into())).shell, "/bin/sh");
}

#[test]
fn templates_put_together_put_their_arguments_together() {
    let a = "--model 'big one'";
    let b = "-p \"say \\\"hi\\\"\"";
    let mut both = split_args(a).unwrap();
    both.extend(split_args(b).unwrap());
    assert_eq!(split_args(&format!("{a} {b}")).unwrap(), both);
    assert_eq!(both, vec!["--model", "big one", "-p", "say \"hi\""]);
    assert_eq!(split_args(&format!("{a} 'open")), split_args("'open"));
}

#[test]
fn single_quotes_keep_a_text_whole() {
    for x in ["", "a b", "\"", "\\", "$HOME | x && y", "\n"] {
        assert_eq!(split_args(&format!("'{x}'")).unwrap(), vec![x]);
    }
}
