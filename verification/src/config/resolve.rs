//! The configuration, resolved field by field: the environment, then the file, then a default.

use vstd::prelude::*;

use crate::config::vars;
use crate::config::vars::{or_default, or_else, set_value, Vars};
use crate::path;
use crate::path::joined;
use crate::text;
use crate::text::{ascii_lower, number_up_to, opt_text, trimmed};

verus! {

/// How many bytes of output a pane keeps where nothing says otherwise.
pub const DEFAULT_BACKLOG_CAP: usize = 262144;

/// The width of a new pane where nothing says otherwise.
pub const DEFAULT_COLS: u16 = 80;

/// The height of a new pane where nothing says otherwise.
pub const DEFAULT_ROWS: u16 = 24;

/// How long a capture of the login environment may take where nothing says otherwise.
pub const DEFAULT_LOGIN_ENV_TIMEOUT_MS: u64 = 3000;

/// The shortest time that a capture may be given.
pub const MIN_LOGIN_ENV_TIMEOUT_MS: u64 = 1000;

/// The longest time that a capture may be given.
pub const MAX_LOGIN_ENV_TIMEOUT_MS: u64 = 30000;

/// The configuration with every field decided.
#[derive(Debug, Clone, PartialEq, Eq)]
pub struct Config {
    pub client_sock: String,
    pub control_sock: String,
    pub hook_sock: String,
    pub backlog_cap: usize,
    pub shell: String,
    pub default_cols: u16,
    pub default_rows: u16,
    pub remote_listen: Option<String>,
    pub remote_host: Option<String>,
    pub remote_tls: bool,
    pub remote_token: Option<String>,
    /// The directory under which agent worktrees are provisioned.
    pub worktree_base: String,
    /// Whether the daemon captures the user's login environment when it starts.
    pub capture_login_env: bool,
    /// How long the daemon waits for that capture.
    pub login_env_timeout_ms: u64,
}

/// The configuration file.
#[derive(Debug, Default)]
pub struct FileConfig {
    pub sockets: Option<Sockets>,
    pub pane: Option<PaneCfg>,
    pub remote: Option<Remote>,
    pub worktrees: Option<Worktrees>,
    pub env: Option<EnvCfg>,
}

/// The table `[sockets]`.
#[derive(Debug, Default)]
pub struct Sockets {
    pub client: Option<String>,
    pub control: Option<String>,
    pub hook: Option<String>,
}

/// The table `[pane]`.
#[derive(Debug, Default)]
pub struct PaneCfg {
    pub backlog_cap: Option<usize>,
    pub shell: Option<String>,
    pub cols: Option<u16>,
    pub rows: Option<u16>,
}

/// The table `[remote]`.
#[derive(Debug, Default)]
pub struct Remote {
    pub listen: Option<String>,
    pub host: Option<String>,
    pub tls: Option<bool>,
    pub token: Option<String>,
}

/// The table `[worktrees]`.
#[derive(Debug, Default)]
pub struct Worktrees {
    pub base: Option<String>,
}

/// The table `[env]`.
#[derive(Debug, Default)]
pub struct EnvCfg {
    pub capture_login: Option<bool>,
    pub timeout_ms: Option<u64>,
}

impl FileConfig {
    /// The table `[sockets]`, empty where the file has none.
    pub open spec fn sockets_table(&self) -> Sockets {
        match self.sockets {
            Some(t) => t,
            None => Sockets { client: None, control: None, hook: None },
        }
    }

    /// The table `[pane]`, empty where the file has none.
    pub open spec fn pane_table(&self) -> PaneCfg {
        match self.pane {
            Some(t) => t,
            None => PaneCfg { backlog_cap: None, shell: None, cols: None, rows: None },
        }
    }

    /// The table `[remote]`, empty where the file has none.
    pub open spec fn remote_table(&self) -> Remote {
        match self.remote {
            Some(t) => t,
            None => Remote { listen: None, host: None, tls: None, token: None },
        }
    }

    /// The table `[worktrees]`, empty where the file has none.
    pub open spec fn worktrees_table(&self) -> Worktrees {
        match self.worktrees {
            Some(t) => t,
            None => Worktrees { base: None },
        }
    }

    /// The table `[env]`, empty where the file has none.
    pub open spec fn env_table(&self) -> EnvCfg {
        match self.env {
            Some(t) => t,
            None => EnvCfg { capture_login: None, timeout_ms: None },
        }
    }

    /// A file that says nothing.
    pub fn empty() -> (f: FileConfig)
        ensures
            f == (FileConfig { sockets: None, pane: None, remote: None, worktrees: None, env: None }),
    {
        FileConfig { sockets: None, pane: None, remote: None, worktrees: None, env: None }
    }
}

/// The directory that holds the sockets of `app`: `$XDG_RUNTIME_DIR`, `$TMPDIR` or `/tmp`, then
/// the name of the program.
pub open spec fn runtime_dir_of(env: Vars, app: Seq<char>) -> Seq<char> {
    joined(
        or_default(or_else(env.set_var("XDG_RUNTIME_DIR"@), env.set_var("TMPDIR"@)), "/tmp"@),
        app,
    )
}

/// The directory that holds the sockets of `app`.
pub fn runtime_dir_for(env: &Vars, app: &str) -> (dir: String)
    ensures
        dir@ == runtime_dir_of(*env, app@),
{
    let base = vars::default_to(
        vars::either(env.nonempty("XDG_RUNTIME_DIR"), env.nonempty("TMPDIR")),
        "/tmp",
    );
    path::join(base.as_str(), app)
}

/// The directory that holds the sockets and the lock of the daemon.
pub fn runtime_dir(env: &Vars) -> (dir: String)
    ensures
        dir@ == runtime_dir_of(*env, "clowder"@),
{
    runtime_dir_for(env, "clowder")
}

/// A path: the variable (even where it is empty), else the file, else the default.
pub open spec fn path_setting(
    env: Vars,
    key: Seq<char>,
    file: Option<String>,
    default: Seq<char>,
) -> Seq<char> {
    or_default(or_else(env.var(key), opt_text(file)), default)
}

/// A path: the variable, else the file, else the default.
pub fn choose_path(env: &Vars, key: &str, file: Option<String>, default: &str) -> (p: String)
    ensures
        p@ == path_setting(*env, key@, file, default@),
{
    vars::default_to(vars::either(env.get(key), file), default)
}

/// A text that an empty value leaves unset: the variable, else the file.
pub open spec fn text_setting(env: Vars, key: Seq<char>, file: Option<String>) -> Option<Seq<char>> {
    or_else(env.set_var(key), set_value(opt_text(file)))
}

/// A text that an empty value leaves unset: the variable, else the file.
fn choose_text(env: &Vars, key: &str, file: Option<String>) -> (t: Option<String>)
    ensures
        opt_text(t) == text_setting(*env, key@, file),
{
    vars::either(env.nonempty(key), vars::nonempty(file))
}

/// `1` and `true` are yes, `0` and `false` are no, in any case and with white space around; anything
/// else says nothing.
pub open spec fn truth(value: Option<Seq<char>>) -> Option<bool> {
    match value {
        None => None,
        Some(v) => {
            let word = ascii_lower(trimmed(v));
            if word == "1"@ || word == "true"@ {
                Some(true)
            } else if word == "0"@ || word == "false"@ {
                Some(false)
            } else {
                None
            }
        },
    }
}

/// What a variable says of a switch.
fn env_bool(env: &Vars, key: &str) -> (b: Option<bool>)
    ensures
        b == truth(env.var(key@)),
{
    match env.get(key) {
        None => None,
        Some(v) => {
            let word = text::lower_ascii(text::trim(v.as_str()).as_str());
            let word = word.as_str();
            if text::same(word, "1") || text::same(word, "true") {
                Some(true)
            } else if text::same(word, "0") || text::same(word, "false") {
                Some(false)
            } else {
                None
            }
        },
    }
}

/// The number that the variable spells.
pub open spec fn env_number(value: Option<Seq<char>>, max: nat) -> Option<nat> {
    match value {
        None => None,
        Some(v) => number_up_to(v, max),
    }
}

/// How many bytes of output a pane keeps: the variable where it is a number, else the file, else
/// the default.
pub open spec fn backlog_setting(env: Vars, key: Seq<char>, file: Option<usize>) -> nat {
    match env_number(env.var(key), usize::MAX as nat) {
        Some(n) => n,
        None => match file {
            Some(n) => n as nat,
            None => DEFAULT_BACKLOG_CAP as nat,
        },
    }
}

/// How many bytes of output a pane keeps.
pub fn choose_backlog(env: &Vars, key: &str, file: Option<usize>) -> (n: usize)
    ensures
        n == backlog_setting(*env, key@, file),
{
    let from_env: Option<u64> = match env.get(key) {
        Some(v) => text::parse_up_to(v.as_str(), usize::MAX as u64),
        None => None,
    };
    match from_env {
        Some(n) => n as usize,
        None => match file {
            Some(n) => n,
            None => DEFAULT_BACKLOG_CAP,
        },
    }
}

/// The nearest time that a capture may be given.
pub open spec fn clamped_timeout(ms: nat) -> nat {
    if ms < MIN_LOGIN_ENV_TIMEOUT_MS {
        MIN_LOGIN_ENV_TIMEOUT_MS as nat
    } else if ms > MAX_LOGIN_ENV_TIMEOUT_MS {
        MAX_LOGIN_ENV_TIMEOUT_MS as nat
    } else {
        ms
    }
}

/// How long a capture may take: the variable where it is a number, else the file, else the default,
/// kept within the bounds.
pub open spec fn timeout_setting(env: Vars, file: Option<u64>) -> nat {
    let value = match env.var("CLOWDER_LOGIN_ENV_TIMEOUT_MS"@) {
        Some(v) => Some(trimmed(v)),
        None => None,
    };
    clamped_timeout(
        match env_number(value, u64::MAX as nat) {
            Some(n) => n,
            None => match file {
                Some(n) => n as nat,
                None => DEFAULT_LOGIN_ENV_TIMEOUT_MS as nat,
            },
        },
    )
}

fn choose_timeout(env: &Vars, file: Option<u64>) -> (ms: u64)
    ensures
        ms == timeout_setting(*env, file),
        MIN_LOGIN_ENV_TIMEOUT_MS <= ms <= MAX_LOGIN_ENV_TIMEOUT_MS,
{
    let from_env: Option<u64> = match env.get("CLOWDER_LOGIN_ENV_TIMEOUT_MS") {
        Some(v) => text::parse_up_to(text::trim(v.as_str()).as_str(), u64::MAX),
        None => None,
    };
    let ms: u64 = match from_env {
        Some(n) => n,
        None => match file {
            Some(n) => n,
            None => DEFAULT_LOGIN_ENV_TIMEOUT_MS,
        },
    };
    if ms < MIN_LOGIN_ENV_TIMEOUT_MS {
        MIN_LOGIN_ENV_TIMEOUT_MS
    } else if ms > MAX_LOGIN_ENV_TIMEOUT_MS {
        MAX_LOGIN_ENV_TIMEOUT_MS
    } else {
        ms
    }
}

/// The user's shell: `$SHELL`, the file, the passwd database, `/bin/sh`. An empty value counts as
/// unset at every step.
pub open spec fn shell_setting(
    env: Vars,
    file: Option<Seq<char>>,
    passwd: Option<Seq<char>>,
) -> Seq<char> {
    or_default(or_else(or_else(env.set_var("SHELL"@), set_value(file)), set_value(passwd)), "/bin/sh"@)
}

/// The user's shell.
pub fn resolve_shell(env: &Vars, file: Option<String>, passwd: Option<String>) -> (shell: String)
    ensures
        shell@ == shell_setting(*env, opt_text(file), opt_text(passwd)),
{
    vars::default_to(
        vars::either(vars::either(env.nonempty("SHELL"), vars::nonempty(file)), vars::nonempty(passwd)),
        "/bin/sh",
    )
}

/// The user's shell, for callers that hold no configuration.
pub fn login_shell(env: &Vars, passwd: Option<String>) -> (shell: String)
    ensures
        shell@ == shell_setting(*env, None, opt_text(passwd)),
{
    resolve_shell(env, None, passwd)
}

/// The login shell of a passwd entry, where it is usable: present, not empty, executable.
pub open spec fn usable_shell(entry: Option<Seq<char>>, executable: bool) -> Option<Seq<char>> {
    match entry {
        Some(s) if s.len() > 0 && executable => Some(s),
        _ => None,
    }
}

/// The login shell of a passwd entry, where it is usable.
pub fn passwd_shell(entry: Option<String>, executable: bool) -> (shell: Option<String>)
    ensures
        opt_text(shell) == usable_shell(opt_text(entry), executable),
{
    match entry {
        Some(s) => if !s.as_str().is_empty() && executable {
            Some(s)
        } else {
            None
        },
        None => None,
    }
}

/// Where agent worktrees go where nothing says otherwise: `$XDG_DATA_HOME`, `$HOME/.local/share` or
/// `/tmp`, then `clowder/worktrees`.
pub open spec fn default_worktrees(env: Vars) -> Seq<char> {
    let home = match env.set_var("HOME"@) {
        Some(h) => Some(h + "/.local/share"@),
        None => None,
    };
    let base = or_default(or_else(env.set_var("XDG_DATA_HOME"@), home), "/tmp"@);
    joined(joined(base, "clowder"@), "worktrees"@)
}

/// Where agent worktrees go where nothing says otherwise.
pub fn default_worktree_base(env: &Vars) -> (dir: String)
    ensures
        dir@ == default_worktrees(*env),
{
    let home = match env.nonempty("HOME") {
        Some(h) => {
            let mut dir = h;
            dir.append("/.local/share");
            Some(dir)
        },
        None => None,
    };
    let base = vars::default_to(vars::either(env.nonempty("XDG_DATA_HOME"), home), "/tmp");
    path::join(path::join(base.as_str(), "clowder").as_str(), "worktrees")
}

/// The directory for durable state: `$XDG_STATE_HOME`, `$HOME/.local/state` (even where `$HOME` is
/// empty) or `/tmp`, then `clowder`.
pub open spec fn state_dir(env: Vars) -> Seq<char> {
    let home = match env.var("HOME"@) {
        Some(h) => Some(h + "/.local/state"@),
        None => None,
    };
    joined(or_default(or_else(env.set_var("XDG_STATE_HOME"@), home), "/tmp"@), "clowder"@)
}

/// The directory for durable state.
pub fn remote_state_dir(env: &Vars) -> (dir: String)
    ensures
        dir@ == state_dir(*env),
{
    let home = match env.get("HOME") {
        Some(h) => {
            let mut dir = h;
            dir.append("/.local/state");
            Some(dir)
        },
        None => None,
    };
    let base = vars::default_to(vars::either(env.nonempty("XDG_STATE_HOME"), home), "/tmp");
    path::join(base.as_str(), "clowder")
}

/// The file of durable state that a variable may name: the variable where it is not empty, else
/// `file` in the directory for durable state.
pub open spec fn state_file(env: Vars, key: Seq<char>, file: Seq<char>) -> Seq<char> {
    or_default(env.set_var(key), joined(state_dir(env), file))
}

/// The file of durable state that a variable may name.
pub fn state_path(env: &Vars, key: &str, file: &str) -> (p: String)
    ensures
        p@ == state_file(*env, key@, file@),
{
    match env.nonempty(key) {
        Some(p) => p,
        None => path::join(remote_state_dir(env).as_str(), file),
    }
}

/// The certificate that the daemon shows to remote clients.
pub fn remote_cert_path(env: &Vars) -> (p: String)
    ensures
        p@ == joined(state_dir(*env), "remote-cert.pem"@),
{
    path::join(remote_state_dir(env).as_str(), "remote-cert.pem")
}

/// The key of that certificate.
pub fn remote_key_path(env: &Vars) -> (p: String)
    ensures
        p@ == joined(state_dir(*env), "remote-key.pem"@),
{
    path::join(remote_state_dir(env).as_str(), "remote-key.pem")
}

/// The token that remote clients show.
pub fn remote_token_path(env: &Vars) -> (p: String)
    ensures
        p@ == joined(state_dir(*env), "remote-token"@),
{
    path::join(remote_state_dir(env).as_str(), "remote-token")
}

/// The configuration file of `app`: under `$XDG_CONFIG_HOME` where that is not empty, else under
/// `$HOME/.config` (even where `$HOME` is empty), else nowhere.
pub open spec fn config_file(env: Vars, app: Seq<char>) -> Option<Seq<char>> {
    match env.set_var("XDG_CONFIG_HOME"@) {
        Some(dir) => Some(joined(joined(dir, app), "config.toml"@)),
        None => match env.var("HOME"@) {
            Some(home) => Some(joined(joined(joined(home, ".config"@), app), "config.toml"@)),
            None => None,
        },
    }
}

/// The configuration file of `app`.
pub fn config_path(env: &Vars, app: &str) -> (p: Option<String>)
    ensures
        opt_text(p) == config_file(*env, app@),
{
    match env.nonempty("XDG_CONFIG_HOME") {
        Some(dir) => Some(path::join(path::join(dir.as_str(), app).as_str(), "config.toml")),
        None => match env.get("HOME") {
            Some(home) => {
                let dir = path::join(path::join(home.as_str(), ".config").as_str(), app);
                Some(path::join(dir.as_str(), "config.toml"))
            },
            None => None,
        },
    }
}

/// The first switch that is set, else the default.
pub open spec fn switch(first: Option<bool>, second: Option<bool>, default: bool) -> bool {
    match first {
        Some(b) => b,
        None => match second {
            Some(b) => b,
            None => default,
        },
    }
}

fn choose_switch(first: Option<bool>, second: Option<bool>, default: bool) -> (b: bool)
    ensures
        b == switch(first, second, default),
{
    match first {
        Some(b) => b,
        None => match second {
            Some(b) => b,
            None => default,
        },
    }
}

/// The number where there is one, else the default.
pub open spec fn size_or(value: Option<u16>, default: u16) -> u16 {
    match value {
        Some(n) => n,
        None => default,
    }
}

/// The number where there is one, else the default.
pub fn choose_size(value: Option<u16>, default: u16) -> (n: u16)
    ensures
        n == size_or(value, default),
{
    match value {
        Some(n) => n,
        None => default,
    }
}

impl Config {
    /// What each field holds, given the file, the environment and the shell of the passwd database.
    pub open spec fn is_resolved(
        &self,
        f: FileConfig,
        env: Vars,
        passwd: Option<Seq<char>>,
    ) -> bool {
        let s = f.sockets_table();
        let p = f.pane_table();
        let r = f.remote_table();
        let w = f.worktrees_table();
        let e = f.env_table();
        let dir = runtime_dir_of(env, "clowder"@);
        &&& self.client_sock@ == path_setting(
            env,
            "CLOWDER_SOCK"@,
            s.client,
            joined(dir, "clowder.sock"@),
        )
        &&& self.control_sock@ == path_setting(
            env,
            "CLOWDER_CONTROL_SOCK"@,
            s.control,
            joined(dir, "clowder-control.sock"@),
        )
        &&& self.hook_sock@ == path_setting(
            env,
            "CLOWDER_HOOK_SOCK"@,
            s.hook,
            joined(dir, "clowder-hook.sock"@),
        )
        &&& self.backlog_cap == backlog_setting(env, "CLOWDER_BACKLOG_CAP"@, p.backlog_cap)
        &&& self.shell@ == shell_setting(env, opt_text(p.shell), passwd)
        &&& self.default_cols == size_or(p.cols, DEFAULT_COLS)
        &&& self.default_rows == size_or(p.rows, DEFAULT_ROWS)
        &&& opt_text(self.remote_listen) == text_setting(env, "CLOWDER_LISTEN"@, r.listen)
        &&& opt_text(self.remote_host) == text_setting(env, "CLOWDER_REMOTE_HOST"@, r.host)
        &&& self.remote_tls == switch(truth(env.var("CLOWDER_REMOTE_TLS"@)), r.tls, false)
        &&& opt_text(self.remote_token) == text_setting(env, "CLOWDER_REMOTE_TOKEN"@, r.token)
        &&& self.worktree_base@ == or_default(
            text_setting(env, "CLOWDER_WORKTREE_BASE"@, w.base),
            default_worktrees(env),
        )
        &&& self.capture_login_env == switch(
            truth(env.var("CLOWDER_CAPTURE_LOGIN_ENV"@)),
            e.capture_login,
            true,
        )
        &&& self.login_env_timeout_ms == timeout_setting(env, e.timeout_ms)
    }

    /// Decide every field: the environment, then the file, then a default. `passwd` is the shell of
    /// the passwd database.
    pub fn resolve_with(f: FileConfig, env: &Vars, passwd: Option<String>) -> (c: Config)
        ensures
            c.is_resolved(f, *env, opt_text(passwd)),
    {
        let s = match f.sockets {
            Some(t) => t,
            None => Sockets { client: None, control: None, hook: None },
        };
        let p = match f.pane {
            Some(t) => t,
            None => PaneCfg { backlog_cap: None, shell: None, cols: None, rows: None },
        };
        let r = match f.remote {
            Some(t) => t,
            None => Remote { listen: None, host: None, tls: None, token: None },
        };
        let w = match f.worktrees {
            Some(t) => t,
            None => Worktrees { base: None },
        };
        let e = match f.env {
            Some(t) => t,
            None => EnvCfg { capture_login: None, timeout_ms: None },
        };
        let dir = runtime_dir(env);
        let dir = dir.as_str();
        let worktree_base = match choose_text(env, "CLOWDER_WORKTREE_BASE", w.base) {
            Some(base) => base,
            None => default_worktree_base(env),
        };
        Config {
            client_sock: choose_path(
                env,
                "CLOWDER_SOCK",
                s.client,
                path::join(dir, "clowder.sock").as_str(),
            ),
            control_sock: choose_path(
                env,
                "CLOWDER_CONTROL_SOCK",
                s.control,
                path::join(dir, "clowder-control.sock").as_str(),
            ),
            hook_sock: choose_path(
                env,
                "CLOWDER_HOOK_SOCK",
                s.hook,
                path::join(dir, "clowder-hook.sock").as_str(),
            ),
            backlog_cap: choose_backlog(env, "CLOWDER_BACKLOG_CAP", p.backlog_cap),
            shell: resolve_shell(env, p.shell, passwd),
            default_cols: choose_size(p.cols, DEFAULT_COLS),
            default_rows: choose_size(p.rows, DEFAULT_ROWS),
            remote_listen: choose_text(env, "CLOWDER_LISTEN", r.listen),
            remote_host: choose_text(env, "CLOWDER_REMOTE_HOST", r.host),
            remote_tls: choose_switch(env_bool(env, "CLOWDER_REMOTE_TLS"), r.tls, false),
            remote_token: choose_text(env, "CLOWDER_REMOTE_TOKEN", r.token),
            worktree_base,
            capture_login_env: choose_switch(
                env_bool(env, "CLOWDER_CAPTURE_LOGIN_ENV"),
                e.capture_login,
                true,
            ),
            login_env_timeout_ms: choose_timeout(env, e.timeout_ms),
        }
    }

    /// As `resolve_with`, without the passwd database.
    pub fn resolve(f: FileConfig, env: &Vars) -> (c: Config)
        ensures
            c.is_resolved(f, *env, None),
    {
        Config::resolve_with(f, env, None)
    }
}

impl Default for Config {
    /// The configuration with no file and an empty environment.
    fn default() -> (c: Config)
        ensures
            exists|f: FileConfig, env: Vars|
                {
                    &&& f.sockets is None && f.pane is None && f.remote is None && f.worktrees is None
                        && f.env is None
                    &&& (forall|key: Seq<char>| #[trigger] env.var(key) is None)
                    &&& #[trigger] c.is_resolved(f, env, None)
                },
    {
        let env = Vars::none();
        let f = FileConfig::empty();
        let ghost g = f;
        let c = Config::resolve(f, &env);
        assert(c.is_resolved(g, env, None));
        c
    }
}

/// Whatever the file and the environment say, a capture is given a time within the bounds: neither
/// none at all nor so long that the daemon seems to hang.
pub proof fn law_login_env_timeout_is_bounded(
    c: Config,
    f: FileConfig,
    env: Vars,
    passwd: Option<Seq<char>>,
)
    requires
        c.is_resolved(f, env, passwd),
    ensures
        MIN_LOGIN_ENV_TIMEOUT_MS <= c.login_env_timeout_ms <= MAX_LOGIN_ENV_TIMEOUT_MS,
{
}

/// The worktrees never go to an empty path, which would be the daemon's own directory.
pub proof fn law_worktree_base_is_not_empty(
    c: Config,
    f: FileConfig,
    env: Vars,
    passwd: Option<Seq<char>>,
)
    requires
        c.is_resolved(f, env, passwd),
    ensures
        c.worktree_base@.len() > 0,
{
    reveal_strlit("worktrees");
    reveal_strlit("clowder");
}

/// An empty value never becomes the shell, wherever it stands: `/bin/sh` is what is left.
pub proof fn law_shell_is_not_empty(
    c: Config,
    f: FileConfig,
    env: Vars,
    passwd: Option<Seq<char>>,
)
    requires
        c.is_resolved(f, env, passwd),
    ensures
        c.shell@.len() > 0,
{
    reveal_strlit("/bin/sh");
}

/// The lock of the daemon and the default sockets are in one directory.
pub proof fn law_default_sockets_stand_in_the_runtime_dir(
    c: Config,
    f: FileConfig,
    env: Vars,
    passwd: Option<Seq<char>>,
)
    requires
        c.is_resolved(f, env, passwd),
        f.sockets is None,
        env.var("CLOWDER_SOCK"@) is None,
        env.var("CLOWDER_CONTROL_SOCK"@) is None,
        env.var("CLOWDER_HOOK_SOCK"@) is None,
    ensures
        c.client_sock@ == joined(runtime_dir_of(env, "clowder"@), "clowder.sock"@),
        c.control_sock@ == joined(runtime_dir_of(env, "clowder"@), "clowder-control.sock"@),
        c.hook_sock@ == joined(runtime_dir_of(env, "clowder"@), "clowder-hook.sock"@),
{
}

} // verus!
