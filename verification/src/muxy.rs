//! Muxy, the smaller sibling: its configuration, and the pane that its client shows.

use vstd::prelude::*;

use crate::config::resolve;
use crate::config::resolve::{
    backlog_setting, path_setting, runtime_dir_of, size_or, PaneCfg, Sockets, DEFAULT_COLS, DEFAULT_ROWS,
};
use crate::config::vars;
use crate::config::vars::{or_default, or_else, Vars};
use crate::path;
use crate::path::joined;
use crate::proto::message::PaneId;
use crate::text;
use crate::text::{number_up_to, opt_str, opt_text};

verus! {

/// The whole configuration.
#[derive(Debug, Clone, PartialEq, Eq)]
pub struct Config {
    pub client_sock: String,
    pub control_sock: String,
    pub hook_sock: String,
    pub backlog_cap: usize,
    pub shell: String,
    pub default_cols: u16,
    pub default_rows: u16,
}

/// What the configuration file says.
#[derive(Debug, Default)]
pub struct FileConfig {
    pub sockets: Option<Sockets>,
    pub pane: Option<PaneCfg>,
}

/// The table `[sockets]`, empty where the file has none.
pub open spec fn sockets_of(f: FileConfig) -> Sockets {
    match f.sockets {
        Some(t) => t,
        None => Sockets { client: None, control: None, hook: None },
    }
}

/// The table `[pane]`, empty where the file has none.
pub open spec fn pane_of(f: FileConfig) -> PaneCfg {
    match f.pane {
        Some(t) => t,
        None => PaneCfg { backlog_cap: None, shell: None, cols: None, rows: None },
    }
}

impl Config {
    /// The configuration that the environment and the file come to: for each setting the environment
    /// comes first, then the file, then the default.
    pub open spec fn is_resolved(&self, f: FileConfig, env: Vars) -> bool {
        let s = sockets_of(f);
        let p = pane_of(f);
        let dir = runtime_dir_of(env, "muxy"@);
        &&& self.client_sock@ == path_setting(env, "MUXY_SOCK"@, s.client, joined(dir, "muxy.sock"@))
        &&& self.control_sock@ == path_setting(
            env,
            "MUXY_CONTROL_SOCK"@,
            s.control,
            joined(dir, "muxy-control.sock"@),
        )
        &&& self.hook_sock@ == path_setting(
            env,
            "MUXY_HOOK_SOCK"@,
            s.hook,
            joined(dir, "muxy-hook.sock"@),
        )
        &&& self.backlog_cap == backlog_setting(env, "MUXY_BACKLOG_CAP"@, p.backlog_cap)
        &&& self.shell@ == or_default(or_else(env.var("SHELL"@), opt_text(p.shell)), "/bin/sh"@)
        &&& self.default_cols == size_or(p.cols, DEFAULT_COLS)
        &&& self.default_rows == size_or(p.rows, DEFAULT_ROWS)
    }

    /// The configuration that the environment and the file come to.
    pub fn resolve(f: FileConfig, env: &Vars) -> (c: Config)
        ensures
            c.is_resolved(f, *env),
    {
        let s = match f.sockets {
            Some(t) => t,
            None => Sockets { client: None, control: None, hook: None },
        };
        let p = match f.pane {
            Some(t) => t,
            None => PaneCfg { backlog_cap: None, shell: None, cols: None, rows: None },
        };
        let dir = resolve::runtime_dir_for(env, "muxy");
        let client = path::join(dir.as_str(), "muxy.sock");
        let control = path::join(dir.as_str(), "muxy-control.sock");
        let hook = path::join(dir.as_str(), "muxy-hook.sock");
        Config {
            client_sock: resolve::choose_path(env, "MUXY_SOCK", s.client, client.as_str()),
            control_sock: resolve::choose_path(
                env,
                "MUXY_CONTROL_SOCK",
                s.control,
                control.as_str(),
            ),
            hook_sock: resolve::choose_path(env, "MUXY_HOOK_SOCK", s.hook, hook.as_str()),
            backlog_cap: resolve::choose_backlog(env, "MUXY_BACKLOG_CAP", p.backlog_cap),
            shell: vars::default_to(vars::either(env.get("SHELL"), p.shell), "/bin/sh"),
            default_cols: resolve::choose_size(p.cols, DEFAULT_COLS),
            default_rows: resolve::choose_size(p.rows, DEFAULT_ROWS),
        }
    }
}

impl Default for Config {
    /// The configuration with no file and an empty environment.
    fn default() -> (c: Config)
        ensures
            exists|f: FileConfig, env: Vars|
                {
                    &&& f.sockets is None && f.pane is None
                    &&& (forall|key: Seq<char>| #[trigger] env.var(key) is None)
                    &&& #[trigger] c.is_resolved(f, env)
                },
    {
        let env = Vars::none();
        let f = FileConfig { sockets: None, pane: None };
        let ghost g = f;
        let c = Config::resolve(f, &env);
        assert(c.is_resolved(g, env));
        c
    }
}

/// The pane that the client shows: the one that its first argument names, else the first.
pub fn pane_arg(arg: Option<&str>) -> (pane: PaneId)
    ensures
        pane.0 == (match opt_str(arg) {
            Some(a) => match number_up_to(a, u64::MAX as nat) {
                Some(n) => n,
                None => 1,
            },
            None => 1,
        }),
{
    match arg {
        Some(a) => match text::parse_up_to(a, u64::MAX) {
            Some(n) => PaneId(n),
            None => PaneId(1),
        },
        None => PaneId(1),
    }
}

/// The socket that the client connects to: `$MUXY_SOCK`, else one in `/tmp`.
pub fn client_sock(env: &Vars) -> (p: String)
    ensures
        p@ == or_default(env.var("MUXY_SOCK"@), "/tmp/muxy.sock"@),
{
    vars::default_to(env.get("MUXY_SOCK"), "/tmp/muxy.sock")
}

/// A variable decides its own setting, whatever the file says, even where it is empty.
pub proof fn law_a_variable_decides_its_setting(c: Config, f: FileConfig, env: Vars, n: nat)
    requires
        c.is_resolved(f, env),
    ensures
        env.var("MUXY_SOCK"@) is Some ==> Some(c.client_sock@) == env.var("MUXY_SOCK"@),
        env.var("MUXY_CONTROL_SOCK"@) is Some ==> Some(c.control_sock@) == env.var(
            "MUXY_CONTROL_SOCK"@,
        ),
        env.var("MUXY_HOOK_SOCK"@) is Some ==> Some(c.hook_sock@) == env.var("MUXY_HOOK_SOCK"@),
        env.var("SHELL"@) is Some ==> Some(c.shell@) == env.var("SHELL"@),
        env.var("MUXY_BACKLOG_CAP"@) is Some && number_up_to(
            env.var("MUXY_BACKLOG_CAP"@)->0,
            usize::MAX as nat,
        ) == Some(n) ==> c.backlog_cap == n,
{
}

/// Where no variable decides, each entry of the file decides the setting of its name; the size of a
/// new pane is the file's in any case.
pub proof fn law_the_file_decides_after_the_variables(c: Config, f: FileConfig, env: Vars)
    requires
        c.is_resolved(f, env),
    ensures
        f.sockets matches Some(t) ==> {
            &&& t.client matches Some(p) ==> env.var("MUXY_SOCK"@) is None ==> c.client_sock@ == p@
            &&& t.control matches Some(p) ==> env.var("MUXY_CONTROL_SOCK"@) is None
                ==> c.control_sock@ == p@
            &&& t.hook matches Some(p) ==> env.var("MUXY_HOOK_SOCK"@) is None ==> c.hook_sock@ == p@
        },
        f.pane matches Some(t) ==> {
            &&& t.backlog_cap matches Some(n) ==> env.var("MUXY_BACKLOG_CAP"@) is None
                ==> c.backlog_cap == n
            &&& t.shell matches Some(p) ==> env.var("SHELL"@) is None ==> c.shell@ == p@
            &&& t.cols matches Some(n) ==> c.default_cols == n
            &&& t.rows matches Some(n) ==> c.default_rows == n
        },
{
}

/// Where neither a variable nor the file says anything, the three sockets stand side by side in the
/// directory that lasts as long as a session, each under its own name.
pub proof fn law_what_nothing_decides(c: Config, f: FileConfig, env: Vars)
    requires
        c.is_resolved(f, env),
        f.sockets is None && f.pane is None,
        env.var("XDG_RUNTIME_DIR"@) is Some && env.var("XDG_RUNTIME_DIR"@)->0.len() > 0,
    ensures
        ({
            let dir = joined(env.var("XDG_RUNTIME_DIR"@)->0, "muxy"@);
            &&& env.var("MUXY_SOCK"@) is None ==> c.client_sock@ == joined(dir, "muxy.sock"@)
            &&& env.var("MUXY_CONTROL_SOCK"@) is None ==> c.control_sock@ == joined(
                dir,
                "muxy-control.sock"@,
            )
            &&& env.var("MUXY_HOOK_SOCK"@) is None ==> c.hook_sock@ == joined(dir, "muxy-hook.sock"@)
        }),
        env.var("SHELL"@) is None ==> c.shell@ == "/bin/sh"@,
        env.var("MUXY_BACKLOG_CAP"@) is None ==> c.backlog_cap == 256 * 1024,
        c.default_cols == 80 && c.default_rows == 24,
{
}

} // verus!
