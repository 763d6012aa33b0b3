//! What the user's word on a setting comes to.

use vstd::prelude::*;

use crate::config::resolve::{config_file, runtime_dir_of, state_dir, state_file, Config, FileConfig};
use crate::config::vars::Vars;
use crate::path::joined;
use crate::text::{ascii_lower, number_up_to, opt_text, trimmed};

verus! {

/// The variable is set to a value that is not empty.
pub open spec fn is_given(env: Vars, key: Seq<char>) -> bool {
    env.var(key) is Some && env.var(key)->0.len() > 0
}

/// The variable says `word`, in whatever case and with whatever white space around it.
pub open spec fn says(env: Vars, key: Seq<char>, word: Seq<char>) -> bool {
    env.var(key) is Some && ascii_lower(trimmed(env.var(key)->0)) == word
}

/// A variable has the value of the first pair that bears its name, and none where no pair does.
pub proof fn law_the_first_pair_counts(env: Vars, key: Seq<char>, k: int)
    requires
        0 <= k <= env.pairs@.len(),
        forall|j: int| 0 <= j < k ==> (#[trigger] env.pairs@[j]).0@ != key,
    ensures
        k < env.pairs@.len() && env.pairs@[k].0@ == key ==> env.var(key) == Some(env.pairs@[k].1@),
        k == env.pairs@.len() ==> env.var(key) is None,
{
    lemma_passed_over(env, key, 0, k);
}

proof fn lemma_passed_over(env: Vars, key: Seq<char>, from: int, k: int)
    requires
        0 <= from <= k <= env.pairs@.len(),
        forall|j: int| from <= j < k ==> (#[trigger] env.pairs@[j]).0@ != key,
    ensures
        crate::config::vars::lookup(env.pairs@, key, from) == crate::config::vars::lookup(
            env.pairs@,
            key,
            k,
        ),
    decreases k - from,
{
    if from < k {
        assert(env.pairs@[from].0@ != key);
        lemma_passed_over(env, key, from + 1, k);
    }
}

/// A variable decides its own setting, whatever the file says. A path is taken even where it is
/// empty; any other text counts only where it is not.
pub proof fn law_a_variable_decides_its_setting(
    c: Config,
    f: FileConfig,
    env: Vars,
    passwd: Option<Seq<char>>,
)
    requires
        c.is_resolved(f, env, passwd),
    ensures
        env.var("CLOWDER_SOCK"@) is Some ==> Some(c.client_sock@) == env.var("CLOWDER_SOCK"@),
        env.var("CLOWDER_CONTROL_SOCK"@) is Some ==> Some(c.control_sock@) == env.var(
            "CLOWDER_CONTROL_SOCK"@,
        ),
        env.var("CLOWDER_HOOK_SOCK"@) is Some ==> Some(c.hook_sock@) == env.var(
            "CLOWDER_HOOK_SOCK"@,
        ),
        is_given(env, "SHELL"@) ==> Some(c.shell@) == env.var("SHELL"@),
        is_given(env, "CLOWDER_LISTEN"@) ==> opt_text(c.remote_listen) == env.var(
            "CLOWDER_LISTEN"@,
        ),
        is_given(env, "CLOWDER_REMOTE_HOST"@) ==> opt_text(c.remote_host) == env.var(
            "CLOWDER_REMOTE_HOST"@,
        ),
        is_given(env, "CLOWDER_REMOTE_TOKEN"@) ==> opt_text(c.remote_token) == env.var(
            "CLOWDER_REMOTE_TOKEN"@,
        ),
        is_given(env, "CLOWDER_WORKTREE_BASE"@) ==> Some(c.worktree_base@) == env.var(
            "CLOWDER_WORKTREE_BASE"@,
        ),
        says(env, "CLOWDER_REMOTE_TLS"@, "1"@) ==> c.remote_tls,
        says(env, "CLOWDER_REMOTE_TLS"@, "true"@) ==> c.remote_tls,
        says(env, "CLOWDER_REMOTE_TLS"@, "0"@) ==> !c.remote_tls,
        says(env, "CLOWDER_REMOTE_TLS"@, "false"@) ==> !c.remote_tls,
        says(env, "CLOWDER_CAPTURE_LOGIN_ENV"@, "1"@) ==> c.capture_login_env,
        says(env, "CLOWDER_CAPTURE_LOGIN_ENV"@, "true"@) ==> c.capture_login_env,
        says(env, "CLOWDER_CAPTURE_LOGIN_ENV"@, "0"@) ==> !c.capture_login_env,
        says(env, "CLOWDER_CAPTURE_LOGIN_ENV"@, "false"@) ==> !c.capture_login_env,
{
    reveal_strlit("1");
    reveal_strlit("0");
    reveal_strlit("true");
    reveal_strlit("false");
    assert("0"@ != "1"@) by {
        assert("0"@[0] != "1"@[0]);
    }
    assert("true"@.len() == 4 && "false"@.len() == 5);
}

/// A number in a variable decides its own setting, whatever the file says, and a time for the
/// capture of the login environment is held between one and thirty seconds.
pub proof fn law_a_number_decides_its_setting(
    c: Config,
    f: FileConfig,
    env: Vars,
    passwd: Option<Seq<char>>,
    text: Seq<char>,
    n: nat,
)
    requires
        c.is_resolved(f, env, passwd),
    ensures
        env.var("CLOWDER_BACKLOG_CAP"@) == Some(text) && number_up_to(text, usize::MAX as nat) == Some(
            n,
        ) ==> c.backlog_cap == n,
        env.var("CLOWDER_LOGIN_ENV_TIMEOUT_MS"@) == Some(text) && number_up_to(
            trimmed(text),
            u64::MAX as nat,
        ) == Some(n) ==> {
            &&& 1000 <= n <= 30000 ==> c.login_env_timeout_ms == n
            &&& n < 1000 ==> c.login_env_timeout_ms == 1000
            &&& n > 30000 ==> c.login_env_timeout_ms == 30000
        },
{
}

/// The variable of a setting says nothing that counts.
pub open spec fn none_decides(env: Vars) -> bool {
    &&& env.var("CLOWDER_SOCK"@) is None
    &&& env.var("CLOWDER_CONTROL_SOCK"@) is None
    &&& env.var("CLOWDER_HOOK_SOCK"@) is None
    &&& !is_given(env, "SHELL"@)
    &&& !is_given(env, "CLOWDER_LISTEN"@)
    &&& !is_given(env, "CLOWDER_REMOTE_HOST"@)
    &&& !is_given(env, "CLOWDER_REMOTE_TOKEN"@)
    &&& !is_given(env, "CLOWDER_WORKTREE_BASE"@)
    &&& env.var("CLOWDER_REMOTE_TLS"@) is None
    &&& env.var("CLOWDER_CAPTURE_LOGIN_ENV"@) is None
    &&& env.var("CLOWDER_BACKLOG_CAP"@) is None
    &&& env.var("CLOWDER_LOGIN_ENV_TIMEOUT_MS"@) is None
}

/// Where no variable decides, each entry of the file decides the setting of its name.
pub proof fn law_the_file_decides_after_the_variables(
    c: Config,
    f: FileConfig,
    env: Vars,
    passwd: Option<Seq<char>>,
)
    requires
        c.is_resolved(f, env, passwd),
        none_decides(env),
    ensures
        f.sockets matches Some(t) ==> {
            &&& t.client matches Some(p) ==> c.client_sock@ == p@
            &&& t.control matches Some(p) ==> c.control_sock@ == p@
            &&& t.hook matches Some(p) ==> c.hook_sock@ == p@
        },
        f.pane matches Some(t) ==> {
            &&& t.backlog_cap matches Some(n) ==> c.backlog_cap == n
            &&& t.shell matches Some(p) ==> p@.len() > 0 ==> c.shell@ == p@
        },
        f.remote matches Some(t) ==> {
            &&& t.listen matches Some(p) ==> p@.len() > 0 ==> opt_text(c.remote_listen) == Some(p@)
            &&& t.host matches Some(p) ==> p@.len() > 0 ==> opt_text(c.remote_host) == Some(p@)
            &&& t.token matches Some(p) ==> p@.len() > 0 ==> opt_text(c.remote_token) == Some(p@)
            &&& t.tls matches Some(yes) ==> c.remote_tls == yes
        },
        f.worktrees matches Some(t) ==> (t.base matches Some(p) ==> p@.len() > 0 ==> c.worktree_base@
            == p@),
        f.env matches Some(t) ==> {
            &&& t.capture_login matches Some(yes) ==> c.capture_login_env == yes
            &&& t.timeout_ms matches Some(n) ==> {
                &&& 1000 <= n <= 30000 ==> c.login_env_timeout_ms == n
                &&& n < 1000 ==> c.login_env_timeout_ms == 1000
                &&& n > 30000 ==> c.login_env_timeout_ms == 30000
            }
        },
{
}

/// The size of a new pane is the file's: the width its `cols`, the height its `rows`.
pub proof fn law_the_file_sizes_the_panes(
    c: Config,
    f: FileConfig,
    env: Vars,
    passwd: Option<Seq<char>>,
)
    requires
        c.is_resolved(f, env, passwd),
    ensures
        f.pane matches Some(t) ==> {
            &&& t.cols matches Some(n) ==> c.default_cols == n
            &&& t.rows matches Some(n) ==> c.default_rows == n
        },
        f.pane is None ==> c.default_cols == 80 && c.default_rows == 24,
{
}

/// Where neither a variable nor the file says anything, the daemon serves this machine only,
/// without TLS and without a token, takes over the login environment within three seconds, keeps a
/// quarter of a mebibyte of each pane's output, and runs the shell of the passwd database.
pub proof fn law_what_nothing_decides(
    c: Config,
    f: FileConfig,
    env: Vars,
    passwd: Option<Seq<char>>,
)
    requires
        c.is_resolved(f, env, passwd),
        none_decides(env),
        f.sockets is None && f.pane is None && f.remote is None && f.worktrees is None && f.env is None,
    ensures
        c.remote_listen is None,
        c.remote_host is None,
        c.remote_token is None,
        !c.remote_tls,
        c.capture_login_env,
        c.login_env_timeout_ms == 3000,
        c.backlog_cap == 256 * 1024,
        passwd matches Some(shell) ==> shell.len() > 0 ==> c.shell@ == shell,
        passwd is None ==> c.shell@ == "/bin/sh"@,
{
}

/// Sockets go where the system keeps what lasts as long as a session, state where it keeps what
/// outlives one, and worktrees where it keeps data; each has its own variable.
pub proof fn law_where_the_system_keeps_things(
    c: Config,
    f: FileConfig,
    env: Vars,
    passwd: Option<Seq<char>>,
    app: Seq<char>,
)
    requires
        c.is_resolved(f, env, passwd),
    ensures
        is_given(env, "XDG_RUNTIME_DIR"@) ==> runtime_dir_of(env, app) == joined(
            env.var("XDG_RUNTIME_DIR"@)->0,
            app,
        ),
        !is_given(env, "XDG_RUNTIME_DIR"@) && is_given(env, "TMPDIR"@) ==> runtime_dir_of(env, app)
            == joined(env.var("TMPDIR"@)->0, app),
        !is_given(env, "XDG_RUNTIME_DIR"@) && !is_given(env, "TMPDIR"@) ==> runtime_dir_of(env, app)
            == joined("/tmp"@, app),
        is_given(env, "XDG_STATE_HOME"@) ==> state_dir(env) == joined(
            env.var("XDG_STATE_HOME"@)->0,
            "clowder"@,
        ),
        !is_given(env, "XDG_STATE_HOME"@) && is_given(env, "HOME"@) ==> state_dir(env) == joined(
            env.var("HOME"@)->0 + "/.local/state"@,
            "clowder"@,
        ),
        !is_given(env, "XDG_STATE_HOME"@) && env.var("HOME"@) is None ==> state_dir(env) == joined(
            "/tmp"@,
            "clowder"@,
        ),
        is_given(env, "XDG_CONFIG_HOME"@) ==> config_file(env, app) == Some(
            joined(joined(env.var("XDG_CONFIG_HOME"@)->0, app), "config.toml"@),
        ),
        !is_given(env, "XDG_CONFIG_HOME"@) && is_given(env, "HOME"@) ==> config_file(env, app) == Some(
            joined(joined(joined(env.var("HOME"@)->0, ".config"@), app), "config.toml"@),
        ),
        !is_given(env, "XDG_CONFIG_HOME"@) && env.var("HOME"@) is None ==> config_file(env, app) is None,
        !is_given(env, "CLOWDER_WORKTREE_BASE"@) && f.worktrees is None ==> {
            &&& is_given(env, "XDG_DATA_HOME"@) ==> c.worktree_base@ == joined(
                joined(env.var("XDG_DATA_HOME"@)->0, "clowder"@),
                "worktrees"@,
            )
            &&& !is_given(env, "XDG_DATA_HOME"@) && is_given(env, "HOME"@) ==> c.worktree_base@
                == joined(
                joined(env.var("HOME"@)->0 + "/.local/share"@, "clowder"@),
                "worktrees"@,
            )
        },
{
}

/// A file of durable state is the one that its variable names, else stands in the directory for
/// durable state under its own name.
pub proof fn law_where_a_state_file_is(env: Vars, key: Seq<char>, file: Seq<char>)
    ensures
        is_given(env, key) ==> Some(state_file(env, key, file)) == env.var(key),
        !is_given(env, key) ==> state_file(env, key, file) == joined(state_dir(env), file),
{
}

} // verus!
