//! The programs that run in panes.

use vstd::prelude::*;

use crate::proto::message::PaneId;
use crate::text;
use crate::text::{decimal, opt_text, texts};

verus! {

/// A program to run in a pane.
#[derive(Debug, Clone, PartialEq, Eq)]
pub struct PaneCommand {
    pub program: String,
    pub args: Vec<String>,
    pub cwd: Option<String>,
    /// Variables on top of the environment that every pane starts from.
    pub env: Vec<(String, String)>,
}

/// The texts of pairs.
pub open spec fn env_texts(env: Seq<(String, String)>) -> Seq<(Seq<char>, Seq<char>)> {
    env.map_values(|p: (String, String)| (p.0@, p.1@))
}

/// The command is that of a companion pane: the shell, in the directory of the worktree, and none of
/// the variables of an agent.
pub open spec fn is_companion_command(c: PaneCommand, shell: Seq<char>, cwd: Seq<char>) -> bool {
    &&& c.program@ == shell
    &&& c.args@.len() == 0
    &&& opt_text(c.cwd) == Some(cwd)
    &&& c.env@.len() == 0
}

/// The command of a companion pane.
pub fn companion_command(shell: String, cwd: String) -> (c: PaneCommand)
    ensures
        is_companion_command(c, shell@, cwd@),
{
    PaneCommand { program: shell, args: Vec::new(), cwd: Some(cwd), env: Vec::new() }
}

impl PaneCommand {
    /// The two commands say the same.
    pub open spec fn same_as(self, other: PaneCommand) -> bool {
        &&& self.program@ == other.program@
        &&& texts(self.args@) == texts(other.args@)
        &&& opt_text(self.cwd) == opt_text(other.cwd)
        &&& env_texts(self.env@) == env_texts(other.env@)
    }

    /// The same command once more.
    pub fn copied(&self) -> (c: PaneCommand)
        ensures
            c.same_as(*self),
    {
        let mut args: Vec<String> = Vec::new();
        append_texts(&mut args, &self.args);
        assert(texts(args@) =~= texts(self.args@));
        PaneCommand {
            program: self.program.clone(),
            args,
            cwd: self.cwd.clone(),
            env: env_copy(&self.env),
        }
    }
}

fn env_copy(env: &Vec<(String, String)>) -> (out: Vec<(String, String)>)
    ensures
        env_texts(out@) == env_texts(env@),
{
    let mut out: Vec<(String, String)> = Vec::new();
    let mut i: usize = 0;
    while i < env.len()
        invariant
            i <= env.len(),
            out@.len() == i,
            forall|k: int|
                0 <= k < i ==> (#[trigger] out@[k]).0@ == env@[k].0@ && out@[k].1@ == env@[k].1@,
        decreases env.len() - i,
    {
        out.push((env[i].0.clone(), env[i].1.clone()));
        i = i + 1;
    }
    assert(env_texts(out@) =~= env_texts(env@));
    out
}

/// The command is that of an agent: what its adapter runs, with the further arguments behind its own,
/// in the directory of the worktree, and with the two variables by which its hooks reach the daemon.
pub open spec fn is_agent_command(
    c: PaneCommand,
    base: PaneCommand,
    extra: Seq<Seq<char>>,
    worktree: Seq<char>,
    id: u64,
    hook_sock: Seq<char>,
) -> bool {
    &&& c.program@ == base.program@
    &&& texts(c.args@) == texts(base.args@) + extra
    &&& opt_text(c.cwd) == Some(worktree)
    &&& env_texts(c.env@) == env_texts(base.env@).push(
        ("CLOWDER_AGENT_ID"@, decimal(id as nat)),
    ).push(("CLOWDER_HOOK_SOCK"@, hook_sock))
}

fn append_texts(all: &mut Vec<String>, more: &[String])
    ensures
        texts(final(all)@) == texts(old(all)@) + texts(more@),
{
    let ghost own = all@;
    let mut i: usize = 0;
    assert(texts(own) + texts(more@.take(0)) =~= texts(own));
    while i < more.len()
        invariant
            i <= more.len(),
            texts(all@) == texts(own) + texts(more@.take(i as int)),
        decreases more.len() - i,
    {
        let ghost before = all@;
        all.push(more[i].clone());
        proof {
            text::lemma_texts_push(before, all@.last());
            assert(texts(more@.take(i + 1)) =~= texts(more@.take(i as int)).push(more@[i as int]@));
            assert(texts(all@) =~= texts(own) + texts(more@.take(i + 1)));
        }
        i = i + 1;
    }
    assert(more@.take(more@.len() as int) =~= more@);
}

/// The command with which an agent starts, or takes up its last session again, from that of its adapter.
pub fn agent_command(
    base: &PaneCommand,
    extra_args: &[String],
    worktree: &str,
    id: PaneId,
    hook_sock: &str,
) -> (c: PaneCommand)
    ensures
        is_agent_command(c, *base, texts(extra_args@), worktree@, id.0, hook_sock@),
{
    let mut args: Vec<String> = Vec::new();
    append_texts(&mut args, &base.args);
    append_texts(&mut args, extra_args);
    assert(texts(args@) =~= texts(base.args@) + texts(extra_args@));
    let mut env = env_copy(&base.env);
    let ghost before = env@;
    env.push(("CLOWDER_AGENT_ID".to_owned(), text::show(id.0 as u128)));
    env.push(("CLOWDER_HOOK_SOCK".to_owned(), hook_sock.to_owned()));
    assert(env_texts(env@) =~= env_texts(before).push(
        ("CLOWDER_AGENT_ID"@, decimal(id.0 as nat)),
    ).push(("CLOWDER_HOOK_SOCK"@, hook_sock@)));
    PaneCommand { program: base.program.clone(), args, cwd: Some(worktree.to_owned()), env }
}

} // verus!
