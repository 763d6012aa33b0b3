//! The commands of the command line.

use vstd::prelude::*;

use crate::text;
use crate::text::{number_up_to, texts};

verus! {

/// A command.
#[derive(Debug, PartialEq, Eq)]
pub enum Command {
    /// Spawn an agent in a worktree of its own.
    Spawn { project: String, name: String, adapter: String },
    ProjectAdd { path: String },
    ProjectList,
    ProjectRemove { path: String },
    /// Attach this terminal to a pane.
    Attach { pane: u64 },
    /// Forward to a remote daemon.
    Connect { rest: Vec<String> },
    /// Print the configured remote host.
    RemoteHost,
    /// Print the token and the fingerprint of this daemon.
    RemoteToken,
    /// Manage the registry of hosts.
    Remote { rest: Vec<String> },
    /// Manage the agent profiles.
    Agent { rest: Vec<String> },
}

/// A command.
pub enum CommandView {
    Spawn { project: Seq<char>, name: Seq<char>, adapter: Seq<char> },
    ProjectAdd { path: Seq<char> },
    ProjectList,
    ProjectRemove { path: Seq<char> },
    Attach { pane: nat },
    Connect { rest: Seq<Seq<char>> },
    RemoteHost,
    RemoteToken,
    Remote { rest: Seq<Seq<char>> },
    Agent { rest: Seq<Seq<char>> },
}

impl View for Command {
    type V = CommandView;

    open spec fn view(&self) -> CommandView {
        match *self {
            Command::Spawn { project, name, adapter } => CommandView::Spawn {
                project: project@,
                name: name@,
                adapter: adapter@,
            },
            Command::ProjectAdd { path } => CommandView::ProjectAdd { path: path@ },
            Command::ProjectList => CommandView::ProjectList,
            Command::ProjectRemove { path } => CommandView::ProjectRemove { path: path@ },
            Command::Attach { pane } => CommandView::Attach { pane: pane as nat },
            Command::Connect { rest } => CommandView::Connect { rest: texts(rest@) },
            Command::RemoteHost => CommandView::RemoteHost,
            Command::RemoteToken => CommandView::RemoteToken,
            Command::Remote { rest } => CommandView::Remote { rest: texts(rest@) },
            Command::Agent { rest } => CommandView::Agent { rest: texts(rest@) },
        }
    }
}

/// The command that the arguments (without the program's name) spell, or how it is used. A number
/// alone attaches to that pane. A spawn that names no adapter gets the default one.
pub open spec fn command_of(args: Seq<Seq<char>>, default_adapter: Seq<char>) -> Result<CommandView, Seq<char>> {
    if args.len() == 0 {
        Err(
            "usage: clowder <spawn|project|attach|connect|agent|remote|remote-host|remote-token> ..."@,
        )
    } else if args[0] == "spawn"@ {
        if args.len() < 3 {
            Err("usage: clowder spawn <project> <name> [adapter]"@)
        } else {
            Ok(
                CommandView::Spawn {
                    project: args[1],
                    name: args[2],
                    adapter: if args.len() > 3 {
                        args[3]
                    } else {
                        default_adapter
                    },
                },
            )
        }
    } else if args[0] == "project"@ {
        if args.len() > 1 && args[1] == "add"@ {
            if args.len() > 2 {
                Ok(CommandView::ProjectAdd { path: args[2] })
            } else {
                Err("usage: clowder project add <path>"@)
            }
        } else if args.len() > 1 && args[1] == "list"@ {
            Ok(CommandView::ProjectList)
        } else if args.len() > 1 && args[1] == "rm"@ {
            if args.len() > 2 {
                Ok(CommandView::ProjectRemove { path: args[2] })
            } else {
                Err("usage: clowder project rm <path>"@)
            }
        } else {
            Err("usage: clowder project <add|list|rm> [path]"@)
        }
    } else if args[0] == "attach"@ {
        if args.len() > 1 && number_up_to(args[1], u64::MAX as nat) is Some {
            Ok(CommandView::Attach { pane: number_up_to(args[1], u64::MAX as nat)->0 })
        } else {
            Err("usage: clowder attach <pane-id>"@)
        }
    } else if args[0] == "connect"@ {
        Ok(CommandView::Connect { rest: args.skip(1) })
    } else if args[0] == "remote-host"@ {
        Ok(CommandView::RemoteHost)
    } else if args[0] == "remote-token"@ {
        Ok(CommandView::RemoteToken)
    } else if args[0] == "remote"@ {
        Ok(CommandView::Remote { rest: args.skip(1) })
    } else if args[0] == "agent"@ {
        Ok(CommandView::Agent { rest: args.skip(1) })
    } else if number_up_to(args[0], u64::MAX as nat) is Some {
        Ok(CommandView::Attach { pane: number_up_to(args[0], u64::MAX as nat)->0 })
    } else {
        Err(
            "usage: clowder <spawn|project|attach|connect|agent|remote|remote-host|remote-token> ..."@,
        )
    }
}

/// The strings but the first.
fn tail_of(args: &[String]) -> (rest: Vec<String>)
    requires
        args.len() > 0,
    ensures
        texts(rest@) == texts(args@).skip(1),
{
    let mut rest: Vec<String> = Vec::new();
    let mut i: usize = 1;
    while i < args.len()
        invariant
            1 <= i <= args.len(),
            rest@.len() == i - 1,
            forall|k: int| 0 <= k < i - 1 ==> (#[trigger] rest@[k])@ == args@[k + 1]@,
        decreases args.len() - i,
    {
        rest.push(args[i].clone());
        i = i + 1;
    }
    assert(texts(rest@) =~= texts(args@).skip(1));
    rest
}

/// Read the arguments (without the program's name).
pub fn parse_command(args: &[String], default_adapter: &str) -> (r: Result<Command, String>)
    ensures
        match r {
            Ok(c) => command_of(texts(args@), default_adapter@) == Ok::<CommandView, Seq<char>>(c@),
            Err(e) => command_of(texts(args@), default_adapter@) == Err::<CommandView, Seq<char>>(e@),
        },
{
    proof {
        assert forall|k: int| 0 <= k < args@.len() implies #[trigger] texts(args@)[k] == args@[k]@ by {}
    }
    if args.len() == 0 {
        return Err(
            "usage: clowder <spawn|project|attach|connect|agent|remote|remote-host|remote-token> ...".to_owned(),
        );
    }
    let first = args[0].as_str();
    assert(texts(args@)[0] == first@);
    if text::same(first, "spawn") {
        if args.len() < 3 {
            return Err("usage: clowder spawn <project> <name> [adapter]".to_owned());
        }
        let adapter = if args.len() > 3 {
            args[3].clone()
        } else {
            default_adapter.to_owned()
        };
        Ok(Command::Spawn { project: args[1].clone(), name: args[2].clone(), adapter })
    } else if text::same(first, "project") {
        if args.len() > 1 && text::same(args[1].as_str(), "add") {
            if args.len() > 2 {
                Ok(Command::ProjectAdd { path: args[2].clone() })
            } else {
                Err("usage: clowder project add <path>".to_owned())
            }
        } else if args.len() > 1 && text::same(args[1].as_str(), "list") {
            Ok(Command::ProjectList)
        } else if args.len() > 1 && text::same(args[1].as_str(), "rm") {
            if args.len() > 2 {
                Ok(Command::ProjectRemove { path: args[2].clone() })
            } else {
                Err("usage: clowder project rm <path>".to_owned())
            }
        } else {
            Err("usage: clowder project <add|list|rm> [path]".to_owned())
        }
    } else if text::same(first, "attach") {
        if args.len() > 1 {
            match text::parse_up_to(args[1].as_str(), u64::MAX) {
                Some(pane) => return Ok(Command::Attach { pane }),
                None => {},
            }
        }
        Err("usage: clowder attach <pane-id>".to_owned())
    } else if text::same(first, "connect") {
        Ok(Command::Connect { rest: tail_of(args) })
    } else if text::same(first, "remote-host") {
        Ok(Command::RemoteHost)
    } else if text::same(first, "remote-token") {
        Ok(Command::RemoteToken)
    } else if text::same(first, "remote") {
        Ok(Command::Remote { rest: tail_of(args) })
    } else if text::same(first, "agent") {
        Ok(Command::Agent { rest: tail_of(args) })
    } else {
        match text::parse_up_to(first, u64::MAX) {
            Some(pane) => Ok(Command::Attach { pane }),
            None => Err(
                "usage: clowder <spawn|project|attach|connect|agent|remote|remote-host|remote-token> ...".to_owned(),
            ),
        }
    }
}

/// A command is the one that was typed, with the arguments that were: in their places, and none made up but
/// for the agent of a spawn that names none.
pub proof fn law_a_command_is_what_was_typed(args: Seq<Seq<char>>, default_adapter: Seq<char>)
    ensures
        command_of(args, default_adapter) matches Ok(c) ==> args.len() > 0 && match c {
            CommandView::Spawn { project, name, adapter } => {
                &&& args[0] == "spawn"@ && args.len() >= 3
                &&& project == args[1] && name == args[2]
                &&& args.len() > 3 ==> adapter == args[3]
                &&& args.len() == 3 ==> adapter == default_adapter
            },
            CommandView::ProjectAdd { path } => args.len() >= 3 && args[0] == "project"@ && args[1]
                == "add"@ && path == args[2],
            CommandView::ProjectList => args.len() >= 2 && args[0] == "project"@ && args[1] == "list"@,
            CommandView::ProjectRemove { path } => args.len() >= 3 && args[0] == "project"@ && args[1]
                == "rm"@ && path == args[2],
            CommandView::Attach { pane } => {
                ||| args.len() >= 2 && args[0] == "attach"@ && number_up_to(args[1], u64::MAX as nat)
                    == Some(pane)
                ||| number_up_to(args[0], u64::MAX as nat) == Some(pane)
            },
            CommandView::Connect { rest } => args[0] == "connect"@ && args == seq![args[0]] + rest,
            CommandView::RemoteHost => args[0] == "remote-host"@,
            CommandView::RemoteToken => args[0] == "remote-token"@,
            CommandView::Remote { rest } => args[0] == "remote"@ && args == seq![args[0]] + rest,
            CommandView::Agent { rest } => args[0] == "agent"@ && args == seq![args[0]] + rest,
        },
        args.len() >= 3 && args[0] == "spawn"@ ==> command_of(args, default_adapter) is Ok,
{
    if args.len() > 0 {
        assert(args =~= seq![args[0]] + args.skip(1));
    }
}

/// Each of the commands is there: with what it needs behind its name it is never refused, without it it is,
/// and a number alone attaches to that pane.
pub proof fn law_every_command_is_there(args: Seq<Seq<char>>, default_adapter: Seq<char>, pane: nat)
    requires
        args.len() > 0,
        pane <= u64::MAX,
    ensures
        ({
            let r = command_of(args, default_adapter);
            &&& args[0] == "spawn"@ ==> (r is Ok <==> args.len() >= 3)
            &&& args.len() > 1 && args[0] == "project"@ && args[1] == "add"@ ==> (r is Ok <==> args.len() >= 3)
            &&& args.len() > 1 && args[0] == "project"@ && args[1] == "rm"@ ==> (r is Ok <==> args.len() >= 3)
            &&& args.len() > 1 && args[0] == "project"@ && args[1] == "list"@ ==> r is Ok
            &&& args.len() == 1 && (args[0] == "project"@ || args[0] == "attach"@) ==> r is Err
            &&& args.len() > 1 && args[0] == "attach"@ && args[1] == text::decimal(pane) ==> r == Ok::<
                CommandView,
                Seq<char>,
            >(CommandView::Attach { pane })
            &&& args[0] == text::decimal(pane) ==> r == Ok::<CommandView, Seq<char>>(
                CommandView::Attach { pane },
            )
            &&& args[0] == "connect"@ || args[0] == "remote-host"@ || args[0] == "remote-token"@ || args[0]
                == "remote"@ || args[0] == "agent"@ ==> r is Ok
        }),
{
    reveal_strlit("spawn");
    reveal_strlit("project");
    reveal_strlit("attach");
    reveal_strlit("connect");
    reveal_strlit("remote-host");
    reveal_strlit("remote-token");
    reveal_strlit("remote");
    reveal_strlit("agent");
    reveal_strlit("add");
    reveal_strlit("rm");
    reveal_strlit("list");
    assert("spawn"@[0] == 's' && "project"@[0] == 'p' && "attach"@[0] == 'a' && "connect"@[0] == 'c'
        && "remote-host"@[0] == 'r' && "remote-token"@[0] == 'r' && "remote"@[0] == 'r' && "agent"@[0]
        == 'a');
    assert("attach"@.len() == 6 && "agent"@.len() == 5);
    assert("add"@[0] == 'a' && "rm"@[0] == 'r' && "list"@[0] == 'l');
    text::law_a_number_is_read_back(pane, u64::MAX as nat, seq![], 0);
    text::lemma_decimal_nonempty(pane);
    assert(text::is_digit(text::decimal(pane)[0]));
}

} // verus!
