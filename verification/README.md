# clowder

A daemon that runs coding agents side by side, each in a worktree of its own, and the clients that show
them. A pane is a program in a terminal; an agent has a pane, a branch and a layout of companion panes
around it; a project has a terminal that is no agent. Agents tell the daemon by hooks when they need the
user, and one that has no hooks is watched on its screen.

- `src/` is the library. Everything that the programs decide stands here, with contracts that Verus
  proves: settings, names and paths, the layout of panes, the life of agents and terminals, the control
  protocol, the terminal screen, trust in remote daemons. Nothing in it touches the outside: where a
  request needs work done (`daemon::flow`), the daemon says what, is told how it went, and goes on.
- `app/` does that work: sockets, processes, files, TLS, and the serialised forms of the messages.
- `tests/` runs the library on concrete values.

The built-in agents are listed in `agents.toml` beside `config.toml`:

```toml
default = "codex"

[[agent]]
id = "codex"
display_name = "OpenAI Codex"
program = "codex"
hooks = true
```

`default` is what a spawn gets that names no agent. `files` lists what is written below a worktree for an agent to find the hook program; `{{agent_id}}` and
`{{hook_sock}}` in them are filled in. A shell is always there.
