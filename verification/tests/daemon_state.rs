use clowder::daemon::adapter::{Adapter, AdapterDescriptor};
use clowder::daemon::agent_profiles::AgentProfileStore;
use clowder::daemon::command::PaneCommand;
use clowder::daemon::conn::{
    session, take_output, Attach, ListAction, ListEvent, SessionAction, SessionEvent,
};
use clowder::daemon::control::{is_blank, Handled, News, Outcome, Work};
use clowder::daemon::projects::{PathFacts, ProjectStore};
use clowder::daemon::registry::{AgentRecord, Registry};
use clowder::daemon::state::agents::{Finish, SpawnSpec};
use clowder::daemon::state::attention::at_rest;
use clowder::daemon::state::layout::Close;
use clowder::daemon::state::terminals::Open;
use clowder::daemon::state::{Daemon, Effect, ProjectChange, Settings};
use clowder::proto::control::{
    AgentProfileInfo, Axis, ControlEvent, ControlRequest, PaneTree, Ratio, SplitDirection, SplitId, HALF,
};
use clowder::proto::message::{
    AttentionState, ClientToDaemon, DaemonToClient, HookEvent, HookKind, PaneId,
};
use clowder::workspace::kind::{Workspace, WorkspaceKind};
use clowder::workspace::layout::WorktreeLayout;

fn command(program: &str, args: &[&str]) -> PaneCommand {
    PaneCommand {
        program: program.into(),
        args: args.iter().map(|a| a.to_string()).collect(),
        cwd: None,
        env: vec![],
    }
}

fn descriptor(id: &str, name: &str, recorded: &str, program: &str, hooks: bool) -> AdapterDescriptor {
    AdapterDescriptor {
        id: id.into(),
        display_name: name.into(),
        adapter: Adapter {
            id: recorded.into(),
            launch: command(program, &["base"]),
            resume: command(program, &["again"]),
            provides_hooks: hooks,
        },
    }
}

fn known() -> Vec<AdapterDescriptor> {
    vec![
        descriptor("pilot", "Pilot", "pilot", "pilot", true),
        descriptor("codex", "OpenAI Codex", "codex", "codex", true),
        descriptor("shell", "Shell", "synthetic", "/bin/sh", false),
    ]
}

fn layout() -> WorktreeLayout {
    WorktreeLayout::new("/state/worktrees".into())
}

fn facts(path: &str) -> PathFacts {
    PathFacts {
        canonical: Some(path.into()),
        is_dir: true,
        kind: Some(WorkspaceKind::Git),
        canonical_base: Some("/state/worktrees".into()),
    }
}

fn daemon_with(records: Vec<AgentRecord>) -> Daemon {
    let settings = Settings {
        hook_sock: "/run/hook.sock".into(),
        backlog_cap: 1024,
        default_cols: 80,
        default_rows: 24,
        shell: "/bin/zsh".into(),
        worktrees: layout(),
    };
    let mut d = Daemon::new(
        settings,
        Registry::loaded("/state/agents.json".into(), Some(records)),
        ProjectStore::new("/state/projects.json".into(), layout()),
        AgentProfileStore::new("/state/agent-profiles.json".into(), known()),
    );
    d.add_project("/repo", facts("/repo")).unwrap();
    d
}

fn daemon() -> Daemon {
    daemon_with(vec![])
}

fn workspace(name: &str) -> Workspace {
    Workspace {
        path: format!("/state/worktrees/repo/{name}"),
        branch: format!("clowder/{name}"),
        project: "/repo".into(),
        kind: WorkspaceKind::Git,
    }
}

fn spawn_as(d: &mut Daemon, name: &str, picked: &str) -> PaneId {
    let project = d.check_spawn("/repo", Some("/repo"), name).unwrap();
    let ws = workspace(name);
    let id = d.begin_spawn(&project, name, &ws.path, false, false).unwrap();
    let (record, hooks) = {
        let spec = d.spawn_spec(picked).unwrap();
        let (_, record) = d.spawn_plan(id, &project, &ws, name, &spec);
        (record, spec.adapter.provides_hooks)
    };
    d.commit_spawn(record, ws, hooks);
    id
}

fn spawn(d: &mut Daemon, name: &str) -> PaneId {
    spawn_as(d, name, "shell")
}

fn split(d: &mut Daemon, target: PaneId) -> PaneId {
    let (root, _) = d.begin_split(target).unwrap();
    let companion = d.alloc_id();
    d.register_pane(companion);
    d.commit_split(root, target, companion, SplitDirection::Right).unwrap();
    companion
}

fn leaf(pane: PaneId) -> PaneTree {
    PaneTree::Leaf { pane }
}

fn pair(id: u64, first: PaneTree, second: PaneTree) -> PaneTree {
    PaneTree::Split {
        id: SplitId(id),
        axis: Axis::Horizontal,
        ratio: Ratio(HALF),
        first: Box::new(first),
        second: Box::new(second),
    }
}

// Spawning.

#[test]
fn an_agent_is_spawned_recorded_and_listed() {
    let mut d = daemon();
    let id = spawn(&mut d, "feat");
    assert_eq!(id, PaneId(1));
    assert!(d.is_live(id));
    assert_eq!(d.attention_of(id), Some(AttentionState::Working));
    assert_eq!(d.split_tree_of(id), Some(leaf(id)));
    assert_eq!(d.owner_of(id), Some(id));
    let r = &d.registry.load()[0];
    assert_eq!((r.agent_id, r.task.as_str(), r.adapter_id.as_str()), (1, "feat", "synthetic"));
    assert_eq!((r.cols, r.rows), (80, 24));
    assert_eq!(r.profile_id.as_deref(), Some("shell"));
    let list = d.list_worktrees();
    assert_eq!(list.len(), 1);
    assert_eq!((list[0].pane, list[0].name.as_str(), list[0].branch.as_str()), (id, "feat", "clowder/feat"));
}

#[test]
fn a_spawn_is_refused_before_anything_is_made() {
    let mut d = daemon();
    assert_eq!(
        d.check_spawn("/gone", None, "feat"),
        Err("no such project path: /gone".to_string())
    );
    assert_eq!(
        d.check_spawn("/other", Some("/other"), "feat"),
        Err("unknown project: /other — add it first".to_string())
    );
    assert!(d.check_spawn("/repo", Some("/repo"), "my feature").is_err());
    let e = d.begin_spawn("/repo", "feat", "/wt", true, true).unwrap_err();
    assert_eq!(
        e,
        "a worktree named 'feat' already exists at /wt — land/discard it or choose another name"
    );
    let e = d.begin_spawn("/repo", "feat", "/wt", false, true).unwrap_err();
    assert_eq!(e, "branch clowder/feat already exists in /repo — choose another name");
    assert_eq!(d.begin_spawn("/repo", "feat", "/wt", false, false), Ok(PaneId(1)));
}

#[test]
fn the_arguments_of_a_profile_come_behind_those_of_the_adapter() {
    let mut d = daemon();
    d.add_agent_profile(AgentProfileInfo {
        id: "mine".into(),
        base: "codex".into(),
        display_name: "Mine".into(),
        enabled: true,
        args: "--at {{workspace_path}} --in={{project_path}} {{workspace_name}} {{branch}}".into(),
        builtin: false,
    })
    .unwrap();
    let spec = d.spawn_spec("mine").unwrap();
    let (cmd, rec) = d.spawn_plan(PaneId(5), "/repo", &workspace("a b"), "a b", &spec);
    assert_eq!(
        cmd.args,
        vec!["base", "--at", "/state/worktrees/repo/a b", "--in=/repo", "a b", "clowder/a b"]
    );
    assert_eq!(rec.extra_args, cmd.args[1..].to_vec());
    assert_eq!(rec.adapter_id, "codex");
    assert_eq!(rec.profile_id.as_deref(), Some("mine"));
    assert!(cmd.env.contains(&("CLOWDER_AGENT_ID".to_string(), "5".to_string())));
    assert!(cmd.env.contains(&("CLOWDER_HOOK_SOCK".to_string(), "/run/hook.sock".to_string())));
}

#[test]
fn spawn_spec_adapter_only_records_no_profile_and_no_args() {
    let d = daemon();
    let all = known();
    let spec = SpawnSpec::adapter_only(all[2].adapter.copied());
    let (cmd, rec) = d.spawn_plan(PaneId(1), "/repo", &workspace("t"), "t", &spec);
    assert_eq!(cmd.args, vec!["base"]);
    assert!(rec.extra_args.is_empty());
    assert_eq!(rec.profile_id, None);
    assert_eq!(rec.adapter_id, "synthetic");
}

#[test]
fn what_cannot_be_picked_cannot_be_spawned() {
    let d = daemon();
    assert_eq!(d.spawn_spec("ghost").map(|_| ()), Err("unknown agent: ghost".to_string()));
}

// Layouts.

#[test]
fn splitting_and_closing_manage_the_tree() {
    let mut d = daemon();
    let agent = spawn(&mut d, "feat");
    let (root, cmd) = d.begin_split(agent).unwrap();
    assert_eq!(root, agent);
    assert_eq!(cmd.program, "/bin/zsh");
    assert_eq!(cmd.cwd.as_deref(), Some("/state/worktrees/repo/feat"));
    let companion = split(&mut d, agent);
    let tree = pair(1, leaf(agent), leaf(companion));
    assert_eq!(d.split_tree_of(agent), Some(tree.copied()));
    assert_eq!(d.owner_of(companion), Some(agent));
    assert_eq!(d.registry.load()[0].tree, Some(tree));

    match d.close_pane(companion) {
        Ok(Close::Companion(root, effects)) => {
            assert_eq!(root, agent);
            assert!(effects.contains(&Effect::End(companion)) || effects.contains(&Effect::Kill(companion)));
        }
        _ => panic!("a companion was closed"),
    }
    assert_eq!(d.split_tree_of(agent), Some(leaf(agent)));
    assert_eq!(d.owner_of(companion), None);
    assert!(!d.is_live(companion));
    assert!(matches!(d.close_pane(agent), Ok(Close::Agent)));
    assert!(d.close_pane(PaneId(99)).is_err());
    assert!(d.begin_split(PaneId(99)).is_err());
}

#[test]
fn a_companion_that_exits_is_reaped() {
    let mut d = daemon();
    let agent = spawn(&mut d, "feat");
    let companion = split(&mut d, agent);
    assert!(!d.reap_companion(companion).is_empty());
    assert_eq!(d.split_tree_of(agent), Some(leaf(agent)));
    assert!(d.reap_companion(companion).is_empty());
}

#[test]
fn a_moved_divider_is_stored_with_the_next_flush() {
    let mut d = daemon();
    let agent = spawn(&mut d, "feat");
    split(&mut d, agent);
    let (root, effects) = d.set_split_ratio(SplitId(1), Ratio(0x3e800000)).unwrap();
    assert_eq!(root, agent);
    assert!(matches!(effects.as_slice(), [Effect::Tree(p, _)] if *p == agent));
    let ratio_of = |t: &Option<PaneTree>| match t {
        Some(PaneTree::Split { ratio, .. }) => *ratio,
        _ => panic!("a split"),
    };
    assert_eq!(ratio_of(&d.registry.load()[0].tree), Ratio(HALF));
    assert_eq!(d.flush_dirty_layouts(), vec![Effect::SaveRegistry]);
    assert_eq!(ratio_of(&d.registry.load()[0].tree), Ratio(0x3e800000));
    assert_eq!(d.flush_dirty_layouts(), vec![]);
    assert!(d.set_split_ratio(SplitId(9), Ratio(HALF)).is_err());
}

#[test]
fn a_stored_layout_is_rebuilt_with_fresh_panes() {
    let mut d = daemon();
    let agent = spawn(&mut d, "feat");
    let stored = pair(7, pair(8, leaf(agent), leaf(PaneId(40))), leaf(PaneId(41)));
    assert_eq!(Daemon::companions_to_restore(&stored, agent), 2);
    assert!(d.can_restore(&stored));
    let fresh = d.alloc_id();
    d.register_pane(fresh);
    let effects = d.restore_layout(agent, &stored, &[None, Some(fresh)]);
    assert!(matches!(effects.as_slice(), [Effect::Tree(p, _)] if *p == agent));
    match d.split_tree_of(agent) {
        Some(PaneTree::Split { first, second, .. }) => {
            assert_eq!(*first, leaf(agent), "a companion that did not start is left out");
            assert_eq!(*second, leaf(fresh));
        }
        other => panic!("a split, got {other:?}"),
    }
    assert_eq!(d.owner_of(fresh), Some(agent));
}

// Finishing, restarting and reconciling.

#[test]
fn a_finished_agent_leaves_no_pane() {
    let mut d = daemon();
    let agent = spawn(&mut d, "feat");
    let companion = split(&mut d, agent);
    assert_eq!(d.check_finish(agent, true), Ok(()));
    let (ws, _) = d.begin_finish(agent);
    assert_eq!(ws.unwrap().path, "/state/worktrees/repo/feat");
    let (dir, effects) = d.end_finish(agent, Finish::Done);
    assert_eq!(dir.as_deref(), Some("/state/worktrees/repo"));
    assert!(effects.contains(&Effect::AgentRemoved(agent)));
    assert!(effects.contains(&Effect::SaveRegistry));
    assert!(!d.is_live(agent) && !d.is_live(companion));
    assert_eq!(d.owner_of(companion), None);
    assert_eq!(d.split_tree_of(agent), None);
    assert!(d.registry.load().is_empty());
}

#[test]
fn a_failed_finish_can_be_restarted() {
    let mut d = daemon();
    let agent = spawn(&mut d, "feat");
    d.begin_finish(agent);
    let (dir, _) = d.end_finish(agent, Finish::FailedKept);
    assert_eq!(dir, None);
    assert_eq!(d.attention_of(agent), Some(AttentionState::Exited));
    assert!(!d.registry.load().is_empty());

    let again = match d.begin_restart(agent) {
        Ok(r) => r,
        Err(e) => panic!("{e}"),
    };
    let (ws, cmd, hooks) = d.resume_plan(&again.record, true).unwrap();
    assert_eq!(cmd.args, vec!["again"]);
    assert!(!hooks);
    d.end_restart(agent, ws, "feat".into(), hooks, again.tree);
    assert_eq!(d.attention_of(agent), Some(AttentionState::Working));
    assert!(d.is_live(agent));
}

#[test]
fn an_agent_that_runs_is_not_restarted() {
    let mut d = daemon();
    let agent = spawn(&mut d, "feat");
    assert_eq!(
        d.begin_restart(agent).map(|_| ()),
        Err("agent 1 is still running — land or discard it instead".to_string())
    );
    assert_eq!(
        d.begin_restart(PaneId(8)).map(|_| ()),
        Err("no worktree with pane 8".to_string())
    );
}

#[test]
fn recorded_agents_come_back_after_a_restart_of_the_daemon() {
    let mut d = daemon();
    spawn(&mut d, "a");
    spawn(&mut d, "b");
    let mut again = daemon_with(d.registry.copies());
    let records = again.reconcile();
    assert_eq!(records.iter().map(|r| r.agent_id).collect::<Vec<_>>(), vec![1, 2]);
    assert_eq!(again.alloc_id(), PaneId(3), "a new number is above the recorded ones");

    let (ws, _, hooks) = again.resume_plan(&records[0], true).unwrap();
    again.finalize_agent(PaneId(1), ws, "a".into(), hooks);
    let e = again.resume_plan(&records[1], false).unwrap_err();
    assert_eq!(e, "worktree /state/worktrees/repo/b is gone");
    again.prune(2);
    assert_eq!(again.registry.load().iter().map(|r| r.agent_id).collect::<Vec<_>>(), vec![1]);

    let mut bad = records[0].copied();
    bad.workspace_kind = "svn".into();
    assert_eq!(
        again.resume_plan(&bad, true).map(|_| ()),
        Err("unknown workspace kind \"svn\"".to_string())
    );
    bad.workspace_kind = "git".into();
    bad.adapter_id = "a\"b".into();
    assert_eq!(
        again.resume_plan(&bad, true).map(|_| ()),
        Err("unknown adapter \"a\\\"b\"".to_string())
    );
}

// Attention.

#[test]
fn hooks_and_the_user_move_the_attention() {
    let mut d = daemon();
    let agent = spawn(&mut d, "feat");
    let hook = |kind| HookEvent { agent_id: PaneId(1), kind };
    assert_eq!(
        d.apply_hook(hook(HookKind::Notification)),
        Effect::Attention(agent, AttentionState::NeedsInput)
    );
    assert_eq!(d.user_input(agent), Some(Effect::Attention(agent, AttentionState::Working)));
    assert_eq!(d.user_input(agent), None);
    d.apply_hook(hook(HookKind::Stop));
    assert_eq!(d.attention_of(agent), Some(AttentionState::Completed));
    d.apply_hook(hook(HookKind::Active));
    assert_eq!(d.attention_of(agent), Some(AttentionState::Working));
    assert_eq!(d.escalate(agent), Some(Effect::Attention(agent, AttentionState::NeedsInput)));
    assert_eq!(d.escalate(agent), None);
    assert!(at_rest(false, true) && !at_rest(true, true) && !at_rest(false, false));
}

// Projects and their terminals.

#[test]
fn a_project_has_one_terminal() {
    let mut d = daemon();
    match d.begin_open("/repo", Some("/repo")) {
        Ok(Open::Spawn(cmd)) => assert_eq!(cmd.cwd.as_deref(), Some("/repo")),
        _ => panic!("a terminal to spawn"),
    }
    let first = d.alloc_id();
    d.register_pane(first);
    assert_eq!(d.commit_open("/repo".into(), first).0, first);
    assert_eq!(d.project_of_terminal(first).as_deref(), Some("/repo"));
    assert!(matches!(d.begin_open("/repo/.", Some("/repo")), Ok(Open::There(p)) if p == first));

    let late = d.alloc_id();
    d.register_pane(late);
    let (winner, effects) = d.commit_open("/repo".into(), late);
    assert_eq!((winner, effects), (first, vec![Effect::End(late)]));
    assert!(!d.is_live(late));

    assert_eq!(
        d.check_finish(first, true),
        Err("pane 1 is a project terminal — it has no workspace to land".to_string())
    );
    let companion = split(&mut d, first);
    match d.close_pane(first) {
        Ok(Close::Terminal(root, _)) => assert_eq!(root, "/repo"),
        _ => panic!("a terminal was closed"),
    }
    assert!(!d.is_live(first) && !d.is_live(companion));
    assert_eq!(d.owner_of(companion), None);
    assert!(d.begin_open("/other", Some("/other")).is_err());
    assert!(d.begin_open("/gone", None).is_err());
}

#[test]
fn a_project_in_use_is_not_removed() {
    let mut d = daemon();
    spawn(&mut d, "feat");
    let in_use = d.agent_projects();
    assert_eq!(in_use, vec!["/repo".to_string()]);
    assert_eq!(
        d.remove_project("/repo", &in_use),
        Err("project /repo still has 1 worktree(s) — land or discard them first".to_string())
    );
    let effects = d.remove_project("/repo", &[]).unwrap();
    assert!(effects.contains(&Effect::SaveProjects));
    assert!(effects.contains(&Effect::Project(ProjectChange::Removed("/repo".into()))));
    assert!(!d.is_registered_project(Some("/repo")));
    assert!(!d.is_registered_project(None));
}

#[test]
fn projects_are_listed_by_path() {
    let mut d = daemon();
    for p in ["/z", "/a/b", "/a"] {
        d.add_project(p, facts(p)).unwrap();
    }
    let list = d.list_projects();
    let paths: Vec<&str> = list.iter().map(|p| p.path.as_str()).collect();
    assert_eq!(paths, vec!["/a", "/a/b", "/repo", "/z"]);
    assert_eq!((list[1].name.as_str(), list[1].kind.as_str()), ("b", "git"));
}

// Profiles.

fn opus() -> AgentProfileInfo {
    AgentProfileInfo {
        id: "opus".into(),
        base: "pilot".into(),
        display_name: "Pilot (Opus)".into(),
        enabled: true,
        args: "--model opus".into(),
        builtin: false,
    }
}

#[test]
fn list_adapters_returns_only_enabled_profiles() {
    let mut d = daemon();
    let ids: Vec<String> = d.list_adapters().into_iter().map(|a| a.id).collect();
    assert_eq!(ids, vec!["pilot", "codex", "shell"], "defaults are all enabled");

    let mut codex = d.list_agent_profiles().into_iter().find(|p| p.id == "codex").unwrap();
    codex.enabled = false;
    d.update_agent_profile(codex).unwrap();

    let ids: Vec<String> = d.list_adapters().into_iter().map(|a| a.id).collect();
    assert_eq!(ids, vec!["pilot", "shell"], "a disabled profile leaves the picker");

    let codex = d.list_agent_profiles().into_iter().find(|p| p.id == "codex").unwrap();
    assert!(!codex.enabled && codex.builtin);
}

#[test]
fn adapter_list_shows_a_user_profiles_display_name() {
    let mut d = daemon();
    d.add_agent_profile(opus()).unwrap();
    let a = d.list_adapters();
    assert!(a.iter().any(|a| a.id == "opus" && a.display_name == "Pilot (Opus)"), "{a:?}");
}

#[test]
fn profile_mutations_tick_the_broadcast() {
    let mut d = daemon();
    let effects = d.add_agent_profile(opus()).unwrap();
    assert!(effects.contains(&Effect::ProfilesChanged), "add must notify connected clients");
    let effects = d.remove_agent_profile("opus").unwrap();
    assert!(effects.contains(&Effect::ProfilesChanged), "remove must notify too");
}

#[test]
fn a_failed_mutation_does_not_tick() {
    let mut d = daemon();
    assert!(d.remove_agent_profile("pilot").is_err());
    match d.handle_request(ControlRequest::RemoveAgentProfile { id: "pilot".into() }) {
        Handled::Reply(ControlEvent::Error { .. }, effects) => {
            assert!(effects.is_empty(), "a refused mutation must not broadcast")
        }
        _ => panic!("a refusal"),
    }
}

#[test]
fn list_adapters_returns_registry_descriptor_ids() {
    let mut d = daemon();
    match d.handle_request(ControlRequest::ListAdapters) {
        Handled::Reply(ControlEvent::AdapterList { adapters }, _) => {
            let ids: Vec<String> = adapters.into_iter().map(|a| a.id).collect();
            assert!(ids.contains(&"pilot".to_string()));
            assert!(ids.contains(&"codex".to_string()));
            assert!(ids.contains(&"shell".to_string()));
        }
        _ => panic!("expected AdapterList"),
    }
}

// The control socket.

#[test]
fn a_request_is_answered_or_needs_work() {
    let mut d = daemon();
    let agent = spawn(&mut d, "feat");
    match d.handle_request(ControlRequest::GetSplitTree { agent }) {
        Handled::Reply(e, effects) => {
            assert_eq!(e, ControlEvent::SplitTreeChanged { agent, tree: leaf(agent) });
            assert!(effects.is_empty());
        }
        _ => panic!("a reply"),
    }
    match d.handle_request(ControlRequest::GetSplitTree { agent: PaneId(9) }) {
        Handled::Reply(ControlEvent::Error { message }, _) => {
            assert!(message.starts_with("no split tree for "), "{message}")
        }
        _ => panic!("an error"),
    }
    match d.handle_request(ControlRequest::ClosePane { pane: agent }) {
        Handled::Work(w) => assert_eq!(w, Work::CloseAgent { pane: agent }),
        _ => panic!("work"),
    }
    match d.handle_request(ControlRequest::ListWorktrees) {
        Handled::Reply(e, _) => assert_eq!(e, d.control_greeting()),
        _ => panic!("a reply"),
    }
    match d.handle_request(ControlRequest::AddProject { path: "/p".into() }) {
        Handled::Work(w) => assert_eq!(w, Work::AddProject { path: "/p".into() }),
        _ => panic!("work"),
    }
}

#[test]
fn the_outcome_of_work_is_told() {
    let mut d = daemon();
    let agent = spawn(&mut d, "feat");
    let companion = split(&mut d, agent);
    let tree = pair(1, leaf(agent), leaf(companion));
    assert_eq!(
        d.answer(Outcome::Split(Ok(companion))),
        ControlEvent::SplitTreeChanged { agent, tree }
    );
    assert_eq!(d.answer(Outcome::Spawned(Ok(agent))), ControlEvent::AgentSpawned { pane: agent });
    assert_eq!(
        d.answer(Outcome::Spawned(Err("no".into()))),
        ControlEvent::Error { message: "no".into() }
    );
    assert_eq!(
        d.answer(Outcome::Split(Ok(PaneId(77)))),
        ControlEvent::Error { message: "split produced no owner".into() }
    );
    assert_eq!(
        d.answer(Outcome::Unread("eof".into())),
        ControlEvent::Error { message: "bad request: eof".into() }
    );
    assert_eq!(
        d.answer(Outcome::Finished(agent, Ok(()))),
        ControlEvent::AgentRemoved { pane: agent }
    );
    assert_eq!(
        d.answer(Outcome::TerminalOpened("/repo".into(), Ok(agent))),
        ControlEvent::ProjectTerminalOpened { path: "/repo".into(), pane: agent }
    );
}

#[test]
fn news_reach_every_control_connection() {
    let d = daemon();
    assert_eq!(
        d.tell(News::Attention(PaneId(1), AttentionState::Exited)),
        Some(vec![ControlEvent::AttentionChanged { pane: PaneId(1), state: AttentionState::Exited }])
    );
    assert_eq!(d.tell(News::Missed), Some(vec![]));
    assert_eq!(d.tell(News::Ended), None);
    match d.tell(News::Profiles).as_deref() {
        Some([ControlEvent::AgentProfileList { profiles }, ControlEvent::AdapterList { adapters }]) => {
            assert_eq!((profiles.len(), adapters.len()), (3, 3))
        }
        other => panic!("both lists, got {other:?}"),
    }
    assert!(is_blank(" \t") && !is_blank("{}"));
}

// The render socket.

#[test]
fn a_client_attaches_to_a_live_pane() {
    let mut d = daemon();
    let agent = spawn(&mut d, "feat");
    assert_eq!(d.attach(Some(&ClientToDaemon::Attach { pane: agent })), Attach::Session(agent));
    assert_eq!(d.attach(Some(&ClientToDaemon::ListWorktrees)), Attach::List);
    assert_eq!(d.attach(None), Attach::End);
    let greeting = d.session_greeting(agent, 80, 24, b"old".to_vec());
    assert_eq!(greeting[0], DaemonToClient::Attached { pane: agent, cols: 80, rows: 24 });
    assert!(greeting.contains(&DaemonToClient::Output { pane: agent, bytes: b"old".to_vec() }));
    assert!(matches!(d.worktree_message(), DaemonToClient::WorktreeList { worktrees } if worktrees.len() == 1));
}

#[test]
fn a_session_carries_output_and_input() {
    let p = PaneId(3);
    assert!(matches!(
        session(p, SessionEvent::Output(b"x".to_vec())),
        SessionAction::Send(DaemonToClient::Output { pane, bytes }) if pane == p && bytes == b"x"
    ));
    let typed = ClientToDaemon::Input { pane: p, bytes: b"ls".to_vec() };
    assert!(matches!(
        session(p, SessionEvent::Client(Some(typed))),
        SessionAction::Write(bytes) if bytes == b"ls"
    ));
    let resize = ClientToDaemon::Resize { pane: p, cols: 90, rows: 30 };
    assert!(matches!(session(p, SessionEvent::Client(Some(resize))), SessionAction::Resize(90, 30)));
    assert!(matches!(session(p, SessionEvent::Client(None)), SessionAction::Finish(v) if v.is_empty()));
    assert!(matches!(session(p, SessionEvent::OutputMissed), SessionAction::Go));
    match session(p, SessionEvent::Exited(vec![b"bye".to_vec()], Some(2))) {
        SessionAction::Finish(v) => assert_eq!(
            v,
            vec![
                DaemonToClient::Output { pane: p, bytes: b"bye".to_vec() },
                DaemonToClient::PaneExited { pane: p, code: Some(2) },
            ]
        ),
        _ => panic!("the end"),
    }
}

#[test]
fn a_list_of_agents_is_kept_up_to_date() {
    let d = daemon();
    assert!(matches!(
        d.list_step(ListEvent::Attention(PaneId(1), AttentionState::Completed)),
        ListAction::Send(DaemonToClient::AttentionChanged { pane: PaneId(1), state: AttentionState::Completed })
    ));
    assert!(matches!(
        d.list_step(ListEvent::Removed(PaneId(1))),
        ListAction::Send(DaemonToClient::AgentRemoved { pane: PaneId(1) })
    ));
    assert!(matches!(d.list_step(ListEvent::Missed), ListAction::Go));
    assert!(matches!(d.list_step(ListEvent::Ended), ListAction::End));
    assert!(matches!(d.list_step(ListEvent::Client(None)), ListAction::End));
}

#[test]
fn the_backlog_is_the_last_output() {
    let mut b: Vec<u8> = vec![];
    take_output(&mut b, b"abc", 4);
    take_output(&mut b, b"def", 4);
    assert_eq!(b, b"cdef");
    take_output(&mut b, b"0123456789", 4);
    assert_eq!(b, b"6789");
}

#[test]
fn a_shutdown_ends_every_pane() {
    let mut d = daemon();
    let a = spawn(&mut d, "a");
    let b = split(&mut d, a);
    let mut panes = d.shutdown();
    panes.sort();
    assert_eq!(panes, vec![a, b]);
    assert!(!d.is_live(a));
    assert_eq!(d.hook_sock(), "/run/hook.sock");
}

#[test]
fn a_line_is_answered_unless_it_is_blank() {
    let mut d = daemon();
    assert!(d.handle_line(" \t", Err("EOF".into())).is_none());
    assert!(d.handle_line("", Ok(ControlRequest::ListProjects)).is_none());
    match d.handle_line("{", Err("EOF".into())) {
        Some(Handled::Reply(ControlEvent::Error { message }, effects)) => {
            assert_eq!(message, "bad request: EOF");
            assert!(effects.is_empty());
        }
        _ => panic!("an error"),
    }
    match d.handle_line("{}", Ok(ControlRequest::ListProjects)) {
        Some(Handled::Reply(ControlEvent::ProjectList { .. }, _)) => {}
        _ => panic!("a list"),
    }
    match d.handle_line("{}", Ok(ControlRequest::AddProject { path: "/p".into() })) {
        Some(Handled::Work(Work::AddProject { path })) => assert_eq!(path, "/p"),
        _ => panic!("work"),
    }
}
