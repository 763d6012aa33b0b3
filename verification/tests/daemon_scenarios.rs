use clowder::config::agents::split_args;
use clowder::config::resolve::{Config, FileConfig};
use clowder::config::vars::Vars;
use clowder::daemon::adapter::{Adapter, AdapterDescriptor};
use clowder::daemon::agent_profiles::AgentProfileStore;
use clowder::daemon::command::PaneCommand;
use clowder::daemon::conn::{session, take_output, Attach, ListAction, ListEvent, SessionAction, SessionEvent};
use clowder::daemon::control::{Handled, News, Work};
use clowder::daemon::flow::{Ask, Next, Role, Step, Told};
use clowder::daemon::projects::{PathFacts, ProjectStore};
use clowder::daemon::registry::Registry;
use clowder::daemon::scan::{ScanEvent, Scanner};
use clowder::daemon::split_tree;
use clowder::daemon::state::{Daemon, Effect, ProjectChange, Settings};
use clowder::proto::control::{
    AgentProfileInfo, ControlEvent, ControlRequest, PaneTree, Ratio, SplitDirection, SplitId,
};
use clowder::proto::message::{
    AttentionState, ClientToDaemon, DaemonToClient, HookEvent, HookKind, PaneId,
};
use clowder::workspace::driver::{driver_for, driver_for_kind, WorkspaceDriver};
use clowder::workspace::kind::{Workspace, WorkspaceKind};
use clowder::workspace::layout::WorktreeLayout;

const BASE: &str = "/state/worktrees";

fn layout() -> WorktreeLayout {
    WorktreeLayout::new(BASE.into())
}

/// A daemon with an outside of its own: repositories, worktrees, branches and processes.
struct World {
    d: Daemon,
    repos: Vec<(String, WorkspaceKind)>,
    plain: Vec<String>,
    worktrees: Vec<String>,
    branches: Vec<(String, String)>,
    running: Vec<(PaneId, Role, PaneCommand)>,
    cannot_start: Vec<String>,
    land_fails: bool,
    effects: Vec<Effect>,
}

fn command(program: &str, args: &[&str]) -> PaneCommand {
    PaneCommand {
        program: program.into(),
        args: args.iter().map(|a| a.to_string()).collect(),
        cwd: None,
        env: vec![],
    }
}

fn descriptor(id: &str, recorded: &str, launch: PaneCommand, hooks: bool) -> AdapterDescriptor {
    AdapterDescriptor {
        id: id.into(),
        display_name: id.into(),
        adapter: Adapter {
            id: recorded.into(),
            resume: launch.copied(),
            launch,
            provides_hooks: hooks,
        },
    }
}

fn known() -> Vec<AdapterDescriptor> {
    vec![
        descriptor("hooked-test", "hooked-test", command("/bin/sh", &["-c", "sleep 30"]), true),
        descriptor("codex", "codex", command("codex", &[]), true),
        descriptor("echo", "echo", command("/bin/echo", &["base"]), true),
        descriptor("bogus", "bogus", command("/nonexistent/clowder-bogus-xyz", &[]), false),
        descriptor("shell", "synthetic", command("/bin/sh", &["-c", "sleep 30"]), false),
    ]
}

fn bare(registry: Registry, projects: ProjectStore) -> Daemon {
    Daemon::new(
        Settings {
            hook_sock: "/tmp/unused.sock".into(),
            backlog_cap: 4096,
            default_cols: 80,
            default_rows: 24,
            shell: "/bin/zsh".into(),
            worktrees: layout(),
        },
        registry,
        projects,
        AgentProfileStore::new("/state/agent-profiles.json".into(), known()),
    )
}

impl World {
    /// A daemon that knows no project, beside the repository `/repo`.
    fn empty() -> World {
        World {
            d: bare(
                Registry::new("/state/agents.json".into()),
                ProjectStore::new("/state/projects.json".into(), layout()),
            ),
            repos: vec![("/repo".into(), WorkspaceKind::Git)],
            plain: vec![],
            worktrees: vec![],
            branches: vec![],
            running: vec![],
            cannot_start: vec!["/nonexistent/clowder-bogus-xyz".into()],
            land_fails: false,
            effects: vec![],
        }
    }

    /// With `/repo` added as a project.
    fn new() -> World {
        let mut w = World::empty();
        w.add_project("/repo");
        w
    }

    /// The daemon starts again on what it has stored, with no process left.
    fn again(mut self) -> World {
        let projects = self.d.projects.list().iter().map(|p| p.copied()).collect();
        self.d = bare(
            Registry::loaded("/state/agents.json".into(), Some(self.d.registry.copies())),
            ProjectStore::loaded("/state/projects.json".into(), layout(), Some(projects)),
        );
        self.running.clear();
        self.effects.clear();
        let records = self.d.reconcile();
        for r in records {
            let step = self.d.resume_agent(r);
            assert!(self.run(step).is_none());
        }
        self
    }

    /// A spelling of a path that leads to the same place.
    fn canonical(&self, path: &str) -> Option<String> {
        let path = path.strip_prefix("/alias").unwrap_or(path);
        let there = self.repos.iter().any(|(r, _)| r == path)
            || self.plain.iter().any(|p| p == path)
            || self.worktrees.iter().any(|p| p == path);
        if there { Some(path.to_string()) } else { None }
    }

    fn kind(&self, path: &str) -> Option<WorkspaceKind> {
        if self.worktrees.iter().any(|p| p == path) {
            return Some(WorkspaceKind::Git);
        }
        self.repos.iter().find(|(r, _)| r == path).map(|(_, k)| *k)
    }

    fn remove_tree(&mut self, ws: &Workspace) {
        self.worktrees.retain(|p| *p != ws.path);
    }

    fn perform(&mut self, ask: Ask) -> Told {
        match ask {
            Ask::Canonical { path } => Told::Canonical(self.canonical(&path)),
            Ask::Canonicals { path, others } => {
                let same = |p: String| self.canonical(&p).unwrap_or(p);
                Told::Canonicals { path: same(path), others: others.into_iter().map(same).collect() }
            }
            Ask::Inspect { path } => {
                let at = self.canonical(&path);
                Told::Inspected(PathFacts {
                    is_dir: at.is_some(),
                    kind: at.as_deref().and_then(|p| self.kind(p)),
                    canonical_base: Some(BASE.into()),
                    canonical: at,
                })
            }
            Ask::Look { project, worktree, branch } => Told::Looked {
                worktree: self.worktrees.contains(&worktree),
                branch: self.branches.contains(&(project, branch)),
            },
            Ask::Provision { project, name } => {
                let (ws, steps) = driver_for(self.kind(&project)).provision(&layout(), &project, &name);
                assert!(!steps.is_empty());
                self.worktrees.push(ws.path.clone());
                self.branches.push((project, ws.branch.clone()));
                Told::Provisioned(Ok(ws))
            }
            Ask::Exists { path } => Told::Exists(self.worktrees.contains(&path)),
            Ask::Start { id, command, role, cols, rows, .. } => {
                assert_eq!((cols, rows), (80, 24));
                if self.cannot_start.contains(&command.program) {
                    return Told::Started(Err("no such file".into()));
                }
                self.running.push((id, role, command));
                Told::Started(Ok(()))
            }
            Ask::Land { ws } => {
                if self.land_fails {
                    return Told::Finished { result: Err("hook refused".into()), there: true };
                }
                assert!(!driver_for_kind(ws.kind).land(&ws, true).is_empty());
                self.remove_tree(&ws);
                Told::Finished { result: Ok(()), there: false }
            }
            Ask::Discard { ws } => {
                let driver = driver_for_kind(ws.kind);
                self.remove_tree(&ws);
                let branch = (ws.project.clone(), ws.branch.clone());
                let there = self.branches.contains(&branch);
                if !driver.discard_branch(&ws, there).is_empty() {
                    self.branches.retain(|b| *b != branch);
                }
                Told::Finished { result: driver.discarded(&ws, false), there: false }
            }
        }
    }

    fn follow(&mut self, effects: Vec<Effect>) {
        for e in effects {
            if let Effect::End(p) | Effect::Kill(p) | Effect::Forget(p) = e {
                self.running.retain(|(q, _, _)| *q != p);
            }
            self.effects.push(e);
        }
    }

    fn run(&mut self, mut step: Step) -> Option<ControlEvent> {
        loop {
            self.follow(step.effects);
            match step.next {
                Next::Done(e) => return Some(e),
                Next::Over => return None,
                Next::Ask(ask, flow) => {
                    let told = self.perform(ask);
                    step = self.d.proceed(flow, told);
                }
            }
        }
    }

    fn work(&mut self, work: Work) -> ControlEvent {
        let step = self.d.begin(work);
        self.run(step).expect("an answer")
    }

    fn ask(&mut self, req: ControlRequest) -> ControlEvent {
        match self.d.handle_request(req) {
            Handled::Reply(e, effects) => {
                self.follow(effects);
                e
            }
            Handled::Work(work) => self.work(work),
        }
    }

    /// The process of a pane ends by itself.
    fn exits(&mut self, pane: PaneId) {
        let at = self.running.iter().position(|(p, _, _)| *p == pane).expect("it runs");
        let (_, role, _) = self.running.remove(at);
        let effects = self.d.exited(pane, role);
        self.follow(effects);
    }

    fn runs(&self, pane: PaneId) -> bool {
        self.running.iter().any(|(p, _, _)| *p == pane)
    }

    /// Whether the daemon holds such a pane, and its process runs.
    fn has(&self, pane: PaneId) -> bool {
        self.d.is_live(pane) && self.runs(pane)
    }

    fn add_project(&mut self, path: &str) {
        let e = self.ask(ControlRequest::AddProject { path: path.into() });
        assert!(matches!(e, ControlEvent::ProjectAdded { .. }), "{e:?}");
    }

    fn spawn_as(&mut self, project: &str, name: &str, adapter: &str) -> Result<PaneId, String> {
        let (project, name, adapter) = (project.into(), name.into(), adapter.into());
        match self.ask(ControlRequest::SpawnAgent { project, name, adapter }) {
            ControlEvent::AgentSpawned { pane } => Ok(pane),
            ControlEvent::Error { message } => Err(message),
            other => panic!("{other:?}"),
        }
    }

    fn spawn(&mut self, name: &str) -> PaneId {
        self.spawn_as("/repo", name, "shell").unwrap()
    }

    fn split(&mut self, pane: PaneId, direction: SplitDirection) -> PaneId {
        let before: Vec<PaneId> = self.running.iter().map(|(p, _, _)| *p).collect();
        let e = self.ask(ControlRequest::SplitPane { pane, direction });
        assert!(matches!(e, ControlEvent::SplitTreeChanged { .. }), "{e:?}");
        self.running.iter().map(|(p, _, _)| *p).find(|p| !before.contains(p)).expect("a companion")
    }

    fn open(&mut self, path: &str) -> Result<PaneId, String> {
        match self.ask(ControlRequest::OpenProjectTerminal { path: path.into() }) {
            ControlEvent::ProjectTerminalOpened { pane, .. } => Ok(pane),
            ControlEvent::Error { message } => Err(message),
            other => panic!("{other:?}"),
        }
    }

    fn close(&mut self, pane: PaneId) -> ControlEvent {
        self.ask(ControlRequest::ClosePane { pane })
    }

    fn teardown(&mut self, pane: PaneId) {
        assert_eq!(self.work(Work::CloseAgent { pane }), ControlEvent::AgentRemoved { pane });
    }

    fn leaves(&self, root: PaneId) -> Vec<PaneId> {
        split_tree::leaves(&self.d.split_tree_of(root).expect("a tree"))
    }

    fn branch(&self, name: &str) -> bool {
        self.branches.iter().any(|(_, b)| b == name)
    }

    /// What the screen of a hookless agent leads to: all that was written, then silence.
    fn scans(&mut self, pane: PaneId, written: &[u8]) {
        if !self.d.is_watched(pane) {
            return;
        }
        let (mut scanner, asks) = Scanner::new(80, 24, b"");
        assert!(!asks);
        let output = ScanEvent::Output { bytes: written.to_vec(), cols: 80, rows: 24 };
        for event in [output, ScanEvent::Quiet] {
            if scanner.step(&event).asks {
                let effects = self.d.escalate(pane).into_iter().collect();
                self.follow(effects);
            }
        }
    }

    /// A client types into a pane that it is attached to.
    fn types(&mut self, pane: PaneId, bytes: &[u8]) {
        assert_eq!(self.d.attach(Some(&ClientToDaemon::Attach { pane })), Attach::Session(pane));
        let input = ClientToDaemon::Input { pane, bytes: bytes.to_vec() };
        match session(pane, SessionEvent::Client(Some(input))) {
            SessionAction::Write(written) => assert_eq!(written, bytes),
            _ => panic!("the bytes go to the pane"),
        }
        let effects = self.d.user_input(pane).into_iter().collect();
        self.follow(effects);
    }

    fn state(&self, pane: PaneId) -> Option<AttentionState> {
        self.d.attention_of(pane)
    }
}

#[test]
fn small_backlog_cap_bounds_the_buffer() {
    let mut backlog = Vec::new();
    let line = b"ABCDEFGHIJKLMNOPQRST\n";
    let mut written = 0;
    while written < 20000 {
        take_output(&mut backlog, line, 4096);
        written += line.len();
        assert!(backlog.len() <= 4096);
    }
    assert!(backlog.len() >= 2048, "it is filled");
    assert!(backlog.ends_with(line));
}

#[test]
fn client_attaches_and_receives_output() {
    let mut w = World::new();
    let pane = w.spawn("demo");
    assert_eq!(w.d.attach(Some(&ClientToDaemon::Attach { pane })), Attach::Session(pane));
    let greeting = w.d.session_greeting(pane, 80, 24, vec![]);
    assert_eq!(greeting.first(), Some(&DaemonToClient::Attached { pane, cols: 80, rows: 24 }));
    assert_eq!(greeting.last(), Some(&DaemonToClient::Output { pane, bytes: vec![] }));
    w.types(pane, b"echo hi\n");
    match session(pane, SessionEvent::Output(b"hi".to_vec())) {
        SessionAction::Send(m) => assert_eq!(m, DaemonToClient::Output { pane, bytes: b"hi".to_vec() }),
        _ => panic!("the output is shown"),
    }
}

#[test]
fn pane_survives_detach_and_replays_on_reattach() {
    let mut w = World::new();
    let pane = w.spawn("demo");
    let mut backlog = Vec::new();
    take_output(&mut backlog, b"line1\n", 4096);
    match session(pane, SessionEvent::Client(Some(ClientToDaemon::Detach))) {
        SessionAction::Finish(last) => assert!(last.is_empty()),
        _ => panic!("a client that detaches is done"),
    }
    assert!(w.has(pane), "the pane goes on");
    take_output(&mut backlog, b"line4\n", 4096);
    let greeting = w.d.session_greeting(pane, 80, 24, backlog);
    let bytes = b"line1\nline4\n".to_vec();
    assert_eq!(greeting.last(), Some(&DaemonToClient::Output { pane, bytes }));
}

#[test]
fn attached_client_gets_attention_changed() {
    let mut w = World::new();
    let pane = w.spawn("demo");
    w.d.set_attention(pane, AttentionState::NeedsInput);
    match session(pane, SessionEvent::Attention(pane, AttentionState::NeedsInput)) {
        SessionAction::Send(m) => {
            assert_eq!(m, DaemonToClient::AttentionChanged { pane, state: AttentionState::NeedsInput })
        }
        _ => panic!("it is told"),
    }
}

#[test]
fn attach_to_already_needy_pane_delivers_current_attention() {
    let mut w = World::new();
    let pane = w.spawn("demo");
    w.d.set_attention(pane, AttentionState::NeedsInput);
    let greeting = w.d.session_greeting(pane, 80, 24, vec![]);
    assert!(greeting
        .contains(&DaemonToClient::AttentionChanged { pane, state: AttentionState::NeedsInput }));
}

#[test]
fn client_gets_pane_exited_when_child_exits() {
    let pane = PaneId(1);
    match session(pane, SessionEvent::Exited(vec![], Some(3))) {
        SessionAction::Finish(last) => {
            assert_eq!(last, vec![DaemonToClient::PaneExited { pane, code: Some(3) }])
        }
        _ => panic!("the session ends"),
    }
}

#[test]
fn client_gets_final_output_then_pane_exited() {
    let pane = PaneId(1);
    match session(pane, SessionEvent::Exited(vec![b"BYE".to_vec()], Some(0))) {
        SessionAction::Finish(last) => assert_eq!(
            last,
            vec![
                DaemonToClient::Output { pane, bytes: b"BYE".to_vec() },
                DaemonToClient::PaneExited { pane, code: Some(0) },
            ]
        ),
        _ => panic!("the session ends"),
    }
}

#[test]
fn list_worktrees_reports_project_name_branch_and_state() {
    let mut w = World::new();
    let pane = w.spawn_as("/alias/repo", "task-a", "shell").unwrap();
    w.d.set_attention(pane, AttentionState::NeedsInput);
    let list = w.d.list_worktrees();
    assert_eq!(list.len(), 1);
    let a = &list[0];
    assert_eq!(a.pane, pane);
    assert_eq!(a.name, "task-a");
    assert_eq!(a.branch, "clowder/task-a");
    assert_eq!(a.project, "/repo", "the full, canonical path");
    assert_eq!(a.state, AttentionState::NeedsInput);
    w.teardown(pane);
    assert!(w.d.list_worktrees().is_empty());
}

#[test]
fn spawn_writes_registry_and_finish_removes_it() {
    let mut w = World::new();
    let id = w.spawn("demo");
    assert!(w.effects.contains(&Effect::SaveRegistry));
    let recs = w.d.registry.copies();
    assert_eq!(recs.iter().filter(|r| r.agent_id == id.0).count(), 1);
    assert_eq!(recs[0].adapter_id, "synthetic");
    w.ask(ControlRequest::DiscardAgent { pane: id });
    assert!(w.d.registry.load().is_empty());
}

#[test]
fn reconcile_respawns_recorded_agents_and_prunes_missing() {
    let mut w = World::new();
    let id = w.spawn("demo");
    let path = w.d.workspace_of(id).unwrap().path;
    let mut w = w.again();
    let list = w.d.list_worktrees();
    assert_eq!(list.len(), 1);
    assert_eq!(list[0].pane, id, "registered under the original id");
    assert_eq!(list[0].name, "demo");
    assert!(w.has(id));
    let fresh = w.spawn("fresh");
    assert_ne!(fresh, id, "new numbers are above those restored");

    w.worktrees.retain(|p| *p != path);
    let w = w.again();
    assert!(w.d.list_worktrees().iter().all(|a| a.pane != id));
    assert!(w.d.registry.load().iter().all(|r| r.agent_id != id.0));
    assert!(w.effects.contains(&Effect::SaveRegistry));
}

#[test]
fn reconcile_restores_split_layout() {
    let mut w = World::new();
    let id = w.spawn("demo");
    w.split(id, SplitDirection::Right);
    let split = match w.d.split_tree_of(id) {
        Some(PaneTree::Split { id, .. }) => id,
        other => panic!("{other:?}"),
    };
    let ratio = Ratio(0.3f32.to_bits());
    w.ask(ControlRequest::SetSplitRatio { split, ratio });
    let flushed = w.d.flush_dirty_layouts();
    assert_eq!(flushed, vec![Effect::SaveRegistry]);

    let w = w.again();
    let leaves = w.leaves(id);
    assert_eq!(leaves.len(), 2, "two leaves restored");
    assert!(leaves.iter().all(|p| w.has(*p)));
    match w.d.split_tree_of(id) {
        Some(PaneTree::Split { ratio: r, first, .. }) => {
            assert_eq!(r, ratio);
            assert_eq!(*first, PaneTree::Leaf { pane: id }, "the agent is the first leaf");
        }
        other => panic!("{other:?}"),
    }
}

#[test]
fn split_and_close_persist_the_tree() {
    let mut w = World::new();
    let id = w.spawn("demo");
    let companion = w.split(id, SplitDirection::Right);
    let stored = w.d.registry.copies().remove(0).tree.expect("a stored tree");
    assert_eq!(split_tree::leaves(&stored).len(), 2);
    w.close(companion);
    assert_eq!(w.d.registry.copies().remove(0).tree, None);
}

#[test]
fn control_conn_lists_agents_and_streams_attention() {
    let mut w = World::new();
    let pane = w.spawn("task-a");
    assert_eq!(w.d.attach(Some(&ClientToDaemon::ListWorktrees)), Attach::List);
    match w.d.worktree_message() {
        DaemonToClient::WorktreeList { worktrees } => {
            assert_eq!(worktrees.len(), 1);
            assert_eq!(worktrees[0].pane, pane);
            assert_eq!(worktrees[0].name, "task-a");
        }
        other => panic!("{other:?}"),
    }
    w.d.set_attention(pane, AttentionState::NeedsInput);
    match w.d.list_step(ListEvent::Attention(pane, AttentionState::NeedsInput)) {
        ListAction::Send(m) => {
            assert_eq!(m, DaemonToClient::AttentionChanged { pane, state: AttentionState::NeedsInput })
        }
        _ => panic!("it is told"),
    }
}

#[test]
fn agent_marked_exited_on_process_exit() {
    let mut w = World::new();
    let pane = w.spawn("task-x");
    w.exits(pane);
    let list = w.d.list_worktrees();
    assert_eq!(list.len(), 1, "it stays in the list");
    assert_eq!(list[0].state, AttentionState::Exited);
}

#[test]
fn teardown_of_running_agent_does_not_leave_spurious_exited() {
    let mut w = World::new();
    let pane = w.spawn("task-r");
    w.teardown(pane);
    assert_eq!(w.state(pane), None);
    assert!(!w.effects.contains(&Effect::Attention(pane, AttentionState::Exited)));
}

#[test]
fn control_conn_gets_agent_removed_on_teardown() {
    let mut w = World::new();
    let pane = w.spawn("task-a");
    w.teardown(pane);
    assert!(w.effects.contains(&Effect::AgentRemoved(pane)));
    match w.d.list_step(ListEvent::Removed(pane)) {
        ListAction::Send(m) => assert_eq!(m, DaemonToClient::AgentRemoved { pane }),
        _ => panic!("it is told"),
    }
}

#[test]
fn split_close_and_teardown_manage_the_tree() {
    let mut w = World::new();
    let agent = w.spawn("task");
    assert_eq!(w.d.split_tree_of(agent), Some(PaneTree::Leaf { pane: agent }));
    let comp = w.split(agent, SplitDirection::Right);
    assert!(w.has(comp));
    assert_eq!(w.leaves(agent), vec![agent, comp]);
    assert!(w.effects.iter().any(|e| matches!(e, Effect::Tree(p, _) if *p == agent)));
    let comp2 = w.split(comp, SplitDirection::Down);
    assert_eq!(w.leaves(agent).len(), 3);
    w.close(comp2);
    assert!(!w.has(comp2) && !w.d.is_live(comp2));
    assert_eq!(w.leaves(agent), vec![agent, comp]);
    w.teardown(agent);
    assert!(!w.has(comp) && !w.d.is_live(comp));
    assert!(w.d.split_tree_of(agent).is_none());
}

#[test]
fn teardown_kills_multiple_live_companions() {
    let mut w = World::new();
    let agent = w.spawn("task");
    let c1 = w.split(agent, SplitDirection::Right);
    let c2 = w.split(agent, SplitDirection::Down);
    assert!(w.has(c1) && w.has(c2));
    assert_eq!(w.leaves(agent).len(), 3);
    w.teardown(agent);
    assert!(w.running.is_empty());
    assert!(!w.d.is_live(c1) && !w.d.is_live(c2));
    assert!(w.d.split_tree_of(agent).is_none());
}

#[test]
fn hookless_agent_bell_sets_needs_input() {
    let mut w = World::new();
    let agent = w.spawn("t");
    w.scans(agent, b"\x07");
    assert_eq!(w.state(agent), Some(AttentionState::NeedsInput));
}

#[test]
fn hooked_agent_bell_is_ignored() {
    let mut w = World::new();
    let agent = w.spawn_as("/repo", "t", "hooked-test").unwrap();
    w.scans(agent, b"\x07");
    assert_eq!(w.state(agent), Some(AttentionState::Working));
}

#[test]
fn input_clears_hookless_needs_input_to_working() {
    let mut w = World::new();
    let agent = w.spawn("t");
    w.scans(agent, b"\x07");
    assert_eq!(w.state(agent), Some(AttentionState::NeedsInput));
    w.types(agent, b"x");
    assert_eq!(w.state(agent), Some(AttentionState::Working));
}

#[test]
fn input_clears_hooked_completed_to_working() {
    let mut w = World::new();
    let agent = w.spawn_as("/repo", "task-a", "hooked-test").unwrap();
    w.d.set_attention(agent, AttentionState::Completed);
    w.types(agent, b"x");
    assert_eq!(w.state(agent), Some(AttentionState::Working));
}

#[test]
fn land_agent_keeps_branch_and_removes_agent() {
    let mut w = World::new();
    let agent = w.spawn("task-a");
    w.ask(ControlRequest::LandAgent { pane: agent });
    assert!(w.d.workspace_of(agent).is_none());
    assert!(!w.d.is_live(agent) && !w.runs(agent));
    assert!(w.branch("clowder/task-a"), "the branch is kept");
}

#[test]
fn discard_agent_deletes_branch_and_removes_agent() {
    let mut w = World::new();
    let agent = w.spawn("task-b");
    w.ask(ControlRequest::DiscardAgent { pane: agent });
    assert!(w.d.workspace_of(agent).is_none());
    assert!(!w.d.is_live(agent) && !w.runs(agent));
    assert!(!w.branch("clowder/task-b"), "the branch is gone");
}

#[test]
fn spawn_in_jj_repo_uses_jj_driver_and_land_keeps_bookmark() {
    let mut w = World::empty();
    w.repos = vec![("/repo".into(), WorkspaceKind::Jj)];
    w.add_project("/repo");
    let pane = w.spawn("task-a");
    assert_eq!(w.d.workspace_of(pane).unwrap().kind, WorkspaceKind::Jj);
    w.ask(ControlRequest::LandAgent { pane });
    assert!(w.d.list_worktrees().is_empty());
    assert!(w.branch("clowder/task-a"));
}

#[test]
fn set_ratio_updates_and_broadcasts() {
    let mut w = World::new();
    let agent = w.spawn("t");
    w.split(agent, SplitDirection::Right);
    w.effects.clear();
    let new = Ratio(0.7f32.to_bits());
    w.ask(ControlRequest::SetSplitRatio { split: SplitId(1), ratio: new });
    match w.d.split_tree_of(agent) {
        Some(PaneTree::Split { ratio, .. }) => assert_eq!(ratio, new),
        other => panic!("{other:?}"),
    }
    assert!(w.effects.iter().any(|e| matches!(e, Effect::Tree(p, _) if *p == agent)));
}

#[test]
fn companion_crash_removes_leaf_and_broadcasts_tree() {
    let mut w = World::new();
    let agent = w.spawn("task");
    let comp = w.split(agent, SplitDirection::Right);
    assert_eq!(w.leaves(agent), vec![agent, comp]);
    w.effects.clear();
    w.exits(comp);
    assert_eq!(w.d.split_tree_of(agent), Some(PaneTree::Leaf { pane: agent }));
    assert!(!w.d.is_live(comp));
    assert!(w.effects.contains(&Effect::Tree(agent, PaneTree::Leaf { pane: agent })));
}

#[test]
fn reap_companion_is_idempotent() {
    let mut w = World::new();
    let agent = w.spawn("task");
    let comp = w.split(agent, SplitDirection::Right);
    w.close(comp);
    assert_eq!(w.leaves(agent), vec![agent]);
    w.d.reap_companion(comp);
    assert_eq!(w.d.split_tree_of(agent), Some(PaneTree::Leaf { pane: agent }));
    w.d.reap_companion(agent);
    assert!(w.d.split_tree_of(agent).is_some(), "the leaf of an agent is never reaped");
}

#[test]
fn shutdown_kills_children_and_clears_panes() {
    let mut w = World::new();
    let pane = w.spawn("demo");
    assert_eq!(w.d.shutdown(), vec![pane]);
    assert!(!w.d.is_live(pane));
}

#[test]
fn ratio_change_is_persisted_by_flush() {
    let mut w = World::new();
    let id = w.spawn("demo");
    w.split(id, SplitDirection::Right);
    let ratio = Ratio(0.3f32.to_bits());
    w.ask(ControlRequest::SetSplitRatio { split: SplitId(1), ratio });
    assert_eq!(w.d.flush_dirty_layouts(), vec![Effect::SaveRegistry]);
    match w.d.registry.copies().remove(0).tree {
        Some(PaneTree::Split { ratio: r, .. }) => assert_eq!(r, ratio),
        other => panic!("{other:?}"),
    }
}

#[test]
fn reconcile_restored_companion_ids_never_collide_with_agents() {
    let mut w = World::new();
    let a = w.spawn("aaa");
    w.split(a, SplitDirection::Right);
    let b = w.spawn("bbb");
    let w = w.again();
    let ids: Vec<PaneId> = w.d.list_worktrees().iter().map(|x| x.pane).collect();
    assert!(ids.contains(&a) && ids.contains(&b), "{ids:?}");
    let comp = w.leaves(a).into_iter().find(|p| *p != a).unwrap();
    assert_ne!(comp, b);
}

#[test]
fn reconcile_m9a_record_without_tree_restores_single_leaf() {
    let mut w = World::new();
    let id = w.spawn("demo");
    assert_eq!(w.d.registry.copies().remove(0).tree, None);
    let w = w.again();
    assert_eq!(w.d.split_tree_of(id), Some(PaneTree::Leaf { pane: id }));
}

fn restart(w: &mut World, pane: PaneId) -> Result<(), String> {
    match w.ask(ControlRequest::RestartWorktree { pane }) {
        ControlEvent::Error { message } => Err(message),
        _ => Ok(()),
    }
}

#[test]
fn restart_revives_an_exited_agent_under_the_same_pane_id() {
    let mut w = World::new();
    let pane = w.spawn("feat");
    w.exits(pane);
    assert_eq!(w.state(pane), Some(AttentionState::Exited));
    restart(&mut w, pane).unwrap();
    assert_eq!(w.state(pane), Some(AttentionState::Working));
    assert!(w.has(pane));
    let listed = w.d.list_worktrees();
    assert_eq!(listed.len(), 1);
    assert_eq!(listed[0].pane, pane);
}

#[test]
fn restart_is_refused_while_the_agent_is_alive() {
    let mut w = World::new();
    let pane = w.spawn("feat");
    let e = restart(&mut w, pane).unwrap_err();
    assert!(e.contains("still running"), "{e}");
}

#[test]
fn restart_of_an_unknown_pane_errors() {
    let e = restart(&mut World::new(), PaneId(999)).unwrap_err();
    assert!(e.contains("no worktree with pane 999"), "{e}");
}

#[test]
fn restart_preserves_a_live_companion_pane_without_duplicating_it() {
    let mut w = World::new();
    let pane = w.spawn("feat");
    let companion = w.split(pane, SplitDirection::Right);
    w.exits(pane);
    restart(&mut w, pane).unwrap();
    let leaves = w.leaves(pane);
    assert_eq!(leaves.len(), 2);
    assert!(leaves.contains(&companion), "it is used again, not started anew");
    assert_eq!(w.running.len(), 2);
    assert!(w.has(companion) && w.has(pane));
}

#[test]
fn hookless_prompt_sets_needs_input_after_idle() {
    let mut w = World::new();
    let id = w.spawn("demo");
    w.scans(id, b"Continue? (y/n) ");
    assert_eq!(w.state(id), Some(AttentionState::NeedsInput));
}

#[test]
fn bare_shell_prompt_does_not_escalate() {
    let mut w = World::new();
    let id = w.spawn("demo");
    w.scans(id, b"$ ");
    assert_ne!(w.state(id), Some(AttentionState::NeedsInput));
}

#[test]
fn alt_screen_prompt_is_suppressed() {
    let mut w = World::new();
    let id = w.spawn("demo");
    w.scans(id, b"\x1b[?1049hContinue? (y/n) ");
    assert_ne!(w.state(id), Some(AttentionState::NeedsInput));
}

#[test]
fn bell_still_escalates_immediately() {
    let mut w = World::new();
    let id = w.spawn("demo");
    let (mut scanner, _) = Scanner::new(80, 24, b"");
    let bell = ScanEvent::Output { bytes: b"\x07".to_vec(), cols: 80, rows: 24 };
    assert!(scanner.step(&bell).asks, "without waiting for silence");
    w.scans(id, b"\x07");
    assert_eq!(w.state(id), Some(AttentionState::NeedsInput));
}

#[test]
fn add_and_list_projects_round_trips() {
    let mut w = World::empty();
    match w.ask(ControlRequest::AddProject { path: "/alias/repo".into() }) {
        ControlEvent::ProjectAdded { project } => {
            assert_eq!(project.path, "/repo");
            assert_eq!(project.kind, "git");
        }
        other => panic!("{other:?}"),
    }
    assert_eq!(w.d.list_projects().len(), 1);
    assert!(w.d.is_registered_project(w.canonical("/alias/repo").as_deref()));
}

#[test]
fn discard_on_a_repo_with_no_commits_removes_the_row() {
    let mut w = World::new();
    let pane = w.spawn("feat");
    // The branch of a repository without commits is not born yet.
    w.branches.clear();
    w.ask(ControlRequest::DiscardAgent { pane });
    assert!(w.d.list_worktrees().is_empty());
    assert!(w.d.registry.load().is_empty());
}

#[test]
fn failed_land_keeps_the_row_and_marks_it_exited() {
    let mut w = World::new();
    let pane = w.spawn("feat");
    w.land_fails = true;
    let e = w.ask(ControlRequest::LandAgent { pane });
    assert!(matches!(e, ControlEvent::Error { .. }));
    assert_eq!(w.worktrees.len(), 1, "the worktree survives");
    assert_eq!(w.d.list_worktrees().len(), 1, "the row survives");
    assert_eq!(w.d.registry.load().len(), 1, "so that landing can be tried again");
    assert_eq!(w.state(pane), Some(AttentionState::Exited));
    restart(&mut w, pane).unwrap();
    assert_eq!(w.state(pane), Some(AttentionState::Working));
}

#[test]
fn remove_project_is_refused_while_a_worktree_exists() {
    let mut w = World::new();
    let pane = w.spawn("feat");
    let remove = || ControlRequest::RemoveProject { path: "/alias/repo".into() };
    match w.ask(remove()) {
        ControlEvent::Error { message } => assert!(message.contains('1'), "{message}"),
        other => panic!("{other:?}"),
    }
    assert_eq!(w.d.list_projects().len(), 1);
    w.ask(ControlRequest::DiscardAgent { pane });
    assert!(matches!(w.ask(remove()), ControlEvent::ProjectRemoved { .. }));
    assert!(w.d.list_projects().is_empty());
}

#[test]
fn remove_project_cannot_race_a_spawn_into_it() {
    let spawn = Work::Spawn { project: "/repo".into(), name: "racy".into(), adapter: "shell".into() };
    let remove = Work::RemoveProject { path: "/repo".into() };
    assert!(spawn.is_exclusive() && remove.is_exclusive(), "one waits for the other");
}

#[test]
fn remove_project_cannot_race_open_project_terminal() {
    let open = Work::OpenTerminal { path: "/repo".into() };
    let remove = Work::RemoveProject { path: "/repo".into() };
    assert!(open.is_exclusive() && remove.is_exclusive(), "one waits for the other");
}

#[test]
fn project_changes_broadcast_to_subscribers() {
    let mut w = World::empty();
    w.add_project("/alias/repo");
    match w.effects.iter().find_map(|e| match e {
        Effect::Project(ProjectChange::Added(rec)) => Some(rec.path.clone()),
        _ => None,
    }) {
        Some(path) => assert_eq!(path, "/repo"),
        None => panic!("told of the project"),
    }
    w.ask(ControlRequest::RemoveProject { path: "/alias/repo".into() });
    assert!(w.effects.contains(&Effect::Project(ProjectChange::Removed("/repo".into()))));
}

#[test]
fn spawn_rejects_an_unregistered_project_and_leaves_nothing_behind() {
    let mut w = World::empty();
    let e = w.spawn_as("/repo", "feat", "shell").unwrap_err();
    assert!(e.contains("unknown project"), "{e}");
    assert!(w.worktrees.is_empty() && w.branches.is_empty());
    assert!(w.d.list_worktrees().is_empty());
}

#[test]
fn spawn_rejects_an_invalid_name_before_provisioning() {
    let mut w = World::new();
    let e = w.spawn_as("/repo", "my feature", "shell").unwrap_err();
    assert!(e.contains("letters"), "{e}");
    assert!(w.worktrees.is_empty() && w.branches.is_empty());
}

#[test]
fn spawn_rejects_a_colliding_worktree_with_a_real_message() {
    let mut w = World::new();
    w.worktrees.push(layout().worktree_path("/repo", "feat"));
    let e = w.spawn_as("/alias/repo", "feat", "shell").unwrap_err();
    assert!(e.contains("already exists"), "{e}");
    assert!(!e.contains("fatal:"), "{e}");
}

#[test]
fn spawn_puts_the_worktree_under_the_base_and_leaves_the_project_untouched() {
    let mut w = World::new();
    let pane = w.spawn("feat");
    let ws = w.d.workspace_of(pane).unwrap();
    assert_eq!(ws.path, layout().worktree_path("/repo", "feat"));
    assert!(ws.path.starts_with("/state/worktrees/"));
    assert!(!ws.path.starts_with("/repo"));
}

#[test]
fn two_projects_with_the_same_basename_get_separate_worktrees() {
    let mut w = World::empty();
    w.repos = vec![("/a/api".into(), WorkspaceKind::Git), ("/b/api".into(), WorkspaceKind::Git)];
    w.add_project("/a/api");
    w.add_project("/b/api");
    let pa = w.spawn_as("/a/api", "feat", "shell").unwrap();
    let pb = w.spawn_as("/b/api", "feat", "shell").unwrap();
    let (wa, wb) = (w.d.workspace_of(pa).unwrap().path, w.d.workspace_of(pb).unwrap().path);
    assert_ne!(wa, wb);
    for p in [&wa, &wb] {
        assert!(p.starts_with("/state/worktrees/api-"), "{p}");
    }
}

#[test]
fn a_provisioned_worktree_cannot_be_added_as_a_project() {
    let mut w = World::new();
    let pane = w.spawn("feat");
    let path = w.d.workspace_of(pane).unwrap().path;
    match w.ask(ControlRequest::AddProject { path }) {
        ControlEvent::Error { message } => assert!(message.contains("worktree"), "{message}"),
        other => panic!("{other:?}"),
    }
}

#[test]
fn landing_the_last_worktree_removes_the_empty_project_dir() {
    let mut w = World::new();
    let p1 = w.spawn("one");
    w.ask(ControlRequest::LandAgent { pane: p1 });
    let dir = layout().project_dir("/repo");
    assert!(w.effects.contains(&Effect::Tidy(dir.clone())), "the empty directory may go");
    assert!(!w.effects.contains(&Effect::Tidy(BASE.into())), "the base itself never does");
}

#[test]
fn spawn_stores_the_canonical_project_path() {
    let mut w = World::new();
    w.spawn_as("/alias/repo", "feat", "shell").unwrap();
    assert_eq!(w.d.list_worktrees()[0].project, "/repo");
}

#[test]
fn open_project_terminal_is_idempotent() {
    let mut w = World::new();
    let a = w.open("/repo").unwrap();
    let b = w.open("/alias/repo").unwrap();
    assert_eq!(a, b, "the same shell");
    assert_eq!(w.running.len(), 1);
    assert!(w.d.list_worktrees().is_empty(), "a terminal is no worktree");
}

#[test]
fn project_terminal_can_be_split() {
    let mut w = World::new();
    let term = w.open("/repo").unwrap();
    let companion = w.split(term, SplitDirection::Right);
    assert_eq!(w.leaves(term).len(), 2);
    assert_eq!(w.d.owner_of(companion), Some(term));
}

#[test]
fn land_and_discard_refuse_a_project_terminal() {
    let mut w = World::new();
    let pane = w.open("/repo").unwrap();
    assert!(matches!(w.ask(ControlRequest::LandAgent { pane }), ControlEvent::Error { .. }));
    assert!(matches!(w.ask(ControlRequest::DiscardAgent { pane }), ControlEvent::Error { .. }));
    assert!(w.has(pane), "the terminal is alive");
}

#[test]
fn removing_a_project_kills_its_terminal() {
    let mut w = World::new();
    let term = w.open("/repo").unwrap();
    w.ask(ControlRequest::RemoveProject { path: "/repo".into() });
    assert!(!w.d.is_live(term) && !w.runs(term));
    assert!(w.d.project_of_terminal(term).is_none());
}

#[test]
fn open_project_terminal_rejects_an_unregistered_project() {
    assert!(World::empty().open("/repo").is_err());
}

#[test]
fn closing_a_project_terminal_kills_its_companion() {
    let mut w = World::new();
    let term = w.open("/repo").unwrap();
    let companion = w.split(term, SplitDirection::Right);
    assert!(w.has(companion));
    w.close(term);
    assert!(!w.d.is_live(term) && !w.runs(term));
    assert!(!w.d.is_live(companion) && !w.runs(companion));
    assert!(w.d.owner_of(companion).is_none());
}

fn profile(id: &str, base: &str, args: &str) -> AgentProfileInfo {
    AgentProfileInfo {
        id: id.into(),
        base: base.into(),
        display_name: "Echoer".into(),
        enabled: true,
        args: args.into(),
        builtin: false,
    }
}

#[test]
fn spawn_appends_substituted_profile_args_to_the_adapter_args() {
    let mut w = World::new();
    let template = "--w {{workspace_name}} --b {{branch}} --p {{project_path}} --wp {{workspace_path}}";
    w.ask(ControlRequest::AddAgentProfile { profile: profile("echoer", "echo", template) });
    let pane = w.spawn_as("/repo", "task-a", "echoer").unwrap();
    let path = w.d.workspace_of(pane).unwrap().path;
    let rec = w.d.registry.copies().remove(0);
    assert_eq!(rec.profile_id.as_deref(), Some("echoer"));
    let args =
        vec!["--w", "task-a", "--b", "clowder/task-a", "--p", "/repo", "--wp", path.as_str()];
    assert_eq!(rec.extra_args, args, "substituted once");
    assert_eq!(rec.adapter_id, "echo", "the base is recorded");
    let (_, _, ran) = &w.running[0];
    assert_eq!(ran.args.first().map(String::as_str), Some("base"));
    assert_eq!(ran.args[1..], args);
    assert_eq!(ran.cwd.as_deref(), Some(path.as_str()));
}

#[test]
fn resume_replays_recorded_args_verbatim_even_after_the_profile_is_edited_or_deleted() {
    let mut w = World::new();
    w.ask(ControlRequest::AddAgentProfile { profile: profile("echoer", "shell", "--tag {{branch}}") });
    let pane = w.spawn_as("/repo", "demo", "echoer").unwrap();
    assert_eq!(w.d.registry.copies().remove(0).extra_args, vec!["--tag", "clowder/demo"]);
    assert_eq!(split_args("--tag {{branch}}").unwrap(), vec!["--tag", "{{branch}}"]);
    let edited = profile("echoer", "shell", "--tag SOMETHING-ELSE-ENTIRELY");
    w.ask(ControlRequest::UpdateAgentProfile { profile: edited });
    w.ask(ControlRequest::RemoveAgentProfile { id: "echoer".into() });
    assert!(w.d.resolve_profile("echoer").is_err());

    let w = w.again();
    let (p, _, ran) = &w.running[0];
    assert_eq!(*p, pane);
    assert!(ran.args.iter().any(|a| a == "clowder/demo"), "{:?}", ran.args);
    assert!(!ran.args.iter().any(|a| a == "SOMETHING-ELSE-ENTIRELY"));
}

#[test]
fn control_json_lists_spawns_and_streams() {
    let mut w = World::new();
    assert!(matches!(w.d.control_greeting(), ControlEvent::WorktreeList { worktrees } if worktrees.is_empty()));
    let pane = w.spawn("demo");
    match w.ask(ControlRequest::ListWorktrees) {
        ControlEvent::WorktreeList { worktrees } => {
            assert_eq!(worktrees.len(), 1);
            assert_eq!(worktrees[0].pane, pane);
            assert_eq!(worktrees[0].name, "demo");
        }
        other => panic!("{other:?}"),
    }
    w.d.set_attention(pane, AttentionState::NeedsInput);
    assert_eq!(
        w.d.tell(News::Attention(pane, AttentionState::NeedsInput)),
        Some(vec![ControlEvent::AttentionChanged { pane, state: AttentionState::NeedsInput }])
    );
}

#[test]
fn split_pane_over_control_stream_yields_split_tree_changed() {
    let mut w = World::new();
    let agent = w.spawn("demo");
    match w.ask(ControlRequest::SplitPane { pane: agent, direction: SplitDirection::Right }) {
        ControlEvent::SplitTreeChanged { agent: a, tree } => {
            assert_eq!(a, agent);
            assert_eq!(split_tree::leaves(&tree).len(), 2);
        }
        other => panic!("{other:?}"),
    }
}

#[test]
fn close_pane_on_a_project_terminal_replies_project_terminal_closed() {
    let mut w = World::new();
    let pane = w.open("/repo").unwrap();
    assert_eq!(w.close(pane), ControlEvent::ProjectTerminalClosed { path: "/repo".into() });
}

#[test]
fn control_json_spawn_unknown_adapter_errors() {
    let mut w = World::new();
    assert!(w.spawn_as("/repo", "x", "nope").is_err());
    assert!(w.d.list_worktrees().is_empty());
}

#[test]
fn control_json_adds_lists_and_streams_projects() {
    let mut w = World::empty();
    match w.ask(ControlRequest::AddProject { path: "/repo".into() }) {
        ControlEvent::ProjectAdded { project } => {
            assert_eq!(project.kind, "git");
            assert_eq!(project.path, "/repo");
        }
        other => panic!("{other:?}"),
    }
    match w.ask(ControlRequest::ListProjects) {
        ControlEvent::ProjectList { projects } => assert_eq!(projects.len(), 1),
        other => panic!("{other:?}"),
    }
}

#[test]
fn control_json_add_project_rejects_a_non_repo() {
    let mut w = World::empty();
    w.plain.push("/plain".into());
    match w.ask(ControlRequest::AddProject { path: "/plain".into() }) {
        ControlEvent::Error { message } => {
            assert!(message.contains("not a git or jj repository"), "{message}")
        }
        other => panic!("{other:?}"),
    }
    assert!(w.d.list_projects().is_empty());
}

#[test]
fn control_json_list_adapters_yields_adapter_list_with_codex() {
    match World::empty().ask(ControlRequest::ListAdapters) {
        ControlEvent::AdapterList { adapters } => assert!(adapters.iter().any(|a| a.id == "codex")),
        other => panic!("{other:?}"),
    }
}

#[test]
fn hook_event_updates_attention_broadcasts_and_notifies() {
    let mut d = World::empty().d;
    let event = HookEvent { agent_id: PaneId(7), kind: HookKind::Notification };
    assert_eq!(d.apply_hook(event), Effect::Attention(PaneId(7), AttentionState::NeedsInput));
    assert_eq!(d.attention_of(PaneId(7)), Some(AttentionState::NeedsInput));
}

#[test]
fn active_hook_clears_attention_back_to_working() {
    let mut d = World::empty().d;
    d.apply_hook(HookEvent { agent_id: PaneId(9), kind: HookKind::Notification });
    assert_eq!(d.attention_of(PaneId(9)), Some(AttentionState::NeedsInput));
    d.apply_hook(HookEvent { agent_id: PaneId(9), kind: HookKind::Active });
    assert_eq!(d.attention_of(PaneId(9)), Some(AttentionState::Working));
}

#[test]
fn provision_spawn_hook_teardown_end_to_end() {
    let mut w = World::new();
    let pane = w.spawn("task-e2e");
    let path = layout().worktree_path("/repo", "task-e2e");
    assert!(w.worktrees.contains(&path));
    assert_eq!(w.state(pane), Some(AttentionState::Working));
    w.d.apply_hook(HookEvent { agent_id: pane, kind: HookKind::Notification });
    assert_eq!(w.state(pane), Some(AttentionState::NeedsInput));
    w.teardown(pane);
    assert!(!w.worktrees.contains(&path));
    assert_eq!(w.state(pane), None);
}

#[test]
fn spawn_agent_tears_down_worktree_on_launch_failure() {
    let mut w = World::new();
    assert!(w.spawn_as("/repo", "task-fail", "bogus").is_err());
    assert!(w.worktrees.is_empty());
    assert!(w.d.list_worktrees().is_empty() && w.d.registry.load().is_empty());
}

#[test]
fn a_configured_daemon_uses_one_directory_of_worktrees() {
    let env = Vars {
        pairs: vec![
            ("CLOWDER_WORKTREE_BASE".into(), "/trees".into()),
            ("CLOWDER_STATE_FILE".into(), "/s/agents.json".into()),
            ("HOME".into(), "/home/u".into()),
        ],
    };
    let config = Config::resolve(FileConfig::empty(), &env);
    let mut d = Daemon::new_from_config(&config, &env, None, None, None, known());
    assert_eq!(d.settings.worktrees.base(), config.worktree_base);
    assert_eq!(d.registry.path(), "/s/agents.json");
    assert_eq!(d.settings.shell, config.shell);
    let facts = PathFacts {
        canonical: Some(format!("{}/repo-1/feat", config.worktree_base)),
        is_dir: true,
        kind: Some(WorkspaceKind::Git),
        canonical_base: None,
    };
    assert!(d.add_project("feat", facts).is_err(), "it stands among the worktrees");
}
