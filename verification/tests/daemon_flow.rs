use clowder::daemon::adapter::{Adapter, AdapterDescriptor};
use clowder::daemon::agent_profiles::AgentProfileStore;
use clowder::daemon::command::PaneCommand;
use clowder::daemon::control::Work;
use clowder::daemon::flow::{Ask, Flow, Next, Role, Step, Told};
use clowder::daemon::projects::{PathFacts, ProjectStore};
use clowder::daemon::registry::{AgentRecord, Registry};
use clowder::daemon::scan::{Scan, ScanEvent, Scanner, Timer};
use clowder::daemon::state::{Daemon, Effect, Settings};
use clowder::proto::control::{ControlEvent, PaneTree, SplitDirection};
use clowder::proto::message::{AttentionState, PaneId};
use clowder::workspace::kind::{Workspace, WorkspaceKind};
use clowder::workspace::layout::WorktreeLayout;

/// A world outside in which everything goes well but for what is said here.
#[derive(Default)]
struct World {
    gone: Vec<String>,
    branch: bool,
    no_provision: bool,
    no_start: Vec<u64>,
    no_finish: bool,
    kept: bool,
    asked: Vec<String>,
    effects: Vec<Effect>,
}

impl World {
    fn there(&self, path: &str) -> bool {
        !self.gone.iter().any(|p| p == path)
    }

    fn perform(&mut self, ask: Ask) -> Told {
        let why = || Err("no".to_string());
        match ask {
            Ask::Canonical { path } => {
                self.asked.push(format!("canonical {path}"));
                Told::Canonical(if self.there(&path) { Some(path) } else { None })
            }
            Ask::Canonicals { path, others } => Told::Canonicals { path, others },
            Ask::Inspect { path } => Told::Inspected(PathFacts {
                is_dir: true,
                kind: Some(WorkspaceKind::Jj),
                canonical_base: Some("/wt".into()),
                canonical: if self.there(&path) { Some(path) } else { None },
            }),
            Ask::Look { project, worktree, branch } => {
                self.asked.push(format!("look {project} {branch}"));
                Told::Looked { worktree: self.gone.is_empty() && worktree.contains("taken"), branch: self.branch }
            }
            Ask::Provision { project, name } => Told::Provisioned(if self.no_provision {
                Err("no".into())
            } else {
                Ok(Workspace {
                    path: format!("/wt/repo/{name}"),
                    branch: format!("clowder/{name}"),
                    project,
                    kind: WorkspaceKind::Git,
                })
            }),
            Ask::Exists { path } => Told::Exists(self.there(&path)),
            Ask::Start { id, command, cols, rows, role, adapter } => {
                self.asked.push(format!(
                    "start {} {} {cols}x{rows} {role:?} {adapter:?}",
                    id.0, command.program
                ));
                Told::Started(if self.no_start.contains(&id.0) { why() } else { Ok(()) })
            }
            Ask::Land { ws } => {
                self.asked.push(format!("land {}", ws.path));
                Told::Finished { result: if self.no_finish { why() } else { Ok(()) }, there: self.kept }
            }
            Ask::Discard { ws } => {
                self.asked.push(format!("discard {}", ws.path));
                Told::Finished { result: if self.no_finish { why() } else { Ok(()) }, there: self.kept }
            }
        }
    }

    fn run(&mut self, d: &mut Daemon, mut step: Step) -> Option<ControlEvent> {
        loop {
            self.effects.extend(step.effects);
            match step.next {
                Next::Done(e) => return Some(e),
                Next::Over => return None,
                Next::Ask(ask, flow) => {
                    let told = self.perform(ask);
                    step = d.proceed(flow, told);
                }
            }
        }
    }

    fn work(&mut self, d: &mut Daemon, work: Work) -> ControlEvent {
        let step = d.begin(work);
        self.run(d, step).expect("an answer")
    }
}

fn command(program: &str) -> PaneCommand {
    PaneCommand { program: program.into(), args: vec![], cwd: None, env: vec![] }
}

fn known() -> Vec<AdapterDescriptor> {
    let adapter = |id: &str, program: &str, hooks| Adapter {
        id: id.into(),
        launch: command(program),
        resume: command(&format!("{program}-again")),
        provides_hooks: hooks,
    };
    vec![
        AdapterDescriptor {
            id: "codex".into(),
            display_name: "OpenAI Codex".into(),
            adapter: adapter("codex", "codex", true),
        },
        AdapterDescriptor {
            id: "shell".into(),
            display_name: "Shell".into(),
            adapter: adapter("synthetic", "/bin/sh", false),
        },
    ]
}

fn daemon_with(records: Vec<AgentRecord>) -> Daemon {
    let layout = || WorktreeLayout::new("/wt".into());
    let settings = Settings {
        hook_sock: "/h.sock".into(),
        backlog_cap: 100,
        default_cols: 80,
        default_rows: 24,
        shell: "/bin/zsh".into(),
        worktrees: layout(),
    };
    Daemon::new(
        settings,
        Registry::loaded("/agents.json".into(), Some(records)),
        ProjectStore::new("/projects.json".into(), layout()),
        AgentProfileStore::new("/agent-profiles.json".into(), known()),
    )
}

fn daemon() -> Daemon {
    let mut d = daemon_with(vec![]);
    match World::default().work(&mut d, Work::AddProject { path: "/repo".into() }) {
        ControlEvent::ProjectAdded { project } => assert_eq!(project.kind, "jj"),
        other => panic!("added, got {other:?}"),
    }
    d
}

fn spawn(name: &str) -> Work {
    Work::Spawn { project: "/repo".into(), name: name.into(), adapter: "shell".into() }
}

fn error(m: &str) -> ControlEvent {
    ControlEvent::Error { message: m.into() }
}

#[test]
fn a_spawn_goes_step_by_step() {
    let mut d = daemon();
    let mut w = World::default();
    let e = w.work(&mut d, spawn("feat"));
    assert_eq!(e, ControlEvent::AgentSpawned { pane: PaneId(1) });
    assert_eq!(
        w.asked,
        vec![
            "canonical /repo",
            "look /repo clowder/feat",
            "start 1 /bin/sh 80x24 Agent Some(\"synthetic\")",
        ]
    );
    assert_eq!(
        w.effects,
        vec![Effect::SaveRegistry, Effect::Attention(PaneId(1), AttentionState::Working)]
    );
    assert!(d.is_live(PaneId(1)));
}

#[test]
fn a_spawn_that_fails_leaves_no_worktree() {
    let mut d = daemon();
    let mut w = World { no_start: vec![1], ..Default::default() };
    assert_eq!(w.work(&mut d, spawn("feat")), error("no"));
    assert_eq!(w.asked.last().map(String::as_str), Some("discard /wt/repo/feat"));
    assert!(!d.is_live(PaneId(1)) && d.registry.load().is_empty());

    let mut w = World { no_provision: true, ..Default::default() };
    assert_eq!(w.work(&mut d, spawn("feat")), error("no"));
    let mut w = World { branch: true, ..Default::default() };
    assert_eq!(
        w.work(&mut d, spawn("feat")),
        error("branch clowder/feat already exists in /repo — choose another name")
    );
    let mut w = World { gone: vec!["/repo".into()], ..Default::default() };
    assert_eq!(w.work(&mut d, spawn("feat")), error("no such project path: /repo"));
    let ghost = Work::Spawn { project: "/repo".into(), name: "x".into(), adapter: "ghost".into() };
    assert_eq!(World::default().work(&mut d, ghost), error("unknown agent: ghost"));
}

#[test]
fn a_split_starts_a_companion() {
    let mut d = daemon();
    let mut w = World::default();
    w.work(&mut d, spawn("feat"));
    let e = w.work(&mut d, Work::Split { pane: PaneId(1), direction: SplitDirection::Down });
    assert!(matches!(e, ControlEvent::SplitTreeChanged { agent: PaneId(1), .. }));
    assert_eq!(w.asked.last().map(String::as_str), Some("start 2 /bin/zsh 80x24 Companion None"));
    assert_eq!(d.owner_of(PaneId(2)), Some(PaneId(1)));
    assert!(d.exited(PaneId(2), Role::Companion).contains(&Effect::End(PaneId(2))));
    assert_eq!(d.owner_of(PaneId(2)), None);
    assert_eq!(
        d.exited(PaneId(1), Role::Agent),
        vec![Effect::Attention(PaneId(1), AttentionState::Exited)]
    );

    let e = w.work(&mut d, Work::Split { pane: PaneId(9), direction: SplitDirection::Down });
    assert_eq!(e, error("unknown pane PaneId(9)"));
    w.no_start = vec![3];
    let e = w.work(&mut d, Work::Split { pane: PaneId(1), direction: SplitDirection::Down });
    assert_eq!(e, error("no"));
}

#[test]
fn landing_keeps_an_agent_whose_worktree_stays() {
    let mut d = daemon();
    let mut w = World::default();
    w.work(&mut d, spawn("feat"));
    w.no_finish = true;
    w.kept = true;
    assert_eq!(w.work(&mut d, Work::Land { pane: PaneId(1) }), error("no"));
    assert_eq!(d.attention_of(PaneId(1)), Some(AttentionState::Exited));

    let e = w.work(&mut d, Work::Restart { pane: PaneId(1) });
    assert_eq!(e, ControlEvent::SplitTreeChanged { agent: PaneId(1), tree: PaneTree::Leaf { pane: PaneId(1) } });
    assert_eq!(
        w.asked.last().map(String::as_str),
        Some("start 1 /bin/sh-again 80x24 Agent Some(\"synthetic\")")
    );
    assert_eq!(d.attention_of(PaneId(1)), Some(AttentionState::Working));

    w.kept = false;
    assert_eq!(w.work(&mut d, Work::Discard { pane: PaneId(1) }), error("no"));
    assert_eq!(d.attention_of(PaneId(1)), None);
    assert!(!w.effects.contains(&Effect::Tidy("/wt/repo".into())));
}

#[test]
fn landing_tidies_up() {
    let mut d = daemon();
    let mut w = World::default();
    w.work(&mut d, spawn("feat"));
    assert_eq!(
        w.work(&mut d, Work::Land { pane: PaneId(1) }),
        ControlEvent::AgentRemoved { pane: PaneId(1) }
    );
    assert_eq!(w.asked.last().map(String::as_str), Some("land /wt/repo/feat"));
    assert!(w.effects.contains(&Effect::Tidy("/wt/repo".into())));
    assert!(w.effects.contains(&Effect::AgentRemoved(PaneId(1))));
    assert_eq!(
        w.work(&mut d, Work::CloseAgent { pane: PaneId(1) }),
        ControlEvent::AgentRemoved { pane: PaneId(1) }
    );
}

#[test]
fn a_terminal_is_opened_once_and_goes_with_its_project() {
    let mut d = daemon();
    let mut w = World::default();
    let open = || Work::OpenTerminal { path: "/repo".into() };
    let opened = ControlEvent::ProjectTerminalOpened { path: "/repo".into(), pane: PaneId(1) };
    assert_eq!(w.work(&mut d, open()), opened);
    assert_eq!(w.asked.last().map(String::as_str), Some("start 1 /bin/zsh 80x24 Terminal None"));
    assert_eq!(
        w.work(&mut d, open()),
        ControlEvent::ProjectTerminalOpened { path: "/repo".into(), pane: PaneId(1) }
    );
    assert_eq!(
        w.work(&mut d, Work::Land { pane: PaneId(1) }),
        error("pane 1 is a project terminal — it has no workspace to land")
    );
    w.work(&mut d, spawn("feat"));
    let remove = || Work::RemoveProject { path: "/repo".into() };
    assert_eq!(
        w.work(&mut d, remove()),
        error("project /repo still has 1 worktree(s) — land or discard them first")
    );
    w.work(&mut d, Work::Discard { pane: PaneId(2) });
    assert_eq!(w.work(&mut d, remove()), ControlEvent::ProjectRemoved { path: "/repo".into() });
    assert!(!d.is_live(PaneId(1)));
    assert!(d.exited(PaneId(1), Role::Terminal).is_empty());
    assert!(matches!(w.work(&mut d, open()), ControlEvent::Error { .. }));
}

#[test]
fn only_work_on_projects_is_exclusive() {
    assert!(spawn("x").is_exclusive());
    assert!(Work::RemoveProject { path: "/p".into() }.is_exclusive());
    assert!(Work::OpenTerminal { path: "/p".into() }.is_exclusive());
    assert!(!Work::Land { pane: PaneId(1) }.is_exclusive());
}

#[test]
fn recorded_agents_are_resumed_with_their_companions() {
    let mut d = daemon();
    let mut w = World::default();
    w.work(&mut d, spawn("a"));
    w.work(&mut d, spawn("b"));
    w.work(&mut d, Work::Split { pane: PaneId(1), direction: SplitDirection::Right });
    w.work(&mut d, Work::Split { pane: PaneId(1), direction: SplitDirection::Right });

    let mut again = daemon_with(d.registry.copies());
    let mut w = World { gone: vec!["/wt/repo/b".into()], no_start: vec![3], ..Default::default() };
    let records = again.reconcile();
    for r in records {
        let step = again.resume_agent(r);
        assert_eq!(w.run(&mut again, step), None);
    }
    assert_eq!(
        w.asked,
        vec![
            "start 1 /bin/sh-again 80x24 Agent Some(\"synthetic\")",
            "start 3 /bin/zsh 80x24 Companion None",
            "start 4 /bin/zsh 80x24 Companion None",
        ]
    );
    assert_eq!(again.owner_of(PaneId(4)), Some(PaneId(1)));
    assert_eq!(again.owner_of(PaneId(3)), None);
    match again.split_tree_of(PaneId(1)) {
        Some(PaneTree::Split { first, second, .. }) => {
            assert_eq!(*first, PaneTree::Leaf { pane: PaneId(1) });
            assert_eq!(*second, PaneTree::Leaf { pane: PaneId(4) });
        }
        other => panic!("a split, got {other:?}"),
    }
    assert_eq!(again.registry.load().iter().map(|r| r.agent_id).collect::<Vec<_>>(), vec![1]);
}

#[test]
fn a_recorded_agent_that_does_not_start_is_forgotten() {
    let mut d = daemon();
    World::default().work(&mut d, spawn("a"));
    let mut again = daemon_with(d.registry.copies());
    let mut w = World { no_start: vec![1], ..Default::default() };
    for r in again.reconcile() {
        let step = again.resume_agent(r);
        assert!(w.run(&mut again, step).is_none());
    }
    assert!(again.registry.load().is_empty());
    assert_eq!(w.effects, vec![Effect::SaveRegistry]);
}

#[test]
fn a_request_waits_for_what_it_asked_for() {
    let mut d = daemon();
    let step = d.begin(spawn("feat"));
    match step.next {
        Next::Ask(Ask::Canonical { path }, Flow::SpawnPath { name, .. }) => {
            assert_eq!((path.as_str(), name.as_str()), ("/repo", "feat"))
        }
        _ => panic!("the path first"),
    }
}

#[test]
fn a_screen_asks_by_signal_or_by_prompt() {
    let (mut s, asks) = Scanner::new(20, 3, b"\x07");
    assert!(asks);
    let output = |bytes: &[u8], cols| ScanEvent::Output { bytes: bytes.to_vec(), cols, rows: 3 };
    let scan = |asks, timer, ended| Scan { asks, timer, ended };
    assert_eq!(s.step(&output(b"working", 20)), scan(false, Timer::Rearm, false));
    assert_eq!(s.step(&ScanEvent::Quiet), scan(false, Timer::Park, false));
    assert_eq!(s.step(&output(b"\r\nContinue? (y/n)", 20)), scan(false, Timer::Rearm, false));
    assert_eq!(s.step(&ScanEvent::Quiet), scan(true, Timer::Park, false));
    assert_eq!(s.step(&output(b"\x1b]9;hey\x07", 20)), scan(true, Timer::Rearm, false));
    assert_eq!(s.step(&output(b"", 30)), scan(false, Timer::Rearm, false));
    assert_eq!(s.step(&ScanEvent::Quiet), scan(false, Timer::Park, false), "a resize clears the screen");
    assert_eq!(s.step(&ScanEvent::Missed), scan(false, Timer::Keep, false));
    assert_eq!(s.step(&ScanEvent::Ended), scan(false, Timer::Keep, true));
    let (mut full, _) = Scanner::new(20, 3, b"\x1b[?1049hPassword:");
    assert_eq!(full.step(&ScanEvent::Quiet), scan(false, Timer::Park, false));
}
