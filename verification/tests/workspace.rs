use clowder::path;
use clowder::workspace::driver::{
    driver_for, driver_for_kind, failure_message, GitWorktreeDriver, JjDriver, Step, WorkspaceDriver,
};
use clowder::workspace::kind::{ancestors, detect_kind, Markers, Workspace, WorkspaceKind};
use clowder::workspace::layout::{
    branch_name, jj_workspace_name, short_hash, slug, task_from_branch, WorktreeLayout,
};
use clowder::workspace::name::validate_workspace_name;

fn layout(base: &str) -> WorktreeLayout {
    WorktreeLayout::new(base.to_string())
}

fn last_part(p: &str) -> &str {
    p.rsplit('/').next().unwrap()
}

#[test]
fn worktree_path_is_base_slug_hash_name() {
    let l = layout("/base");
    let p = l.worktree_path("/Users/rc/code/clowder", "fix-login");
    let dir = l.project_dir("/Users/rc/code/clowder");
    assert_eq!(p, format!("{dir}/fix-login"));
    assert!(dir.starts_with("/base"));
    let name = last_part(&dir);
    assert!(name.starts_with("clowder-"), "{name}");
    assert_eq!(name.len(), "clowder-".len() + 12, "{name}");
}

#[test]
fn same_basename_different_projects_do_not_collide() {
    let l = layout("/base");
    let a = l.project_dir("/a/api");
    let b = l.project_dir("/b/api");
    assert_ne!(a, b);
    for d in [&a, &b] {
        assert!(last_part(d).starts_with("api-"), "{d:?}");
    }
}

#[test]
fn project_dir_is_stable_across_calls_and_layouts() {
    let a = layout("/base").project_dir("/x/y");
    let b = layout("/base").project_dir("/x/y");
    assert_eq!(a, b);
}

#[test]
fn project_dir_name_is_pinned() {
    let l = layout("/base");
    assert_eq!(l.project_dir("/tmp/api"), "/base/api-e3cdda71ea1d");
    assert_eq!(l.project_dir("/Users/rc/code/clowder"), "/base/clowder-329dae757627");
    assert_eq!(short_hash("/tmp/api"), "e3cdda71ea1d");
}

#[test]
fn slug_sanitizes_odd_basenames() {
    assert_eq!(slug("/a/my project"), "my-project");
    assert_eq!(slug("/a/caf\u{e9}"), "caf-");
    assert_eq!(slug("/a/.dotfiles"), "dotfiles");
    assert_eq!(slug("/a/-dashed"), "dashed");
    assert_eq!(slug("/a/a_b.c-d"), "a_b.c-d");
    assert_eq!(slug("/"), "project");
    assert_eq!(slug("/a/..."), "project");
    assert_eq!(slug(&format!("/a/{}", "x".repeat(80))), "x".repeat(32));
}

#[test]
fn slug_collisions_are_disambiguated_by_the_hash() {
    let l = layout("/base");
    assert_ne!(l.project_dir("/a/my project"), l.project_dir("/a/my-project"));
}

#[test]
fn branch_name_and_task_from_branch_round_trip() {
    assert_eq!(branch_name("fix-login"), "clowder/fix-login");
    assert_eq!(task_from_branch(&branch_name("fix-login")), "fix-login");
    assert_eq!(task_from_branch("main"), "main");
    assert_eq!(task_from_branch("feature/clowder/x"), "feature/clowder/x");
}

#[test]
fn jj_workspace_name_is_dash_separated() {
    assert_eq!(jj_workspace_name("fix-login"), "clowder-fix-login");
}

#[test]
fn the_worktree_directory_keeps_itself_out_of_a_repository() {
    let (path, text) = layout("/base").ignore_file();
    assert_eq!(path, "/base/.gitignore");
    assert!(text.contains("\n*\n"));
}

#[test]
fn driver_for_kind_maps_both() {
    assert_eq!(driver_for_kind(WorkspaceKind::Git).kind(), WorkspaceKind::Git);
    assert_eq!(driver_for_kind(WorkspaceKind::Jj).kind(), WorkspaceKind::Jj);
}

#[test]
fn driver_for_falls_back_to_git() {
    assert_eq!(driver_for(None).kind(), WorkspaceKind::Git);
    assert_eq!(driver_for(Some(WorkspaceKind::Jj)).kind(), WorkspaceKind::Jj);
}

#[test]
fn workspace_kind_string_roundtrip() {
    for k in [WorkspaceKind::Git, WorkspaceKind::Jj] {
        assert_eq!(WorkspaceKind::from_str(k.as_str()), Some(k));
    }
    assert_eq!(WorkspaceKind::from_str("nope"), None);
}

fn marks(jj: bool, git: bool) -> Markers {
    Markers { jj, git }
}

#[test]
fn detect_kind_none_when_not_a_repo() {
    assert_eq!(detect_kind(&[marks(false, false)]), None);
    assert_eq!(detect_kind(&[]), None);
}

#[test]
fn detect_kind_prefers_the_nearest_mark() {
    assert_eq!(
        detect_kind(&[marks(false, false), marks(false, true), marks(true, false)]),
        Some(WorkspaceKind::Git)
    );
}

#[test]
fn ancestors_go_up_to_the_root() {
    assert_eq!(ancestors("/a/b"), vec!["/a/b", "/a", "/"]);
}

#[test]
fn validate_workspace_name_accepts_reasonable_names() {
    for ok in ["a", "add-projects", "fix_bug", "v1.2", "M10a", "a-b_c.d"] {
        assert!(validate_workspace_name(ok).is_ok(), "should accept {ok:?}");
    }
}

#[test]
fn validate_workspace_name_rejects_unsafe_names() {
    let too_long = "a".repeat(65);
    let cases: [&str; 12] = [
        "", &too_long, ".", "..", "a..b", "x.lock", "my feature", "feat/x", ".hidden", "-dash",
        "caf\u{e9}", "v1.",
    ];
    for bad in cases {
        assert!(validate_workspace_name(bad).is_err(), "should reject {bad:?}");
    }
}

#[test]
fn validate_workspace_name_errors_name_the_problem() {
    let e = validate_workspace_name("my feature").unwrap_err();
    assert!(e.contains("letters"), "unhelpful message: {e}");
    let e = validate_workspace_name(&"a".repeat(65)).unwrap_err();
    assert!(e.contains("64"), "unhelpful message: {e}");
    let e = validate_workspace_name("..").unwrap_err();
    assert!(e.contains("\"..\""), "the name is quoted: {e}");
}

fn ran(steps: &[Step], word: &str) -> bool {
    steps.iter().any(|s| matches!(s, Step::Run { args, .. } if args.iter().any(|a| a == word)))
}

/// A repository that does what the steps say.
#[derive(Default)]
struct Repo {
    unborn: bool,
    worktrees: Vec<String>,
    strays: Vec<String>,
    branches: Vec<String>,
    commits: Vec<String>,
}

impl Repo {
    fn there(&self, path: &str) -> bool {
        self.worktrees.iter().chain(&self.strays).any(|p| p == path)
    }

    fn branch(&self, name: &str) -> bool {
        self.branches.iter().any(|b| b == name)
    }

    fn git(&mut self, args: &[&str]) -> bool {
        match args {
            ["worktree", "add", path, "-b", branch] => {
                self.worktrees.push(path.to_string());
                if !self.unborn {
                    self.branches.push(branch.to_string());
                }
            }
            ["add", "-A"] | ["worktree", "prune"] => {}
            ["commit", "-m", message] => self.commits.push(message.to_string()),
            ["worktree", "remove", path] | ["worktree", "remove", "--force", path] => {
                if !self.worktrees.iter().any(|p| p == path) {
                    return false;
                }
                self.worktrees.retain(|p| p != path);
            }
            ["branch", "-D", branch] => self.branches.retain(|b| b != branch),
            other => panic!("git {other:?}"),
        }
        true
    }

    fn jj(&mut self, args: &[&str]) -> bool {
        match args {
            ["workspace", "add", "--name", _, path] => self.worktrees.push(path.to_string()),
            ["bookmark", "set", branch, "-r", "@"] => self.branches.push(branch.to_string()),
            ["workspace", "forget", _] | ["abandon", "-r", "@"] => {}
            other => panic!("jj {other:?}"),
        }
        true
    }

    fn run(&mut self, steps: Vec<Step>) {
        for step in steps {
            match step {
                Step::RemoveTree { path } => self.worktrees.retain(|p| *p != path),
                Step::Run { tool, args, needed, .. } => {
                    let args: Vec<&str> = args.iter().map(String::as_str).collect();
                    let ok = match tool {
                        WorkspaceKind::Git => self.git(&args),
                        WorkspaceKind::Jj => self.jj(&args),
                    };
                    assert!(ok || !needed, "{args:?}");
                }
            }
        }
    }

    fn provision(&mut self, kind: WorkspaceKind, name: &str) -> Workspace {
        let (w, steps) = driver_for_kind(kind).provision(&layout("/base"), "/p", name);
        self.run(steps);
        w
    }

    fn land(&mut self, w: &Workspace, dirty: bool) {
        self.run(driver_for_kind(w.kind).land(w, dirty));
    }

    fn discard(&mut self, w: &Workspace) -> Result<(), String> {
        let d = driver_for_kind(w.kind);
        self.run(d.discard(w, self.there(&w.path)));
        self.run(d.discard_branch(w, self.branch(&w.branch)));
        d.discarded(w, self.there(&w.path))
    }
}

#[test]
fn provision_creates_isolated_worktree_on_new_branch() {
    let mut r = Repo::default();
    let w = r.provision(WorkspaceKind::Git, "task-a");
    assert!(r.there(&w.path));
    assert_eq!(w.branch, "clowder/task-a");
    assert!(r.branch("clowder/task-a"));
}

#[test]
fn land_commits_dirty_removes_worktree_keeps_branch() {
    let mut r = Repo::default();
    let w = r.provision(WorkspaceKind::Git, "task-a");
    r.land(&w, true);
    assert!(!r.there(&w.path), "worktree removed");
    assert!(r.branch("clowder/task-a"), "branch kept");
    assert_eq!(r.commits, vec!["clowder: task-a"]);
}

#[test]
fn land_clean_worktree_makes_no_extra_commit() {
    let mut r = Repo::default();
    let w = r.provision(WorkspaceKind::Git, "task-c");
    r.land(&w, false);
    assert!(r.branch("clowder/task-c"));
    assert!(r.commits.is_empty());
}

#[test]
fn discard_removes_worktree_and_deletes_branch() {
    let mut r = Repo::default();
    let w = r.provision(WorkspaceKind::Git, "task-b");
    r.discard(&w).unwrap();
    assert!(!r.there(&w.path), "worktree removed");
    assert!(!r.branch("clowder/task-b"), "branch deleted");
}

#[test]
fn discard_succeeds_when_the_branch_is_unborn() {
    let mut r = Repo { unborn: true, ..Default::default() };
    let w = r.provision(WorkspaceKind::Git, "feat");
    assert!(r.there(&w.path));
    assert!(!r.branch(&w.branch), "the branch is unborn");
    r.discard(&w).unwrap();
    assert!(!r.there(&w.path));
}

#[test]
fn discard_is_idempotent() {
    let mut r = Repo::default();
    let w = r.provision(WorkspaceKind::Git, "task-i");
    r.discard(&w).unwrap();
    r.discard(&w).unwrap();
    assert!(!r.there(&w.path));
}

#[test]
fn discard_after_land_is_ok_and_removes_the_branch() {
    let mut r = Repo::default();
    let w = r.provision(WorkspaceKind::Git, "task-al");
    r.land(&w, true);
    assert!(r.branch(&w.branch));
    r.discard(&w).unwrap();
    assert!(!r.branch(&w.branch));
}

#[test]
fn discard_reports_when_the_worktree_cannot_be_removed() {
    let mut r = Repo { strays: vec!["/p/not-a-worktree".into()], ..Default::default() };
    let w = Workspace {
        path: "/p/not-a-worktree".into(),
        branch: "clowder/nope".into(),
        project: "/p".into(),
        kind: WorkspaceKind::Git,
    };
    let e = r.discard(&w).unwrap_err();
    assert!(e.contains("could not remove worktree"), "{e}");
    assert!(r.there(&w.path), "nothing was destroyed");
}

#[test]
fn provision_sets_git_kind() {
    let w = Repo::default().provision(WorkspaceKind::Git, "task-k");
    assert_eq!(w.kind, WorkspaceKind::Git);
    assert_eq!(GitWorktreeDriver.kind(), WorkspaceKind::Git);
}

#[test]
fn git_provision_puts_the_worktree_outside_the_project() {
    let w = Repo::default().provision(WorkspaceKind::Git, "feat");
    assert!(w.path.starts_with("/base/"), "{}", w.path);
    assert!(!w.path.starts_with("/p/"));
    assert_eq!(w.path, layout("/base").worktree_path("/p", "feat"));
}

#[test]
fn git_land_works_on_a_worktree_outside_the_project() {
    let mut r = Repo::default();
    let w = r.provision(WorkspaceKind::Git, "feat");
    r.land(&w, true);
    assert!(!r.there(&w.path));
    assert!(r.branch("clowder/feat"));
}

#[test]
fn jj_provision_creates_workspace_and_sets_jj_kind() {
    let mut r = Repo::default();
    let w = r.provision(WorkspaceKind::Jj, "task-j");
    assert!(r.there(&w.path));
    assert_eq!(w.branch, "clowder/task-j");
    assert_eq!(w.kind, WorkspaceKind::Jj);
    assert_eq!(JjDriver.kind(), WorkspaceKind::Jj);
}

#[test]
fn jj_land_sets_bookmark_forgets_workspace_removes_dir() {
    let mut r = Repo::default();
    let w = r.provision(WorkspaceKind::Jj, "task-l");
    let steps = driver_for_kind(WorkspaceKind::Jj).land(&w, true);
    assert!(ran(&steps, "forget") && ran(&steps, "clowder-task-l"));
    r.run(steps);
    assert!(!r.there(&w.path));
    assert!(r.branch("clowder/task-l"), "the bookmark is kept");
}

#[test]
fn jj_discard_forgets_workspace_and_leaves_no_bookmark() {
    let mut r = Repo::default();
    let w = r.provision(WorkspaceKind::Jj, "task-d");
    r.discard(&w).unwrap();
    assert!(!r.there(&w.path));
    assert!(!r.branch("clowder/task-d"));
}

#[test]
fn jj_provision_puts_the_workspace_outside_the_project() {
    let w = Repo::default().provision(WorkspaceKind::Jj, "feat");
    assert!(w.path.starts_with("/base/"), "{}", w.path);
    assert!(!w.path.starts_with("/p/"));
}

#[test]
fn driver_for_picks_git_for_a_git_project() {
    assert_eq!(driver_for(detect_kind(&[marks(false, true)])).kind(), WorkspaceKind::Git);
}

#[test]
fn driver_for_picks_jj_when_dot_jj_present_even_with_git() {
    assert_eq!(driver_for(detect_kind(&[marks(true, true)])).kind(), WorkspaceKind::Jj);
}

#[test]
fn driver_for_finds_marker_in_ancestor() {
    let dirs = [marks(false, false), marks(false, false), marks(true, false)];
    assert_eq!(driver_for(detect_kind(&dirs)).kind(), WorkspaceKind::Jj);
}

#[test]
fn detect_kind_git_and_jj_with_jj_winning() {
    assert_eq!(detect_kind(&[marks(false, true)]), Some(WorkspaceKind::Git));
    assert_eq!(detect_kind(&[marks(true, false)]), Some(WorkspaceKind::Jj));
    assert_eq!(detect_kind(&[marks(true, true)]), Some(WorkspaceKind::Jj));
}

#[test]
fn detect_kind_finds_marker_in_ancestor() {
    let dirs = [marks(false, false), marks(false, false), marks(false, true)];
    assert_eq!(detect_kind(&dirs), Some(WorkspaceKind::Git));
}

#[test]
fn a_command_that_failed_is_told_with_what_it_said() {
    let m = failure_message(WorkspaceKind::Git, &["status".to_string()], "no repo");
    assert_eq!(m, "git [\"status\"] failed: no repo");
}

#[test]
fn a_worktree_has_its_name_and_place() {
    for base in ["/base", "/base/", "rel", "/"] {
        let l = layout(base);
        let p = l.worktree_path("/code/clowder", "fix.login");
        assert_eq!(path::parent(&p), Some(l.project_dir("/code/clowder")));
        assert_eq!(path::file_name(&p).as_deref(), Some("fix.login"));
    }
}
