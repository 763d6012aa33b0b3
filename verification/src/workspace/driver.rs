//! The commands that make, land and discard a working copy.

use vstd::prelude::*;

use crate::text;
use crate::text::{quoted, texts};
use crate::workspace::kind::{Workspace, WorkspaceKind};
use crate::workspace::layout;
use crate::workspace::layout::{branch_of, task_of, worktree_path_of, WorktreeLayout};

verus! {

/// One thing to do on disk.
#[derive(Debug, PartialEq, Eq)]
pub enum Step {
    /// Run `git -C dir …` or `jj -R dir …`. Where it is `needed`, its failure ends the work.
    Run { tool: WorkspaceKind, dir: String, args: Vec<String>, needed: bool },
    /// Remove a directory with all that is in it, as far as that is possible.
    RemoveTree { path: String },
}

/// One thing to do on disk.
pub enum StepView {
    Run { tool: WorkspaceKind, dir: Seq<char>, args: Seq<Seq<char>>, needed: bool },
    RemoveTree { path: Seq<char> },
}

impl View for Step {
    type V = StepView;

    open spec fn view(&self) -> StepView {
        match *self {
            Step::Run { tool, dir, args, needed } => StepView::Run {
                tool,
                dir: dir@,
                args: texts(args@),
                needed,
            },
            Step::RemoveTree { path } => StepView::RemoveTree { path: path@ },
        }
    }
}

/// What the steps say, in order.
pub open spec fn steps(s: Seq<Step>) -> Seq<StepView> {
    s.map_values(|x: Step| x@)
}

/// The strings of string slices.
fn strings(args: &[&str]) -> (out: Vec<String>)
    ensures
        texts(out@) == args@.map_values(|a: &str| a@),
{
    let mut out: Vec<String> = Vec::new();
    let mut i: usize = 0;
    while i < args.len()
        invariant
            i <= args.len(),
            out@.len() == i,
            forall|k: int| 0 <= k < i ==> (#[trigger] out@[k])@ == args@[k]@,
        decreases args.len() - i,
    {
        out.push(args[i].to_owned());
        i = i + 1;
    }
    assert(texts(out@) =~= args@.map_values(|a: &str| a@));
    out
}

fn run(tool: WorkspaceKind, dir: &str, args: &[&str], needed: bool) -> (s: Step)
    ensures
        s@ == (StepView::Run { tool, dir: dir@, args: args@.map_values(|a: &str| a@), needed }),
{
    Step::Run { tool, dir: dir.to_owned(), args: strings(args), needed }
}

/// The message for a command that failed.
pub open spec fn failed_message(tool: WorkspaceKind, args: Seq<Seq<char>>, stderr: Seq<char>) -> Seq<char> {
    tool.name() + " ["@ + text::joined(args.map_values(|a: Seq<char>| quoted(a)), ", "@) + "] failed: "@
        + stderr
}

/// The message for a command that failed.
pub fn failure_message(tool: WorkspaceKind, args: &[String], stderr: &str) -> (m: String)
    ensures
        m@ == failed_message(tool, texts(args@), stderr@),
{
    let mut shown: Vec<String> = Vec::new();
    let mut i: usize = 0;
    while i < args.len()
        invariant
            i <= args.len(),
            shown@.len() == i,
            forall|k: int| 0 <= k < i ==> (#[trigger] shown@[k])@ == quoted(args@[k]@),
        decreases args.len() - i,
    {
        shown.push(text::quote(args[i].as_str()));
        i = i + 1;
    }
    assert(texts(shown@) =~= texts(args@).map_values(|a: Seq<char>| quoted(a)));
    let mut m = tool.as_str().to_owned();
    m.append(" [");
    m.append(text::join(&shown, ", ").as_str());
    m.append("] failed: ");
    m.append(stderr);
    m
}

/// How working copies of one system are made, landed and discarded.
pub trait WorkspaceDriver {
    /// The system.
    spec fn system(&self) -> WorkspaceKind;

    /// The commands that make a working copy at `path` on a fresh `branch`.
    spec fn provision_steps(&self, project: Seq<char>, path: Seq<char>, name: Seq<char>) -> Seq<
        StepView,
    >;

    /// The commands that keep the work on its branch and remove the working copy.
    spec fn land_steps(&self, ws: Workspace, dirty: bool) -> Seq<StepView>;

    /// The commands that remove the working copy; none of them has to succeed.
    spec fn discard_steps(&self, ws: Workspace, present: bool) -> Seq<StepView>;

    /// The commands that delete the branch of a removed working copy.
    spec fn discard_branch_steps(&self, ws: Workspace, branch_exists: bool) -> Seq<StepView>;

    /// What to say where the working copy is still there in the end.
    spec fn stuck_message(&self, ws: Workspace) -> Seq<char>;

    /// The system.
    fn kind(&self) -> (k: WorkspaceKind)
        ensures
            k == self.system(),
    ;

    /// The working copy for the worktree `name` of a project, whose path is canonical, and the
    /// commands that make it.
    fn provision(&self, layout: &WorktreeLayout, project: &str, name: &str) -> (r: (
        Workspace,
        Vec<Step>,
    ))
        ensures
            r.0.path@ == worktree_path_of(layout.root(), project@, name@),
            r.0.branch@ == branch_of(name@),
            r.0.project@ == project@,
            r.0.kind == self.system(),
            steps(r.1@) == self.provision_steps(project@, r.0.path@, name@),
    ;

    /// The commands that keep the work on its branch and remove the working copy. `dirty` tells
    /// whether there is work that no commit holds.
    fn land(&self, ws: &Workspace, dirty: bool) -> (s: Vec<Step>)
        ensures
            steps(s@) == self.land_steps(*ws, dirty),
    ;

    /// The commands that remove the working copy; `present` tells whether it is there.
    fn discard(&self, ws: &Workspace, present: bool) -> (s: Vec<Step>)
        ensures
            steps(s@) == self.discard_steps(*ws, present),
    ;

    /// The commands that delete the branch afterwards.
    fn discard_branch(&self, ws: &Workspace, branch_exists: bool) -> (s: Vec<Step>)
        ensures
            steps(s@) == self.discard_branch_steps(*ws, branch_exists),
    ;

    /// What came of discarding, told by whether the working copy is still there: an absent one is
    /// what discarding wants, whatever the commands said.
    fn discarded(&self, ws: &Workspace, still_there: bool) -> (r: Result<(), String>)
        ensures
            match r {
                Ok(_) => !still_there,
                Err(e) => still_there && e@ == self.stuck_message(*ws),
            },
    ;
}

/// Working copies as linked git worktrees.
pub struct GitWorktreeDriver;

/// Working copies as jj workspaces.
pub struct JjDriver;

impl WorkspaceDriver for GitWorktreeDriver {
    open spec fn system(&self) -> WorkspaceKind {
        WorkspaceKind::Git
    }

    open spec fn provision_steps(&self, project: Seq<char>, path: Seq<char>, name: Seq<char>) -> Seq<
        StepView,
    > {
        seq![
            StepView::Run {
                tool: WorkspaceKind::Git,
                dir: project,
                args: seq!["worktree"@, "add"@, path, "-b"@, branch_of(name)],
                needed: true,
            },
        ]
    }

    open spec fn land_steps(&self, ws: Workspace, dirty: bool) -> Seq<StepView> {
        let commit = if dirty {
            seq![
                StepView::Run {
                    tool: WorkspaceKind::Git,
                    dir: ws.path@,
                    args: seq!["add"@, "-A"@],
                    needed: true,
                },
                StepView::Run {
                    tool: WorkspaceKind::Git,
                    dir: ws.path@,
                    args: seq!["commit"@, "-m"@, "clowder: "@ + task_of(ws.branch@)],
                    needed: true,
                },
            ]
        } else {
            seq![]
        };
        commit + seq![
            StepView::Run {
                tool: WorkspaceKind::Git,
                dir: ws.project@,
                args: seq!["worktree"@, "remove"@, ws.path@],
                needed: true,
            },
            StepView::Run {
                tool: WorkspaceKind::Git,
                dir: ws.project@,
                args: seq!["worktree"@, "prune"@],
                needed: false,
            },
        ]
    }

    open spec fn discard_steps(&self, ws: Workspace, present: bool) -> Seq<StepView> {
        let remove = if present {
            seq![
                StepView::Run {
                    tool: WorkspaceKind::Git,
                    dir: ws.project@,
                    args: seq!["worktree"@, "remove"@, "--force"@, ws.path@],
                    needed: false,
                },
            ]
        } else {
            seq![]
        };
        remove + seq![
            StepView::Run {
                tool: WorkspaceKind::Git,
                dir: ws.project@,
                args: seq!["worktree"@, "prune"@],
                needed: false,
            },
        ]
    }

    open spec fn discard_branch_steps(&self, ws: Workspace, branch_exists: bool) -> Seq<StepView> {
        if branch_exists {
            seq![
                StepView::Run {
                    tool: WorkspaceKind::Git,
                    dir: ws.project@,
                    args: seq!["branch"@, "-D"@, ws.branch@],
                    needed: false,
                },
            ]
        } else {
            seq![]
        }
    }

    open spec fn stuck_message(&self, ws: Workspace) -> Seq<char> {
        "could not remove worktree "@ + ws.path@
    }

    fn kind(&self) -> (k: WorkspaceKind) {
        WorkspaceKind::Git
    }

    fn provision(&self, layout: &WorktreeLayout, project: &str, name: &str) -> (r: (
        Workspace,
        Vec<Step>,
    )) {
        let branch = layout::branch_name(name);
        let path = layout.worktree_path(project, name);
        let step = run(
            WorkspaceKind::Git,
            project,
            &["worktree", "add", path.as_str(), "-b", branch.as_str()],
            true,
        );
        let mut out: Vec<Step> = Vec::new();
        out.push(step);
        assert(step@->Run_args =~= seq!["worktree"@, "add"@, path@, "-b"@, branch@]);
        assert(steps(out@) =~= self.provision_steps(project@, path@, name@));
        let ws = Workspace { path, branch, project: project.to_owned(), kind: WorkspaceKind::Git };
        (ws, out)
    }

    fn land(&self, ws: &Workspace, dirty: bool) -> (s: Vec<Step>) {
        let mut out: Vec<Step> = Vec::new();
        if dirty {
            let mut message = "clowder: ".to_owned();
            message.append(layout::task_from_branch(ws.branch.as_str()).as_str());
            let first = run(WorkspaceKind::Git, ws.path.as_str(), &["add", "-A"], true);
            let second = run(
                WorkspaceKind::Git,
                ws.path.as_str(),
                &["commit", "-m", message.as_str()],
                true,
            );
            assert(first@->Run_args =~= seq!["add"@, "-A"@]);
            assert(second@->Run_args =~= seq!["commit"@, "-m"@, "clowder: "@ + task_of(ws.branch@)]);
            out.push(first);
            out.push(second);
        }
        let remove = run(
            WorkspaceKind::Git,
            ws.project.as_str(),
            &["worktree", "remove", ws.path.as_str()],
            true,
        );
        let prune = run(WorkspaceKind::Git, ws.project.as_str(), &["worktree", "prune"], false);
        assert(remove@->Run_args =~= seq!["worktree"@, "remove"@, ws.path@]);
        assert(prune@->Run_args =~= seq!["worktree"@, "prune"@]);
        out.push(remove);
        out.push(prune);
        assert(steps(out@) =~= self.land_steps(*ws, dirty));
        out
    }

    fn discard(&self, ws: &Workspace, present: bool) -> (s: Vec<Step>) {
        let mut out: Vec<Step> = Vec::new();
        if present {
            let remove = run(
                WorkspaceKind::Git,
                ws.project.as_str(),
                &["worktree", "remove", "--force", ws.path.as_str()],
                false,
            );
            assert(remove@->Run_args =~= seq!["worktree"@, "remove"@, "--force"@, ws.path@]);
            out.push(remove);
        }
        let prune = run(WorkspaceKind::Git, ws.project.as_str(), &["worktree", "prune"], false);
        assert(prune@->Run_args =~= seq!["worktree"@, "prune"@]);
        out.push(prune);
        assert(steps(out@) =~= self.discard_steps(*ws, present));
        out
    }

    fn discard_branch(&self, ws: &Workspace, branch_exists: bool) -> (s: Vec<Step>) {
        let mut out: Vec<Step> = Vec::new();
        if branch_exists {
            let step = run(
                WorkspaceKind::Git,
                ws.project.as_str(),
                &["branch", "-D", ws.branch.as_str()],
                false,
            );
            assert(step@->Run_args =~= seq!["branch"@, "-D"@, ws.branch@]);
            out.push(step);
        }
        assert(steps(out@) =~= self.discard_branch_steps(*ws, branch_exists));
        out
    }

    fn discarded(&self, ws: &Workspace, still_there: bool) -> (r: Result<(), String>) {
        if still_there {
            let mut m = "could not remove worktree ".to_owned();
            m.append(ws.path.as_str());
            return Err(m);
        }
        Ok(())
    }
}

impl WorkspaceDriver for JjDriver {
    open spec fn system(&self) -> WorkspaceKind {
        WorkspaceKind::Jj
    }

    open spec fn provision_steps(&self, project: Seq<char>, path: Seq<char>, name: Seq<char>) -> Seq<
        StepView,
    > {
        seq![
            StepView::Run {
                tool: WorkspaceKind::Jj,
                dir: project,
                args: seq!["workspace"@, "add"@, "--name"@, "clowder-"@ + name, path],
                needed: true,
            },
        ]
    }

    open spec fn land_steps(&self, ws: Workspace, dirty: bool) -> Seq<StepView> {
        seq![
            StepView::Run {
                tool: WorkspaceKind::Jj,
                dir: ws.path@,
                args: seq!["bookmark"@, "set"@, ws.branch@, "-r"@, "@"@],
                needed: true,
            },
            StepView::Run {
                tool: WorkspaceKind::Jj,
                dir: ws.project@,
                args: seq!["workspace"@, "forget"@, "clowder-"@ + task_of(ws.branch@)],
                needed: true,
            },
            StepView::RemoveTree { path: ws.path@ },
        ]
    }

    open spec fn discard_steps(&self, ws: Workspace, present: bool) -> Seq<StepView> {
        seq![
            StepView::Run {
                tool: WorkspaceKind::Jj,
                dir: ws.path@,
                args: seq!["abandon"@, "-r"@, "@"@],
                needed: false,
            },
            StepView::Run {
                tool: WorkspaceKind::Jj,
                dir: ws.project@,
                args: seq!["workspace"@, "forget"@, "clowder-"@ + task_of(ws.branch@)],
                needed: false,
            },
            StepView::RemoveTree { path: ws.path@ },
        ]
    }

    open spec fn discard_branch_steps(&self, ws: Workspace, branch_exists: bool) -> Seq<StepView> {
        seq![]
    }

    open spec fn stuck_message(&self, ws: Workspace) -> Seq<char> {
        "could not remove jj workspace "@ + ws.path@
    }

    fn kind(&self) -> (k: WorkspaceKind) {
        WorkspaceKind::Jj
    }

    fn provision(&self, layout: &WorktreeLayout, project: &str, name: &str) -> (r: (
        Workspace,
        Vec<Step>,
    )) {
        let branch = layout::branch_name(name);
        let path = layout.worktree_path(project, name);
        let ws_name = layout::jj_workspace_name(name);
        let step = run(
            WorkspaceKind::Jj,
            project,
            &["workspace", "add", "--name", ws_name.as_str(), path.as_str()],
            true,
        );
        let mut out: Vec<Step> = Vec::new();
        out.push(step);
        assert(step@->Run_args =~= seq!["workspace"@, "add"@, "--name"@, ws_name@, path@]);
        assert(steps(out@) =~= self.provision_steps(project@, path@, name@));
        let ws = Workspace { path, branch, project: project.to_owned(), kind: WorkspaceKind::Jj };
        (ws, out)
    }

    fn land(&self, ws: &Workspace, dirty: bool) -> (s: Vec<Step>) {
        let ws_name = layout::jj_workspace_name(
            layout::task_from_branch(ws.branch.as_str()).as_str(),
        );
        let pin = run(
            WorkspaceKind::Jj,
            ws.path.as_str(),
            &["bookmark", "set", ws.branch.as_str(), "-r", "@"],
            true,
        );
        let forget = run(
            WorkspaceKind::Jj,
            ws.project.as_str(),
            &["workspace", "forget", ws_name.as_str()],
            true,
        );
        assert(pin@->Run_args =~= seq!["bookmark"@, "set"@, ws.branch@, "-r"@, "@"@]);
        assert(forget@->Run_args =~= seq!["workspace"@, "forget"@, ws_name@]);
        let mut out: Vec<Step> = Vec::new();
        out.push(pin);
        out.push(forget);
        out.push(Step::RemoveTree { path: ws.path.clone() });
        assert(steps(out@) =~= self.land_steps(*ws, dirty));
        out
    }

    fn discard(&self, ws: &Workspace, present: bool) -> (s: Vec<Step>) {
        let ws_name = layout::jj_workspace_name(
            layout::task_from_branch(ws.branch.as_str()).as_str(),
        );
        let abandon = run(WorkspaceKind::Jj, ws.path.as_str(), &["abandon", "-r", "@"], false);
        let forget = run(
            WorkspaceKind::Jj,
            ws.project.as_str(),
            &["workspace", "forget", ws_name.as_str()],
            false,
        );
        assert(abandon@->Run_args =~= seq!["abandon"@, "-r"@, "@"@]);
        assert(forget@->Run_args =~= seq!["workspace"@, "forget"@, ws_name@]);
        let mut out: Vec<Step> = Vec::new();
        out.push(abandon);
        out.push(forget);
        out.push(Step::RemoveTree { path: ws.path.clone() });
        assert(steps(out@) =~= self.discard_steps(*ws, present));
        out
    }

    fn discard_branch(&self, ws: &Workspace, branch_exists: bool) -> (s: Vec<Step>) {
        let out: Vec<Step> = Vec::new();
        assert(steps(out@) =~= self.discard_branch_steps(*ws, branch_exists));
        out
    }

    fn discarded(&self, ws: &Workspace, still_there: bool) -> (r: Result<(), String>) {
        if still_there {
            let mut m = "could not remove jj workspace ".to_owned();
            m.append(ws.path.as_str());
            return Err(m);
        }
        Ok(())
    }
}

/// The driver of one of the systems.
pub enum Driver {
    Git(GitWorktreeDriver),
    Jj(JjDriver),
}

impl WorkspaceDriver for Driver {
    open spec fn system(&self) -> WorkspaceKind {
        match *self {
            Driver::Git(d) => d.system(),
            Driver::Jj(d) => d.system(),
        }
    }

    open spec fn provision_steps(&self, project: Seq<char>, path: Seq<char>, name: Seq<char>) -> Seq<
        StepView,
    > {
        match *self {
            Driver::Git(d) => d.provision_steps(project, path, name),
            Driver::Jj(d) => d.provision_steps(project, path, name),
        }
    }

    open spec fn land_steps(&self, ws: Workspace, dirty: bool) -> Seq<StepView> {
        match *self {
            Driver::Git(d) => d.land_steps(ws, dirty),
            Driver::Jj(d) => d.land_steps(ws, dirty),
        }
    }

    open spec fn discard_steps(&self, ws: Workspace, present: bool) -> Seq<StepView> {
        match *self {
            Driver::Git(d) => d.discard_steps(ws, present),
            Driver::Jj(d) => d.discard_steps(ws, present),
        }
    }

    open spec fn discard_branch_steps(&self, ws: Workspace, branch_exists: bool) -> Seq<StepView> {
        match *self {
            Driver::Git(d) => d.discard_branch_steps(ws, branch_exists),
            Driver::Jj(d) => d.discard_branch_steps(ws, branch_exists),
        }
    }

    open spec fn stuck_message(&self, ws: Workspace) -> Seq<char> {
        match *self {
            Driver::Git(d) => d.stuck_message(ws),
            Driver::Jj(d) => d.stuck_message(ws),
        }
    }

    fn kind(&self) -> (k: WorkspaceKind) {
        match self {
            Driver::Git(d) => d.kind(),
            Driver::Jj(d) => d.kind(),
        }
    }

    fn provision(&self, layout: &WorktreeLayout, project: &str, name: &str) -> (r: (
        Workspace,
        Vec<Step>,
    )) {
        match self {
            Driver::Git(d) => d.provision(layout, project, name),
            Driver::Jj(d) => d.provision(layout, project, name),
        }
    }

    fn land(&self, ws: &Workspace, dirty: bool) -> (s: Vec<Step>) {
        match self {
            Driver::Git(d) => d.land(ws, dirty),
            Driver::Jj(d) => d.land(ws, dirty),
        }
    }

    fn discard(&self, ws: &Workspace, present: bool) -> (s: Vec<Step>) {
        match self {
            Driver::Git(d) => d.discard(ws, present),
            Driver::Jj(d) => d.discard(ws, present),
        }
    }

    fn discard_branch(&self, ws: &Workspace, branch_exists: bool) -> (s: Vec<Step>) {
        match self {
            Driver::Git(d) => d.discard_branch(ws, branch_exists),
            Driver::Jj(d) => d.discard_branch(ws, branch_exists),
        }
    }

    fn discarded(&self, ws: &Workspace, still_there: bool) -> (r: Result<(), String>) {
        match self {
            Driver::Git(d) => d.discarded(ws, still_there),
            Driver::Jj(d) => d.discarded(ws, still_there),
        }
    }
}

/// The driver of a system.
pub fn driver_for_kind(kind: WorkspaceKind) -> (d: Driver)
    ensures
        d.system() == kind,
        d is Git <==> kind == WorkspaceKind::Git,
{
    match kind {
        WorkspaceKind::Git => Driver::Git(GitWorktreeDriver),
        WorkspaceKind::Jj => Driver::Jj(JjDriver),
    }
}

/// The system of a project of which the kind was detected; git where it is no repository.
pub open spec fn chosen_system(detected: Option<WorkspaceKind>) -> WorkspaceKind {
    match detected {
        Some(k) => k,
        None => WorkspaceKind::Git,
    }
}

/// The driver for a project of which the kind was detected; git where it is no repository.
pub fn driver_for(detected: Option<WorkspaceKind>) -> (d: Driver)
    ensures
        d.system() == chosen_system(detected),
{
    match detected {
        Some(k) => driver_for_kind(k),
        None => Driver::Git(GitWorktreeDriver),
    }
}

/// No command that lands work deletes a branch: the work is kept.
pub proof fn law_landing_deletes_no_branch(d: Driver, ws: Workspace, dirty: bool, k: int)
    requires
        0 <= k < d.land_steps(ws, dirty).len(),
    ensures
        d.land_steps(ws, dirty)[k] matches StepView::Run { tool, dir, args, needed } ==> args[0]
            != "branch"@ && args[0] != "abandon"@,
{
    reveal_strlit("branch");
    reveal_strlit("abandon");
    reveal_strlit("add");
    reveal_strlit("commit");
    reveal_strlit("worktree");
    reveal_strlit("bookmark");
    reveal_strlit("workspace");
    assert("bookmark"@[1] == 'o');
    assert("abandon"@[0] == 'a');
    assert("add"@.len() == 3);
    assert("worktree"@[0] == 'w');
    assert("workspace"@[0] == 'w');
    assert("commit"@[0] == 'c');
    assert("branch"@[0] == 'b' && "branch"@[1] == 'r');
    assert("abandon"@.len() == 7);
}

/// The step runs a command whose first word is this.
pub open spec fn begins_with(s: StepView, word: Seq<char>) -> bool {
    s matches StepView::Run { tool, dir, args, needed } && args.len() > 0 && args[0] == word
}

/// The step takes a working copy away: the one at `path`.
pub open spec fn takes_away(s: StepView, path: Seq<char>) -> bool {
    match s {
        StepView::RemoveTree { path: p } => p == path,
        StepView::Run { tool, dir, args, needed } => {
            &&& args.len() >= 3
            &&& args[0] == "worktree"@
            &&& args[1] == "remove"@
            &&& args.last() == path
        },
    }
}

/// The step takes some working copy away.
pub open spec fn is_removal(s: StepView) -> bool {
    exists|path: Seq<char>| takes_away(s, path)
}

/// The step puts work on a branch, or marks where it is.
pub open spec fn keeps_work(s: StepView) -> bool {
    begins_with(s, "add"@) || begins_with(s, "commit"@) || begins_with(s, "bookmark"@)
}

/// The step throws work away, and no more than that.
pub open spec fn drops_work(s: StepView) -> bool {
    begins_with(s, "branch"@) || begins_with(s, "abandon"@)
}

/// The step is done in this directory, by this tool; the removal of a directory is done nowhere.
pub open spec fn is_done_in(s: StepView, system: WorkspaceKind, place: Seq<char>) -> bool {
    s matches StepView::Run { tool, dir, args, needed } ==> tool == system && dir == place
}

/// The work ends where the step fails.
pub open spec fn is_needed(s: StepView) -> bool {
    s matches StepView::Run { tool, dir, args, needed } && needed
}

proof fn lemma_words_differ()
    ensures
        "add"@ != "worktree"@,
        "add"@ != "commit"@,
        "add"@ != "bookmark"@,
        "add"@ != "remove"@,
        "add"@ != "prune"@,
        "add"@ != "branch"@,
        "add"@ != "abandon"@,
        "add"@ != "workspace"@,
        "commit"@ != "worktree"@,
        "commit"@ != "bookmark"@,
        "commit"@ != "branch"@,
        "commit"@ != "abandon"@,
        "commit"@ != "workspace"@,
        "bookmark"@ != "worktree"@,
        "bookmark"@ != "branch"@,
        "bookmark"@ != "abandon"@,
        "bookmark"@ != "workspace"@,
        "branch"@ != "worktree"@,
        "branch"@ != "abandon"@,
        "branch"@ != "workspace"@,
        "abandon"@ != "worktree"@,
        "abandon"@ != "workspace"@,
        "worktree"@ != "workspace"@,
        "remove"@ != "prune"@,
        "remove"@ != "forget"@,
{
    reveal_strlit("add");
    reveal_strlit("commit");
    reveal_strlit("bookmark");
    reveal_strlit("branch");
    reveal_strlit("abandon");
    reveal_strlit("worktree");
    reveal_strlit("workspace");
    reveal_strlit("remove");
    reveal_strlit("prune");
    reveal_strlit("forget");
    assert("add"@.len() == 3);
    assert("commit"@[0] == 'c');
    assert("bookmark"@[1] == 'o' && "bookmark"@.len() == 8);
    assert("branch"@[1] == 'r' && "branch"@.len() == 6);
    assert("abandon"@[0] == 'a' && "abandon"@.len() == 7);
    assert("worktree"@[0] == 'w' && "worktree"@.len() == 8);
    assert("workspace"@[0] == 'w' && "workspace"@.len() == 9);
    assert("remove"@.len() == 6 && "remove"@[0] == 'r');
    assert("prune"@.len() == 5);
    assert("forget"@[0] == 'f');
}

/// Landing keeps the work before the working copy goes. One step takes the working copy of the agent
/// away. Whatever puts work on a branch stands before it, is done in that working copy and in no other
/// place, and has to succeed; whatever else there is, is done in the project, so that nothing behind the
/// removal needs the directory that has gone. Nothing is thrown away.
pub proof fn law_landing_keeps_the_work_first(d: Driver, ws: Workspace, dirty: bool) -> (gone: int)
    ensures
        ({
            let s = d.land_steps(ws, dirty);
            &&& 0 <= gone < s.len()
            &&& takes_away(s[gone], ws.path@)
            &&& forall|k: int| 0 <= k < s.len() && k != gone ==> !is_removal(#[trigger] s[k])
            &&& forall|k: int|
                0 <= k < s.len() && keeps_work(#[trigger] s[k]) ==> k < gone && is_needed(s[k])
                    && is_done_in(s[k], d.system(), ws.path@)
            &&& forall|k: int|
                0 <= k < s.len() && !keeps_work(#[trigger] s[k]) ==> is_done_in(
                    s[k],
                    d.system(),
                    ws.project@,
                )
            &&& forall|k: int| 0 <= k < s.len() ==> !drops_work(#[trigger] s[k])
            &&& forall|k: int| 0 <= k < gone ==> is_needed(#[trigger] s[k])
        }),
{
    lemma_words_differ();
    let s = d.land_steps(ws, dirty);
    let gone = match d {
        Driver::Git(_) => if dirty {
            2int
        } else {
            0int
        },
        Driver::Jj(_) => 2int,
    };
    gone
}

/// Where there is uncommitted work in a git worktree, landing stages all of it and commits it, in that
/// order; the message names the worktree. Where there is none, nothing is committed.
pub proof fn law_landing_commits_what_is_uncommitted(
    d: Driver,
    ws: Workspace,
    dirty: bool,
    name: Seq<char>,
)
    requires
        d is Git,
        ws.branch@ == "clowder/"@ + name,
    ensures
        ({
            let s = d.land_steps(ws, dirty);
            &&& dirty ==> exists|a: int, c: int|
                {
                    &&& 0 <= a < c < s.len()
                    &&& (#[trigger] s[a])->Run_args == seq!["add"@, "-A"@]
                    &&& (#[trigger] s[c])->Run_args == seq!["commit"@, "-m"@, "clowder: "@ + name]
                    &&& s[a] is Run
                    &&& s[c] is Run
                }
            &&& !dirty ==> forall|k: int| 0 <= k < s.len() ==> !keeps_work(#[trigger] s[k])
        }),
{
    lemma_words_differ();
    layout::law_branch_roundtrips(name);
    let s = d.land_steps(ws, dirty);
    if dirty {
        assert(s[0]->Run_args == seq!["add"@, "-A"@]);
        assert(s[1]->Run_args == seq!["commit"@, "-m"@, "clowder: "@ + name]);
    }
}

/// Landing a jj workspace marks the work of that workspace by the agent's own branch before it forgets the
/// workspace.
pub proof fn law_landing_marks_a_jj_workspace(d: Driver, ws: Workspace, dirty: bool)
    requires
        d is Jj,
    ensures
        ({
            let s = d.land_steps(ws, dirty);
            exists|m: int, f: int|
                {
                    &&& 0 <= m < f < s.len()
                    &&& begins_with(#[trigger] s[m], "bookmark"@)
                    &&& s[m]->Run_args.contains(ws.branch@)
                    &&& s[m]->Run_dir == ws.path@
                    &&& begins_with(#[trigger] s[f], "workspace"@)
                    &&& s[f]->Run_args[1] == "forget"@
                }
        }),
{
    let s = d.land_steps(ws, dirty);
    assert(s[0]->Run_args[2] == ws.branch@);
    assert(begins_with(s[0], "bookmark"@));
    assert(begins_with(s[1], "workspace"@));
}

/// Discarding, with the branch and all, commits nothing, and no failure ends it. A working copy that is
/// there is taken away, the agent's own and no other. Whatever stands behind that, the deletion of the
/// branch too, is done in the project: the directory of the working copy has gone by then.
pub proof fn law_discarding_takes_the_worktree_away(
    d: Driver,
    ws: Workspace,
    present: bool,
    branch_exists: bool,
)
    ensures
        ({
            let s = d.discard_steps(ws, present) + d.discard_branch_steps(ws, branch_exists);
            &&& forall|k: int|
                0 <= k < s.len() ==> !keeps_work(#[trigger] s[k]) && !is_needed(s[k])
            &&& forall|k: int|
                0 <= k < s.len() && is_removal(#[trigger] s[k]) ==> takes_away(s[k], ws.path@)
            &&& present ==> exists|k: int|
                0 <= k < d.discard_steps(ws, present).len() && takes_away(#[trigger] s[k], ws.path@)
            &&& forall|j: int, k: int|
                0 <= j <= k < s.len() && is_removal(#[trigger] s[j]) ==> is_done_in(
                    #[trigger] s[k],
                    d.system(),
                    ws.project@,
                )
            &&& forall|k: int|
                0 <= k < s.len() && #[trigger] begins_with(s[k], "branch"@) ==> is_done_in(
                    s[k],
                    d.system(),
                    ws.project@,
                )
            &&& forall|k: int|
                0 <= k < s.len() && #[trigger] begins_with(s[k], "abandon"@) ==> is_done_in(
                    s[k],
                    d.system(),
                    ws.path@,
                )
        }),
{
    lemma_words_differ();
    let first = d.discard_steps(ws, present);
    let s = first + d.discard_branch_steps(ws, branch_exists);
    match d {
        Driver::Git(_) => {
            if present {
                assert(takes_away(s[0], ws.path@));
                assert(s[0] == first[0]);
                assert(s[1] == first[1]);
            } else {
                assert(s[0] == first[0]);
            }
            if branch_exists {
                assert(s[first.len() as int] == d.discard_branch_steps(ws, branch_exists)[0]);
            }
            assert forall|k: int| 0 <= k < s.len() && is_removal(#[trigger] s[k]) implies takes_away(
                s[k],
                ws.path@,
            ) by {
                if k < first.len() {
                    assert(s[k] == first[k]);
                }
            }
        },
        Driver::Jj(_) => {
            assert(s =~= first);
            assert(takes_away(s[2], ws.path@));
        },
    }
}

/// The branch of a discarded git worktree is deleted where there is one, whatever is on it, and no other
/// branch ever is.
pub proof fn law_discarding_deletes_the_branch(d: Driver, ws: Workspace, branch_exists: bool)
    requires
        d is Git,
    ensures
        ({
            let s = d.discard_branch_steps(ws, branch_exists);
            &&& branch_exists <==> exists|k: int| 0 <= k < s.len() && #[trigger] begins_with(s[k], "branch"@)
            &&& forall|k: int|
                0 <= k < s.len() ==> begins_with(#[trigger] s[k], "branch"@) && s[k]->Run_args
                    == seq!["branch"@, "-D"@, ws.branch@] && s[k]->Run_dir == ws.project@
        }),
{
    let s = d.discard_branch_steps(ws, branch_exists);
    if branch_exists {
        assert(begins_with(s[0], "branch"@));
    }
}

/// What a working copy is made as, it goes as: the directory, the branch and the name of the jj workspace
/// that the making names are those that landing and discarding name. It is made from the project, by one
/// command that has to succeed.
pub proof fn law_what_was_made_is_what_goes(
    d: Driver,
    ws: Workspace,
    name: Seq<char>,
    dirty: bool,
    present: bool,
)
    requires
        ws.branch@ == branch_of(name),
    ensures
        ({
            let made = d.provision_steps(ws.project@, ws.path@, name);
            let landed = d.land_steps(ws, dirty);
            let discarded = d.discard_steps(ws, present);
            &&& made.len() == 1
            &&& is_needed(made[0])
            &&& is_done_in(made[0], d.system(), ws.project@)
            &&& made[0]->Run_args.contains(ws.path@)
            &&& d is Git ==> {
                &&& made[0]->Run_args.contains(ws.branch@)
                &&& begins_with(made[0], "worktree"@)
                &&& made[0]->Run_args[1] == "add"@
            }
            &&& d is Jj ==> {
                &&& begins_with(made[0], "workspace"@)
                &&& made[0]->Run_args[1] == "add"@
                &&& forall|k: int|
                    0 <= k < landed.len() && #[trigger] begins_with(landed[k], "workspace"@)
                        ==> landed[k]->Run_args[1] == "forget"@ && made[0]->Run_args.contains(
                        landed[k]->Run_args[2],
                    )
                &&& exists|k: int|
                    0 <= k < landed.len() && #[trigger] begins_with(landed[k], "workspace"@)
                &&& forall|k: int|
                    0 <= k < discarded.len() && #[trigger] begins_with(discarded[k], "workspace"@)
                        ==> discarded[k]->Run_args[1] == "forget"@ && made[0]->Run_args.contains(
                        discarded[k]->Run_args[2],
                    )
                &&& exists|k: int|
                    0 <= k < discarded.len() && #[trigger] begins_with(discarded[k], "workspace"@)
            }
        }),
{
    lemma_words_differ();
    layout::law_branch_roundtrips(name);
    let made = d.provision_steps(ws.project@, ws.path@, name);
    let landed = d.land_steps(ws, dirty);
    let discarded = d.discard_steps(ws, present);
    let args = made[0]->Run_args;
    match d {
        Driver::Git(_) => {
            assert(args[2] == ws.path@);
            assert(args[4] == ws.branch@);
        },
        Driver::Jj(_) => {
            assert(args[4] == ws.path@);
            assert(args[3] == "clowder-"@ + name);
            assert(begins_with(landed[1], "workspace"@));
            assert(begins_with(discarded[1], "workspace"@));
        },
    }
}

/// A project is worked on with the system of the nearest repository around it, and with git where there is
/// none.
pub proof fn law_a_project_is_worked_on_with_its_own_system(
    dirs: Seq<crate::workspace::kind::Markers>,
    k: int,
)
    requires
        0 <= k <= dirs.len(),
        forall|j: int| 0 <= j < k ==> !(#[trigger] dirs[j]).jj && !dirs[j].git,
    ensures
        ({
            let system = chosen_system(crate::workspace::kind::nearest_kind(dirs, 0));
            &&& k < dirs.len() && dirs[k].jj ==> system is Jj
            &&& k < dirs.len() && dirs[k].git && !dirs[k].jj ==> system is Git
            &&& k == dirs.len() ==> system is Git
        }),
{
    crate::workspace::kind::law_the_nearest_repository_decides(dirs, k);
}

/// git takes a working copy away by force where it is discarded, since the work in it is to go, and never
/// where it is landed, since uncommitted work would be lost. Either way it then clears its list of those that
/// are gone, from the project, and does not mind where that fails.
pub proof fn law_force_is_for_discarding(d: Driver, ws: Workspace, dirty: bool, present: bool)
    requires
        d is Git,
    ensures
        ({
            let landed = d.land_steps(ws, dirty);
            let discarded = d.discard_steps(ws, present);
            &&& forall|k: int|
                0 <= k < landed.len() && is_removal(#[trigger] landed[k]) ==> landed[k]->Run_args == seq![
                    "worktree"@,
                    "remove"@,
                    ws.path@,
                ]
            &&& forall|k: int|
                0 <= k < discarded.len() && is_removal(#[trigger] discarded[k])
                    ==> discarded[k]->Run_args.contains("--force"@)
            &&& landed.last()->Run_args == seq!["worktree"@, "prune"@]
            &&& discarded.last()->Run_args == seq!["worktree"@, "prune"@]
            &&& is_done_in(landed.last(), d.system(), ws.project@) && !is_needed(landed.last())
            &&& is_done_in(discarded.last(), d.system(), ws.project@) && !is_needed(discarded.last())
            &&& !present ==> forall|k: int|
                0 <= k < discarded.len() ==> !is_removal(#[trigger] discarded[k])
        }),
{
    lemma_words_differ();
    let landed = d.land_steps(ws, dirty);
    let discarded = d.discard_steps(ws, present);
    if present {
        assert(discarded[0]->Run_args[2] == "--force"@);
    }
}

/// jj keeps and drops the change that the workspace stands on, which is the work of its agent: landing sets
/// the branch to that change, discarding abandons it, each seen from the workspace. The workspace is then
/// forgotten, from the project.
pub proof fn law_jj_means_the_change_of_the_workspace(d: Driver, ws: Workspace, dirty: bool, present: bool)
    requires
        d is Jj,
    ensures
        ({
            let landed = d.land_steps(ws, dirty);
            let discarded = d.discard_steps(ws, present);
            &&& landed.len() == 3 && discarded.len() == 3
            &&& landed[0]->Run_args == seq!["bookmark"@, "set"@, ws.branch@, "-r"@, "@"@]
            &&& discarded[0]->Run_args == seq!["abandon"@, "-r"@, "@"@]
            &&& is_done_in(landed[0], d.system(), ws.path@)
            &&& is_done_in(discarded[0], d.system(), ws.path@)
            &&& begins_with(landed[1], "workspace"@) && is_done_in(landed[1], d.system(), ws.project@)
            &&& begins_with(discarded[1], "workspace"@) && is_done_in(discarded[1], d.system(), ws.project@)
            &&& takes_away(landed[2], ws.path@) && takes_away(discarded[2], ws.path@)
        }),
{
    lemma_words_differ();
}

} // verus!
