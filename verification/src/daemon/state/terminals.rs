//! Projects and their terminals.

use vstd::prelude::*;

use crate::daemon::command;
use crate::daemon::command::{is_companion_command, PaneCommand};
use crate::daemon::projects;
use crate::daemon::projects::{registered, without_path, PathFacts, ProjectRecord, ProjectRecordView};
use crate::daemon::state::{Daemon, DaemonState, Effect, ProjectChange};
use crate::path;
use crate::path::{meaning, same_place};
use crate::proto::message::PaneId;
use crate::text;
use crate::text::{decimal, texts};

verus! {

/// Why a terminal cannot be opened.
pub open spec fn open_refusal(
    all: Seq<ProjectRecordView>,
    asked: Seq<char>,
    canonical: Option<Seq<char>>,
) -> Option<Seq<char>> {
    match canonical {
        None => Some("no such project path: "@ + asked),
        Some(p) => if !registered(all, p) {
            Some("unknown project: "@ + p + " — add it first"@)
        } else {
            None
        },
    }
}

/// What opening a terminal takes.
pub enum Open {
    /// There is one already.
    There(PaneId),
    /// A pane with this command.
    Spawn(PaneCommand),
}

/// How many of the paths say the same as `path`.
pub open spec fn count_at(paths: Seq<Seq<char>>, path: Seq<char>) -> nat
    decreases paths.len(),
{
    if paths.len() == 0 {
        0
    } else {
        count_at(paths.drop_last(), path) + (if same_place(paths.last(), path) {
            1nat
        } else {
            0nat
        })
    }
}

/// What adding a project does and comes to.
pub open spec fn is_added(
    before: Daemon,
    after: Daemon,
    asked: Seq<char>,
    facts: PathFacts,
    r: Result<(ProjectRecord, Vec<Effect>), String>,
) -> bool {
    let rows = before.projects.rows();
    let fault = projects::add_refusal(rows, before.projects.worktrees(), asked, facts);
    &&& after.state() == before.state()
    &&& after.keeps_all_but_projects(before)
    &&& match r {
        Ok((rec, effects)) => {
            &&& fault is None
            &&& facts.canonical matches Some(c) && facts.kind matches Some(k) && (
            rec@,
            after.projects.rows(),
            ) == projects::added(rows, c@, k)
            &&& effects@ == seq![Effect::SaveProjects, Effect::Project(ProjectChange::Added(rec))]
        },
        Err(e) => fault == Some(e@) && after.projects.rows() == rows,
    }
}

/// What removing a project does and comes to.
pub open spec fn is_removed(
    before: Daemon,
    after: Daemon,
    canonical: Seq<char>,
    in_use: Seq<Seq<char>>,
    r: Result<Vec<Effect>, String>,
) -> bool {
    let s = before.state();
    let n = count_at(in_use, canonical);
    &&& after.keeps_all_but_projects(before)
    &&& match r {
        Err(e) => {
            &&& n > 0
            &&& e@ == "project "@ + canonical + " still has "@ + decimal(n)
                + " worktree(s) — land or discard them first"@
            &&& after.state() == s
            &&& after.projects == before.projects
        },
        Ok(effects) => {
            let known = s.project_terms.dom().contains(meaning(canonical));
            let term = s.project_terms[meaning(canonical)];
            let ended = if known {
                s.terminal_ends(PaneId(term))
            } else {
                seq![]
            };
            &&& n == 0
            &&& after.state() == (if known {
                s.without_terminal(term)
            } else {
                s
            })
            &&& after.projects.rows() == without_path(before.projects.rows(), canonical)
            &&& effects@.len() == ended.len() + 2
            &&& effects@.take(ended.len() as int) == ended
            &&& effects@[ended.len() as int] == Effect::SaveProjects
            &&& effects@[ended.len() as int + 1] matches Effect::Project(ProjectChange::Removed(p)) && p@
                == canonical
        },
    }
}

/// What it takes to open the terminal of a project.
pub open spec fn is_open(
    d: Daemon,
    asked: Seq<char>,
    canonical: Option<Seq<char>>,
    r: Result<Open, String>,
) -> bool {
    let s = d.state();
    let fault = open_refusal(d.projects.rows(), asked, canonical);
    match r {
        Err(e) => fault == Some(e@),
        Ok(Open::There(pane)) => {
            &&& fault is None
            &&& s.project_terms.dom().contains(meaning(canonical->0))
            &&& s.project_terms[meaning(canonical->0)] == pane.0
            &&& s.panes.contains(pane.0)
        },
        Ok(Open::Spawn(cmd)) => {
            &&& fault is None
            &&& s.project_terms.dom().contains(meaning(canonical->0)) ==> !s.panes.contains(
                s.project_terms[meaning(canonical->0)],
            )
            &&& is_companion_command(cmd, d.settings.shell@, canonical->0)
        },
    }
}

/// What a pane that becomes the terminal of a project does and comes to.
pub open spec fn is_opened(
    before: Daemon,
    after: Daemon,
    root: String,
    id: PaneId,
    r: (PaneId, Vec<Effect>),
) -> bool {
    let s = before.state();
    &&& after.keeps_stores(before)
    &&& if s.project_terms.dom().contains(meaning(root@)) {
        &&& r.0.0 == s.project_terms[meaning(root@)]
        &&& r.1@ == seq![Effect::End(id)]
        &&& after.state() == (DaemonState { panes: s.panes.remove(id.0), ..s })
    } else {
        &&& r.0 == id
        &&& r.1@.len() == 0
        &&& after.state() == s.with_terminal(id.0, root)
    }
}

impl Daemon {
    /// Neither the registry, nor the profiles, nor the settings have changed since `before`, nor where
    /// the projects stand.
    pub open spec fn keeps_all_but_projects(&self, before: Daemon) -> bool {
        &&& self.registry == before.registry
        &&& self.profiles == before.profiles
        &&& self.settings == before.settings
        &&& self.projects.file() == before.projects.file()
        &&& self.projects.worktrees() == before.projects.worktrees()
    }

    /// Add a project. A client that adds one again is told of it again.
    pub fn add_project(&mut self, asked: &str, facts: PathFacts) -> (r: Result<
        (ProjectRecord, Vec<Effect>),
        String,
    >)
        ensures
            is_added(*old(self), *final(self), asked@, facts, r),
    {
        let rec = match self.projects.add(asked, facts) {
            Ok(rec) => rec,
            Err(e) => return Err(e),
        };
        let mut effects: Vec<Effect> = Vec::new();
        effects.push(Effect::SaveProjects);
        effects.push(Effect::Project(ProjectChange::Added(rec.copied())));
        assert(effects@ =~= seq![Effect::SaveProjects, Effect::Project(ProjectChange::Added(rec))]);
        Ok((rec, effects))
    }

    /// Whether a canonical path is a registered project; a path that is not there is none.
    pub fn is_registered_project(&self, canonical: Option<&str>) -> (yes: bool)
        ensures
            yes == (canonical matches Some(c) && registered(self.projects.rows(), c@)),
    {
        match canonical {
            Some(c) => self.projects.contains(c),
            None => false,
        }
    }

    /// The project of each agent, as it was recorded, in the order of the agents.
    pub fn agent_projects(&self) -> (paths: Vec<String>)
        ensures
            exists|ids: Seq<u64>|
                {
                    &&& #[trigger] ids.to_set() == self.state().agents.dom()
                    &&& ids.no_duplicates()
                    &&& paths@ == ids.map_values(|n: u64| self.state().agents[n].project)
                },
    {
        let ids = self.maps.agents.keys();
        let mut paths: Vec<String> = Vec::new();
        let mut i: usize = 0;
        while i < ids.len()
            invariant
                i <= ids.len(),
                forall|k: u64| #[trigger] self.state().agents.dom().contains(k) <==> ids@.contains(k),
                paths@.len() == i,
                forall|k: int|
                    0 <= k < i ==> #[trigger] paths@[k] == self.state().agents[ids@[k]].project,
            decreases ids.len() - i,
        {
            assert(ids@.contains(ids@[i as int]));
            assert(self.state().agents.dom().contains(ids@[i as int]));
            match self.maps.agents.get(ids[i]) {
                Some(meta) => paths.push(meta.project.clone()),
                None => {},
            }
            i = i + 1;
        }
        assert(ids@.to_set() =~= self.state().agents.dom());
        assert(paths@ =~= ids@.map_values(|n: u64| self.state().agents[n].project));
        paths
    }

    /// Remove a project, and its terminal with it. Refused while an agent has a worktree of it.
    /// `canonical` is the canonical path of the project, or the path as it was asked for where nothing
    /// is there; `in_use` holds the projects of the agents in the same form.
    pub fn remove_project(&mut self, canonical: &str, in_use: &[String]) -> (r: Result<Vec<Effect>, String>)
        ensures
            is_removed(*old(self), *final(self), canonical@, texts(in_use@), r),
    {
        let mut n: usize = 0;
        let mut i: usize = 0;
        assert(texts(in_use@).take(0) =~= seq![]);
        while i < in_use.len()
            invariant
                n <= i <= in_use.len(),
                n == count_at(texts(in_use@).take(i as int), canonical@),
            decreases in_use.len() - i,
        {
            assert(texts(in_use@).take(i + 1).drop_last() =~= texts(in_use@).take(i as int));
            assert(texts(in_use@).take(i + 1).last() == in_use@[i as int]@);
            if path::same_path(in_use[i].as_str(), canonical) {
                n = n + 1;
            }
            i = i + 1;
        }
        assert(texts(in_use@).take(texts(in_use@).len() as int) =~= texts(in_use@));
        if n > 0 {
            let mut m = "project ".to_owned();
            m.append(canonical);
            m.append(" still has ");
            m.append(text::show(n as u128).as_str());
            m.append(" worktree(s) — land or discard them first");
            return Err(m);
        }
        let mut effects = match self.maps.project_terms.get(canonical) {
            Some(term) => self.forget_project_terminal(PaneId(term)),
            None => Vec::new(),
        };
        let ghost ended = effects@;
        self.projects.remove(canonical);
        effects.push(Effect::SaveProjects);
        effects.push(Effect::Project(ProjectChange::Removed(canonical.to_owned())));
        assert(effects@.take(ended.len() as int) =~= ended);
        Ok(effects)
    }

    /// What it takes to open the terminal of a project: a second caller gets the pane of the first.
    /// `canonical` is the canonical path of the project, none where nothing is there.
    pub fn begin_open(&self, asked: &str, canonical: Option<&str>) -> (r: Result<Open, String>)
        ensures
            is_open(*self, asked@, text::opt_str(canonical), r),
    {
        let root = match canonical {
            None => {
                let mut m = "no such project path: ".to_owned();
                m.append(asked);
                return Err(m);
            },
            Some(c) => c,
        };
        if !self.projects.contains(root) {
            let mut m = "unknown project: ".to_owned();
            m.append(root);
            m.append(" — add it first");
            return Err(m);
        }
        match self.maps.project_terms.get(root) {
            Some(p) => {
                if self.maps.panes.has(p) {
                    return Ok(Open::There(PaneId(p)));
                }
            },
            None => {},
        }
        Ok(Open::Spawn(command::companion_command(self.settings.shell.clone(), root.to_owned())))
    }

    /// The pane runs: make it the terminal of the project. Where another has become that meanwhile,
    /// that one comes back, and this pane ends.
    pub fn commit_open(&mut self, root: String, id: PaneId) -> (r: (PaneId, Vec<Effect>))
        ensures
            is_opened(*old(self), *final(self), root, id, r),
    {
        let ghost s0 = self.state();
        match self.maps.project_terms.get(root.as_str()) {
            Some(winner) => {
                self.maps.panes.remove(id.0);
                assert(self.maps.panes@.dom() =~= s0.panes.remove(id.0));
                let mut effects: Vec<Effect> = Vec::new();
                effects.push(Effect::End(id));
                assert(effects@ =~= seq![Effect::End(id)]);
                return (PaneId(winner), effects);
            },
            None => {},
        }
        self.maps.project_terms.insert(root.clone(), id.0);
        self.maps.terms.insert(id.0, root);
        self.maps.trees.insert(id.0, crate::proto::control::PaneTree::Leaf { pane: id });
        self.maps.owner.insert(id.0, id.0);
        assert(self.state() =~= s0.with_terminal(id.0, root));
        (id, Vec::new())
    }
}

} // verus!
