//! Agents: how they come and go.

use vstd::prelude::*;

use crate::config::agents;
use crate::config::agents::{expanded, TokenContext};
use crate::daemon::agent_profiles::{is_resolved, ResolvedProfile};
use crate::daemon::adapter;
use crate::daemon::adapter::{adapter_of, Adapter, AdapterDescriptor};
use crate::daemon::command;
use crate::daemon::command::{env_texts, is_agent_command, PaneCommand};
use crate::daemon::projects::{registered, ProjectRecordView};
use crate::daemon::registry::{row_of, same_rows, without_agent, AgentRecord};
use crate::daemon::state::{ends, number_after, AgentMeta, Daemon, DaemonState, Effect, Settings};
use crate::path;
use crate::path::parent_of;
use crate::proto::control::PaneTree;
use crate::proto::message::{AttentionState, PaneId};
use crate::text;
use crate::text::{decimal, opt_text, quoted, texts};
use crate::workspace::kind::{Workspace, WorkspaceKind};
use crate::workspace::layout::worktree_path_of;
use crate::workspace::name;
use crate::workspace::name::name_fault;

verus! {

/// Why no agent can be spawned, before anything is looked up in the project.
pub open spec fn spawn_refusal(
    projects: Seq<ProjectRecordView>,
    asked: Seq<char>,
    canonical: Option<Seq<char>>,
    name: Seq<char>,
) -> Option<Seq<char>> {
    match canonical {
        None => Some("no such project path: "@ + asked),
        Some(p) => if !registered(projects, p) {
            Some("unknown project: "@ + p + " — add it first"@)
        } else {
            name_fault(name)
        },
    }
}

/// Why the name of a worktree is taken.
pub open spec fn collision(
    project: Seq<char>,
    name: Seq<char>,
    worktree: Seq<char>,
    worktree_exists: bool,
    branch_taken: bool,
) -> Option<Seq<char>> {
    if worktree_exists {
        Some(
            "a worktree named '"@ + name + "' already exists at "@ + worktree
                + " — land/discard it or choose another name"@,
        )
    } else if branch_taken {
        Some("branch clowder/"@ + name + " already exists in "@ + project + " — choose another name"@)
    } else {
        None
    }
}

/// What is remembered of an agent.
pub open spec fn meta_of(ws: Workspace, name: String) -> AgentMeta {
    AgentMeta { project: ws.project, name, branch: ws.branch }
}

/// The arguments of a profile for a worktree, with the tokens replaced.
pub open spec fn profile_args(
    template: Seq<Seq<char>>,
    project: &str,
    worktree: &str,
    name: &str,
    branch: &str,
) -> Seq<Seq<char>> {
    let ctx = TokenContext {
        project_path: project,
        workspace_path: worktree,
        workspace_name: name,
        branch,
    };
    template.map_values(|a: Seq<char>| expanded(ctx, a, 0))
}

/// What a new agent runs.
pub struct SpawnSpec {
    pub adapter: Adapter,
    /// The profile that it comes from.
    pub profile_id: Option<String>,
    /// The arguments of the profile, with the tokens still in place.
    pub arg_template: Vec<String>,
}

impl SpawnSpec {
    /// An adapter, with no arguments but its own.
    pub fn adapter_only(adapter: Adapter) -> (s: SpawnSpec)
        ensures
            s.adapter == adapter,
            s.profile_id is None,
            s.arg_template@.len() == 0,
    {
        SpawnSpec { adapter, profile_id: None, arg_template: Vec::new() }
    }

    /// What a profile runs.
    pub fn from_profile(adapter: Adapter, p: ResolvedProfile) -> (s: SpawnSpec)
        ensures
            s.adapter == adapter,
            s.profile_id == Some(p.profile_id),
            s.arg_template == p.arg_template,
    {
        SpawnSpec { adapter, profile_id: Some(p.profile_id), arg_template: p.arg_template }
    }
}

/// What to run for a profile that the user picked.
pub open spec fn is_spawn_spec(d: Daemon, picked: Seq<char>, r: Result<SpawnSpec, String>) -> bool {
    exists|p: Result<ResolvedProfile, String>|
        {
            &&& #[trigger] is_resolved(d.profiles.builtins(), d.profiles.rows(), picked, p)
            &&& match p {
                Err(e) => r == Err::<SpawnSpec, String>(e),
                Ok(p) => match adapter_of(d.profiles.known(), p.base@, 0) {
                    Some(a) => r matches Ok(s) && s.adapter.same_as(a) && s.profile_id == Some(
                        p.profile_id,
                    ) && s.arg_template == p.arg_template,
                    None => r matches Err(e) && e@ == "unknown adapter "@ + quoted(p.base@),
                },
            }
        }
}

/// Why a recorded agent cannot run again.
pub open spec fn resume_refusal(
    known: Seq<AdapterDescriptor>,
    rec: AgentRecord,
    worktree_exists: bool,
) -> Option<Seq<char>> {
    if !worktree_exists {
        Some("worktree "@ + rec.worktree_path@ + " is gone"@)
    } else if rec.workspace_kind@ != WorkspaceKind::Git.name() && rec.workspace_kind@
        != WorkspaceKind::Jj.name() {
        Some("unknown workspace kind "@ + quoted(rec.workspace_kind@))
    } else if adapter_of(known, rec.adapter_id@, 0) is None {
        Some("unknown adapter "@ + quoted(rec.adapter_id@))
    } else {
        None
    }
}

/// Why an agent cannot be restarted.
pub open spec fn restart_refusal(
    s: DaemonState,
    rows: Seq<AgentRecord>,
    pane: u64,
) -> Option<Seq<char>> {
    if !s.attention.dom().contains(pane) {
        Some("no worktree with pane "@ + decimal(pane as nat))
    } else if s.attention[pane] != AttentionState::Exited {
        Some("agent "@ + decimal(pane as nat) + " is still running — land or discard it instead"@)
    } else if row_of(rows, pane, 0) is None {
        Some("no worktree with pane "@ + decimal(pane as nat))
    } else {
        None
    }
}

/// An agent that is about to be restarted.
pub struct Restart {
    /// What to run, without a layout to rebuild.
    pub record: AgentRecord,
    /// The layout to put back.
    pub tree: Option<PaneTree>,
}

/// How landing or discarding a worktree went.
#[derive(Debug, Clone, Copy, PartialEq, Eq, Structural)]
pub enum Finish {
    Done,
    /// It failed, and the worktree is still there.
    FailedKept,
    /// It failed, and the worktree is gone.
    FailedGone,
}

/// The command of a new agent, and the record by which it will be found again.
pub open spec fn is_spawn_plan(
    settings: Settings,
    id: PaneId,
    project: &str,
    ws: Workspace,
    name: &str,
    spec: SpawnSpec,
    command: PaneCommand,
    record: AgentRecord,
) -> bool {
    &&& exists|path: &str, branch: &str|
        {
            let args = #[trigger] profile_args(texts(spec.arg_template@), project, path, name, branch);
            &&& path@ == ws.path@
            &&& branch@ == ws.branch@
            &&& texts(record.extra_args@) == args
            &&& is_agent_command(
                command,
                spec.adapter.launch,
                args,
                ws.path@,
                id.0,
                settings.hook_sock@,
            )
        }
    &&& record.agent_id == id.0
    &&& record.project@ == ws.project@
    &&& record.task@ == name@
    &&& record.adapter_id@ == spec.adapter.id@
    &&& record.worktree_path@ == ws.path@
    &&& record.branch@ == ws.branch@
    &&& record.workspace_kind@ == ws.kind.name()
    &&& record.cols == settings.default_cols
    &&& record.rows == settings.default_rows
    &&& record.tree is None
    &&& opt_text(record.profile_id) == opt_text(spec.profile_id)
}

/// How a recorded agent runs again: where, what, and whether it reports by hooks.
pub open spec fn is_resume(
    d: Daemon,
    rec: AgentRecord,
    worktree_exists: bool,
    r: Result<(Workspace, PaneCommand, bool), String>,
) -> bool {
    match r {
        Ok((ws, command, hooks)) => {
            &&& resume_refusal(d.profiles.known(), rec, worktree_exists) is None
            &&& ws.path@ == rec.worktree_path@
            &&& ws.branch@ == rec.branch@
            &&& ws.project@ == rec.project@
            &&& ws.kind.name() == rec.workspace_kind@
            &&& adapter_of(d.profiles.known(), rec.adapter_id@, 0) matches Some(adapter)
            &&& hooks == adapter.provides_hooks
            &&& is_agent_command(
                command,
                adapter.resume,
                texts(rec.extra_args@),
                rec.worktree_path@,
                rec.agent_id,
                d.settings.hook_sock@,
            )
        },
        Err(e) => resume_refusal(d.profiles.known(), rec, worktree_exists) == Some(e@),
    }
}

/// What the end of landing or discarding a worktree does and comes to.
pub open spec fn is_finished(
    before: Daemon,
    after: Daemon,
    pane: PaneId,
    how: Finish,
    r: (Option<String>, Vec<Effect>),
) -> bool {
    let s = before.state();
    let known = s.workspaces.dom().contains(pane.0);
    &&& after.keeps_lists(before)
    &&& after.registry.file() == before.registry.file()
    &&& opt_text(r.0) == (if known && how == Finish::Done {
        parent_of(s.workspaces[pane.0].path@)
    } else {
        None
    })
    &&& if known && how == Finish::FailedKept {
        &&& after.state() == s.with_attention(pane.0, AttentionState::Exited)
        &&& after.registry == before.registry
        &&& r.1@ == seq![Effect::Attention(pane, AttentionState::Exited)]
    } else {
        &&& after.state() == s.without_agent(pane.0)
        &&& same_rows(after.registry.rows(), without_agent(before.registry.rows(), pane.0))
        &&& r.1@ == seq![
            Effect::Forget(pane),
            Effect::SaveRegistry,
            Effect::AgentRemoved(pane),
        ]
    }
}

/// What making ready to run an exited agent again does and comes to.
pub open spec fn is_restart(
    before: Daemon,
    after: Daemon,
    pane: PaneId,
    r: Result<Restart, String>,
) -> bool {
    let s = before.state();
    &&& after.keeps_stores(before)
    &&& match r {
        Ok(restart) => {
            let row = row_of(before.registry.rows(), pane.0, 0)->0;
            &&& restart_refusal(s, before.registry.rows(), pane.0) is None
            &&& restart.record.same_but_tree(row)
            &&& restart.record.tree is None
            &&& restart.tree == (if s.trees.dom().contains(pane.0) {
                Some(s.trees[pane.0])
            } else {
                row.tree
            })
            &&& after.state() == (DaemonState {
                panes: s.panes.remove(pane.0),
                hookless: s.hookless.remove(pane.0),
                ..s
            })
        },
        Err(e) => {
            &&& restart_refusal(s, before.registry.rows(), pane.0) == Some(e@)
            &&& after.state() == s
        },
    }
}

impl Daemon {
    /// Whether an agent can be spawned; if so, where its worktree will stand. `canonical` is the canonical
    /// path of the project, none where nothing is there.
    pub fn check_spawn(&self, asked: &str, canonical: Option<&str>, name: &str) -> (r: Result<
        String,
        String,
    >)
        ensures
            match r {
                Ok(path) => {
                    &&& spawn_refusal(
                        self.projects.rows(),
                        asked@,
                        text::opt_str(canonical),
                        name@,
                    ) is None
                    &&& canonical matches Some(p)
                    &&& path@ == worktree_path_of(self.settings.worktrees.root(), p@, name@)
                },
                Err(e) => spawn_refusal(
                    self.projects.rows(),
                    asked@,
                    text::opt_str(canonical),
                    name@,
                ) == Some(e@),
            },
    {
        let project = match canonical {
            None => {
                let mut m = "no such project path: ".to_owned();
                m.append(asked);
                return Err(m);
            },
            Some(p) => p,
        };
        if !self.projects.contains(project) {
            let mut m = "unknown project: ".to_owned();
            m.append(project);
            m.append(" — add it first");
            return Err(m);
        }
        match name::validate_workspace_name(name) {
            Err(e) => Err(e),
            Ok(_) => Ok(self.settings.worktrees.worktree_path(project, name)),
        }
    }

    /// Give a new agent its number, where neither its worktree nor its branch is there yet.
    pub fn begin_spawn(
        &mut self,
        project: &str,
        name: &str,
        worktree: &str,
        worktree_exists: bool,
        branch_taken: bool,
    ) -> (r: Result<PaneId, String>)
        ensures
            final(self).keeps_stores(*old(self)),
            match r {
                Ok(id) => {
                    &&& collision(project@, name@, worktree@, worktree_exists, branch_taken) is None
                    &&& id.0 == old(self).state().next_id
                    &&& final(self).state() == (DaemonState {
                        next_id: number_after(old(self).state().next_id),
                        ..old(self).state()
                    })
                },
                Err(e) => {
                    &&& collision(project@, name@, worktree@, worktree_exists, branch_taken) == Some(e@)
                    &&& final(self).state() == old(self).state()
                },
            },
    {
        if worktree_exists {
            let mut m = "a worktree named '".to_owned();
            m.append(name);
            m.append("' already exists at ");
            m.append(worktree);
            m.append(" — land/discard it or choose another name");
            return Err(m);
        }
        if branch_taken {
            let mut m = "branch clowder/".to_owned();
            m.append(name);
            m.append(" already exists in ");
            m.append(project);
            m.append(" — choose another name");
            return Err(m);
        }
        Ok(self.alloc_id())
    }

    /// What to run for a profile that the user picked.
    pub fn spawn_spec(&self, picked: &str) -> (r: Result<SpawnSpec, String>)
        ensures
            is_spawn_spec(*self, picked@, r),
    {
        let resolved = self.resolve_profile(picked);
        let ghost p = resolved;
        assert(is_resolved(self.profiles.builtins(), self.profiles.rows(), picked@, p));
        match resolved {
            Err(e) => Err(e),
            Ok(profile) => match adapter::build_adapter(self.profiles.adapters(), profile.base.as_str()) {
                Some(a) => Ok(SpawnSpec::from_profile(a.copied(), profile)),
                None => {
                    let mut m = "unknown adapter ".to_owned();
                    m.append(text::quote(profile.base.as_str()).as_str());
                    Err(m)
                },
            },
        }
    }

    /// The command of a new agent, and the record by which it will be found again.
    pub fn spawn_plan(
        &self,
        id: PaneId,
        project: &str,
        ws: &Workspace,
        name: &str,
        spec: &SpawnSpec,
    ) -> (plan: (PaneCommand, AgentRecord))
        ensures
            is_spawn_plan(self.settings, id, project, *ws, name, *spec, plan.0, plan.1),
    {
        let ctx = TokenContext {
            project_path: project,
            workspace_path: ws.path.as_str(),
            workspace_name: name,
            branch: ws.branch.as_str(),
        };
        let extra_args = agents::substitute(&spec.arg_template, &ctx);
        assert(texts(extra_args@) == profile_args(
            texts(spec.arg_template@),
            project,
            ctx.workspace_path,
            name,
            ctx.branch,
        ));
        let command = command::agent_command(
            &spec.adapter.launch,
            &extra_args,
            ws.path.as_str(),
            id,
            self.settings.hook_sock.as_str(),
        );
        let record = AgentRecord {
            agent_id: id.0,
            project: ws.project.clone(),
            task: name.to_owned(),
            adapter_id: spec.adapter.id.clone(),
            worktree_path: ws.path.clone(),
            branch: ws.branch.clone(),
            workspace_kind: ws.kind.as_str().to_owned(),
            cols: self.settings.default_cols,
            rows: self.settings.default_rows,
            tree: None,
            profile_id: spec.profile_id.clone(),
            extra_args,
        };
        (command, record)
    }

    /// The process of an agent runs: take the agent in. The registry is the caller's.
    pub fn finalize_agent(&mut self, id: PaneId, ws: Workspace, name: String, hooks: bool) -> (effects:
        Vec<Effect>)
        ensures
            final(self).state() == old(self).state().with_agent(id.0, ws, meta_of(ws, name), hooks),
            final(self).keeps_stores(*old(self)),
            effects@ == seq![Effect::Attention(id, AttentionState::Working)],
    {
        let ghost s0 = self.state();
        let meta = AgentMeta { project: ws.project.clone(), name, branch: ws.branch.clone() };
        self.maps.panes.insert(id.0, ());
        assert(self.maps.panes@.dom() =~= s0.panes.insert(id.0));
        self.maps.workspaces.insert(id.0, ws);
        self.maps.agents.insert(id.0, meta);
        let told = self.set_attention(id, AttentionState::Working);
        if !hooks {
            self.maps.hookless.insert(id.0, ());
            assert(self.maps.hookless@.dom() =~= s0.hookless.insert(id.0));
        }
        self.maps.trees.insert(id.0, PaneTree::Leaf { pane: id });
        self.maps.owner.insert(id.0, id.0);
        assert(self.state() =~= s0.with_agent(id.0, ws, meta, hooks));
        let mut effects: Vec<Effect> = Vec::new();
        effects.push(told);
        assert(effects@ =~= seq![Effect::Attention(id, AttentionState::Working)]);
        effects
    }

    /// The process of a new agent runs: record the agent and take it in.
    pub fn commit_spawn(&mut self, record: AgentRecord, ws: Workspace, hooks: bool) -> (effects: Vec<
        Effect,
    >)
        ensures
            final(self).keeps_lists(*old(self)),
            final(self).registry.file() == old(self).registry.file(),
            same_rows(
                final(self).registry.rows(),
                without_agent(old(self).registry.rows(), record.agent_id).push(record),
            ),
            final(self).state() == old(self).state().with_agent(
                record.agent_id,
                ws,
                meta_of(ws, record.task),
                hooks,
            ),
            effects@ == seq![
                Effect::SaveRegistry,
                Effect::Attention(PaneId(record.agent_id), AttentionState::Working),
            ],
    {
        let id = PaneId(record.agent_id);
        let name = record.task.clone();
        self.registry.upsert(record);
        let mut told = self.finalize_agent(id, ws, name, hooks);
        let mut effects: Vec<Effect> = Vec::new();
        effects.push(Effect::SaveRegistry);
        effects.append(&mut told);
        assert(effects@ =~= seq![
            Effect::SaveRegistry,
            Effect::Attention(id, AttentionState::Working),
        ]);
        effects
    }

    /// How a recorded agent runs again, given whether its worktree is there: where, what, and whether it
    /// reports by hooks.
    pub fn resume_plan(&self, rec: &AgentRecord, worktree_exists: bool) -> (r: Result<
        (Workspace, PaneCommand, bool),
        String,
    >)
        ensures
            is_resume(*self, *rec, worktree_exists, r),
    {
        if !worktree_exists {
            let mut m = "worktree ".to_owned();
            m.append(rec.worktree_path.as_str());
            m.append(" is gone");
            return Err(m);
        }
        let kind = match WorkspaceKind::from_str(rec.workspace_kind.as_str()) {
            Some(k) => k,
            None => {
                let mut m = "unknown workspace kind ".to_owned();
                m.append(text::quote(rec.workspace_kind.as_str()).as_str());
                return Err(m);
            },
        };
        let adapter = match adapter::build_adapter(self.profiles.adapters(), rec.adapter_id.as_str()) {
            Some(a) => a,
            None => {
                let mut m = "unknown adapter ".to_owned();
                m.append(text::quote(rec.adapter_id.as_str()).as_str());
                return Err(m);
            },
        };
        let ws = Workspace {
            path: rec.worktree_path.clone(),
            branch: rec.branch.clone(),
            project: rec.project.clone(),
            kind,
        };
        let command = command::agent_command(
            &adapter.resume,
            &rec.extra_args,
            rec.worktree_path.as_str(),
            PaneId(rec.agent_id),
            self.settings.hook_sock.as_str(),
        );
        Ok((ws, command, adapter.provides_hooks))
    }

    /// Whether an agent may be landed, or discarded: a project terminal has no worktree.
    pub fn check_finish(&self, pane: PaneId, land: bool) -> (r: Result<(), String>)
        ensures
            match r {
                Ok(_) => !self.state().terms.dom().contains(pane.0),
                Err(e) => {
                    &&& self.state().terms.dom().contains(pane.0)
                    &&& e@ == "pane "@ + decimal(pane.0 as nat)
                        + " is a project terminal — it has no workspace to "@ + (if land {
                        "land"@
                    } else {
                        "discard"@
                    })
                },
            },
    {
        if self.maps.terms.has(pane.0) {
            let mut m = "pane ".to_owned();
            m.append(text::show(pane.0 as u128).as_str());
            m.append(" is a project terminal — it has no workspace to ");
            if land {
                m.append("land");
            } else {
                m.append("discard");
            }
            return Err(m);
        }
        Ok(())
    }

    /// End the processes of an agent and of its companions. Its worktree is what is left to land or
    /// discard.
    pub fn begin_finish(&mut self, pane: PaneId) -> (r: (Option<Workspace>, Vec<Effect>))
        ensures
            final(self).state() == old(self).state().with_agent_ended(pane.0),
            final(self).keeps_stores(*old(self)),
            match r.0 {
                Some(ws) => old(self).state().workspaces.dom().contains(pane.0) && ws
                    == old(self).state().workspaces[pane.0],
                None => !old(self).state().workspaces.dom().contains(pane.0),
            },
            r.1@ == ends(old(self).state().companions(pane.0)).push(Effect::Kill(pane)),
    {
        let ghost s0 = self.state();
        let gone = self.companions_of(pane);
        let mut effects = self.end_panes(&gone);
        self.maps.trees.remove(pane.0);
        self.maps.owner.remove(pane.0);
        self.maps.hookless.remove(pane.0);
        assert(self.state() =~= s0.with_agent_ended(pane.0));
        effects.push(Effect::Kill(pane));
        (self.workspace_of(pane), effects)
    }

    /// The worktree of an agent has been landed or discarded, or that has failed. The agent goes,
    /// unless its worktree is still there for another try: then it has exited, and can be restarted.
    /// Where all went well, the directory around the worktree is to be removed if it is empty.
    pub fn end_finish(&mut self, pane: PaneId, how: Finish) -> (r: (Option<String>, Vec<Effect>))
        ensures
            is_finished(*old(self), *final(self), pane, how, r),
    {
        let ghost s0 = self.state();
        let mut dir: Option<String> = None;
        match self.maps.workspaces.get(pane.0) {
            Some(ws) => match how {
                Finish::Done => {
                    dir = path::parent(ws.path.as_str());
                },
                Finish::FailedKept => {
                    let mut effects: Vec<Effect> = Vec::new();
                    effects.push(self.set_attention(pane, AttentionState::Exited));
                    assert(effects@ =~= seq![Effect::Attention(pane, AttentionState::Exited)]);
                    return (None, effects);
                },
                Finish::FailedGone => {},
            },
            None => {},
        }
        self.maps.workspaces.remove(pane.0);
        self.maps.panes.remove(pane.0);
        self.maps.attention.remove(pane.0);
        self.maps.agents.remove(pane.0);
        assert(self.state() =~= s0.without_agent(pane.0));
        self.registry.remove(pane.0);
        let mut effects: Vec<Effect> = Vec::new();
        effects.push(Effect::Forget(pane));
        effects.push(Effect::SaveRegistry);
        effects.push(Effect::AgentRemoved(pane));
        assert(effects@ =~= seq![
            Effect::Forget(pane),
            Effect::SaveRegistry,
            Effect::AgentRemoved(pane),
        ]);
        (dir, effects)
    }

    /// Make ready to run an exited agent again in its worktree, under its number. Its companions run
    /// on.
    pub fn begin_restart(&mut self, pane: PaneId) -> (r: Result<Restart, String>)
        ensures
            is_restart(*old(self), *final(self), pane, r),
    {
        let ghost s0 = self.state();
        match self.attention_of(pane) {
            None => {
                let mut m = "no worktree with pane ".to_owned();
                m.append(text::show(pane.0 as u128).as_str());
                return Err(m);
            },
            Some(AttentionState::Exited) => {},
            Some(_) => {
                let mut m = "agent ".to_owned();
                m.append(text::show(pane.0 as u128).as_str());
                m.append(" is still running — land or discard it instead");
                return Err(m);
            },
        }
        let mut record = match self.registry.find(pane.0) {
            Some(r) => r.copied(),
            None => {
                let mut m = "no worktree with pane ".to_owned();
                m.append(text::show(pane.0 as u128).as_str());
                return Err(m);
            },
        };
        let tree = match self.split_tree_of(pane) {
            Some(t) => Some(t),
            None => record.tree.take(),
        };
        record.tree = None;
        self.maps.hookless.remove(pane.0);
        self.maps.panes.remove(pane.0);
        assert(self.state() =~= (DaemonState {
            panes: s0.panes.remove(pane.0),
            hookless: s0.hookless.remove(pane.0),
            ..s0
        }));
        Ok(Restart { record, tree })
    }

    /// The process of a restarted agent runs: take the agent in, with the layout that it had.
    pub fn end_restart(
        &mut self,
        pane: PaneId,
        ws: Workspace,
        name: String,
        hooks: bool,
        tree: Option<PaneTree>,
    ) -> (effects: Vec<Effect>)
        ensures
            final(self).keeps_stores(*old(self)),
            final(self).state() == old(self).state().with_agent_again(
                pane.0,
                ws,
                meta_of(ws, name),
                hooks,
                tree,
            ),
            effects@ == seq![Effect::Attention(pane, AttentionState::Working)]
                + final(self).state().tree_news(pane.0),
    {
        let ghost s0 = self.state();
        let mut effects = self.finalize_agent(pane, ws, name, hooks);
        match tree {
            Some(t) => self.maps.trees.insert(pane.0, t),
            None => {},
        }
        assert(self.state() =~= s0.with_agent_again(pane.0, ws, meta_of(ws, name), hooks, tree));
        self.tell_tree(pane, &mut effects);
        effects
    }

    /// What the daemon starts from: every recorded agent, and numbers above all of theirs.
    pub open spec fn is_reconciled(&self, before: Daemon, records: Vec<AgentRecord>) -> bool {
        &&& self.keeps_stores(before)
        &&& same_rows(records@, before.registry.rows())
        &&& self.state() == (DaemonState { next_id: self.state().next_id, ..before.state() })
        &&& self.state().next_id >= before.state().next_id
        &&& forall|k: int|
            0 <= k < before.registry.rows().len() ==> (#[trigger] before.registry.rows()[k]).agent_id
                < self.state().next_id
        &&& self.state().next_id == before.state().next_id || self.state().next_id == 1 || exists|k: int|
            0 <= k < before.registry.rows().len() && (#[trigger] before.registry.rows()[k]).agent_id + 1
                == self.state().next_id
    }

    /// The agents to run again when the daemon starts. No pane gets a number of theirs from now on.
    pub fn reconcile(&mut self) -> (records: Vec<AgentRecord>)
        requires
            forall|k: int|
                0 <= k < old(self).registry.rows().len() ==> (#[trigger] old(
                    self,
                ).registry.rows()[k]).agent_id < u64::MAX,
        ensures
            final(self).is_reconciled(*old(self), records),
    {
        let n = self.registry.max_id();
        self.bump_next_id_above(n);
        self.registry.copies()
    }

    /// Forget a recorded agent that cannot run again.
    pub fn prune(&mut self, agent: u64) -> (effects: Vec<Effect>)
        ensures
            final(self).state() == old(self).state(),
            final(self).keeps_lists(*old(self)),
            final(self).registry.file() == old(self).registry.file(),
            same_rows(
                final(self).registry.rows(),
                without_agent(old(self).registry.rows(), agent),
            ),
            effects@ == seq![Effect::SaveRegistry],
    {
        self.registry.remove(agent);
        let mut effects: Vec<Effect> = Vec::new();
        effects.push(Effect::SaveRegistry);
        assert(effects@ =~= seq![Effect::SaveRegistry]);
        effects
    }
}

/// An agent runs again with the arguments that it was recorded with, whatever has become of its profile.
pub proof fn law_a_resumed_agent_runs_as_recorded(
    before: Daemon,
    after: Daemon,
    rec: AgentRecord,
    worktree_exists: bool,
    r: Result<(Workspace, PaneCommand, bool), String>,
)
    requires
        after.profiles.known() == before.profiles.known(),
        after.settings.hook_sock@ == before.settings.hook_sock@,
        is_resume(after, rec, worktree_exists, r),
    ensures
        is_resume(before, rec, worktree_exists, r),
        r matches Ok((_, command, _)) ==> texts(rec.extra_args@).is_suffix_of(texts(command.args@)),
{
}

/// A new agent runs what its adapter launches, in its own worktree, with the arguments of its profile behind
/// those of the adapter, and is told its number and where the hooks report to. The record says where it
/// runs, as what and with which arguments.
pub proof fn law_a_new_agent_runs_in_its_worktree(
    settings: Settings,
    id: PaneId,
    project: &str,
    ws: Workspace,
    name: &str,
    spec: SpawnSpec,
    command: PaneCommand,
    record: AgentRecord,
)
    requires
        is_spawn_plan(settings, id, project, ws, name, spec, command, record),
    ensures
        command.cwd matches Some(dir) && dir@ == ws.path@,
        command.program@ == spec.adapter.launch.program@,
        texts(spec.adapter.launch.args@).is_prefix_of(texts(command.args@)),
        texts(command.args@).len() == spec.adapter.launch.args@.len() + spec.arg_template@.len(),
        texts(record.extra_args@).is_suffix_of(texts(command.args@)),
        record.extra_args@.len() == spec.arg_template@.len(),
        env_texts(command.env@).contains(("CLOWDER_AGENT_ID"@, decimal(id.0 as nat))),
        env_texts(command.env@).contains(("CLOWDER_HOOK_SOCK"@, settings.hook_sock@)),
        env_texts(spec.adapter.launch.env@).is_prefix_of(env_texts(command.env@)),
        record.agent_id == id.0,
        record.worktree_path@ == ws.path@,
        record.project@ == ws.project@,
        record.branch@ == ws.branch@,
        record.task@ == name@,
        record.adapter_id@ == spec.adapter.id@,
        record.tree is None,
{
    let all = texts(command.args@);
    let own = texts(spec.adapter.launch.args@);
    let extra = texts(record.extra_args@);
    assert(all == own + extra);
    assert(own =~= all.take(own.len() as int));
    assert(extra =~= all.skip(own.len() as int));
    let vars = env_texts(command.env@);
    let base = env_texts(spec.adapter.launch.env@);
    assert(vars[base.len() as int] == ("CLOWDER_AGENT_ID"@, decimal(id.0 as nat)));
    assert(vars[base.len() as int + 1] == ("CLOWDER_HOOK_SOCK"@, settings.hook_sock@));
    assert(base =~= vars.take(base.len() as int));
    assert(extra.len() == texts(spec.arg_template@).len());
}

/// An agent that runs again does so in the worktree that it was recorded with, which is the one that comes
/// back with it, on its branch and for its project; it is told the number that it had.
pub proof fn law_a_resumed_agent_runs_in_its_worktree(
    d: Daemon,
    rec: AgentRecord,
    worktree_exists: bool,
    ws: Workspace,
    command: PaneCommand,
    hooks: bool,
)
    requires
        is_resume(d, rec, worktree_exists, Ok((ws, command, hooks))),
    ensures
        worktree_exists,
        command.cwd matches Some(dir) && dir@ == ws.path@ && dir@ == rec.worktree_path@,
        ws.branch@ == rec.branch@,
        ws.project@ == rec.project@,
        ws.kind == WorkspaceKind::Git ==> rec.workspace_kind@ == "git"@,
        ws.kind == WorkspaceKind::Jj ==> rec.workspace_kind@ == "jj"@,
        adapter_of(d.profiles.known(), rec.adapter_id@, 0) matches Some(a) && {
            &&& command.program@ == a.resume.program@
            &&& texts(a.resume.args@).is_prefix_of(texts(command.args@))
            &&& env_texts(a.resume.env@).is_prefix_of(env_texts(command.env@))
            &&& hooks == a.provides_hooks
        },
        texts(rec.extra_args@).is_suffix_of(texts(command.args@)),
        env_texts(command.env@).contains(("CLOWDER_AGENT_ID"@, decimal(rec.agent_id as nat))),
        env_texts(command.env@).contains(("CLOWDER_HOOK_SOCK"@, d.settings.hook_sock@)),
{
    let vars = env_texts(command.env@);
    assert(vars[vars.len() - 2] == ("CLOWDER_AGENT_ID"@, decimal(rec.agent_id as nat)));
    assert(vars[vars.len() - 1] == ("CLOWDER_HOOK_SOCK"@, d.settings.hook_sock@));
    let all = texts(command.args@);
    let extra = texts(rec.extra_args@);
    assert(extra =~= all.skip(all.len() - extra.len()));
    let a = adapter_of(d.profiles.known(), rec.adapter_id@, 0)->0;
    assert(texts(a.resume.args@) =~= all.take(all.len() - extra.len()));
    assert(env_texts(a.resume.env@) =~= vars.take(vars.len() - 2));
}

/// The tokens in the template of a profile stand for what the agent is given: its project, its own worktree,
/// the name that it was spawned under and its own branch. An argument without tokens is as it was written.
pub proof fn law_tokens_stand_for_the_agents_own(
    settings: Settings,
    id: PaneId,
    project: &str,
    ws: Workspace,
    name: &str,
    spec: SpawnSpec,
    command: PaneCommand,
    record: AgentRecord,
    k: int,
    before: Seq<char>,
)
    requires
        is_spawn_plan(settings, id, project, ws, name, spec, command, record),
        0 <= k < spec.arg_template@.len(),
        !before.contains('{'),
    ensures
        ({
            let written = spec.arg_template@[k]@;
            let given = record.extra_args@[k]@;
            let open = before + seq!['{', '{'];
            let close = seq!['}', '}'];
            &&& written == open + "project_path"@ + close ==> given == before + project@
            &&& written == open + "workspace_path"@ + close ==> given == before + ws.path@
            &&& written == open + "workspace_name"@ + close ==> given == before + name@
            &&& written == open + "branch"@ + close ==> given == before + ws.branch@
            &&& !text::contains(written, seq!['{', '{']) ==> given == written
        }),
{
    let (path, branch) = choose|path: &str, branch: &str|
        {
            let args = #[trigger] profile_args(texts(spec.arg_template@), project, path, name, branch);
            &&& path@ == ws.path@
            &&& branch@ == ws.branch@
            &&& texts(record.extra_args@) == args
        };
    let ctx = TokenContext {
        project_path: project,
        workspace_path: path,
        workspace_name: name,
        branch,
    };
    let written = spec.arg_template@[k]@;
    assert(texts(record.extra_args@)[k] == expanded(ctx, texts(spec.arg_template@)[k], 0));
    assert(texts(record.extra_args@).len() == texts(spec.arg_template@).len());
    assert(record.extra_args@[k]@ == expanded(ctx, written, 0));
    lemma_one_token(ctx, before, "project_path"@);
    lemma_one_token(ctx, before, "workspace_path"@);
    lemma_one_token(ctx, before, "workspace_name"@);
    lemma_one_token(ctx, before, "branch"@);
    if !text::contains(written, seq!['{', '{']) {
        agents::law_an_argument_without_tokens_stays(ctx, written);
    }
}

proof fn lemma_one_token(ctx: TokenContext, before: Seq<char>, token: Seq<char>)
    requires
        !before.contains('{'),
        token == "project_path"@ || token == "workspace_path"@ || token == "workspace_name"@ || token
            == "branch"@,
    ensures
        ({
            let got = expanded(ctx, before + seq!['{', '{'] + token + seq!['}', '}'], 0);
            &&& token == "project_path"@ ==> got == before + ctx.project_path@
            &&& token == "workspace_path"@ ==> got == before + ctx.workspace_path@
            &&& token == "workspace_name"@ ==> got == before + ctx.workspace_name@
            &&& token == "branch"@ ==> got == before + ctx.branch@
        }),
{
    reveal_strlit("project_path");
    reveal_strlit("workspace_path");
    reveal_strlit("workspace_name");
    reveal_strlit("branch");
    let none = Seq::<char>::empty();
    let all = before + seq!['{', '{'] + token + seq!['}', '}'];
    assert(!text::contains(none, seq!['{', '{']));
    agents::law_an_argument_without_tokens_stays(ctx, none);
    agents::law_a_token_is_replaced_in_its_place(ctx, before, token, none);
    assert(all + none =~= all);
    assert(before + ctx.project_path@ + none =~= before + ctx.project_path@);
    assert(before + ctx.workspace_path@ + none =~= before + ctx.workspace_path@);
    assert(before + ctx.workspace_name@ + none =~= before + ctx.workspace_name@);
    assert(before + ctx.branch@ + none =~= before + ctx.branch@);
}

/// An agent that was spawned and runs again by its record is the same agent: it runs in the same directory,
/// in the same worktree, on the same branch, with the same further arguments and under the same number.
pub proof fn law_a_resumed_agent_is_the_spawned_one(
    d: Daemon,
    id: PaneId,
    project: &str,
    ws: Workspace,
    name: &str,
    spec: SpawnSpec,
    first: PaneCommand,
    record: AgentRecord,
    later: Daemon,
    ws_again: Workspace,
    again: PaneCommand,
    hooks: bool,
)
    requires
        is_spawn_plan(d.settings, id, project, ws, name, spec, first, record),
        later.settings.hook_sock@ == d.settings.hook_sock@,
        is_resume(later, record, true, Ok((ws_again, again, hooks))),
    ensures
        opt_text(again.cwd) == opt_text(first.cwd),
        ws_again.path@ == ws.path@,
        ws_again.branch@ == ws.branch@,
        ws_again.project@ == ws.project@,
        ws_again.kind == ws.kind,
        texts(again.args@).skip(texts(again.args@).len() - spec.arg_template@.len()) == texts(
            first.args@,
        ).skip(texts(first.args@).len() - spec.arg_template@.len()),
        env_texts(again.env@).last() == env_texts(first.env@).last(),
        env_texts(again.env@).drop_last().last() == env_texts(first.env@).drop_last().last(),
{
    law_a_new_agent_runs_in_its_worktree(d.settings, id, project, ws, name, spec, first, record);
    law_a_resumed_agent_runs_in_its_worktree(later, record, true, ws_again, again, hooks);
    crate::workspace::kind::law_kind_roundtrips(ws_again.kind, ws.kind);
    let n = texts(spec.arg_template@).len() as int;
    let extra = texts(record.extra_args@);
    assert(extra.len() == n);
    assert(texts(again.args@).skip(texts(again.args@).len() - n) =~= extra);
    assert(texts(first.args@).skip(texts(first.args@).len() - n) =~= extra);
}

/// An agent is spawned only in a project that is registered, under a name that is valid, and where neither
/// its worktree nor its branch is there yet; otherwise it is refused.
pub proof fn law_where_an_agent_can_be_spawned(
    projects: Seq<ProjectRecordView>,
    asked: Seq<char>,
    canonical: Option<Seq<char>>,
    name: Seq<char>,
    worktree: Seq<char>,
    worktree_exists: bool,
    branch_taken: bool,
)
    ensures
        spawn_refusal(projects, asked, canonical, name) is None <==> {
            &&& canonical matches Some(p)
            &&& exists|k: int| 0 <= k < projects.len() && path::same_place((#[trigger] projects[k]).path, p)
            &&& name_fault(name) is None
        },
        forall|p: Seq<char>|
            #[trigger] collision(p, name, worktree, worktree_exists, branch_taken) is None <==> !worktree_exists
                && !branch_taken,
{
}

/// When landing or discarding an agent has ended, the agent is either gone, from the panes and from the
/// registry, and everyone is told; or, where it failed and the worktree is still there, it stays with its
/// worktree and its record, and has exited. Every other agent stays as it was either way.
pub proof fn law_a_finished_agent_is_gone_or_kept(
    before: Daemon,
    after: Daemon,
    pane: PaneId,
    how: Finish,
    r: (Option<String>, Vec<Effect>),
    other: u64,
)
    requires
        is_finished(before, after, pane, how, r),
        before.state().workspaces.dom().contains(pane.0),
        other != pane.0,
    ensures
        ({
            let s = before.state();
            let t = after.state();
            &&& how != Finish::FailedKept ==> {
                &&& !t.workspaces.dom().contains(pane.0)
                &&& !t.agents.dom().contains(pane.0)
                &&& !t.attention.dom().contains(pane.0)
                &&& !t.panes.contains(pane.0)
                &&& forall|k: int|
                    0 <= k < after.registry.rows().len() ==> (
                    #[trigger] after.registry.rows()[k]).agent_id != pane.0
                &&& r.1@.contains(Effect::AgentRemoved(pane))
                &&& r.1@.contains(Effect::SaveRegistry)
            }
            &&& how == Finish::FailedKept ==> {
                &&& t.workspaces == s.workspaces
                &&& t.agents == s.agents
                &&& t.attention.dom().contains(pane.0)
                &&& t.attention[pane.0] == AttentionState::Exited
                &&& after.registry == before.registry
                &&& !r.1@.contains(Effect::AgentRemoved(pane))
            }
            &&& t.workspaces.dom().contains(other) == s.workspaces.dom().contains(other)
            &&& t.workspaces[other] == s.workspaces[other]
            &&& t.agents.dom().contains(other) == s.agents.dom().contains(other)
            &&& t.agents[other] == s.agents[other]
            &&& t.attention.dom().contains(other) == s.attention.dom().contains(other)
            &&& t.attention[other] == s.attention[other]
            &&& t.panes.contains(other) == s.panes.contains(other)
            &&& (t.trees, t.owner, t.terms, t.project_terms) == (s.trees, s.owner, s.terms, s.project_terms)
            &&& r.0 is Some ==> how == Finish::Done
        }),
{
    let rows = without_agent(before.registry.rows(), pane.0);
    crate::daemon::registry::lemma_without_agent(before.registry.rows(), pane.0);
    if how != Finish::FailedKept {
        assert(r.1@[1] == Effect::SaveRegistry);
        assert(r.1@[2] == Effect::AgentRemoved(pane));
        assert forall|k: int| 0 <= k < after.registry.rows().len() implies (
        #[trigger] after.registry.rows()[k]).agent_id != pane.0 by {
            assert(rows[k].agent_id != pane.0);
        }
    } else {
        assert(r.1@.len() == 1);
        assert(r.1@[0] == Effect::Attention(pane, AttentionState::Exited));
    }
}

/// Only an agent that has exited is restarted. It comes back as it was recorded, with the layout that it
/// has now or, where that is lost, had when it was recorded; its companions and everything else stay.
pub proof fn law_only_an_exited_agent_is_restarted(
    before: Daemon,
    after: Daemon,
    pane: PaneId,
    restart: Restart,
    other: u64,
)
    requires
        is_restart(before, after, pane, Ok(restart)),
        other != pane.0,
    ensures
        ({
            let s = before.state();
            let t = after.state();
            &&& s.attention.dom().contains(pane.0) && s.attention[pane.0] == AttentionState::Exited
            &&& exists|k: int|
                {
                    &&& 0 <= k < before.registry.rows().len()
                    &&& (#[trigger] before.registry.rows()[k]).agent_id == pane.0
                    &&& restart.record.agent_id == pane.0
                    &&& restart.record.worktree_path@ == before.registry.rows()[k].worktree_path@
                    &&& restart.record.branch@ == before.registry.rows()[k].branch@
                    &&& restart.record.project@ == before.registry.rows()[k].project@
                    &&& texts(restart.record.extra_args@) == texts(
                        before.registry.rows()[k].extra_args@,
                    )
                    &&& !s.trees.dom().contains(pane.0) ==> restart.tree == before.registry.rows()[k].tree
                }
            &&& s.trees.dom().contains(pane.0) ==> restart.tree == Some(s.trees[pane.0])
            &&& restart.record.tree is None
            &&& !t.panes.contains(pane.0)
            &&& t.panes.contains(other) == s.panes.contains(other)
            &&& t.hookless.contains(other) == s.hookless.contains(other)
            &&& (t.trees, t.owner, t.workspaces, t.agents, t.attention) == (
                s.trees,
                s.owner,
                s.workspaces,
                s.agents,
                s.attention,
            )
        }),
{
    lemma_row_is_found(before.registry.rows(), pane.0, 0);
    let rows = before.registry.rows();
    let row = row_of(rows, pane.0, 0)->0;
    let k = choose|k: int| 0 <= k < rows.len() && #[trigger] rows[k] == row;
    assert(rows[k].agent_id == pane.0);
}

proof fn lemma_row_is_found(rows: Seq<AgentRecord>, id: u64, from: int)
    requires
        0 <= from,
    ensures
        row_of(rows, id, from) matches Some(r) ==> r.agent_id == id && exists|k: int|
            0 <= k < rows.len() && #[trigger] rows[k] == r,
    decreases rows.len() - from,
{
    if from < rows.len() {
        if rows[from].agent_id == id {
            assert(rows[from] == row_of(rows, id, from)->0);
        } else {
            lemma_row_is_found(rows, id, from + 1);
        }
    }
}

} // verus!
