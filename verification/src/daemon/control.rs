//! The control connection: what each request does, and what clients are told.

use vstd::prelude::*;

use crate::config::agents::{merged, AgentProfileView};
use crate::daemon::agent_profiles;
use crate::daemon::agent_profiles::is_unrepeated;
use crate::daemon::projects::ProjectRecord;
use crate::daemon::split_tree::{law_ratio_keeps_the_shape, split_seq};
use crate::daemon::state::layout::{is_close, is_moved, Close};
use crate::daemon::state::lists;
use crate::daemon::state::lists::{
    adapter_infos, by_path, info_of, is_listing, is_tree_event, pickable, profile_info, profile_infos,
    stored,
};
use crate::daemon::state::{Daemon, DaemonState, Effect, ProjectChange};
use crate::proto::control::{
    ControlEvent, ControlRequest, PaneTree, ProjectInfo, Ratio, SplitDirection, SplitId,
};
use crate::proto::message::{AttentionState, PaneId};
use crate::text;
use crate::text::trimmed;

verus! {

/// What a request needs done outside before it can be answered.
#[derive(Debug, Clone, PartialEq, Eq)]
pub enum Work {
    Spawn { project: String, name: String, adapter: String },
    Split { pane: PaneId, direction: SplitDirection },
    /// Discard an agent whose pane was closed.
    CloseAgent { pane: PaneId },
    Land { pane: PaneId },
    Discard { pane: PaneId },
    AddProject { path: String },
    RemoveProject { path: String },
    Restart { pane: PaneId },
    OpenTerminal { path: String },
}

/// How a request was dealt with.
pub enum Handled {
    /// The answer, and what follows from the request.
    Reply(ControlEvent, Vec<Effect>),
    /// It needs this done first.
    Work(Work),
}

/// How work outside went.
pub enum Outcome {
    Spawned(Result<PaneId, String>),
    /// The companion.
    Split(Result<PaneId, String>),
    ClosedAgent(PaneId, Result<(), String>),
    Finished(PaneId, Result<(), String>),
    ProjectAdded(Result<ProjectRecord, String>),
    ProjectRemoved(String, Result<(), String>),
    Restarted(PaneId, Result<(), String>),
    TerminalOpened(String, Result<PaneId, String>),
    /// The request could not be read.
    Unread(String),
}

/// Something that every control connection is told.
pub enum News {
    Attention(PaneId, AttentionState),
    Removed(PaneId),
    Tree(PaneId, PaneTree),
    Project(ProjectChange),
    Profiles,
    /// Some news came too fast to be told.
    Missed,
    /// There will be no more.
    Ended,
}

/// The answer says that nothing came of it, and nothing follows.
pub open spec fn is_error(h: Handled, message: Seq<char>) -> bool {
    &&& h matches Handled::Reply(e, effects)
    &&& effects@.len() == 0
    &&& e matches ControlEvent::Error { message: m }
    &&& m@ == message
}

/// The list of all profiles.
pub open spec fn is_profile_list(d: Daemon, e: ControlEvent) -> bool {
    e matches ControlEvent::AgentProfileList { profiles } && profile_infos(profiles@) == merged(
        d.profiles.rows(),
        d.profiles.builtins(),
    ).map_values(|p| profile_info(p))
}

/// The list of the agents that the user can pick.
pub open spec fn is_adapter_list(d: Daemon, e: ControlEvent) -> bool {
    e matches ControlEvent::AdapterList { adapters } && adapter_infos(adapters@) == pickable(
        merged(d.profiles.rows(), d.profiles.builtins()),
    )
}

/// The list of the agents that run.
pub open spec fn is_worktree_list(s: DaemonState, e: ControlEvent) -> bool {
    e matches ControlEvent::WorktreeList { worktrees } && is_listing(s, s.agents.dom(), worktrees@)
}

/// The list of the projects.
pub open spec fn is_project_list(d: Daemon, e: ControlEvent) -> bool {
    e matches ControlEvent::ProjectList { projects } && projects@.map_values(|p: ProjectInfo| p@)
        == by_path(d.projects.rows()).map_values(|r| info_of(r))
}

/// What a change of the profiles comes to: all of them are listed, or it is told why not.
pub open spec fn is_profile_change(after: Daemon, fault: Option<Seq<char>>, h: Handled) -> bool {
    match fault {
        Some(e) => is_error(h, e),
        None => h matches Handled::Reply(e, effects) && is_profile_list(after, e) && effects@ == seq![
            Effect::SaveProfiles,
            Effect::ProfilesChanged,
        ],
    }
}

/// What a request does and is answered.
pub open spec fn is_handled(before: Daemon, after: Daemon, req: ControlRequest, h: Handled) -> bool {
    match req {
        ControlRequest::ListWorktrees => {
            &&& after == before
            &&& h matches Handled::Reply(e, effects) && effects@.len() == 0 && is_worktree_list(
                before.state(),
                e,
            )
        },
        ControlRequest::ListAdapters => {
            &&& after == before
            &&& h matches Handled::Reply(e, effects) && effects@.len() == 0 && is_adapter_list(before, e)
        },
        ControlRequest::ListProjects => {
            &&& after == before
            &&& h matches Handled::Reply(e, effects) && effects@.len() == 0 && is_project_list(before, e)
        },
        ControlRequest::ListAgentProfiles => {
            &&& after == before
            &&& h matches Handled::Reply(e, effects) && effects@.len() == 0 && is_profile_list(before, e)
        },
        ControlRequest::GetSplitTree { agent } => {
            &&& after == before
            &&& h matches Handled::Reply(e, effects) && effects@.len() == 0 && is_tree_event(
                before.state(),
                agent,
                e,
            )
        },
        ControlRequest::ClosePane { pane } => exists|r: Result<Close, String>|
            {
                &&& #[trigger] is_close(before, after, pane, r)
                &&& match r {
                    Ok(Close::Terminal(root, fx)) => h == Handled::Reply(
                        ControlEvent::ProjectTerminalClosed { path: root },
                        fx,
                    ),
                    Ok(Close::Agent) => h == Handled::Work(Work::CloseAgent { pane }),
                    Ok(Close::Companion(root, fx)) => h matches Handled::Reply(e, effects) && effects == fx
                        && is_tree_event(after.state(), root, e),
                    Err(m) => is_error(h, m@),
                }
            },
        ControlRequest::SetSplitRatio { split, ratio } => exists|
            r: Result<(PaneId, Vec<Effect>), String>,
        |
            {
                &&& #[trigger] is_moved(before, after, split, ratio, r)
                &&& match r {
                    Ok((root, fx)) => h matches Handled::Reply(e, effects) && effects == fx
                        && is_tree_event(after.state(), root, e),
                    Err(m) => is_error(h, m@),
                }
            },
        ControlRequest::AddAgentProfile { profile } => {
            let fault = agent_profiles::add_refusal(
                before.profiles.builtins(),
                before.profiles.rows(),
                stored(profile@),
            );
            &&& after.keeps_all_but_profiles(before)
            &&& after.profiles.rows() == (if fault is None {
                before.profiles.rows().push(stored(profile@))
            } else {
                before.profiles.rows()
            })
            &&& is_profile_change(after, fault, h)
        },
        ControlRequest::UpdateAgentProfile { profile } => {
            let fault = agent_profiles::update_refusal(
                before.profiles.builtins(),
                before.profiles.rows(),
                stored(profile@),
            );
            &&& after.keeps_all_but_profiles(before)
            &&& after.profiles.rows() == (if fault is None {
                agent_profiles::without_id(before.profiles.rows(), profile@.id).push(stored(profile@))
            } else {
                before.profiles.rows()
            })
            &&& is_profile_change(after, fault, h)
        },
        ControlRequest::RemoveAgentProfile { id } => {
            let fault = agent_profiles::remove_refusal(
                before.profiles.builtins(),
                before.profiles.rows(),
                id@,
            );
            &&& after.keeps_all_but_profiles(before)
            &&& after.profiles.rows() == (if fault is None {
                agent_profiles::without_id(before.profiles.rows(), id@)
            } else {
                before.profiles.rows()
            })
            &&& is_profile_change(after, fault, h)
        },
        ControlRequest::SpawnAgent { project, name, adapter } => after == before && h == Handled::Work(
            Work::Spawn { project, name, adapter },
        ),
        ControlRequest::SplitPane { pane, direction } => after == before && h == Handled::Work(
            Work::Split { pane, direction },
        ),
        ControlRequest::LandAgent { pane } => after == before && h == Handled::Work(Work::Land { pane }),
        ControlRequest::DiscardAgent { pane } => after == before && h == Handled::Work(
            Work::Discard { pane },
        ),
        ControlRequest::AddProject { path } => after == before && h == Handled::Work(
            Work::AddProject { path },
        ),
        ControlRequest::RemoveProject { path } => after == before && h == Handled::Work(
            Work::RemoveProject { path },
        ),
        ControlRequest::RestartWorktree { pane } => after == before && h == Handled::Work(
            Work::Restart { pane },
        ),
        ControlRequest::OpenProjectTerminal { path } => after == before && h == Handled::Work(
            Work::OpenTerminal { path },
        ),
    }
}

/// The answer to a request that needed work outside.
pub open spec fn is_answer(d: Daemon, outcome: Outcome, e: ControlEvent) -> bool {
    match outcome {
        Outcome::Spawned(Ok(pane)) => e == (ControlEvent::AgentSpawned { pane }),
        Outcome::Split(Ok(companion)) => if d.state().owner.dom().contains(companion.0) {
            is_tree_event(d.state(), PaneId(d.state().owner[companion.0]), e)
        } else {
            e matches ControlEvent::Error { message } && message@ == "split produced no owner"@
        },
        Outcome::ClosedAgent(pane, Ok(_)) | Outcome::Finished(pane, Ok(_)) => e == (
        ControlEvent::AgentRemoved { pane }),
        Outcome::ProjectAdded(Ok(rec)) => e matches ControlEvent::ProjectAdded { project }
            && project@ == info_of(rec@),
        Outcome::ProjectRemoved(path, Ok(_)) => e == (ControlEvent::ProjectRemoved { path }),
        Outcome::Restarted(pane, Ok(_)) => is_tree_event(d.state(), pane, e),
        Outcome::TerminalOpened(path, Ok(pane)) => e == (ControlEvent::ProjectTerminalOpened {
            path,
            pane,
        }),
        Outcome::Spawned(Err(m))
        | Outcome::Split(Err(m))
        | Outcome::ClosedAgent(_, Err(m))
        | Outcome::Finished(_, Err(m))
        | Outcome::ProjectAdded(Err(m))
        | Outcome::ProjectRemoved(_, Err(m))
        | Outcome::Restarted(_, Err(m))
        | Outcome::TerminalOpened(_, Err(m)) => e == (ControlEvent::Error { message: m }),
        Outcome::Unread(why) => e matches ControlEvent::Error { message } && message@
            == "bad request: "@ + why@,
    }
}

/// How a line of a control connection is dealt with, given the request that it holds or why it holds
/// none. A blank line is passed over.
pub open spec fn is_line_handled(
    before: Daemon,
    after: Daemon,
    line: Seq<char>,
    read: Result<ControlRequest, String>,
    h: Option<Handled>,
) -> bool {
    if trimmed(line).len() == 0 {
        after == before && h is None
    } else {
        match read {
            Ok(req) => h matches Some(x) && is_handled(before, after, req, x),
            Err(why) => {
                &&& after == before
                &&& h matches Some(Handled::Reply(e, effects))
                &&& effects@.len() == 0
                &&& is_answer(before, Outcome::Unread(why), e)
            },
        }
    }
}

/// A line of a control connection is dealt with exactly where it is not blank, and then in one of two
/// ways: by one answer, or by work that ends in one. A blank line changes nothing.
pub proof fn law_a_line_is_passed_over_only_if_blank(
    before: Daemon,
    after: Daemon,
    line: Seq<char>,
    read: Result<ControlRequest, String>,
    h: Option<Handled>,
)
    requires
        is_line_handled(before, after, line, read, h),
    ensures
        h is None <==> trimmed(line).len() == 0,
        h is None ==> after == before,
        h matches Some(Handled::Work(_)) ==> read is Ok,
{
}

/// What a client of a control connection is told of news; none where the connection ends with it.
pub open spec fn is_told(d: Daemon, news: News, events: Option<Vec<ControlEvent>>) -> bool {
    match news {
        News::Ended => events is None,
        News::Missed => events matches Some(v) && v@.len() == 0,
        News::Attention(pane, state) => events matches Some(v) && v@ == seq![
            ControlEvent::AttentionChanged { pane, state },
        ],
        News::Removed(pane) => events matches Some(v) && v@ == seq![
            ControlEvent::AgentRemoved { pane },
        ],
        News::Tree(agent, tree) => events matches Some(v) && v@ == seq![
            ControlEvent::SplitTreeChanged { agent, tree },
        ],
        News::Project(change) => events matches Some(v) && v@.len() == 1 && match change {
            ProjectChange::Added(rec) => v@[0] matches ControlEvent::ProjectAdded { project }
                && project@ == info_of(rec@),
            ProjectChange::Removed(path) => v@[0] == (ControlEvent::ProjectRemoved { path }),
            ProjectChange::TerminalClosed(path) => v@[0] == (ControlEvent::ProjectTerminalClosed {
                path,
            }),
        },
        News::Profiles => events matches Some(v) && v@.len() == 2 && is_profile_list(d, v@[0])
            && is_adapter_list(d, v@[1]),
    }
}

fn told(e: ControlEvent) -> (h: Handled)
    ensures
        h matches Handled::Reply(x, effects) && x == e && effects@.len() == 0,
{
    Handled::Reply(e, Vec::new())
}

fn failed(message: String) -> (h: Handled)
    ensures
        is_error(h, message@),
{
    told(ControlEvent::Error { message })
}

/// Whether a line of a control connection says nothing.
pub fn is_blank(line: &str) -> (yes: bool)
    ensures
        yes == (trimmed(line@).len() == 0),
{
    text::trim(line).as_str().is_empty()
}

/// A change to the projects, as clients are told of it.
pub fn project_event(change: ProjectChange) -> (e: ControlEvent)
    ensures
        match change {
            ProjectChange::Added(rec) => e matches ControlEvent::ProjectAdded { project } && project@
                == info_of(rec@),
            ProjectChange::Removed(path) => e == (ControlEvent::ProjectRemoved { path }),
            ProjectChange::TerminalClosed(path) => e == (ControlEvent::ProjectTerminalClosed { path }),
        },
{
    match change {
        ProjectChange::Added(rec) => ControlEvent::ProjectAdded { project: lists::project_info(&rec) },
        ProjectChange::Removed(path) => ControlEvent::ProjectRemoved { path },
        ProjectChange::TerminalClosed(path) => ControlEvent::ProjectTerminalClosed { path },
    }
}

impl Daemon {
    fn profiles_told(&self) -> (e: ControlEvent)
        ensures
            is_profile_list(*self, e),
    {
        let profiles = self.list_agent_profiles();
        assert(merged(self.profiles.rows(), self.profiles.builtins()).map_values(|p| profile_info(p)) =~= merged(
            self.profiles.rows(),
            self.profiles.builtins(),
        ).map_values(|e: crate::config::agents::EffectiveProfileView| profile_info(e)));
        ControlEvent::AgentProfileList { profiles }
    }

    fn adapters_told(&self) -> (e: ControlEvent)
        ensures
            is_adapter_list(*self, e),
    {
        ControlEvent::AdapterList { adapters: self.list_adapters() }
    }

    fn changed(&self, r: Result<Vec<Effect>, String>) -> (h: Handled)
        requires
            lists::profile_news(r),
        ensures
            is_profile_change(*self, lists::fault_of(r), h),
    {
        match r {
            Ok(effects) => Handled::Reply(self.profiles_told(), effects),
            Err(e) => failed(e),
        }
    }

    /// Deal with a request.
    pub fn handle_request(&mut self, req: ControlRequest) -> (h: Handled)
        ensures
            is_handled(*old(self), *final(self), req, h),
    {
        match req {
            ControlRequest::ListWorktrees => told(
                ControlEvent::WorktreeList { worktrees: self.list_worktrees() },
            ),
            ControlRequest::ListAdapters => told(self.adapters_told()),
            ControlRequest::ListProjects => {
                let projects = self.list_projects();
                assert(by_path(self.projects.rows()).map_values(|r| info_of(r)) =~= by_path(
                    self.projects.rows(),
                ).map_values(|r: crate::daemon::projects::ProjectRecordView| info_of(r)));
                told(ControlEvent::ProjectList { projects })
            },
            ControlRequest::ListAgentProfiles => told(self.profiles_told()),
            ControlRequest::GetSplitTree { agent } => told(self.tree_event(agent)),
            ControlRequest::ClosePane { pane } => {
                let r = self.close_pane(pane);
                assert(is_close(*old(self), *self, pane, r));
                match r {
                    Ok(Close::Terminal(root, effects)) => Handled::Reply(
                        ControlEvent::ProjectTerminalClosed { path: root },
                        effects,
                    ),
                    Ok(Close::Agent) => Handled::Work(Work::CloseAgent { pane }),
                    Ok(Close::Companion(root, effects)) => Handled::Reply(self.tree_event(root), effects),
                    Err(e) => failed(e),
                }
            },
            ControlRequest::SetSplitRatio { split, ratio } => {
                let r = self.set_split_ratio(split, ratio);
                assert(is_moved(*old(self), *self, split, ratio, r));
                match r {
                    Ok((root, effects)) => Handled::Reply(self.tree_event(root), effects),
                    Err(e) => failed(e),
                }
            },
            ControlRequest::AddAgentProfile { profile } => {
                let r = self.add_agent_profile(profile);
                self.changed(r)
            },
            ControlRequest::UpdateAgentProfile { profile } => {
                let r = self.update_agent_profile(profile);
                self.changed(r)
            },
            ControlRequest::RemoveAgentProfile { id } => {
                let r = self.remove_agent_profile(id.as_str());
                self.changed(r)
            },
            ControlRequest::SpawnAgent { project, name, adapter } => Handled::Work(
                Work::Spawn { project, name, adapter },
            ),
            ControlRequest::SplitPane { pane, direction } => Handled::Work(Work::Split { pane, direction }),
            ControlRequest::LandAgent { pane } => Handled::Work(Work::Land { pane }),
            ControlRequest::DiscardAgent { pane } => Handled::Work(Work::Discard { pane }),
            ControlRequest::AddProject { path } => Handled::Work(Work::AddProject { path }),
            ControlRequest::RemoveProject { path } => Handled::Work(Work::RemoveProject { path }),
            ControlRequest::RestartWorktree { pane } => Handled::Work(Work::Restart { pane }),
            ControlRequest::OpenProjectTerminal { path } => Handled::Work(Work::OpenTerminal { path }),
        }
    }

    /// Deal with a line of a control connection, given the request that it holds or why it holds none.
    pub fn handle_line(&mut self, line: &str, read: Result<ControlRequest, String>) -> (h: Option<Handled>)
        ensures
            is_line_handled(*old(self), *final(self), line@, read, h),
    {
        if is_blank(line) {
            return None;
        }
        match read {
            Ok(req) => Some(self.handle_request(req)),
            Err(why) => Some(told(self.answer(Outcome::Unread(why)))),
        }
    }

    /// The answer to a request that needed work outside.
    pub fn answer(&self, outcome: Outcome) -> (e: ControlEvent)
        ensures
            is_answer(*self, outcome, e),
    {
        match outcome {
            Outcome::Spawned(Ok(pane)) => ControlEvent::AgentSpawned { pane },
            Outcome::Split(Ok(companion)) => match self.owner_of(companion) {
                Some(root) => self.tree_event(root),
                None => ControlEvent::Error { message: "split produced no owner".to_owned() },
            },
            Outcome::ClosedAgent(pane, Ok(_)) => ControlEvent::AgentRemoved { pane },
            Outcome::Finished(pane, Ok(_)) => ControlEvent::AgentRemoved { pane },
            Outcome::ProjectAdded(Ok(rec)) => ControlEvent::ProjectAdded {
                project: lists::project_info(&rec),
            },
            Outcome::ProjectRemoved(path, Ok(_)) => ControlEvent::ProjectRemoved { path },
            Outcome::Restarted(pane, Ok(_)) => self.tree_event(pane),
            Outcome::TerminalOpened(path, Ok(pane)) => ControlEvent::ProjectTerminalOpened { path, pane },
            Outcome::Spawned(Err(m)) => ControlEvent::Error { message: m },
            Outcome::Split(Err(m)) => ControlEvent::Error { message: m },
            Outcome::ClosedAgent(_, Err(m)) => ControlEvent::Error { message: m },
            Outcome::Finished(_, Err(m)) => ControlEvent::Error { message: m },
            Outcome::ProjectAdded(Err(m)) => ControlEvent::Error { message: m },
            Outcome::ProjectRemoved(_, Err(m)) => ControlEvent::Error { message: m },
            Outcome::Restarted(_, Err(m)) => ControlEvent::Error { message: m },
            Outcome::TerminalOpened(_, Err(m)) => ControlEvent::Error { message: m },
            Outcome::Unread(why) => {
                let mut m = "bad request: ".to_owned();
                m.append(why.as_str());
                ControlEvent::Error { message: m }
            },
        }
    }

    /// What a client of a control connection is told first.
    pub fn control_greeting(&self) -> (e: ControlEvent)
        ensures
            is_worktree_list(self.state(), e),
    {
        ControlEvent::WorktreeList { worktrees: self.list_worktrees() }
    }

    /// What a client of a control connection is told of news; none where the connection ends with it.
    pub fn tell(&self, news: News) -> (events: Option<Vec<ControlEvent>>)
        ensures
            is_told(*self, news, events),
    {
        let mut v: Vec<ControlEvent> = Vec::new();
        match news {
            News::Ended => return None,
            News::Missed => {},
            News::Attention(pane, state) => {
                let e = ControlEvent::AttentionChanged { pane, state };
                v.push(e);
                assert(v@ =~= seq![e]);
            },
            News::Removed(pane) => {
                let e = ControlEvent::AgentRemoved { pane };
                v.push(e);
                assert(v@ =~= seq![e]);
            },
            News::Tree(agent, tree) => {
                let e = ControlEvent::SplitTreeChanged { agent, tree };
                v.push(e);
                assert(v@ =~= seq![e]);
            },
            News::Project(change) => v.push(project_event(change)),
            News::Profiles => {
                v.push(self.profiles_told());
                v.push(self.adapters_told());
            },
        }
        Some(v)
    }
}

/// News are told as they are: of the pane, the layout or the project that they are of, once each.
pub proof fn law_news_are_told_as_they_are(d: Daemon, news: News, events: Option<Vec<ControlEvent>>)
    requires
        is_told(d, news, events),
    ensures
        events is None <==> news is Ended,
        news is Missed ==> events->0@.len() == 0,
        news matches News::Attention(pane, state) ==> {
            &&& events->0@.len() == 1
            &&& events->0@[0] matches ControlEvent::AttentionChanged { pane: p, state: s }
            &&& p == pane && s == state
        },
        news matches News::Removed(pane) ==> {
            &&& events->0@.len() == 1
            &&& events->0@[0] matches ControlEvent::AgentRemoved { pane: p }
            &&& p == pane
        },
        news matches News::Tree(agent, tree) ==> {
            &&& events->0@.len() == 1
            &&& events->0@[0] matches ControlEvent::SplitTreeChanged { agent: a, tree: t }
            &&& a == agent && t == tree
        },
        news matches News::Project(ProjectChange::Added(rec)) ==> {
            &&& events->0@.len() == 1
            &&& events->0@[0] matches ControlEvent::ProjectAdded { project }
            &&& project.path@ == rec.path@ && project.kind@ == rec.kind@
        },
        news matches News::Project(ProjectChange::Removed(path)) ==> {
            &&& events->0@.len() == 1
            &&& events->0@[0] matches ControlEvent::ProjectRemoved { path: p }
            &&& p@ == path@
        },
        news matches News::Project(ProjectChange::TerminalClosed(path)) ==> {
            &&& events->0@.len() == 1
            &&& events->0@[0] matches ControlEvent::ProjectTerminalClosed { path: p }
            &&& p@ == path@
        },
        news is Profiles ==> events->0@.len() == 2 && events->0@[0] is AgentProfileList
            && events->0@[1] is AdapterList,
{
}

/// A request that needs work outside asks for the work that it names, of the pane or the path that it
/// names, and changes nothing before that.
pub proof fn law_a_request_asks_for_its_own_work(
    before: Daemon,
    after: Daemon,
    req: ControlRequest,
    w: Work,
)
    requires
        is_handled(before, after, req, Handled::Work(w)),
    ensures
        req matches ControlRequest::LandAgent { pane } ==> w is Land && w->Land_pane == pane,
        req matches ControlRequest::DiscardAgent { pane } ==> w is Discard && w->Discard_pane == pane,
        req matches ControlRequest::ClosePane { pane } ==> w is CloseAgent && w->CloseAgent_pane == pane
            && before.state().trees.dom().contains(pane.0),
        req matches ControlRequest::RestartWorktree { pane } ==> w is Restart && w->Restart_pane == pane,
        req matches ControlRequest::SplitPane { pane, direction } ==> w is Split && w->Split_pane == pane
            && w->direction == direction,
        req matches ControlRequest::SpawnAgent { project, name, adapter } ==> w is Spawn && w->project
            == project && w->name == name && w->adapter == adapter,
        req matches ControlRequest::AddProject { path } ==> w is AddProject && w->AddProject_path == path,
        req matches ControlRequest::RemoveProject { path } ==> w is RemoveProject && w->RemoveProject_path
            == path,
        req matches ControlRequest::OpenProjectTerminal { path } ==> w is OpenTerminal
            && w->OpenTerminal_path == path,
        after.state() == before.state(),
        !(req is ListWorktrees || req is ListAdapters || req is ListProjects || req is ListAgentProfiles
            || req is GetSplitTree || req is SetSplitRatio || req is AddAgentProfile
            || req is UpdateAgentProfile || req is RemoveAgentProfile),
{
}

/// Each list request is answered by its list, and a question for a layout by that of the agent it names;
/// neither changes anything.
pub proof fn law_questions_change_nothing(before: Daemon, after: Daemon, req: ControlRequest, h: Handled)
    requires
        is_handled(before, after, req, h),
        req is ListWorktrees || req is ListAdapters || req is ListProjects || req is ListAgentProfiles
            || req is GetSplitTree,
    ensures
        after == before,
        h matches Handled::Reply(e, effects) && {
            &&& effects@.len() == 0
            &&& req is ListWorktrees ==> e is WorktreeList
            &&& req is ListAdapters ==> e is AdapterList
            &&& req is ListProjects ==> e is ProjectList
            &&& req is ListAgentProfiles ==> e is AgentProfileList
            &&& req matches ControlRequest::GetSplitTree { agent } ==> {
                &&& before.state().trees.dom().contains(agent.0) ==> e == (
                ControlEvent::SplitTreeChanged { agent, tree: before.state().trees[agent.0] })
                &&& !before.state().trees.dom().contains(agent.0) ==> e is Error
            }
        },
{
}

/// What work outside came to is answered of the pane or the path that it was for; what failed is answered by
/// the reason, and nothing else.
pub proof fn law_an_answer_says_how_it_went(d: Daemon, outcome: Outcome, e: ControlEvent)
    requires
        is_answer(d, outcome, e),
    ensures
        outcome matches Outcome::Spawned(Ok(pane)) ==> e is AgentSpawned && e->AgentSpawned_pane == pane,
        outcome matches Outcome::ClosedAgent(pane, Ok(_)) ==> e is AgentRemoved && e->AgentRemoved_pane
            == pane,
        outcome matches Outcome::Finished(pane, Ok(_)) ==> e is AgentRemoved && e->AgentRemoved_pane == pane,
        outcome matches Outcome::ProjectAdded(Ok(rec)) ==> e is ProjectAdded && e->project.path@ == rec.path@
            && e->project.kind@ == rec.kind@,
        outcome matches Outcome::ProjectRemoved(path, Ok(_)) ==> e is ProjectRemoved
            && e->ProjectRemoved_path == path,
        outcome matches Outcome::TerminalOpened(path, Ok(pane)) ==> e is ProjectTerminalOpened
            && e->ProjectTerminalOpened_path == path && e->ProjectTerminalOpened_pane == pane,
        outcome matches Outcome::Restarted(pane, Ok(_)) ==> d.state().trees.dom().contains(pane.0)
            ==> e is SplitTreeChanged && e->SplitTreeChanged_agent == pane && e->tree
            == d.state().trees[pane.0],
        outcome matches Outcome::Spawned(Err(m)) ==> e is Error && e->message@ == m@,
        outcome matches Outcome::Split(Err(m)) ==> e is Error && e->message@ == m@,
        outcome matches Outcome::ClosedAgent(_, Err(m)) ==> e is Error && e->message@ == m@,
        outcome matches Outcome::Finished(_, Err(m)) ==> e is Error && e->message@ == m@,
        outcome matches Outcome::ProjectAdded(Err(m)) ==> e is Error && e->message@ == m@,
        outcome matches Outcome::ProjectRemoved(_, Err(m)) ==> e is Error && e->message@ == m@,
        outcome matches Outcome::Restarted(_, Err(m)) ==> e is Error && e->message@ == m@,
        outcome matches Outcome::TerminalOpened(_, Err(m)) ==> e is Error && e->message@ == m@,
        outcome matches Outcome::Unread(why) ==> e is Error && why@.is_suffix_of(e->message@),
{
    if let Outcome::Unread(why) = outcome {
        assert(why@ =~= e->message@.skip(e->message@.len() - why@.len()));
    }
}

/// A change of the profiles that is refused is answered by the reason and changes nothing; one that is not
/// is answered by the profiles as they are then, and is stored and told.
pub proof fn law_a_profile_change_is_told_or_refused(
    before: Daemon,
    after: Daemon,
    req: ControlRequest,
    h: Handled,
)
    requires
        is_handled(before, after, req, h),
        req is AddAgentProfile || req is UpdateAgentProfile || req is RemoveAgentProfile,
    ensures
        after.state() == before.state(),
        h matches Handled::Reply(e, effects) && {
            &&& e is Error ==> after.profiles.rows() == before.profiles.rows() && effects@.len() == 0
            &&& !(e is Error) ==> {
                &&& e is AgentProfileList
                &&& profile_infos(e->profiles@).len() == after.profiles.in_effect().len()
                &&& effects@.contains(Effect::SaveProfiles)
                &&& effects@.contains(Effect::ProfilesChanged)
            }
        },
        req matches ControlRequest::AddAgentProfile { profile } ==> h matches Handled::Reply(e, effects) && (
        !(e is Error) ==> after.profiles.rows().last().id == profile.id@ && after.profiles.rows().last().args
            == profile.args@ && after.profiles.rows().last().base == profile.base@
            && after.profiles.rows().last().enabled == profile.enabled),
{
    if let Handled::Reply(e, effects) = h {
        if !(e is Error) {
            assert(effects@[0] == Effect::SaveProfiles);
            assert(effects@[1] == Effect::ProfilesChanged);
        }
    }
}

/// A request for work outside always leads to that work: it is never answered before it is done.
pub proof fn law_work_is_never_answered_before_it_is_done(
    before: Daemon,
    after: Daemon,
    req: ControlRequest,
    h: Handled,
)
    requires
        is_handled(before, after, req, h),
        req is SpawnAgent || req is SplitPane || req is LandAgent || req is DiscardAgent || req is AddProject
            || req is RemoveProject || req is RestartWorktree || req is OpenProjectTerminal,
    ensures
        h is Work,
        after == before,
{
}

/// Closing a pane is answered by what the pane was: that the terminal of its project is closed, or how the
/// panes around it lie without it; the pane of an agent is left to be discarded, and one that there is not is
/// refused.
pub proof fn law_closing_is_answered_by_what_the_pane_was(
    before: Daemon,
    after: Daemon,
    pane: PaneId,
    h: Handled,
)
    requires
        is_handled(before, after, (ControlRequest::ClosePane { pane }), h),
    ensures
        ({
            let s = before.state();
            &&& s.terms.dom().contains(pane.0) ==> h is Reply && h->Reply_0 == (
            ControlEvent::ProjectTerminalClosed { path: s.terms[pane.0] })
            &&& !s.terms.dom().contains(pane.0) && s.trees.dom().contains(pane.0) ==> h == Handled::Work(
                Work::CloseAgent { pane },
            ) && after.state() == s
            &&& !s.terms.dom().contains(pane.0) && !s.trees.dom().contains(pane.0) && s.owner.dom().contains(
                pane.0,
            ) ==> {
                &&& h is Reply
                &&& !after.state().owner.dom().contains(pane.0)
                &&& after.state().trees.dom().contains(s.owner[pane.0]) ==> h->Reply_0 == (
                ControlEvent::SplitTreeChanged {
                    agent: PaneId(s.owner[pane.0]),
                    tree: after.state().trees[s.owner[pane.0]],
                })
            }
            &&& !s.terms.dom().contains(pane.0) && !s.trees.dom().contains(pane.0) && !s.owner.dom().contains(
                pane.0,
            ) ==> h is Reply && h->Reply_0 is Error && after.state() == s
        }),
{
    let r = choose|r: Result<Close, String>|
        {
            &&& #[trigger] is_close(before, after, pane, r)
            &&& match r {
                Ok(Close::Terminal(root, fx)) => h == Handled::Reply(
                    ControlEvent::ProjectTerminalClosed { path: root },
                    fx,
                ),
                Ok(Close::Agent) => h == Handled::Work(Work::CloseAgent { pane }),
                Ok(Close::Companion(root, fx)) => h matches Handled::Reply(e, effects) && effects == fx
                    && is_tree_event(after.state(), root, e),
                Err(m) => is_error(h, m@),
            }
        };
    crate::daemon::state::changes::law_closing_goes_by_what_the_pane_is(before, after, pane, r);
}

/// Moving a divider is answered by the layout that it is in, as it is then; one that there is not is refused,
/// and nothing moves.
pub proof fn law_moving_is_answered_by_the_layout(
    before: Daemon,
    after: Daemon,
    split: SplitId,
    ratio: Ratio,
    h: Handled,
)
    requires
        is_handled(before, after, (ControlRequest::SetSplitRatio { split, ratio }), h),
    ensures
        h is Reply,
        h->Reply_0 is Error ==> after.state() == before.state() && forall|n: u64| #[trigger]
            before.state().trees.dom().contains(n) ==> !split_seq(before.state().trees[n]).contains(split),
        h->Reply_0 matches ControlEvent::SplitTreeChanged { agent, tree } ==> {
            &&& before.state().trees.dom().contains(agent.0)
            &&& split_seq(before.state().trees[agent.0]).contains(split)
            &&& tree == after.state().trees[agent.0]
        },
        h->Reply_0 is Error || h->Reply_0 is SplitTreeChanged,
{
    let r = choose|r: Result<(PaneId, Vec<Effect>), String>|
        {
            &&& #[trigger] is_moved(before, after, split, ratio, r)
            &&& match r {
                Ok((root, fx)) => h matches Handled::Reply(e, effects) && effects == fx && is_tree_event(
                    after.state(),
                    root,
                    e,
                ),
                Err(m) => is_error(h, m@),
            }
        };
    match r {
        Ok((root, fx)) => {
            law_ratio_keeps_the_shape(before.state().trees[root.0], split, ratio);
            assert(after.state().trees.dom().contains(root.0));
        },
        Err(m) => {
            assert forall|n: u64| #[trigger] before.state().trees.dom().contains(n) implies !split_seq(
                before.state().trees[n],
            ).contains(split) by {
                law_ratio_keeps_the_shape(before.state().trees[n], split, ratio);
            }
        },
    }
}

/// A replaced profile is stored as it was sent, and a removed one is stored no more; the rows of other ids are
/// as before.
pub proof fn law_a_profile_is_replaced_or_removed(before: Daemon, after: Daemon, req: ControlRequest, h: Handled)
    requires
        is_handled(before, after, req, h),
        h is Reply && !(h->Reply_0 is Error),
    ensures
        req matches ControlRequest::UpdateAgentProfile { profile } ==> {
            &&& after.profiles.rows().last().id == profile.id@
            &&& after.profiles.rows().last().base == profile.base@
            &&& after.profiles.rows().last().args == profile.args@
            &&& after.profiles.rows().last().display_name == profile.display_name@
            &&& after.profiles.rows().last().enabled == profile.enabled
        },
        req matches ControlRequest::RemoveAgentProfile { id } ==> forall|k: int|
            0 <= k < after.profiles.rows().len() ==> (#[trigger] after.profiles.rows()[k]).id != id@,
{
    if let ControlRequest::RemoveAgentProfile { id } = req {
        lemma_no_such_row(before.profiles.rows(), id@);
    }
}

proof fn lemma_no_such_row(file: Seq<AgentProfileView>, id: Seq<char>)
    ensures
        forall|k: int|
            0 <= k < agent_profiles::without_id(file, id).len() ==> (
            #[trigger] agent_profiles::without_id(file, id)[k]).id != id,
    decreases file.len(),
{
    if file.len() > 0 {
        let before = agent_profiles::without_id(file.drop_last(), id);
        let left = agent_profiles::without_id(file, id);
        lemma_no_such_row(file.drop_last(), id);
        assert forall|k: int| 0 <= k < left.len() implies (#[trigger] left[k]).id != id by {
            if k < before.len() {
                assert(left[k] == before[k]);
            }
        }
    }
}

/// What is listed is what there is: every profile in effect in its order and as it is, of the agents to pick
/// the enabled ones, and every project by its path.
pub proof fn law_what_is_listed_is_there(
    before: Daemon,
    after: Daemon,
    req: ControlRequest,
    h: Handled,
    k: int,
)
    requires
        is_handled(before, after, req, h),
    ensures
        req is ListAgentProfiles && 0 <= k < before.profiles.in_effect().len() ==> {
            let list = h->Reply_0->profiles@;
            let p = before.profiles.in_effect()[k];
            &&& list.len() == before.profiles.in_effect().len()
            &&& list[k].id@ == p.profile.id && list[k].base@ == p.profile.base
            &&& list[k].args@ == p.profile.args && list[k].enabled == p.profile.enabled
            &&& list[k].display_name@ == p.profile.display_name && list[k].builtin == p.builtin
        },
        req is ListAdapters && 0 <= k < before.profiles.in_effect().len() && !(
        before.profiles.in_effect()[k].profile.enabled) && is_unrepeated(
            before.profiles.in_effect(),
            before.profiles.in_effect()[k].profile.id,
        ) ==> forall|j: int|
            0 <= j < h->Reply_0->adapters@.len() ==> (#[trigger] h->Reply_0->adapters@[j]).id@
                != before.profiles.in_effect()[k].profile.id,
        req is ListProjects ==> h->Reply_0->projects@.len() == before.projects.rows().len(),
{
    let all = before.profiles.in_effect();
    if req is ListAgentProfiles && 0 <= k < all.len() {
        let list = h->Reply_0->profiles@;
        assert(profile_infos(list)[k] == all.map_values(|p| profile_info(p))[k]);
        assert(profile_infos(list).len() == list.len());
    }
    if req is ListAdapters {
        let list = h->Reply_0->adapters@;
        lists::law_only_enabled_agents_can_be_picked(all);
        assert(adapter_infos(list).len() == list.len());
        if 0 <= k < all.len() && !all[k].profile.enabled && is_unrepeated(all, all[k].profile.id) {
            assert forall|j: int| 0 <= j < list.len() implies (#[trigger] list[j]).id@ != all[k].profile.id by {
                assert(adapter_infos(list)[j] == (list[j].id@, list[j].display_name@));
                assert(lists::stands_for_enabled(all, pickable(all)[j]));
            }
        }
    }
    if req is ListProjects {
        let rows = before.projects.rows();
        let list = h->Reply_0->projects@;
        lists::law_projects_are_listed_in_order(rows);
        assert(by_path(rows).to_multiset().len() == rows.to_multiset().len());
        by_path(rows).to_multiset_ensures();
        rows.to_multiset_ensures();
        assert(list.map_values(|p: ProjectInfo| p@).len() == list.len());
        assert(by_path(rows).map_values(|r| info_of(r)).len() == by_path(rows).len());
    }
}

} // verus!
