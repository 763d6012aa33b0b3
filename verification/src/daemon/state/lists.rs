//! What clients list.

use vstd::prelude::*;

use crate::config::agents::{
    effective_rows, merged, refusal, AgentProfile, AgentProfileView, EffectiveProfileView,
};
use crate::daemon::agent_profiles;
use crate::daemon::agent_profiles::ResolvedProfile;
use crate::daemon::projects::{project_rows, ProjectRecord, ProjectRecordView};
use crate::daemon::state::{pane_text, with_pane, Daemon, DaemonState, Effect};
use crate::path;
use crate::path::{name_of, path_precedes};
use crate::proto::control::{
    AgentProfileInfo, AgentProfileInfoView, ControlEvent, ProjectInfo, ProjectInfoView,
};
use crate::proto::message::{
    AdapterInfo, AttentionState, PaneId, WorktreeInfo, WorktreeInfoView,
};
use crate::text;
use crate::text::precedes;

verus! {

/// What is listed of an agent. One whose state is not known works.
pub open spec fn listed(s: DaemonState, pane: u64) -> WorktreeInfoView {
    WorktreeInfoView {
        pane: PaneId(pane),
        project: s.agents[pane].project@,
        name: s.agents[pane].name@,
        branch: s.agents[pane].branch@,
        state: if s.attention.dom().contains(pane) {
            s.attention[pane]
        } else {
            AttentionState::Working
        },
    }
}

/// A worktree is listed before another: by the project, then by the number.
pub open spec fn listed_before(a: WorktreeInfoView, b: WorktreeInfoView) -> bool {
    precedes(a.project, b.project) || (a.project == b.project && a.pane.0 < b.pane.0)
}

/// The list of the agents among `ids`, in order.
pub open spec fn is_listing(s: DaemonState, ids: Set<u64>, list: Seq<WorktreeInfo>) -> bool {
    &&& forall|a: int, b: int|
        0 <= a < b < list.len() ==> listed_before((#[trigger] list[a])@, (#[trigger] list[b])@)
    &&& forall|k: int|
        0 <= k < list.len() ==> ids.contains((#[trigger] list[k])@.pane.0) && list[k]@ == listed(
            s,
            list[k]@.pane.0,
        )
    &&& forall|n: u64| #[trigger]
        ids.contains(n) ==> exists|k: int| 0 <= k < list.len() && (#[trigger] list[k])@ == listed(s, n)
}

/// A project as clients list it: its name is the last part of its path, or the whole path where that
/// ends in none.
pub open spec fn info_of(rec: ProjectRecordView) -> ProjectInfoView {
    ProjectInfoView {
        path: rec.path,
        name: match name_of(rec.path) {
            Some(n) => n,
            None => rec.path,
        },
        kind: rec.kind,
    }
}

/// A project as clients list it.
pub fn project_info(rec: &ProjectRecord) -> (info: ProjectInfo)
    ensures
        info@ == info_of(rec@),
{
    let name = match path::file_name(rec.path.as_str()) {
        Some(n) => n,
        None => rec.path.clone(),
    };
    ProjectInfo { path: rec.path.clone(), name, kind: rec.kind.clone() }
}

/// Where a path goes in an ordered list: before the first that it precedes, from index `from` on.
pub open spec fn spot(sorted: Seq<ProjectRecordView>, path: Seq<char>, from: int) -> int
    decreases sorted.len() - from,
{
    if from < 0 || from >= sorted.len() {
        sorted.len() as int
    } else if path_precedes(path, sorted[from].path) {
        from
    } else {
        spot(sorted, path, from + 1)
    }
}

/// The records in the order of their paths; those with the same path keep their order.
pub open spec fn by_path(all: Seq<ProjectRecordView>) -> Seq<ProjectRecordView>
    decreases all.len(),
{
    if all.len() == 0 {
        seq![]
    } else {
        let sorted = by_path(all.drop_last());
        sorted.insert(spot(sorted, all.last().path, 0), all.last())
    }
}

proof fn lemma_spot(sorted: Seq<ProjectRecordView>, path: Seq<char>, from: int)
    requires
        0 <= from <= sorted.len(),
    ensures
        from <= spot(sorted, path, from) <= sorted.len(),
        forall|k: int|
            from <= k < spot(sorted, path, from) ==> !path_precedes(path, (#[trigger] sorted[k]).path),
        spot(sorted, path, from) < sorted.len() ==> path_precedes(
            path,
            sorted[spot(sorted, path, from)].path,
        ),
    decreases sorted.len() - from,
{
    if from < sorted.len() && !path_precedes(path, sorted[from].path) {
        lemma_spot(sorted, path, from + 1);
    }
}

/// The listed projects are all that there are, none of them twice, in the order of their paths.
pub proof fn law_projects_are_listed_in_order(all: Seq<ProjectRecordView>)
    ensures
        by_path(all).to_multiset() == all.to_multiset(),
        forall|a: int, b: int|
            0 <= a < b < by_path(all).len() ==> !path_precedes(
                (#[trigger] by_path(all)[b]).path,
                (#[trigger] by_path(all)[a]).path,
            ),
    decreases all.len(),
{
    broadcast use vstd::seq_lib::group_to_multiset_ensures;

    if all.len() == 0 {
        assert(by_path(all) =~= all);
    } else {
        let before = all.drop_last();
        let sorted = by_path(before);
        let last = all.last();
        let at = spot(sorted, last.path, 0);
        law_projects_are_listed_in_order(before);
        lemma_spot(sorted, last.path, 0);
        assert(all =~= before.push(last));
        let out = sorted.insert(at, last);
        assert(out =~= sorted.take(at).push(last) + sorted.skip(at));
        vstd::seq_lib::to_multiset_insert(sorted, at, last);
        assert forall|a: int, b: int| 0 <= a < b < out.len() implies !path_precedes(
            (#[trigger] out[b]).path,
            (#[trigger] out[a]).path,
        ) by {
            let x = out[a].path;
            let y = out[b].path;
            if b == at {
                assert(out[a] == sorted[a]);
                assert(!path_precedes(last.path, sorted[a].path));
            } else if a == at {
                let first = sorted[at].path;
                assert(out[b] == sorted[b - 1]);
                if path_precedes(y, x) {
                    path::law_paths_are_ordered(y, x, first);
                    if b - 1 == at {
                        path::law_paths_are_ordered(y, y, y);
                    } else {
                        assert(!path_precedes(sorted[b - 1].path, sorted[at].path));
                    }
                }
            } else {
                let ka = if a < at {
                    a
                } else {
                    a - 1
                };
                let kb = if b < at {
                    b
                } else {
                    b - 1
                };
                assert(out[a] == sorted[ka]);
                assert(out[b] == sorted[kb]);
                assert(!path_precedes(sorted[kb].path, sorted[ka].path));
            }
        }
    }
}

/// The event tells the layout around an agent, or that it has none.
pub open spec fn is_tree_event(s: DaemonState, agent: PaneId, e: ControlEvent) -> bool {
    if s.trees.dom().contains(agent.0) {
        e == (ControlEvent::SplitTreeChanged { agent, tree: s.trees[agent.0] })
    } else {
        e matches ControlEvent::Error { message } && message@ == "no split tree for "@ + pane_text(agent.0)
    }
}

/// What is told of a profile.
pub open spec fn profile_info(e: EffectiveProfileView) -> AgentProfileInfoView {
    AgentProfileInfoView {
        id: e.profile.id,
        base: e.profile.base,
        display_name: e.profile.display_name,
        enabled: e.profile.enabled,
        args: e.profile.args,
        builtin: e.builtin,
    }
}

/// What the list of profiles says.
pub open spec fn profile_infos(all: Seq<AgentProfileInfo>) -> Seq<AgentProfileInfoView> {
    all.map_values(|p: AgentProfileInfo| p@)
}

/// What the list of agents to pick from says: the id of each and its name.
pub open spec fn adapter_infos(all: Seq<AdapterInfo>) -> Seq<(Seq<char>, Seq<char>)> {
    all.map_values(|a: AdapterInfo| (a.id@, a.display_name@))
}

/// The profiles that the user can pick: the enabled ones, in order.
pub open spec fn pickable(all: Seq<EffectiveProfileView>) -> Seq<(Seq<char>, Seq<char>)>
    decreases all.len(),
{
    if all.len() == 0 {
        seq![]
    } else if all.last().profile.enabled {
        pickable(all.drop_last()).push((all.last().profile.id, all.last().profile.display_name))
    } else {
        pickable(all.drop_last())
    }
}

/// What is stored of a profile that a client has sent: whether it is built in is not.
pub fn storage_profile(p: AgentProfileInfo) -> (s: AgentProfile)
    ensures
        s@ == stored(p@),
{
    AgentProfile {
        id: p.id,
        base: p.base,
        display_name: p.display_name,
        enabled: p.enabled,
        args: p.args,
    }
}

/// What is stored of a profile that a client has sent.
pub open spec fn stored(p: AgentProfileInfoView) -> AgentProfileView {
    AgentProfileView {
        id: p.id,
        base: p.base,
        display_name: p.display_name,
        enabled: p.enabled,
        args: p.args,
    }
}

/// What follows a change of the profiles; nothing follows a refusal.
pub open spec fn profile_news(r: Result<Vec<Effect>, String>) -> bool {
    r matches Ok(effects) ==> effects@ == seq![Effect::SaveProfiles, Effect::ProfilesChanged]
}

/// Why a change was refused.
pub open spec fn fault_of(r: Result<Vec<Effect>, String>) -> Option<Seq<char>> {
    match r {
        Ok(_) => None,
        Err(e) => Some(e@),
    }
}

fn profiles_changed(r: Result<(), String>) -> (out: Result<Vec<Effect>, String>)
    ensures
        fault_of(out) == refusal(r),
        profile_news(out),
{
    match r {
        Ok(_) => {
            let mut effects: Vec<Effect> = Vec::new();
            effects.push(Effect::SaveProfiles);
            effects.push(Effect::ProfilesChanged);
            assert(effects@ =~= seq![Effect::SaveProfiles, Effect::ProfilesChanged]);
            Ok(effects)
        },
        Err(e) => Err(e),
    }
}

impl Daemon {
    fn info_for(&self, pane: u64) -> (info: Option<WorktreeInfo>)
        ensures
            match info {
                Some(i) => self.state().agents.dom().contains(pane) && i@ == listed(self.state(), pane),
                None => !self.state().agents.dom().contains(pane),
            },
    {
        match self.maps.agents.get(pane) {
            Some(meta) => {
                let state = match self.attention_of(PaneId(pane)) {
                    Some(s) => s,
                    None => AttentionState::Working,
                };
                Some(
                    WorktreeInfo {
                        pane: PaneId(pane),
                        project: meta.project.clone(),
                        name: meta.name.clone(),
                        branch: meta.branch.clone(),
                        state,
                    },
                )
            },
            None => None,
        }
    }

    /// The agents, by project and then by number.
    pub fn list_worktrees(&self) -> (list: Vec<WorktreeInfo>)
        ensures
            is_listing(self.state(), self.state().agents.dom(), list@),
    {
        let ids = self.maps.agents.keys();
        let mut list: Vec<WorktreeInfo> = Vec::new();
        let ghost s = self.state();
        let mut i: usize = 0;
        while i < ids.len()
            invariant
                i <= ids.len(),
                s == self.state(),
                forall|a: int, b: int| 0 <= a < b < ids@.len() ==> #[trigger] ids@[a] < #[trigger] ids@[b],
                forall|n: u64| #[trigger] s.agents.dom().contains(n) <==> ids@.contains(n),
                is_listing(s, ids@.take(i as int).to_set(), list@),
            decreases ids.len() - i,
        {
            let id = ids[i];
            let ghost done = ids@.take(i as int);
            let ghost now = ids@.take(i + 1);
            proof {
                assert(ids@.contains(id));
                assert(s.agents.dom().contains(id));
                assert forall|n: u64| #[trigger] now.to_set().contains(n) <==> done.to_set().contains(n)
                    || n == id by {
                    if done.contains(n) {
                        let k = choose|k: int| 0 <= k < done.len() && done[k] == n;
                        assert(now[k] == n);
                    }
                    if n == id {
                        assert(now[i as int] == n);
                    }
                    if now.contains(n) && n != id {
                        let k = choose|k: int| 0 <= k < now.len() && now[k] == n;
                        assert(done[k] == n);
                    }
                }
                assert forall|n: u64| #[trigger] done.to_set().contains(n) implies n < id by {
                    let k = choose|k: int| 0 <= k < done.len() && done[k] == n;
                    assert(ids@[k] < ids@[i as int]);
                }
            }
            match self.info_for(id) {
                Some(info) => {
                    let mut at: usize = 0;
                    while at < list.len() && !text::before(
                        info.project.as_str(),
                        list[at].project.as_str(),
                    )
                        invariant
                            at <= list.len(),
                            forall|k: int|
                                0 <= k < at ==> !precedes(info@.project, (#[trigger] list@[k])@.project),
                        decreases list.len() - at,
                    {
                        at = at + 1;
                    }
                    let ghost before = list@;
                    proof {
                        self.lemma_listing_grows(s, done.to_set(), now.to_set(), before, info, at as int);
                    }
                    list.insert(at, info);
                },
                None => {},
            }
            i = i + 1;
        }
        assert(ids@.take(ids@.len() as int) =~= ids@);
        assert(ids@.to_set() =~= s.agents.dom());
        list
    }

    proof fn lemma_listing_grows(
        &self,
        s: DaemonState,
        done: Set<u64>,
        now: Set<u64>,
        before: Seq<WorktreeInfo>,
        info: WorktreeInfo,
        at: int,
    )
        requires
            is_listing(s, done, before),
            info@ == listed(s, info@.pane.0),
            forall|n: u64| #[trigger] now.contains(n) <==> done.contains(n) || n == info@.pane.0,
            forall|n: u64| #[trigger] done.contains(n) ==> n < info@.pane.0,
            0 <= at <= before.len(),
            forall|k: int| 0 <= k < at ==> !precedes(info@.project, (#[trigger] before[k])@.project),
            at < before.len() ==> precedes(info@.project, before[at]@.project),
        ensures
            is_listing(s, now, before.insert(at, info)),
    {
        let list = before.insert(at, info);
        assert forall|a: int, b: int| 0 <= a < b < list.len() implies listed_before(
            (#[trigger] list[a])@,
            (#[trigger] list[b])@,
        ) by {
            if b == at {
                assert(list[a] == before[a]);
                assert(!precedes(info@.project, before[a]@.project));
                text::lemma_precedes_total(info@.project, before[a]@.project);
                assert(done.contains(before[a]@.pane.0));
            } else if a == at {
                assert(list[b] == before[b - 1]);
                if b - 1 > at {
                    assert(listed_before(before[at]@, before[b - 1]@));
                    if precedes(before[at]@.project, before[b - 1]@.project) {
                        text::lemma_precedes_transitive(
                            info@.project,
                            before[at]@.project,
                            before[b - 1]@.project,
                        );
                    }
                }
            } else {
                let ka = if a < at {
                    a
                } else {
                    a - 1
                };
                let kb = if b < at {
                    b
                } else {
                    b - 1
                };
                assert(list[a] == before[ka]);
                assert(list[b] == before[kb]);
                assert(listed_before(before[ka]@, before[kb]@));
            }
        }
        assert forall|k: int| 0 <= k < list.len() implies now.contains((#[trigger] list[k])@.pane.0)
            && list[k]@ == listed(s, list[k]@.pane.0) by {
            if k != at {
                let j = if k < at {
                    k
                } else {
                    k - 1
                };
                assert(list[k] == before[j]);
                assert(done.contains(before[j]@.pane.0));
            }
        }
        assert forall|n: u64| #[trigger] now.contains(n) implies exists|k: int|
            0 <= k < list.len() && (#[trigger] list[k])@ == listed(s, n) by {
            if n == info@.pane.0 {
                assert(list[at]@ == listed(s, n));
            } else {
                assert(done.contains(n));
                let k = choose|k: int| 0 <= k < before.len() && (#[trigger] before[k])@ == listed(s, n);
                let j = if k < at {
                    k
                } else {
                    k + 1
                };
                assert(list[j] == before[k]);
            }
        }
    }

    /// The projects, in the order of their paths.
    pub fn list_projects(&self) -> (list: Vec<ProjectInfo>)
        ensures
            list@.map_values(|p: ProjectInfo| p@) == by_path(self.projects.rows()).map_values(
                |r: ProjectRecordView| info_of(r),
            ),
    {
        let all = self.projects.list();
        let ghost rows = self.projects.rows();
        let mut sorted: Vec<ProjectRecord> = Vec::new();
        let mut i: usize = 0;
        assert(rows.take(0) =~= seq![]);
        assert(project_rows(sorted@) =~= seq![]);
        while i < all.len()
            invariant
                i <= all.len(),
                project_rows(all@) == rows,
                project_rows(sorted@) == by_path(rows.take(i as int)),
            decreases all.len() - i,
        {
            let rec = all[i].copied();
            let ghost before = sorted@;
            let ghost views = project_rows(before);
            proof {
                assert(rows.take(i + 1).drop_last() =~= rows.take(i as int));
                assert(rows.take(i + 1).last() == rec@);
            }
            let mut at: usize = 0;
            while at < sorted.len() && !path::path_before(rec.path.as_str(), sorted[at].path.as_str())
                invariant
                    at <= sorted.len(),
                    views == project_rows(sorted@),
                    spot(views, rec@.path, 0) == spot(views, rec@.path, at as int),
                decreases sorted.len() - at,
            {
                assert(views[at as int] == sorted@[at as int]@);
                at = at + 1;
            }
            proof {
                if at < sorted.len() {
                    assert(views[at as int] == sorted@[at as int]@);
                }
                assert(spot(views, rec@.path, 0) == at);
            }
            sorted.insert(at, rec);
            assert(project_rows(sorted@) =~= views.insert(at as int, rec@));
            i = i + 1;
        }
        assert(rows.take(rows.len() as int) =~= rows);
        let mut list: Vec<ProjectInfo> = Vec::new();
        let mut j: usize = 0;
        while j < sorted.len()
            invariant
                j <= sorted.len(),
                list@.len() == j,
                forall|k: int| 0 <= k < j ==> (#[trigger] list@[k])@ == info_of(sorted@[k]@),
            decreases sorted.len() - j,
        {
            list.push(project_info(&sorted[j]));
            j = j + 1;
        }
        assert(list@.map_values(|p: ProjectInfo| p@) =~= project_rows(sorted@).map_values(
            |r: ProjectRecordView| info_of(r),
        ));
        list
    }

    /// Every profile, enabled or not.
    pub fn list_agent_profiles(&self) -> (list: Vec<AgentProfileInfo>)
        ensures
            profile_infos(list@) == merged(self.profiles.rows(), self.profiles.builtins()).map_values(
                |e: EffectiveProfileView| profile_info(e),
            ),
    {
        let all = self.profiles.effective();
        let mut list: Vec<AgentProfileInfo> = Vec::new();
        let mut i: usize = 0;
        while i < all.len()
            invariant
                i <= all.len(),
                list@.len() == i,
                forall|k: int| 0 <= k < i ==> (#[trigger] list@[k])@ == profile_info(all@[k]@),
            decreases all.len() - i,
        {
            let e = &all[i];
            list.push(
                AgentProfileInfo {
                    id: e.profile.id.clone(),
                    base: e.profile.base.clone(),
                    display_name: e.profile.display_name.clone(),
                    enabled: e.profile.enabled,
                    args: e.profile.args.clone(),
                    builtin: e.builtin,
                },
            );
            i = i + 1;
        }
        assert(profile_infos(list@) =~= effective_rows(all@).map_values(
            |e: EffectiveProfileView| profile_info(e),
        ));
        list
    }

    /// The agents that the user can pick: the enabled profiles, in order.
    pub fn list_adapters(&self) -> (list: Vec<AdapterInfo>)
        ensures
            adapter_infos(list@) == pickable(merged(self.profiles.rows(), self.profiles.builtins())),
    {
        let all = self.profiles.effective();
        let ghost rows = effective_rows(all@);
        let mut list: Vec<AdapterInfo> = Vec::new();
        let mut i: usize = 0;
        assert(rows.take(0) =~= seq![]);
        assert(adapter_infos(list@) =~= seq![]);
        while i < all.len()
            invariant
                i <= all.len(),
                rows == effective_rows(all@),
                adapter_infos(list@) == pickable(rows.take(i as int)),
            decreases all.len() - i,
        {
            assert(rows.take(i + 1).drop_last() =~= rows.take(i as int));
            assert(rows.take(i + 1).last() == all@[i as int]@);
            let p = &all[i].profile;
            if p.enabled {
                let ghost before = list@;
                let info = AdapterInfo { id: p.id.clone(), display_name: p.display_name.clone() };
                list.push(info);
                assert(adapter_infos(list@) =~= adapter_infos(before).push(
                    (info.id@, info.display_name@),
                ));
            }
            i = i + 1;
        }
        assert(rows.take(rows.len() as int) =~= rows);
        list
    }

    /// Add a profile of the user's own.
    pub fn add_agent_profile(&mut self, p: AgentProfileInfo) -> (r: Result<Vec<Effect>, String>)
        ensures
            final(self).keeps_all_but_profiles(*old(self)),
            fault_of(r) == agent_profiles::add_refusal(
                old(self).profiles.builtins(),
                old(self).profiles.rows(),
                stored(p@),
            ),
            final(self).profiles.rows() == (if r is Ok {
                old(self).profiles.rows().push(stored(p@))
            } else {
                old(self).profiles.rows()
            }),
            profile_news(r),
    {
        let done = self.profiles.add(storage_profile(p));
        profiles_changed(done)
    }

    /// Replace what is written of a profile.
    pub fn update_agent_profile(&mut self, p: AgentProfileInfo) -> (r: Result<Vec<Effect>, String>)
        ensures
            final(self).keeps_all_but_profiles(*old(self)),
            fault_of(r) == agent_profiles::update_refusal(
                old(self).profiles.builtins(),
                old(self).profiles.rows(),
                stored(p@),
            ),
            final(self).profiles.rows() == (if r is Ok {
                agent_profiles::without_id(old(self).profiles.rows(), p@.id).push(stored(p@))
            } else {
                old(self).profiles.rows()
            }),
            profile_news(r),
    {
        let done = self.profiles.update(storage_profile(p));
        profiles_changed(done)
    }

    /// Remove a profile of the user's own.
    pub fn remove_agent_profile(&mut self, id: &str) -> (r: Result<Vec<Effect>, String>)
        ensures
            final(self).keeps_all_but_profiles(*old(self)),
            fault_of(r) == agent_profiles::remove_refusal(
                old(self).profiles.builtins(),
                old(self).profiles.rows(),
                id@,
            ),
            final(self).profiles.rows() == (if r is Ok {
                agent_profiles::without_id(old(self).profiles.rows(), id@)
            } else {
                old(self).profiles.rows()
            }),
            profile_news(r),
    {
        let done = self.profiles.remove(id);
        profiles_changed(done)
    }

    /// Make a profile ready for a spawn.
    pub fn resolve_profile(&self, id: &str) -> (r: Result<ResolvedProfile, String>)
        ensures
            agent_profiles::is_resolved(self.profiles.builtins(), self.profiles.rows(), id@, r),
    {
        self.profiles.resolve(id)
    }

    /// Nothing but the profiles has changed since `before`.
    pub open spec fn keeps_all_but_profiles(&self, before: Daemon) -> bool {
        &&& self.maps == before.maps
        &&& self.registry == before.registry
        &&& self.projects == before.projects
        &&& self.settings == before.settings
        &&& self.profiles.file() == before.profiles.file()
        &&& self.profiles.known() == before.profiles.known()
    }

    /// The news of the layout around an agent, or the error where it has none.
    pub fn tree_event(&self, agent: PaneId) -> (e: ControlEvent)
        ensures
            is_tree_event(self.state(), agent, e),
    {
        match self.split_tree_of(agent) {
            Some(tree) => ControlEvent::SplitTreeChanged { agent, tree },
            None => ControlEvent::Error { message: with_pane("no split tree for ", agent) },
        }
    }
}

/// The list of agents holds each of them once, with its own project, name and branch and in the state that
/// it is in, ordered by project and, within one, by number.
pub proof fn law_each_agent_is_listed_once(
    s: DaemonState,
    ids: Set<u64>,
    list: Seq<WorktreeInfo>,
    n: u64,
    j: int,
    k: int,
)
    requires
        is_listing(s, ids, list),
        0 <= j < k < list.len(),
    ensures
        ids.contains(list[k].pane.0),
        list[k].project@ == s.agents[list[k].pane.0].project@,
        list[k].name@ == s.agents[list[k].pane.0].name@,
        list[k].branch@ == s.agents[list[k].pane.0].branch@,
        s.attention.dom().contains(list[k].pane.0) ==> list[k].state == s.attention[list[k].pane.0],
        list[j].pane != list[k].pane,
        list[j].project@ == list[k].project@ ==> list[j].pane.0 < list[k].pane.0,
        list[j].project@ != list[k].project@ ==> precedes(list[j].project@, list[k].project@),
        ids.contains(n) ==> exists|i: int| 0 <= i < list.len() && (#[trigger] list[i]).pane.0 == n,
{
    assert(list[k]@.pane == list[k].pane);
    assert(listed_before(list[j]@, list[k]@));
    text::lemma_precedes_total(list[j].project@, list[k].project@);
    if list[j].pane == list[k].pane {
        assert(list[j]@ == listed(s, list[j].pane.0));
        assert(list[k]@ == listed(s, list[k].pane.0));
    }
    if ids.contains(n) {
        let i = choose|i: int| 0 <= i < list.len() && (#[trigger] list[i])@ == listed(s, n);
        assert(list[i].pane.0 == n);
    }
}

/// A project is listed under its own path and kind, and by the last part of its path.
pub proof fn law_a_project_is_listed_by_its_name(rec: ProjectRecordView, dir: Seq<char>, name: Seq<char>)
    ensures
        info_of(rec).path == rec.path,
        info_of(rec).kind == rec.kind,
        path::name_of(rec.path) == Some(name) ==> info_of(rec).name == name,
        path::name_of(rec.path) is None ==> info_of(rec).name == rec.path,
{
}

/// One of the profiles is enabled, and has this id and this name.
pub open spec fn stands_for_enabled(all: Seq<EffectiveProfileView>, x: (Seq<char>, Seq<char>)) -> bool {
    exists|j: int|
        {
            &&& 0 <= j < all.len()
            &&& (#[trigger] all[j]).profile.enabled
            &&& x == (all[j].profile.id, all[j].profile.display_name)
        }
}

/// The agents that can be picked are the enabled ones: each of them, by its id and its name, and none that
/// is not enabled.
pub proof fn law_only_enabled_agents_can_be_picked(all: Seq<EffectiveProfileView>)
    ensures
        forall|k: int|
            0 <= k < all.len() && (#[trigger] all[k]).profile.enabled ==> pickable(all).contains(
                (all[k].profile.id, all[k].profile.display_name),
            ),
        forall|k: int|
            0 <= k < pickable(all).len() ==> stands_for_enabled(all, #[trigger] pickable(all)[k]),
        pickable(all).len() <= all.len(),
    decreases all.len(),
{
    if all.len() > 0 {
        let before = all.drop_last();
        let old_list = pickable(before);
        let list = pickable(all);
        law_only_enabled_agents_can_be_picked(before);
        assert forall|k: int| 0 <= k < all.len() && (#[trigger] all[k]).profile.enabled implies list.contains(
            (all[k].profile.id, all[k].profile.display_name),
        ) by {
            if k < before.len() {
                assert(before[k] == all[k]);
                let i = choose|i: int|
                    0 <= i < old_list.len() && old_list[i] == (
                        before[k].profile.id,
                        before[k].profile.display_name,
                    );
                assert(list[i] == old_list[i]);
            } else {
                assert(list[list.len() - 1] == (all[k].profile.id, all[k].profile.display_name));
            }
        }
        assert forall|k: int| 0 <= k < list.len() implies stands_for_enabled(all, #[trigger] list[k]) by {
            if k < old_list.len() {
                assert(stands_for_enabled(before, old_list[k]));
                let j = choose|j: int|
                    {
                        &&& 0 <= j < before.len()
                        &&& (#[trigger] before[j]).profile.enabled
                        &&& old_list[k] == (before[j].profile.id, before[j].profile.display_name)
                    };
                assert(all[j] == before[j]);
                assert(list[k] == old_list[k]);
            } else {
                assert(all[all.len() - 1].profile.enabled);
            }
        }
    }
}

/// What a client sends of a profile is stored as it is sent, and what is stored is told as it is stored.
pub proof fn law_a_profile_is_stored_as_sent(p: AgentProfileInfoView, builtin: bool)
    ensures
        profile_info(EffectiveProfileView { profile: stored(p), builtin }) == (AgentProfileInfoView {
            builtin,
            ..p
        }),
{
}

/// An agent of which nothing has been heard yet is listed as one that works.
pub proof fn law_an_agent_unheard_of_works(s: DaemonState, ids: Set<u64>, list: Seq<WorktreeInfo>, k: int)
    requires
        is_listing(s, ids, list),
        0 <= k < list.len(),
    ensures
        !s.attention.dom().contains(list[k].pane.0) ==> list[k].state == AttentionState::Working,
        s.attention.dom().contains(list[k].pane.0) ==> list[k].state == s.attention[list[k].pane.0],
        list[k].project@ == s.agents[list[k].pane.0].project@,
        list[k].branch@ == s.agents[list[k].pane.0].branch@,
{
    assert(list[k]@ == listed(s, list[k]@.pane.0));
}

} // verus!
