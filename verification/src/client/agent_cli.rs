//! `clowder agent …`: what to do with the daemon's agent profiles.

use vstd::prelude::*;

use crate::client::remote_cli;
use crate::client::remote_cli::{flag_value, has_unknown, names_unknown, parsed, slices, Flags};
use crate::config::agents;
use crate::config::label;
use crate::proto::control::{AgentProfileInfo, AgentProfileInfoView};
use crate::text;
use crate::text::{texts, trimmed};

verus! {

/// How the subcommands are used, up to the agents that a profile can build on.
pub const USAGE_HEAD: &'static str = "usage: clowder agent <list|add|set|enable|disable|rm> ...\n  clowder agent list\n  clowder agent add <id> --base <";

/// How the subcommands are used, behind the agents that a profile can build on.
pub const USAGE_TAIL: &'static str = "> [--name <s>] [--args \"<template>\"] [--disabled]\n  clowder agent set <id> [--name <s>] [--args \"<template>\"]\n  clowder agent enable <id>\n  clowder agent disable <id>\n  clowder agent rm <id>";

/// What is to be done.
#[derive(Debug)]
pub enum Action {
    List,
    Add(AgentProfileInfo),
    Update(AgentProfileInfo),
    Remove(String),
}

/// What is to be done.
pub enum ActionView {
    List,
    Add(AgentProfileInfoView),
    Update(AgentProfileInfoView),
    Remove(Seq<char>),
}

impl View for Action {
    type V = ActionView;

    open spec fn view(&self) -> ActionView {
        match *self {
            Action::List => ActionView::List,
            Action::Add(p) => ActionView::Add(p@),
            Action::Update(p) => ActionView::Update(p@),
            Action::Remove(id) => ActionView::Remove(id@),
        }
    }
}

/// What the listed profiles say.
pub open spec fn infos(profiles: Seq<AgentProfileInfo>) -> Seq<AgentProfileInfoView> {
    profiles.map_values(|p: AgentProfileInfo| p@)
}

/// The first profile with this id, from index `from` on.
pub open spec fn info_with_id(existing: Seq<AgentProfileInfoView>, id: Seq<char>, from: int) -> Option<
    AgentProfileInfoView,
>
    decreases existing.len() - from,
{
    if from < 0 || from >= existing.len() {
        None
    } else if existing[from].id == id {
        Some(existing[from])
    } else {
        info_with_id(existing, id, from + 1)
    }
}

/// The ids of the built-in profiles, in order.
pub open spec fn builtin_ids(existing: Seq<AgentProfileInfoView>) -> Seq<Seq<char>>
    decreases existing.len(),
{
    if existing.len() == 0 {
        seq![]
    } else if existing.last().builtin {
        builtin_ids(existing.drop_last()).push(existing.last().id)
    } else {
        builtin_ids(existing.drop_last())
    }
}

/// The built-in profiles, one of which a new profile builds on.
pub open spec fn choices(existing: Seq<AgentProfileInfoView>) -> Seq<char> {
    text::joined(builtin_ids(existing), "|"@)
}

/// How the subcommands are used.
pub open spec fn usage_text(existing: Seq<AgentProfileInfoView>) -> Seq<char> {
    USAGE_HEAD@ + choices(existing) + USAGE_TAIL@
}

/// The ids of the built-in profiles: the base agents that the daemon reports.
fn list_builtin_ids(existing: &[AgentProfileInfo]) -> (ids: Vec<String>)
    ensures
        texts(ids@) == builtin_ids(infos(existing@)),
{
    let mut ids: Vec<String> = Vec::new();
    let mut i: usize = 0;
    assert(infos(existing@).take(0) =~= seq![]);
    assert(texts(ids@) =~= seq![]);
    while i < existing.len()
        invariant
            i <= existing.len(),
            texts(ids@) == builtin_ids(infos(existing@).take(i as int)),
        decreases existing.len() - i,
    {
        broadcast use text::lemma_texts_push;

        assert(infos(existing@).take(i + 1).drop_last() =~= infos(existing@).take(i as int));
        assert(infos(existing@).take(i + 1).last() == existing@[i as int]@);
        if existing[i].builtin {
            ids.push(existing[i].id.clone());
        }
        i = i + 1;
    }
    assert(infos(existing@).take(existing@.len() as int) =~= infos(existing@));
    ids
}

/// One of the texts is this one.
fn has_text(all: &[String], s: &str) -> (yes: bool)
    ensures
        yes == texts(all@).contains(s@),
{
    let mut i: usize = 0;
    while i < all.len()
        invariant
            i <= all.len(),
            forall|k: int| 0 <= k < i ==> (#[trigger] texts(all@)[k]) != s@,
        decreases all.len() - i,
    {
        assert(texts(all@)[i as int] == all@[i as int]@);
        if text::same(all[i].as_str(), s) {
            return true;
        }
        i = i + 1;
    }
    false
}

/// The index of the first profile with this id.
fn find_info(existing: &[AgentProfileInfo], id: &str) -> (found: Option<usize>)
    ensures
        match found {
            Some(k) => k < existing.len() && info_with_id(infos(existing@), id@, 0) == Some(
                existing@[k as int]@,
            ),
            None => info_with_id(infos(existing@), id@, 0) is None,
        },
{
    let mut i: usize = 0;
    while i < existing.len()
        invariant
            i <= existing.len(),
            info_with_id(infos(existing@), id@, 0) == info_with_id(infos(existing@), id@, i as int),
        decreases existing.len() - i,
    {
        assert(infos(existing@)[i as int] == existing@[i as int]@);
        if text::same(existing[i].id.as_str(), id) {
            return Some(i);
        }
        i = i + 1;
    }
    None
}

/// The flags that a subcommand with an id allows.
pub open spec fn allowed_flags(sub: Seq<char>) -> Option<Seq<Seq<char>>> {
    if sub == "add"@ {
        Some(seq!["base"@, "name"@, "args"@, "disabled"@])
    } else if sub == "set"@ {
        Some(seq!["name"@, "args"@])
    } else if sub == "enable"@ || sub == "disable"@ || sub == "rm"@ {
        Some(seq![])
    } else {
        None
    }
}

/// The text of an optional flag, empty where it is not given.
pub open spec fn or_empty(value: Option<Seq<char>>) -> Seq<char> {
    match value {
        Some(v) => v,
        None => seq![],
    }
}

/// The plan for `add`.
pub open spec fn planned_add(
    id: Seq<char>,
    flags: Map<Seq<char>, Option<Seq<char>>>,
    existing: Seq<AgentProfileInfoView>,
) -> Result<ActionView, Seq<char>> {
    let name = match flag_value(flags, "name"@) {
        Some(n) => n,
        None => id,
    };
    let args = or_empty(flag_value(flags, "args"@));
    if label::label_fault("id"@, id) is Some {
        Err(label::label_fault("id"@, id)->0)
    } else if info_with_id(existing, id, 0) is Some {
        Err("an agent named "@ + id + " already exists"@)
    } else if flag_value(flags, "base"@) is None {
        Err("add requires --base <"@ + choices(existing) + ">"@)
    } else if !builtin_ids(existing).contains(flag_value(flags, "base"@)->0) {
        Err(agents::unknown_base(flag_value(flags, "base"@)->0, builtin_ids(existing)))
    } else if agents::template_fault(args) is Some {
        Err(agents::template_fault(args)->0)
    } else if trimmed(name).len() == 0 {
        Err("display name must not be empty"@)
    } else {
        Ok(
            ActionView::Add(
                AgentProfileInfoView {
                    id,
                    base: flag_value(flags, "base"@)->0,
                    display_name: name,
                    enabled: !flags.dom().contains("disabled"@),
                    args,
                    builtin: false,
                },
            ),
        )
    }
}

/// The message for an id that no profile has.
pub open spec fn no_such_agent(id: Seq<char>) -> Seq<char> {
    "no such agent: "@ + id
}

/// The plan for `set`: what is not given stays.
pub open spec fn planned_set(
    id: Seq<char>,
    flags: Map<Seq<char>, Option<Seq<char>>>,
    existing: Seq<AgentProfileInfoView>,
) -> Result<ActionView, Seq<char>> {
    match info_with_id(existing, id, 0) {
        None => Err(no_such_agent(id)),
        Some(p) => {
            let name = match flag_value(flags, "name"@) {
                Some(n) => n,
                None => p.display_name,
            };
            let args = match flag_value(flags, "args"@) {
                Some(a) => a,
                None => p.args,
            };
            if flag_value(flags, "name"@) is Some && trimmed(name).len() == 0 {
                Err("display name must not be empty"@)
            } else if flag_value(flags, "args"@) is Some && agents::template_fault(args) is Some {
                Err(agents::template_fault(args)->0)
            } else {
                Ok(
                    ActionView::Update(
                        AgentProfileInfoView {
                            id: p.id,
                            base: p.base,
                            display_name: name,
                            enabled: p.enabled,
                            args,
                            builtin: p.builtin,
                        },
                    ),
                )
            }
        },
    }
}

/// The plan for `enable` and `disable`: nothing but the switch changes.
pub open spec fn planned_switch(
    id: Seq<char>,
    enabled: bool,
    existing: Seq<AgentProfileInfoView>,
) -> Result<ActionView, Seq<char>> {
    match info_with_id(existing, id, 0) {
        None => Err(no_such_agent(id)),
        Some(p) => Ok(
            ActionView::Update(
                AgentProfileInfoView {
                    id: p.id,
                    base: p.base,
                    display_name: p.display_name,
                    enabled,
                    args: p.args,
                    builtin: p.builtin,
                },
            ),
        ),
    }
}

/// The plan for `rm`: a built-in stays.
pub open spec fn planned_rm(id: Seq<char>, existing: Seq<AgentProfileInfoView>) -> Result<
    ActionView,
    Seq<char>,
> {
    match info_with_id(existing, id, 0) {
        None => Err(no_such_agent(id)),
        Some(p) => if p.builtin {
            Err(
                id + " is a built-in agent and cannot be removed — run `clowder agent disable "@ + id
                    + "` instead"@,
            )
        } else {
            Ok(ActionView::Remove(id))
        },
    }
}

/// The plan for a subcommand whose flags are all allowed.
pub open spec fn planned(
    sub: Seq<char>,
    id: Seq<char>,
    flags: Map<Seq<char>, Option<Seq<char>>>,
    existing: Seq<AgentProfileInfoView>,
) -> Result<ActionView, Seq<char>> {
    if sub == "add"@ {
        planned_add(id, flags, existing)
    } else if sub == "set"@ {
        planned_set(id, flags, existing)
    } else if sub == "enable"@ {
        planned_switch(id, true, existing)
    } else if sub == "disable"@ {
        planned_switch(id, false, existing)
    } else {
        planned_rm(id, existing)
    }
}

/// The answer is a refusal that names a flag which is not allowed.
pub open spec fn refuses_flag(
    r: Result<ActionView, Seq<char>>,
    flags: Map<Seq<char>, Option<Seq<char>>>,
    allowed: Seq<Seq<char>>,
) -> bool {
    r matches Err(m) && names_unknown(m, flags, allowed)
}

/// What the arguments mean, given the profiles that the daemon has. Where several flags are not
/// allowed, the message names any one of them.
pub open spec fn is_plan(
    args: Seq<Seq<char>>,
    existing: Seq<AgentProfileInfoView>,
    r: Result<ActionView, Seq<char>>,
) -> bool {
    if args.len() == 0 {
        r == Err::<ActionView, Seq<char>>(usage_text(existing))
    } else {
        let sub = args[0];
        match parsed(args.skip(1)) {
            Err(m) => r == Err::<ActionView, Seq<char>>(m),
            Ok(f) => if sub == "list"@ {
                if has_unknown(f.flags, seq![]) {
                    refuses_flag(r, f.flags, seq![])
                } else {
                    r == Ok::<ActionView, Seq<char>>(ActionView::List)
                }
            } else if f.positional.len() == 0 {
                r == Err::<ActionView, Seq<char>>(usage_text(existing) + "\n\nmissing <id>"@)
            } else {
                match allowed_flags(sub) {
                    None => r == Err::<ActionView, Seq<char>>(
                        usage_text(existing) + "\n\nunknown subcommand: "@ + sub,
                    ),
                    Some(allowed) => if has_unknown(f.flags, allowed) {
                        refuses_flag(r, f.flags, allowed)
                    } else {
                        r == planned(sub, f.positional[0], f.flags, existing)
                    },
                }
            },
        }
    }
}

/// The plan as a value of the model.
pub open spec fn plan_view(r: Result<Action, String>) -> Result<ActionView, Seq<char>> {
    match r {
        Ok(a) => Ok(a@),
        Err(e) => Err(e@),
    }
}

fn plan_add(id: &str, flags: &Flags, existing: &[AgentProfileInfo]) -> (r: Result<Action, String>)
    ensures
        plan_view(r) == planned_add(id@, flags@.flags, infos(existing@)),
{
    match agents::validate_id(id) {
        Err(e) => return Err(e),
        Ok(_) => {},
    }
    if find_info(existing, id).is_some() {
        let mut m = "an agent named ".to_owned();
        m.append(id);
        m.append(" already exists");
        return Err(m);
    }
    let ids = list_builtin_ids(existing);
    let base = match flags.str("base") {
        Some(b) => b.to_owned(),
        None => {
            let mut m = "add requires --base <".to_owned();
            m.append(text::join(&ids, "|").as_str());
            m.append(">");
            return Err(m);
        },
    };
    if !has_text(&ids, base.as_str()) {
        return Err(agents::unknown_base_message(base.as_str(), &ids));
    }
    let args = match flags.str("args") {
        Some(a) => a.to_owned(),
        None => String::new(),
    };
    match agents::validate_template(args.as_str()) {
        Err(e) => return Err(e),
        Ok(_) => {},
    }
    let display_name = match flags.str("name") {
        Some(n) => n.to_owned(),
        None => id.to_owned(),
    };
    if text::trim(display_name.as_str()).as_str().is_empty() {
        return Err("display name must not be empty".to_owned());
    }
    Ok(
        Action::Add(
            AgentProfileInfo {
                id: id.to_owned(),
                base,
                display_name,
                enabled: !flags.bool("disabled"),
                args,
                builtin: false,
            },
        ),
    )
}

fn missing(id: &str) -> (m: String)
    ensures
        m@ == no_such_agent(id@),
{
    let mut m = "no such agent: ".to_owned();
    m.append(id);
    m
}

fn plan_set(id: &str, flags: &Flags, existing: &[AgentProfileInfo]) -> (r: Result<Action, String>)
    ensures
        plan_view(r) == planned_set(id@, flags@.flags, infos(existing@)),
{
    let mut p = match find_info(existing, id) {
        None => return Err(missing(id)),
        Some(k) => existing[k].copied(),
    };
    match flags.str("name") {
        Some(name) => {
            if text::trim(name).as_str().is_empty() {
                return Err("display name must not be empty".to_owned());
            }
            p.display_name = name.to_owned();
        },
        None => {},
    }
    match flags.str("args") {
        Some(args) => {
            match agents::validate_template(args) {
                Err(e) => return Err(e),
                Ok(_) => {},
            }
            p.args = args.to_owned();
        },
        None => {},
    }
    Ok(Action::Update(p))
}

fn plan_switch(id: &str, enabled: bool, existing: &[AgentProfileInfo]) -> (r: Result<Action, String>)
    ensures
        plan_view(r) == planned_switch(id@, enabled, infos(existing@)),
{
    let mut p = match find_info(existing, id) {
        None => return Err(missing(id)),
        Some(k) => existing[k].copied(),
    };
    p.enabled = enabled;
    Ok(Action::Update(p))
}

fn plan_rm(id: &str, existing: &[AgentProfileInfo]) -> (r: Result<Action, String>)
    ensures
        plan_view(r) == planned_rm(id@, infos(existing@)),
{
    match find_info(existing, id) {
        None => Err(missing(id)),
        Some(k) => if existing[k].builtin {
            let mut m = id.to_owned();
            m.append(" is a built-in agent and cannot be removed — run `clowder agent disable ");
            m.append(id);
            m.append("` instead");
            Err(m)
        } else {
            Ok(Action::Remove(id.to_owned()))
        },
    }
}

/// How the subcommands are used, given the profiles that the daemon has.
pub fn usage(existing: &[AgentProfileInfo]) -> (m: String)
    ensures
        m@ == usage_text(infos(existing@)),
{
    let mut m = USAGE_HEAD.to_owned();
    m.append(text::join(&list_builtin_ids(existing), "|").as_str());
    m.append(USAGE_TAIL);
    m
}

/// Decide what the arguments mean, given the profiles that the daemon has.
pub fn plan(args: &[String], existing: &[AgentProfileInfo]) -> (r: Result<Action, String>)
    ensures
        is_plan(texts(args@), infos(existing@), plan_view(r)),
{
    if args.len() == 0 {
        return Err(usage(existing));
    }
    let sub = args[0].as_str();
    let mut tail: Vec<String> = Vec::new();
    let mut i: usize = 1;
    while i < args.len()
        invariant
            1 <= i <= args.len(),
            tail@.len() == i - 1,
            forall|k: int| 0 <= k < i - 1 ==> (#[trigger] tail@[k])@ == args@[k + 1]@,
        decreases args.len() - i,
    {
        tail.push(args[i].clone());
        i = i + 1;
    }
    assert(texts(tail@) =~= texts(args@).skip(1));
    assert(texts(args@)[0] == sub@);
    let flags = match remote_cli::parse_flags(&tail) {
        Ok(f) => f,
        Err(e) => return Err(e),
    };
    proof {
        assert(slices(Seq::<&str>::empty()) =~= seq![]);
        assert(slices(seq!["name", "args"]) =~= seq!["name"@, "args"@]);
        assert(slices(seq!["base", "name", "args", "disabled"]) =~= seq![
            "base"@,
            "name"@,
            "args"@,
            "disabled"@,
        ]);
    }
    if text::same(sub, "list") {
        return match flags.reject_unknown(&[]) {
            Err(e) => Err(e),
            Ok(_) => Ok(Action::List),
        };
    }
    let id = match flags.positional(0) {
        Some(id) => id,
        None => {
            let mut m = usage(existing);
            m.append("\n\nmissing <id>");
            return Err(m);
        },
    };
    if text::same(sub, "add") {
        match flags.reject_unknown(&["base", "name", "args", "disabled"]) {
            Err(e) => Err(e),
            Ok(_) => plan_add(id, &flags, existing),
        }
    } else if text::same(sub, "set") {
        match flags.reject_unknown(&["name", "args"]) {
            Err(e) => Err(e),
            Ok(_) => plan_set(id, &flags, existing),
        }
    } else if text::same(sub, "enable") || text::same(sub, "disable") {
        match flags.reject_unknown(&[]) {
            Err(e) => Err(e),
            Ok(_) => plan_switch(id, text::same(sub, "enable"), existing),
        }
    } else if text::same(sub, "rm") {
        match flags.reject_unknown(&[]) {
            Err(e) => Err(e),
            Ok(_) => plan_rm(id, existing),
        }
    } else {
        let mut m = usage(existing);
        m.append("\n\nunknown subcommand: ");
        m.append(sub);
        Err(m)
    }
}

/// One line that lists a profile.
pub fn profile_line(p: &AgentProfileInfo) -> (line: String)
    ensures
        line@ == p@.id + "\t"@ + p@.base + "\t"@ + (if p.enabled {
            "enabled"@
        } else {
            "disabled"@
        }) + "\t"@ + p@.display_name + "\t"@ + p@.args,
{
    let mut line = p.id.clone();
    line.append("\t");
    line.append(p.base.as_str());
    line.append("\t");
    line.append(
        if p.enabled {
            "enabled"
        } else {
            "disabled"
        },
    );
    line.append("\t");
    line.append(p.display_name.as_str());
    line.append("\t");
    line.append(p.args.as_str());
    line
}

/// What `add` plans, the daemon's own check of a profile accepts, where the built-ins that it listed
/// are its adapters: a typo fails here, before the daemon is dialled.
pub proof fn law_planned_profile_is_valid(
    id: Seq<char>,
    flags: Map<Seq<char>, Option<Seq<char>>>,
    existing: Seq<AgentProfileInfoView>,
    builtins: Seq<(Seq<char>, Seq<char>)>,
)
    requires
        planned_add(id, flags, existing) is Ok,
        builtin_ids(existing) == agents::builtin_ids(builtins),
    ensures
        planned_add(id, flags, existing)->Ok_0 matches ActionView::Add(p) && agents::profile_fault(
            agents::AgentProfileView {
                id: p.id,
                base: p.base,
                display_name: p.display_name,
                enabled: p.enabled,
                args: p.args,
            },
            builtins,
        ) is None && !p.builtin,
{
    let base = flag_value(flags, "base"@)->0;
    let k = choose|k: int| 0 <= k < builtin_ids(existing).len() && builtin_ids(existing)[k] == base;
    assert(agents::builtin_ids(builtins)[k] == base);
    assert(builtins[k].0 == base);
}

proof fn lemma_info_with_id(existing: Seq<AgentProfileInfoView>, id: Seq<char>, from: int)
    requires
        0 <= from <= existing.len(),
    ensures
        match info_with_id(existing, id, from) {
            Some(p) => p.id == id && exists|k: int| from <= k < existing.len() && #[trigger] existing[k] == p,
            None => forall|k: int| from <= k < existing.len() ==> (#[trigger] existing[k]).id != id,
        },
    decreases existing.len() - from,
{
    if from < existing.len() {
        if existing[from].id == id {
            assert(existing[from] == info_with_id(existing, id, from)->0);
        } else {
            lemma_info_with_id(existing, id, from + 1);
        }
    }
}

proof fn lemma_builtin_ids(existing: Seq<AgentProfileInfoView>, id: Seq<char>)
    requires
        builtin_ids(existing).contains(id),
    ensures
        exists|k: int| 0 <= k < existing.len() && (#[trigger] existing[k]).builtin && existing[k].id == id,
    decreases existing.len(),
{
    if existing.len() > 0 {
        let before = existing.drop_last();
        if builtin_ids(before).contains(id) {
            lemma_builtin_ids(before, id);
            let k = choose|k: int|
                0 <= k < before.len() && (#[trigger] before[k]).builtin && before[k].id == id;
            assert(existing[k] == before[k]);
        } else {
            let ids = builtin_ids(existing);
            let j = choose|j: int| 0 <= j < ids.len() && ids[j] == id;
            if existing.last().builtin {
                if j < builtin_ids(before).len() {
                    assert(builtin_ids(before)[j] == id);
                }
                assert(existing[existing.len() - 1].id == id);
            }
        }
    }
}

/// What is planned for a profile is planned for the one that was named. A new one has an id that none has,
/// builds on a built-in agent and is none itself. A change keeps what it was not asked to change: enabling and
/// disabling move the switch alone, and setting never moves it. Only a profile of the user's own is removed.
pub proof fn law_a_plan_is_for_the_named_profile(
    sub: Seq<char>,
    id: Seq<char>,
    flags: Map<Seq<char>, Option<Seq<char>>>,
    existing: Seq<AgentProfileInfoView>,
)
    requires
        sub == "add"@ || sub == "set"@ || sub == "enable"@ || sub == "disable"@ || sub == "rm"@,
    ensures
        planned(sub, id, flags, existing) matches Ok(action) ==> match action {
            ActionView::List => false,
            ActionView::Add(p) => {
                &&& sub == "add"@
                &&& p.id == id
                &&& forall|k: int| 0 <= k < existing.len() ==> (#[trigger] existing[k]).id != id
                &&& flag_value(flags, "base"@) == Some(p.base)
                &&& exists|k: int|
                    0 <= k < existing.len() && (#[trigger] existing[k]).builtin && existing[k].id == p.base
                &&& !p.builtin
                &&& p.enabled <==> !flags.dom().contains("disabled"@)
                &&& flag_value(flags, "args"@) is Some ==> p.args == flag_value(flags, "args"@)->0
                &&& flag_value(flags, "args"@) is None ==> p.args.len() == 0
                &&& flag_value(flags, "name"@) is Some ==> p.display_name == flag_value(flags, "name"@)->0
                &&& flag_value(flags, "name"@) is None ==> p.display_name == id
            },
            ActionView::Update(p) => exists|k: int|
                {
                    &&& 0 <= k < existing.len()
                    &&& (#[trigger] existing[k]).id == id
                    &&& p.id == id && p.base == existing[k].base && p.builtin == existing[k].builtin
                    &&& sub == "enable"@ || sub == "disable"@ ==> {
                        &&& p.enabled <==> sub == "enable"@
                        &&& p.args == existing[k].args
                        &&& p.display_name == existing[k].display_name
                    }
                    &&& sub == "set"@ ==> {
                        &&& p.enabled == existing[k].enabled
                        &&& flag_value(flags, "args"@) is None ==> p.args == existing[k].args
                        &&& flag_value(flags, "args"@) is Some ==> p.args == flag_value(
                            flags,
                            "args"@,
                        )->0
                        &&& flag_value(flags, "name"@) is None ==> p.display_name
                            == existing[k].display_name
                        &&& flag_value(flags, "name"@) is Some ==> p.display_name == flag_value(
                            flags,
                            "name"@,
                        )->0
                    }
                },
            ActionView::Remove(gone) => {
                &&& sub == "rm"@
                &&& gone == id
                &&& exists|k: int|
                    0 <= k < existing.len() && (#[trigger] existing[k]).id == id && !existing[k].builtin
            },
        },
{
    reveal_strlit("add");
    reveal_strlit("set");
    reveal_strlit("enable");
    reveal_strlit("disable");
    reveal_strlit("rm");
    assert("add"@.len() == 3 && "set"@.len() == 3 && "add"@[0] == 'a' && "set"@[0] == 's');
    assert("enable"@.len() == 6 && "disable"@.len() == 7 && "rm"@.len() == 2);
    lemma_info_with_id(existing, id, 0);
    if let Ok(ActionView::Add(p)) = planned(sub, id, flags, existing) {
        lemma_builtin_ids(existing, p.base);
    }
}

/// A profile is added unless its id is wrong or taken, no built-in is named as its base, its template is
/// wrong, or its name is blank; one is changed, switched on or off where it is there; and one is removed where
/// it is there and not built in.
pub proof fn law_when_a_plan_is_refused(
    sub: Seq<char>,
    id: Seq<char>,
    flags: Map<Seq<char>, Option<Seq<char>>>,
    existing: Seq<AgentProfileInfoView>,
    k: int,
)
    requires
        sub == "add"@ || sub == "set"@ || sub == "enable"@ || sub == "disable"@ || sub == "rm"@,
    ensures
        ({
            let r = planned(sub, id, flags, existing);
            let there = 0 <= k < existing.len() && existing[k].id == id && forall|j: int|
                0 <= j < k ==> (#[trigger] existing[j]).id != id;
            let absent = forall|j: int| 0 <= j < existing.len() ==> (#[trigger] existing[j]).id != id;
            let base = flag_value(flags, "base"@);
            let name = flag_value(flags, "name"@);
            let args = flag_value(flags, "args"@);
            &&& sub == "add"@ && there ==> r is Err
            &&& sub == "add"@ && base is None ==> r is Err
            &&& sub == "add"@ && label::label_fault("id"@, id) is Some ==> r is Err
            &&& (sub == "add"@ || sub == "set"@) && args is Some && agents::template_fault(args->0) is Some
                ==> r is Err
            &&& (sub == "add"@ || sub == "set"@) && name is Some && trimmed(name->0).len() == 0 ==> r is Err
            &&& sub != "add"@ && absent ==> r is Err
            &&& (sub == "enable"@ || sub == "disable"@) && there ==> r is Ok
            &&& sub == "rm"@ && there ==> (r is Ok <==> !existing[k].builtin)
            &&& sub == "set"@ && there && name is None && args is None ==> r is Ok
        }),
{
    reveal_strlit("add");
    reveal_strlit("set");
    reveal_strlit("enable");
    reveal_strlit("disable");
    reveal_strlit("rm");
    assert("add"@[0] == 'a' && "set"@[0] == 's' && "rm"@[0] == 'r' && "enable"@[0] == 'e'
        && "disable"@[0] == 'd');
    lemma_info_with_id(existing, id, 0);
    if 0 <= k < existing.len() && existing[k].id == id && (forall|j: int|
        0 <= j < k ==> (#[trigger] existing[j]).id != id) {
        lemma_first_info(existing, id, 0, k);
    }
}

proof fn lemma_first_info(existing: Seq<AgentProfileInfoView>, id: Seq<char>, from: int, k: int)
    requires
        0 <= from <= k < existing.len(),
        existing[k].id == id,
        forall|j: int| from <= j < k ==> (#[trigger] existing[j]).id != id,
    ensures
        info_with_id(existing, id, from) == Some(existing[k]),
    decreases k - from,
{
    if from < k {
        assert(existing[from].id != id);
        lemma_first_info(existing, id, from + 1, k);
    }
}

/// Without a subcommand, with one that there is not, or without an id where one is needed, the answer is how
/// the subcommands are used; a flag that the subcommand does not know is refused; and `list` needs nothing
/// more.
pub proof fn law_what_is_no_subcommand(
    args: Seq<Seq<char>>,
    existing: Seq<AgentProfileInfoView>,
    r: Result<ActionView, Seq<char>>,
)
    requires
        is_plan(args, existing, r),
    ensures
        args.len() == 0 ==> r is Err,
        args.len() > 0 && parsed(args.skip(1)) is Err ==> r is Err,
        args.len() > 0 && args[0] != "list"@ && args[0] != "add"@ && args[0] != "set"@ && args[0]
            != "enable"@ && args[0] != "disable"@ && args[0] != "rm"@ ==> r is Err,
        args.len() == 1 && args[0] != "list"@ ==> r is Err,
        args.len() > 0 && args[0] == "list"@ ==> (r matches Ok(a) ==> a is List),
        r matches Ok(a) ==> a is List ==> args[0] == "list"@,
{
    if args.len() == 1 {
        assert(args.skip(1) =~= seq![]);
        lemma_nothing_parsed();
    }
    if args.len() > 0 && r is Ok && args[0] != "list"@ && parsed(args.skip(1)) is Ok {
        let f = parsed(args.skip(1))->Ok_0;
        if f.positional.len() > 0 && allowed_flags(args[0]) is Some {
            law_a_plan_is_for_the_named_profile(args[0], f.positional[0], f.flags, existing);
        }
    }
}

proof fn lemma_nothing_parsed()
    ensures
        parsed(seq![]) matches Ok(f) && f.positional.len() == 0,
{
}

} // verus!
