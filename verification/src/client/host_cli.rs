//! Changes to the registry of hosts that the command line asks for.

use vstd::prelude::*;

use crate::client::remote_cli::{flag_value, has_unknown, names_unknown, slices, Flags, FlagsView};
use crate::config::hosts;
use crate::config::hosts::{address_fault, fingerprint_fault, records, HostRecord, HostRecordView};
use crate::config::label::label_fault;
use crate::text;

verus! {

/// What the flags make of a host. A flag that is not given changes nothing.
pub open spec fn edited(h: HostRecordView, flags: Map<Seq<char>, Option<Seq<char>>>) -> HostRecordView {
    HostRecordView {
        name: match flag_value(flags, "rename"@) {
            Some(name) => name,
            None => h.name,
        },
        address: match flag_value(flags, "address"@) {
            Some(address) => address,
            None => h.address,
        },
        tls: if flags.dom().contains("tls"@) {
            true
        } else if flags.dom().contains("no-tls"@) {
            false
        } else {
            h.tls
        },
        token: if flags.dom().contains("no-token"@) {
            None
        } else {
            match flag_value(flags, "token"@) {
                Some(token) => Some(token),
                None => h.token,
            }
        },
        fingerprint: match flag_value(flags, "fingerprint"@) {
            Some(fp) => Some(fp),
            None => h.fingerprint,
        },
    }
}

/// What is wrong with a host.
pub open spec fn host_fault(h: HostRecordView) -> Option<Seq<char>> {
    if label_fault("name"@, h.name) is Some {
        label_fault("name"@, h.name)
    } else if address_fault(h.address) is Some {
        address_fault(h.address)
    } else {
        match h.fingerprint {
            Some(fp) => fingerprint_fault(fp),
            None => None,
        }
    }
}

/// The first host of this name, from index `from` on.
pub open spec fn host_at(all: Seq<HostRecordView>, name: Seq<char>, from: int) -> Option<int>
    decreases all.len() - from,
{
    if from < 0 || from >= all.len() {
        None
    } else if all[from].name == name {
        Some(from)
    } else {
        host_at(all, name, from + 1)
    }
}

/// The hosts but those of this name.
pub open spec fn without_name(all: Seq<HostRecordView>, name: Seq<char>) -> Seq<HostRecordView>
    decreases all.len(),
{
    if all.len() == 0 {
        seq![]
    } else if all.last().name == name {
        without_name(all.drop_last(), name)
    } else {
        without_name(all.drop_last(), name).push(all.last())
    }
}

/// The message for switches that say two things.
pub open spec fn contradiction() -> Seq<char> {
    "--"@ + "tls"@ + " and --"@ + "no-tls"@ + " contradict each other"@
}

/// The message for a name that another host has.
pub open spec fn taken(name: Seq<char>) -> Seq<char> {
    "a host named "@ + name + " already exists"@
}

/// The hosts with a new one.
pub open spec fn hosts_with(
    all: Seq<HostRecordView>,
    name: Seq<char>,
    address: Seq<char>,
    flags: Map<Seq<char>, Option<Seq<char>>>,
) -> Result<Seq<HostRecordView>, Seq<char>> {
    let h = edited(
        HostRecordView { name, address, tls: false, token: None, fingerprint: None },
        flags,
    );
    if flags.dom().contains("tls"@) && flags.dom().contains("no-tls"@) {
        Err(contradiction())
    } else if host_fault(h) is Some {
        Err(host_fault(h)->0)
    } else if host_at(all, h.name, 0) is Some {
        Err(taken(h.name))
    } else {
        Ok(all.push(h))
    }
}

/// The hosts with the one of this name changed.
pub open spec fn hosts_changed(
    all: Seq<HostRecordView>,
    name: Seq<char>,
    flags: Map<Seq<char>, Option<Seq<char>>>,
) -> Result<Seq<HostRecordView>, Seq<char>> {
    match host_at(all, name, 0) {
        None => Err("no host named "@ + name),
        Some(k) => {
            let h = edited(all[k], flags);
            if flags.dom().contains("tls"@) && flags.dom().contains("no-tls"@) {
                Err(contradiction())
            } else if host_fault(h) is Some {
                Err(host_fault(h)->0)
            } else if h.name != name && host_at(all, h.name, 0) is Some {
                Err(taken(h.name))
            } else {
                Ok(all.update(k, h))
            }
        },
    }
}

/// The flags that a change may have.
pub open spec fn change_flags(sub: Seq<char>) -> Seq<Seq<char>> {
    if sub == "add"@ {
        seq!["tls"@, "no-tls"@, "token"@, "fingerprint"@]
    } else if sub == "set"@ {
        seq!["address"@, "rename"@, "tls"@, "no-tls"@, "token"@, "no-token"@, "fingerprint"@]
    } else {
        seq![]
    }
}

/// How the changes are spelled.
pub open spec fn change_usage() -> Seq<char> {
    "usage: clowder remote <add <name> <host:port>|set <name>|rm <name>> ..."@
}

/// What the arguments make of the hosts. Where several flags are not allowed, the message names any one of
/// them.
pub open spec fn is_host_plan(
    args: FlagsView,
    all: Seq<HostRecordView>,
    r: Result<Seq<HostRecordView>, Seq<char>>,
) -> bool {
    let words = args.positional;
    if words.len() < 2 || (words[0] == "add"@ && words.len() < 3) || !(words[0] == "add"@ || words[0]
        == "set"@ || words[0] == "rm"@) {
        r == Err::<Seq<HostRecordView>, Seq<char>>(change_usage())
    } else if has_unknown(args.flags, change_flags(words[0])) {
        r matches Err(m) && names_unknown(m, args.flags, change_flags(words[0]))
    } else if words[0] == "add"@ {
        r == hosts_with(all, words[1], words[2], args.flags)
    } else if words[0] == "set"@ {
        r == hosts_changed(all, words[1], args.flags)
    } else if host_at(all, words[1], 0) is None {
        r == Err::<Seq<HostRecordView>, Seq<char>>("no host named "@ + words[1])
    } else {
        r == Ok::<Seq<HostRecordView>, Seq<char>>(without_name(all, words[1]))
    }
}

/// The hosts as a value of the model.
pub open spec fn hosts_view(r: Result<Vec<HostRecord>, String>) -> Result<Seq<HostRecordView>, Seq<char>> {
    match r {
        Ok(v) => Ok(records(v@)),
        Err(e) => Err(e@),
    }
}

fn owned_or(flag: Option<&str>, otherwise: &String) -> (s: String)
    ensures
        s@ == (match flag {
            Some(f) => f@,
            None => otherwise@,
        }),
{
    match flag {
        Some(f) => f.to_owned(),
        None => otherwise.clone(),
    }
}

fn either(flag: Option<&str>, otherwise: &Option<String>) -> (s: Option<String>)
    ensures
        text::opt_text(s) == (match flag {
            Some(f) => Some(f@),
            None => text::opt_text(*otherwise),
        }),
{
    match flag {
        Some(f) => Some(f.to_owned()),
        None => match otherwise {
            Some(o) => Some(o.clone()),
            None => None,
        },
    }
}

fn edit(h: &HostRecord, flags: &Flags) -> (r: HostRecord)
    ensures
        r@ == edited(h@, flags@.flags),
{
    HostRecord {
        name: owned_or(flags.str("rename"), &h.name),
        address: owned_or(flags.str("address"), &h.address),
        tls: if flags.bool("tls") {
            true
        } else if flags.bool("no-tls") {
            false
        } else {
            h.tls
        },
        token: if flags.bool("no-token") {
            None
        } else {
            either(flags.str("token"), &h.token)
        },
        fingerprint: either(flags.str("fingerprint"), &h.fingerprint),
    }
}

fn check_host(h: &HostRecord) -> (r: Result<(), String>)
    ensures
        match r {
            Ok(_) => host_fault(h@) is None,
            Err(e) => host_fault(h@) == Some(e@),
        },
{
    match hosts::validate_name(h.name.as_str()) {
        Err(e) => return Err(e),
        Ok(_) => {},
    }
    match hosts::validate_address(h.address.as_str()) {
        Err(e) => return Err(e),
        Ok(_) => {},
    }
    match &h.fingerprint {
        Some(fp) => hosts::validate_fingerprint(fp.as_str()),
        None => Ok(()),
    }
}

fn find_host(all: &[HostRecord], name: &str) -> (k: Option<usize>)
    ensures
        match k {
            Some(i) => i < all.len() && host_at(records(all@), name@, 0) == Some(i as int),
            None => host_at(records(all@), name@, 0) is None,
        },
{
    let mut i: usize = 0;
    while i < all.len()
        invariant
            i <= all.len(),
            host_at(records(all@), name@, 0) == host_at(records(all@), name@, i as int),
        decreases all.len() - i,
    {
        assert(records(all@)[i as int] == all@[i as int]@);
        if text::same(all[i].name.as_str(), name) {
            return Some(i);
        }
        i = i + 1;
    }
    None
}

fn copies(all: &[HostRecord]) -> (out: Vec<HostRecord>)
    ensures
        records(out@) == records(all@),
{
    let mut out: Vec<HostRecord> = Vec::new();
    let mut i: usize = 0;
    while i < all.len()
        invariant
            i <= all.len(),
            out@.len() == i,
            forall|k: int| 0 <= k < i ==> (#[trigger] out@[k])@ == all@[k]@,
        decreases all.len() - i,
    {
        out.push(all[i].copied());
        i = i + 1;
    }
    assert(records(out@) =~= records(all@));
    out
}

fn copies_without(all: &[HostRecord], name: &str) -> (out: Vec<HostRecord>)
    ensures
        records(out@) == without_name(records(all@), name@),
{
    let ghost views = records(all@);
    let mut out: Vec<HostRecord> = Vec::new();
    let mut i: usize = 0;
    assert(views.take(0) =~= seq![]);
    assert(records(out@) =~= seq![]);
    while i < all.len()
        invariant
            i <= all.len(),
            views == records(all@),
            records(out@) == without_name(views.take(i as int), name@),
        decreases all.len() - i,
    {
        let ghost before = out@;
        assert(views.take(i + 1).drop_last() =~= views.take(i as int));
        assert(views.take(i + 1).last() == all@[i as int]@);
        if !text::same(all[i].name.as_str(), name) {
            let h = all[i].copied();
            out.push(h);
            assert(records(out@) =~= records(before).push(h@));
        }
        i = i + 1;
    }
    assert(views.take(views.len() as int) =~= views);
    out
}

fn named(head: &str, name: &str, tail: &str) -> (m: String)
    ensures
        m@ == head@ + name@ + tail@,
{
    let mut m = head.to_owned();
    m.append(name);
    m.append(tail);
    m
}

fn with_host(all: &[HostRecord], name: &str, address: &str, flags: &Flags) -> (r: Result<
    Vec<HostRecord>,
    String,
>)
    ensures
        hosts_view(r) == hosts_with(records(all@), name@, address@, flags@.flags),
{
    match flags.tristate("tls", "no-tls") {
        Err(e) => return Err(e),
        Ok(_) => {},
    }
    let new = HostRecord {
        name: name.to_owned(),
        address: address.to_owned(),
        tls: false,
        token: None,
        fingerprint: None,
    };
    let h = edit(&new, flags);
    match check_host(&h) {
        Err(e) => return Err(e),
        Ok(_) => {},
    }
    if find_host(all, h.name.as_str()).is_some() {
        return Err(named("a host named ", h.name.as_str(), " already exists"));
    }
    let mut out = copies(all);
    let ghost before = out@;
    out.push(h);
    assert(records(out@) =~= records(before).push(h@));
    Ok(out)
}

fn with_changes(all: &[HostRecord], name: &str, flags: &Flags) -> (r: Result<Vec<HostRecord>, String>)
    ensures
        hosts_view(r) == hosts_changed(records(all@), name@, flags@.flags),
{
    let k = match find_host(all, name) {
        Some(k) => k,
        None => {
            let mut m = "no host named ".to_owned();
            m.append(name);
            return Err(m);
        },
    };
    match flags.tristate("tls", "no-tls") {
        Err(e) => return Err(e),
        Ok(_) => {},
    }
    let h = edit(&all[k], flags);
    assert(records(all@)[k as int] == all@[k as int]@);
    match check_host(&h) {
        Err(e) => return Err(e),
        Ok(_) => {},
    }
    if !text::same(h.name.as_str(), name) && find_host(all, h.name.as_str()).is_some() {
        return Err(named("a host named ", h.name.as_str(), " already exists"));
    }
    let mut out = copies(all);
    let ghost before = out@;
    assert(records(before).len() == before.len());
    assert(records(all@).len() == all@.len());
    out.set(k, h);
    assert(records(out@) =~= records(before).update(k as int, h@));
    Ok(out)
}

/// Decide what the arguments make of the hosts of the registry.
pub fn plan_hosts(args: &Flags, all: &[HostRecord]) -> (r: Result<Vec<HostRecord>, String>)
    ensures
        is_host_plan(args@, records(all@), hosts_view(r)),
{
    let usage = "usage: clowder remote <add <name> <host:port>|set <name>|rm <name>> ...";
    let (sub, name) = match (args.positional(0), args.positional(1)) {
        (Some(sub), Some(name)) => (sub, name),
        _ => return Err(usage.to_owned()),
    };
    proof {
        assert(slices(Seq::<&str>::empty()) =~= seq![]);
        assert(slices(seq!["tls", "no-tls", "token", "fingerprint"]) =~= seq![
            "tls"@,
            "no-tls"@,
            "token"@,
            "fingerprint"@,
        ]);
        assert(slices(
            seq!["address", "rename", "tls", "no-tls", "token", "no-token", "fingerprint"],
        ) =~= seq![
            "address"@,
            "rename"@,
            "tls"@,
            "no-tls"@,
            "token"@,
            "no-token"@,
            "fingerprint"@,
        ]);
    }
    if text::same(sub, "add") {
        let address = match args.positional(2) {
            Some(a) => a,
            None => return Err(usage.to_owned()),
        };
        match args.reject_unknown(&["tls", "no-tls", "token", "fingerprint"]) {
            Err(e) => Err(e),
            Ok(_) => with_host(all, name, address, args),
        }
    } else if text::same(sub, "set") {
        match args.reject_unknown(
            &["address", "rename", "tls", "no-tls", "token", "no-token", "fingerprint"],
        ) {
            Err(e) => Err(e),
            Ok(_) => with_changes(all, name, args),
        }
    } else if text::same(sub, "rm") {
        match args.reject_unknown(&[]) {
            Err(e) => return Err(e),
            Ok(_) => {},
        }
        if find_host(all, name).is_none() {
            let mut m = "no host named ".to_owned();
            m.append(name);
            return Err(m);
        }
        Ok(copies_without(all, name))
    } else {
        Err(usage.to_owned())
    }
}

/// No two hosts have the same name.
pub open spec fn distinct_names(all: Seq<HostRecordView>) -> bool {
    forall|j: int, k: int|
        0 <= j < k < all.len() ==> (#[trigger] all[j]).name != (#[trigger] all[k]).name
}

proof fn lemma_host_at(all: Seq<HostRecordView>, name: Seq<char>, from: int)
    requires
        0 <= from <= all.len(),
    ensures
        match host_at(all, name, from) {
            Some(k) => from <= k < all.len() && all[k].name == name,
            None => forall|k: int| from <= k < all.len() ==> (#[trigger] all[k]).name != name,
        },
    decreases all.len() - from,
{
    if from < all.len() && all[from].name != name {
        lemma_host_at(all, name, from + 1);
    }
}

/// No change gives two hosts the same name.
pub proof fn law_host_names_stay_distinct(
    all: Seq<HostRecordView>,
    name: Seq<char>,
    address: Seq<char>,
    flags: Map<Seq<char>, Option<Seq<char>>>,
)
    requires
        distinct_names(all),
    ensures
        hosts_with(all, name, address, flags) matches Ok(v) ==> distinct_names(v),
        hosts_changed(all, name, flags) matches Ok(v) ==> distinct_names(v),
        distinct_names(without_name(all, name)),
{
    let new = edited(
        HostRecordView { name, address, tls: false, token: None, fingerprint: None },
        flags,
    );
    lemma_host_at(all, new.name, 0);
    lemma_host_at(all, name, 0);
    if let Some(k) = host_at(all, name, 0) {
        lemma_host_at(all, edited(all[k], flags).name, 0);
    }
    lemma_without_name(all, name);
}

proof fn lemma_without_name(all: Seq<HostRecordView>, name: Seq<char>)
    ensures
        distinct_names(all) ==> distinct_names(without_name(all, name)),
        forall|k: int|
            0 <= k < without_name(all, name).len() ==> all.contains(
                #[trigger] without_name(all, name)[k],
            ),
    decreases all.len(),
{
    if all.len() > 0 {
        let before = all.drop_last();
        let left = without_name(all, name);
        lemma_without_name(before, name);
        if distinct_names(all) {
            assert forall|j: int, k: int| 0 <= j < k < before.len() implies (#[trigger] before[j]).name
                != (#[trigger] before[k]).name by {
                assert(all[j].name != all[k].name);
            }
        }
        assert forall|k: int| 0 <= k < left.len() implies all.contains(#[trigger] left[k]) by {
            if k < without_name(before, name).len() {
                let e = without_name(before, name)[k];
                assert(before.contains(e));
                let j = choose|j: int| 0 <= j < before.len() && before[j] == e;
                assert(all[j] == e);
            } else {
                assert(all[all.len() - 1] == left[k]);
            }
        }
        if distinct_names(all) && all.last().name != name {
            let rest = without_name(before, name);
            assert forall|j: int, k: int| 0 <= j < k < left.len() implies (#[trigger] left[j]).name != (
            #[trigger] left[k]).name by {
                if k < rest.len() {
                    assert(rest[j].name != rest[k].name);
                } else {
                    assert(before.contains(rest[j]));
                    let i = choose|i: int| 0 <= i < before.len() && before[i] == rest[j];
                    assert(all[i].name != all[all.len() - 1].name);
                }
            }
        }
    }
}

/// A new host comes behind the others, which stay as they are: under the name and the address that were given,
/// with TLS only where it was asked for, and with the token and the pin that were given.
pub proof fn law_a_new_host_is_what_was_given(
    all: Seq<HostRecordView>,
    name: Seq<char>,
    address: Seq<char>,
    flags: Map<Seq<char>, Option<Seq<char>>>,
)
    requires
        !flags.dom().contains("rename"@),
        !flags.dom().contains("address"@),
        !flags.dom().contains("no-token"@),
    ensures
        hosts_with(all, name, address, flags) matches Ok(v) ==> {
            let h = v.last();
            &&& v.len() == all.len() + 1
            &&& v.drop_last() == all
            &&& h.name == name && h.address == address
            &&& h.tls == flags.dom().contains("tls"@)
            &&& h.token == flag_value(flags, "token"@)
            &&& h.fingerprint == flag_value(flags, "fingerprint"@)
            &&& forall|k: int| 0 <= k < all.len() ==> (#[trigger] all[k]).name != name
            &&& label_fault("name"@, name) is None && address_fault(address) is None
        },
{
    lemma_host_at(all, name, 0);
    if let Ok(v) = hosts_with(all, name, address, flags) {
        assert(v.drop_last() =~= all);
    }
}

/// A change of a host changes that host alone, in its place, and of it only what the flags say.
pub proof fn law_a_change_is_of_one_host(
    all: Seq<HostRecordView>,
    name: Seq<char>,
    flags: Map<Seq<char>, Option<Seq<char>>>,
)
    ensures
        hosts_changed(all, name, flags) matches Ok(v) ==> exists|k: int|
            {
                &&& 0 <= k < all.len()
                &&& (#[trigger] all[k]).name == name
                &&& v == all.update(k, v[k])
                &&& flag_value(flags, "rename"@) is None ==> v[k].name == name
                &&& flag_value(flags, "rename"@) is Some ==> v[k].name == flag_value(flags, "rename"@)->0
                &&& flag_value(flags, "address"@) is None ==> v[k].address == all[k].address
                &&& flag_value(flags, "address"@) is Some ==> v[k].address == flag_value(
                    flags,
                    "address"@,
                )->0
                &&& flags.dom().contains("tls"@) ==> v[k].tls
                &&& flags.dom().contains("no-tls"@) ==> !v[k].tls
                &&& !flags.dom().contains("tls"@) && !flags.dom().contains("no-tls"@) ==> v[k].tls
                    == all[k].tls
                &&& flags.dom().contains("no-token"@) ==> v[k].token is None
                &&& !flags.dom().contains("no-token"@) && flag_value(flags, "token"@) is None ==> v[k].token
                    == all[k].token
                &&& !flags.dom().contains("no-token"@) && flag_value(flags, "token"@) is Some ==> v[k].token
                    == flag_value(flags, "token"@)
                &&& flag_value(flags, "fingerprint"@) is None ==> v[k].fingerprint == all[k].fingerprint
            },
{
    lemma_host_at(all, name, 0);
    if let Ok(v) = hosts_changed(all, name, flags) {
        let k = host_at(all, name, 0)->0;
        assert(all[k].name == name);
        assert(v =~= all.update(k, v[k]));
    }
}

/// Removing a host takes out what has its name, and nothing else.
pub proof fn law_a_removed_host_is_gone(all: Seq<HostRecordView>, name: Seq<char>, h: HostRecordView)
    ensures
        without_name(all, name).contains(h) <==> all.contains(h) && h.name != name,
    decreases all.len(),
{
    if all.len() > 0 {
        let before = all.drop_last();
        let rest = without_name(before, name);
        let left = without_name(all, name);
        law_a_removed_host_is_gone(before, name, h);
        if rest.contains(h) {
            let k = choose|k: int| 0 <= k < rest.len() && rest[k] == h;
            assert(left[k] == h);
        }
        if before.contains(h) {
            let k = choose|k: int| 0 <= k < before.len() && before[k] == h;
            assert(all[k] == h);
        }
        if all.last() == h {
            assert(all[all.len() - 1] == h);
            if h.name != name {
                assert(left[left.len() - 1] == h);
            }
        }
        if all.contains(h) {
            let k = choose|k: int| 0 <= k < all.len() && all[k] == h;
            if k < before.len() {
                assert(before[k] == h);
            }
        }
        if left.contains(h) {
            let k = choose|k: int| 0 <= k < left.len() && left[k] == h;
            if k < rest.len() {
                assert(rest[k] == h);
            }
        }
    }
}

/// A host is added unless its name is taken, its name, its address or its pin is wrong, or the switches
/// contradict each other; a host is changed where there is one of that name and what it becomes is right; and
/// one is removed where there is one of that name.
pub proof fn law_when_hosts_are_changed(
    args: FlagsView,
    all: Seq<HostRecordView>,
    r: Result<Seq<HostRecordView>, Seq<char>>,
)
    requires
        is_host_plan(args, all, r),
        args.positional.len() >= 3,
        !has_unknown(args.flags, change_flags(args.positional[0])),
    ensures
        ({
            let name = args.positional[1];
            let there = exists|k: int| 0 <= k < all.len() && (#[trigger] all[k]).name == name;
            let both = args.flags.dom().contains("tls"@) && args.flags.dom().contains("no-tls"@);
            let pin = flag_value(args.flags, "fingerprint"@);
            &&& args.positional[0] == "add"@ && flag_value(args.flags, "rename"@) is None && flag_value(
                args.flags,
                "address"@,
            ) is None ==> (r is Ok <==> !there && !both && label_fault("name"@, name) is None
                && address_fault(args.positional[2]) is None && (pin is Some ==> fingerprint_fault(pin->0)
                is None))
            &&& args.positional[0] == "set"@ && !there ==> r is Err
            &&& args.positional[0] == "set"@ && both ==> r is Err
            &&& args.positional[0] == "rm"@ ==> (r is Ok <==> there)
            &&& args.positional[0] == "rm"@ && there ==> forall|h: HostRecordView| #[trigger]
                r->Ok_0.contains(h) ==> h.name != name && all.contains(h)
            &&& args.positional[0] != "add"@ && args.positional[0] != "set"@ && args.positional[0] != "rm"@
                ==> r is Err
        }),
{
    let name = args.positional[1];
    reveal_strlit("add");
    reveal_strlit("set");
    reveal_strlit("rm");
    assert("add"@[0] == 'a' && "set"@[0] == 's' && "rm"@[0] == 'r');
    lemma_host_at(all, name, 0);
    if args.positional[0] == "rm"@ && r is Ok {
        assert forall|h: HostRecordView| #[trigger] r->Ok_0.contains(h) implies h.name != name
            && all.contains(h) by {
            law_a_removed_host_is_gone(all, name, h);
        }
    }
}

/// A host that is changed to a name of another is refused, and so is one that is changed to what no host may
/// be; any other change of a host that is there goes through.
pub proof fn law_when_a_host_is_changed(
    all: Seq<HostRecordView>,
    name: Seq<char>,
    flags: Map<Seq<char>, Option<Seq<char>>>,
    k: int,
)
    requires
        distinct_names(all),
        0 <= k < all.len(),
        all[k].name == name,
        !(flags.dom().contains("tls"@) && flags.dom().contains("no-tls"@)),
    ensures
        ({
            let to = flag_value(flags, "rename"@);
            let at = flag_value(flags, "address"@);
            let pin = flag_value(flags, "fingerprint"@);
            let r = hosts_changed(all, name, flags);
            &&& to is Some && to->0 != name && (exists|j: int|
                0 <= j < all.len() && (#[trigger] all[j]).name == to->0) ==> r is Err
            &&& to is Some && label_fault("name"@, to->0) is Some ==> r is Err
            &&& at is Some && address_fault(at->0) is Some ==> r is Err
            &&& pin is Some && fingerprint_fault(pin->0) is Some ==> r is Err
            &&& host_fault(all[k]) is None && to is None && (at is Some ==> address_fault(at->0) is None)
                && (pin is Some ==> fingerprint_fault(pin->0) is None) ==> r is Ok
        }),
{
    lemma_host_at(all, name, 0);
    let i = host_at(all, name, 0)->0;
    assert(i == k);
    if let Some(to) = flag_value(flags, "rename"@) {
        lemma_host_at(all, to, 0);
    }
}

} // verus!
