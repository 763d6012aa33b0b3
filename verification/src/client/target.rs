//! From what the user typed to a remote daemon that can be dialled.

use vstd::prelude::*;

use crate::client::forward::{RemoteTarget, RemoteTargetView};
use crate::config::hosts;
use crate::config::hosts::{entries, HostEntry, HostEntryView};
use crate::config::resolve::Config;
use crate::text;
use crate::text::{opt_str, opt_text, quoted};

verus! {

/// The first entry with this name, from index `from` on.
pub open spec fn entry_named(all: Seq<HostEntryView>, name: Seq<char>, from: int) -> Option<
    HostEntryView,
>
    decreases all.len() - from,
{
    if from < 0 || from >= all.len() {
        None
    } else if all[from].record.name == name {
        Some(all[from])
    } else {
        entry_named(all, name, from + 1)
    }
}

/// The first entry with this address, from index `from` on.
pub open spec fn entry_at(all: Seq<HostEntryView>, address: Seq<char>, from: int) -> Option<
    HostEntryView,
>
    decreases all.len() - from,
{
    if from < 0 || from >= all.len() {
        None
    } else if all[from].record.address == address {
        Some(all[from])
    } else {
        entry_at(all, address, from + 1)
    }
}

fn find_named(all: &[HostEntry], name: &str) -> (found: Option<usize>)
    ensures
        match found {
            Some(k) => k < all.len() && entry_named(entries(all@), name@, 0) == Some(all@[k as int]@),
            None => entry_named(entries(all@), name@, 0) is None,
        },
{
    let mut i: usize = 0;
    while i < all.len()
        invariant
            i <= all.len(),
            entry_named(entries(all@), name@, 0) == entry_named(entries(all@), name@, i as int),
        decreases all.len() - i,
    {
        assert(entries(all@)[i as int] == all@[i as int]@);
        if text::same(all[i].record.name.as_str(), name) {
            return Some(i);
        }
        i = i + 1;
    }
    None
}

fn find_at(all: &[HostEntry], address: &str) -> (found: Option<usize>)
    ensures
        match found {
            Some(k) => k < all.len() && entry_at(entries(all@), address@, 0) == Some(all@[k as int]@),
            None => entry_at(entries(all@), address@, 0) is None,
        },
{
    let mut i: usize = 0;
    while i < all.len()
        invariant
            i <= all.len(),
            entry_at(entries(all@), address@, 0) == entry_at(entries(all@), address@, i as int),
        decreases all.len() - i,
    {
        assert(entries(all@)[i as int] == all@[i as int]@);
        if text::same(all[i].record.address.as_str(), address) {
            return Some(i);
        }
        i = i + 1;
    }
    None
}

/// The target that an entry stands for.
pub open spec fn entry_target(e: HostEntryView) -> RemoteTargetView {
    RemoteTargetView {
        label: e.record.name,
        address: e.record.address,
        token: e.record.token,
        tls: e.record.tls,
        fingerprint: e.record.fingerprint,
    }
}

/// The target for an address that no entry has: the credentials of the configuration, and no pin. A
/// configured token implies TLS.
pub open spec fn adhoc_target(address: Seq<char>, cfg: Config) -> RemoteTargetView {
    RemoteTargetView {
        label: address,
        address,
        token: opt_text(cfg.remote_token),
        tls: cfg.remote_tls || cfg.remote_token is Some,
        fingerprint: None,
    }
}

fn from_entry(e: &HostEntry) -> (t: RemoteTarget)
    ensures
        t@ == entry_target(e@),
{
    RemoteTarget {
        label: e.record.name.clone(),
        address: e.record.address.clone(),
        token: e.record.token.clone(),
        tls: e.record.tls,
        fingerprint: e.record.fingerprint.clone(),
    }
}

fn adhoc(address: &str, cfg: &Config) -> (t: RemoteTarget)
    ensures
        t@ == adhoc_target(address@, *cfg),
{
    RemoteTarget {
        label: address.to_owned(),
        address: address.to_owned(),
        token: cfg.remote_token.clone(),
        tls: cfg.remote_tls || cfg.remote_token.is_some(),
        fingerprint: None,
    }
}

/// The target that a selector picks, before its token is looked at: with no selector the configured
/// host, by its entry where it has one; else the entry with that name, else the one with that
/// address, else, where the selector is an address, that address itself.
pub open spec fn selected(
    selector: Option<Seq<char>>,
    all: Seq<HostEntryView>,
    cfg: Config,
) -> Result<RemoteTargetView, Seq<char>> {
    match selector {
        None => match opt_text(cfg.remote_host) {
            None => Err(
                "no remote host given and none configured — pass one (`clowder connect <name|host:port>`), add one (`clowder remote add <name> <host:port>`), or set [remote] host"@,
            ),
            Some(address) => match entry_at(all, address, 0) {
                Some(e) => Ok(entry_target(e)),
                None => Ok(adhoc_target(address, cfg)),
            },
        },
        Some(sel) => match entry_named(all, sel, 0) {
            Some(e) => Ok(entry_target(e)),
            None => match entry_at(all, sel, 0) {
                Some(e) => Ok(entry_target(e)),
                None => if hosts::address_fault(sel) is None {
                    Ok(adhoc_target(sel, cfg))
                } else {
                    Err(
                        "unknown host "@ + quoted(sel)
                            + "; try `clowder remote list` (or pass a full host:port)"@,
                    )
                },
            },
        },
    }
}

/// The target that a selector picks. One with a token but without TLS is refused.
pub open spec fn resolved(
    selector: Option<Seq<char>>,
    all: Seq<HostEntryView>,
    cfg: Config,
) -> Result<RemoteTargetView, Seq<char>> {
    match selected(selector, all, cfg) {
        Err(m) => Err(m),
        Ok(t) => if t.token is Some && !t.tls {
            Err(
                "host "@ + quoted(t.label)
                    + " has a token but TLS is off — a bearer token must never cross the network in cleartext. Run `clowder remote set "@
                    + t.label + " --tls`, or clear the token with --no-token."@,
            )
        } else {
            Ok(t)
        },
    }
}

fn select(selector: Option<&str>, all: &[HostEntry], cfg: &Config) -> (r: Result<RemoteTarget, String>)
    ensures
        match r {
            Ok(t) => selected(opt_str(selector), entries(all@), *cfg) == Ok::<
                RemoteTargetView,
                Seq<char>,
            >(t@),
            Err(e) => selected(opt_str(selector), entries(all@), *cfg) == Err::<
                RemoteTargetView,
                Seq<char>,
            >(e@),
        },
{
    match selector {
        None => match &cfg.remote_host {
            None => Err(
                "no remote host given and none configured — pass one (`clowder connect <name|host:port>`), add one (`clowder remote add <name> <host:port>`), or set [remote] host".to_owned(),
            ),
            Some(address) => match find_at(all, address.as_str()) {
                Some(k) => Ok(from_entry(&all[k])),
                None => Ok(adhoc(address.as_str(), cfg)),
            },
        },
        Some(sel) => match find_named(all, sel) {
            Some(k) => Ok(from_entry(&all[k])),
            None => match find_at(all, sel) {
                Some(k) => Ok(from_entry(&all[k])),
                None => if hosts::validate_address(sel).is_ok() {
                    Ok(adhoc(sel, cfg))
                } else {
                    let mut m = "unknown host ".to_owned();
                    m.append(text::quote(sel).as_str());
                    m.append("; try `clowder remote list` (or pass a full host:port)");
                    Err(m)
                },
            },
        },
    }
}

/// Resolve what the user typed against the list of hosts.
pub fn resolve_target(selector: Option<&str>, all: &[HostEntry], cfg: &Config) -> (r: Result<
    RemoteTarget,
    String,
>)
    ensures
        match r {
            Ok(t) => resolved(opt_str(selector), entries(all@), *cfg) == Ok::<
                RemoteTargetView,
                Seq<char>,
            >(t@),
            Err(e) => resolved(opt_str(selector), entries(all@), *cfg) == Err::<
                RemoteTargetView,
                Seq<char>,
            >(e@),
        },
{
    match select(selector, all, cfg) {
        Err(e) => Err(e),
        Ok(t) => {
            if t.token.is_some() && !t.tls {
                let mut m = "host ".to_owned();
                m.append(text::quote(t.label.as_str()).as_str());
                m.append(
                    " has a token but TLS is off — a bearer token must never cross the network in cleartext. Run `clowder remote set ",
                );
                m.append(t.label.as_str());
                m.append(" --tls`, or clear the token with --no-token.");
                return Err(m);
            }
            Ok(t)
        },
    }
}

/// No target with a token is ever dialled without TLS.
pub proof fn law_no_token_without_tls(
    selector: Option<Seq<char>>,
    all: Seq<HostEntryView>,
    cfg: Config,
)
    ensures
        resolved(selector, all, cfg) matches Ok(t) ==> (t.token is Some ==> t.tls),
{
}

/// A name is looked for before an address.
pub proof fn law_name_before_address(sel: Seq<char>, all: Seq<HostEntryView>, cfg: Config)
    requires
        entry_named(all, sel, 0) is Some,
    ensures
        selected(Some(sel), all, cfg) == Ok::<RemoteTargetView, Seq<char>>(
            entry_target(entry_named(all, sel, 0)->0),
        ),
{
}

proof fn lemma_entry_named(all: Seq<HostEntryView>, name: Seq<char>, from: int)
    requires
        0 <= from <= all.len(),
    ensures
        match entry_named(all, name, from) {
            Some(e) => exists|k: int|
                {
                    &&& from <= k < all.len()
                    &&& #[trigger] all[k] == e
                    &&& e.record.name == name
                    &&& forall|j: int| from <= j < k ==> (#[trigger] all[j]).record.name != name
                },
            None => forall|k: int| from <= k < all.len() ==> (#[trigger] all[k]).record.name != name,
        },
    decreases all.len() - from,
{
    if from < all.len() && all[from].record.name != name {
        lemma_entry_named(all, name, from + 1);
    }
}

proof fn lemma_entry_at(all: Seq<HostEntryView>, address: Seq<char>, from: int)
    requires
        0 <= from <= all.len(),
    ensures
        match entry_at(all, address, from) {
            Some(e) => exists|k: int|
                {
                    &&& from <= k < all.len()
                    &&& #[trigger] all[k] == e
                    &&& e.record.address == address
                    &&& forall|j: int| from <= j < k ==> (#[trigger] all[j]).record.address != address
                },
            None => forall|k: int| from <= k < all.len() ==> (#[trigger] all[k]).record.address != address,
        },
    decreases all.len() - from,
{
    if from < all.len() && all[from].record.address != address {
        lemma_entry_at(all, address, from + 1);
    }
}

/// The target is what an entry says: where it is, what shows who we are, and by what it is known.
pub open spec fn is_entry(t: RemoteTargetView, e: HostEntryView) -> bool {
    &&& t.label == e.record.name
    &&& t.address == e.record.address
    &&& t.token == e.record.token
    &&& t.tls == e.record.tls
    &&& t.fingerprint == e.record.fingerprint
}

/// What the user typed picks the host of that name, with its own address, token and pin; else the one at
/// that address, with the same; else, where it is an address, that address, with the token of the settings
/// and no pin. Nothing else is ever dialled.
pub proof fn law_what_was_typed_is_dialled(sel: Seq<char>, all: Seq<HostEntryView>, cfg: Config)
    ensures
        resolved(Some(sel), all, cfg) matches Ok(t) ==> {
            let named = exists|k: int| 0 <= k < all.len() && (#[trigger] all[k]).record.name == sel;
            let listed = exists|k: int| 0 <= k < all.len() && (#[trigger] all[k]).record.address == sel;
            &&& named ==> exists|k: int|
                0 <= k < all.len() && (#[trigger] all[k]).record.name == sel && is_entry(t, all[k])
            &&& !named && listed ==> exists|k: int|
                0 <= k < all.len() && (#[trigger] all[k]).record.address == sel && is_entry(t, all[k])
            &&& !named && !listed ==> {
                &&& hosts::address_fault(sel) is None
                &&& t.address == sel
                &&& t.label == sel
                &&& t.fingerprint is None
                &&& t.token == opt_text(cfg.remote_token)
                &&& t.tls == (cfg.remote_tls || cfg.remote_token is Some)
            }
        },
{
    lemma_entry_named(all, sel, 0);
    lemma_entry_at(all, sel, 0);
}

/// Where nothing was typed, the configured host is dialled: as it is listed, where it is, else with the token
/// of the settings and no pin. Where none is configured, nothing is.
pub proof fn law_the_configured_host_is_dialled(all: Seq<HostEntryView>, cfg: Config)
    ensures
        cfg.remote_host is None ==> resolved(None, all, cfg) is Err,
        resolved(None, all, cfg) matches Ok(t) ==> {
            let address = cfg.remote_host->0@;
            let listed = exists|k: int| 0 <= k < all.len() && (#[trigger] all[k]).record.address == address;
            &&& t.address == address
            &&& listed ==> exists|k: int|
                0 <= k < all.len() && (#[trigger] all[k]).record.address == address && is_entry(t, all[k])
            &&& !listed ==> t.fingerprint is None && t.token == opt_text(cfg.remote_token) && t.tls == (
            cfg.remote_tls || cfg.remote_token is Some)
        },
{
    if let Some(host) = cfg.remote_host {
        lemma_entry_at(all, host@, 0);
    }
}

/// An address that no entry has is always dialled: over TLS where the configuration asks for that or has a
/// token, which goes along, and in clear else.
pub proof fn law_a_bare_address_is_dialled(sel: Seq<char>, all: Seq<HostEntryView>, cfg: Config)
    requires
        hosts::address_fault(sel) is None,
        forall|k: int|
            0 <= k < all.len() ==> (#[trigger] all[k]).record.name != sel && all[k].record.address != sel,
    ensures
        ({
            let r = resolved(Some(sel), all, cfg);
            &&& r is Ok
            &&& r->Ok_0.address == sel
            &&& r->Ok_0.tls <==> cfg.remote_tls || cfg.remote_token is Some
            &&& r->Ok_0.token == opt_text(cfg.remote_token)
            &&& r->Ok_0.fingerprint is None
        }),
{
    lemma_no_entry(all, sel, 0);
}

proof fn lemma_no_entry(all: Seq<HostEntryView>, sel: Seq<char>, from: int)
    requires
        0 <= from,
        forall|k: int|
            from <= k < all.len() ==> (#[trigger] all[k]).record.name != sel && all[k].record.address != sel,
    ensures
        entry_named(all, sel, from) is None,
        entry_at(all, sel, from) is None,
    decreases all.len() - from,
{
    if from < all.len() {
        lemma_no_entry(all, sel, from + 1);
    }
}

} // verus!
