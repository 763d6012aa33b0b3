//! The registry of remote hosts: a list of remote daemons under names of the user's own.

use vstd::prelude::*;

use crate::config::label;
use crate::config::resolve;
use crate::config::resolve::Config;
use crate::config::vars::Vars;
use crate::text;
use crate::text::{decimal, index_from, is_white, number_up_to, opt_text, quoted};

verus! {

/// One remote daemon. The name is its identity; the address may change under it.
#[derive(Debug, Clone, PartialEq, Eq)]
pub struct HostRecord {
    pub name: String,
    pub address: String,
    pub tls: bool,
    /// The bearer token for this daemon.
    pub token: Option<String>,
    /// The pinned SHA-256 of the server's certificate, in lowercase hex.
    pub fingerprint: Option<String>,
}

/// What a host record says.
pub struct HostRecordView {
    pub name: Seq<char>,
    pub address: Seq<char>,
    pub tls: bool,
    pub token: Option<Seq<char>>,
    pub fingerprint: Option<Seq<char>>,
}

impl View for HostRecord {
    type V = HostRecordView;

    open spec fn view(&self) -> HostRecordView {
        HostRecordView {
            name: self.name@,
            address: self.address@,
            tls: self.tls,
            token: opt_text(self.token),
            fingerprint: opt_text(self.fingerprint),
        }
    }
}

impl HostRecord {
    /// A copy that says the same.
    pub fn copied(&self) -> (r: HostRecord)
        ensures
            r@ == self@,
    {
        HostRecord {
            name: self.name.clone(),
            address: self.address.clone(),
            tls: self.tls,
            token: self.token.clone(),
            fingerprint: self.fingerprint.clone(),
        }
    }
}

/// Check the name of a host: one to 64 ASCII letters, digits, `.`, `_` and `-`, and neither `.` nor
/// `..`.
pub fn validate_name(name: &str) -> (r: Result<(), String>)
    ensures
        match r {
            Ok(_) => label::label_fault("name"@, name@) is None,
            Err(e) => label::label_fault("name"@, name@) == Some(e@),
        },
{
    label::check_label("name", name)
}

/// A digit of lowercase hex.
pub open spec fn is_hex(c: char) -> bool {
    '0' <= c <= '9' || 'a' <= c <= 'f'
}

/// Nothing but lowercase hex.
pub open spec fn all_hex(s: Seq<char>) -> bool {
    forall|k: int| 0 <= k < s.len() ==> is_hex(#[trigger] s[k])
}

/// What is wrong with a fingerprint.
pub open spec fn fingerprint_fault(fp: Seq<char>) -> Option<Seq<char>> {
    if fp.len() == 0 {
        Some("fingerprint must not be empty (expected lowercase hex)"@)
    } else if fp.len() % 2 != 0 || !all_hex(fp) {
        Some(
            "fingerprint must be lowercase hex with an even number of digits, e.g. the value printed by `clowder remote probe` (got "@
                + quoted(fp) + ")"@,
        )
    } else {
        None
    }
}

/// Check a certificate pin: lowercase hex, of even length.
pub fn validate_fingerprint(fp: &str) -> (r: Result<(), String>)
    ensures
        match r {
            Ok(_) => fingerprint_fault(fp@) is None,
            Err(e) => fingerprint_fault(fp@) == Some(e@),
        },
{
    let v = text::chars_of(fp);
    if v.len() == 0 {
        return Err("fingerprint must not be empty (expected lowercase hex)".to_owned());
    }
    let mut hex = true;
    let mut i: usize = 0;
    while i < v.len()
        invariant
            i <= v.len(),
            hex <==> forall|k: int| 0 <= k < i ==> is_hex(#[trigger] v@[k]),
        decreases v.len() - i,
    {
        let c = v[i];
        if !(('0' <= c && c <= '9') || ('a' <= c && c <= 'f')) {
            hex = false;
        }
        i = i + 1;
    }
    if v.len() % 2 != 0 || !hex {
        let mut m =
            "fingerprint must be lowercase hex with an even number of digits, e.g. the value printed by `clowder remote probe` (got ".to_owned();
        m.append(text::quote(fp).as_str());
        m.append(")");
        return Err(m);
    }
    Ok(())
}

/// The host and the port of `host:port` or `[v6]:port`. An IPv6 address without brackets is
/// ambiguous, and has none.
pub open spec fn host_and_port(s: Seq<char>) -> Option<(Seq<char>, Seq<char>)> {
    if s.len() > 0 && s[0] == '[' {
        match index_from(s, ']', 1) {
            Some(i) if i + 1 < s.len() && s[i + 1] == ':' => Some((s.subrange(1, i), s.skip(i + 2))),
            _ => None,
        }
    } else {
        match index_from(s, ':', 0) {
            Some(i) if index_from(s, ':', i + 1) is None => Some((s.take(i), s.skip(i + 1))),
            _ => None,
        }
    }
}

/// The host and the port of an address.
pub fn split_host_port(s: &str) -> (parts: Option<(String, String)>)
    ensures
        match parts {
            Some((host, port)) => host_and_port(s@) == Some((host@, port@)),
            None => host_and_port(s@) is None,
        },
{
    let v = text::chars_of(s);
    if v.len() > 0 && v[0] == '[' {
        match text::position_from(&v, ']', 1) {
            Some(i) => if i < v.len() - 1 && v[i + 1] == ':' {
                Some((text::text_between(&v, 1, i), text::text_between(&v, i + 2, v.len())))
            } else {
                None
            },
            None => None,
        }
    } else {
        match text::position_from(&v, ':', 0) {
            Some(i) => match text::position_from(&v, ':', i + 1) {
                Some(_) => None,
                None => Some((text::text_between(&v, 0, i), text::text_between(&v, i + 1, v.len()))),
            },
            None => None,
        }
    }
}

/// White space stands somewhere in the text.
pub open spec fn has_white(s: Seq<char>) -> bool {
    exists|k: int| 0 <= k < s.len() && is_white(#[trigger] s[k])
}

/// Whether white space stands somewhere in the text.
pub fn any_white(s: &str) -> (yes: bool)
    ensures
        yes == has_white(s@),
{
    let v = text::chars_of(s);
    let mut i: usize = 0;
    while i < v.len()
        invariant
            v@ == s@,
            i <= v.len(),
            forall|k: int| 0 <= k < i ==> !is_white(#[trigger] v@[k]),
        decreases v.len() - i,
    {
        if text::white(v[i]) {
            return true;
        }
        i = i + 1;
    }
    false
}

/// What is wrong with an address.
pub open spec fn address_fault(address: Seq<char>) -> Option<Seq<char>> {
    if has_white(address) {
        Some("address must not contain whitespace (got "@ + quoted(address) + ")"@)
    } else {
        match host_and_port(address) {
            None => Some(
                "address must be host:port or [ipv6]:port (got "@ + quoted(address) + ")"@,
            ),
            Some((host, port)) => if host.len() == 0 {
                Some("address is missing a host (got "@ + quoted(address) + ")"@)
            } else {
                match number_up_to(port, u16::MAX as nat) {
                    Some(n) if n > 0 => None,
                    _ => Some("address has an invalid port (got "@ + quoted(port) + ")"@),
                }
            },
        }
    }
}

/// The message, the text in quotes, and a closing bracket.
fn with_quoted(message: &str, s: &str) -> (m: String)
    ensures
        m@ == message@ + quoted(s@) + ")"@,
{
    let mut m = message.to_owned();
    m.append(text::quote(s).as_str());
    m.append(")");
    m
}

/// Check an address: `host:port`, or `[v6]:port` for an IPv6 address. The port is never implied.
pub fn validate_address(address: &str) -> (r: Result<(), String>)
    ensures
        match r {
            Ok(_) => address_fault(address@) is None,
            Err(e) => address_fault(address@) == Some(e@),
        },
{
    if any_white(address) {
        return Err(with_quoted("address must not contain whitespace (got ", address));
    }
    match split_host_port(address) {
        None => Err(with_quoted("address must be host:port or [ipv6]:port (got ", address)),
        Some((host, port)) => {
            if host.as_str().is_empty() {
                return Err(with_quoted("address is missing a host (got ", address));
            }
            match text::parse_up_to(port.as_str(), u16::MAX as u64) {
                Some(n) => if n > 0 {
                    Ok(())
                } else {
                    Err(with_quoted("address has an invalid port (got ", port.as_str()))
                },
                None => Err(with_quoted("address has an invalid port (got ", port.as_str())),
            }
        },
    }
}

/// An address that passes holds a `:`, which no host name may hold: the two never collide.
pub proof fn law_address_is_never_a_name(noun: Seq<char>, s: Seq<char>)
    requires
        address_fault(s) is None,
    ensures
        label::label_fault(noun, s) is Some,
{
    if label::label_fault(noun, s) is None {
        assert(label::first_stray(s, 0) is None);
        text::lemma_index_from(s, ':', 0);
        text::lemma_index_from(s, ']', 1);
        let i = if s[0] == '[' {
            index_from(s, ']', 1)->0
        } else {
            index_from(s, ':', 0)->0
        };
        lemma_stray_found(s, 0, i);
    }
}

proof fn lemma_stray_found(s: Seq<char>, from: int, k: int)
    requires
        0 <= from <= k < s.len(),
        !label::label_char(s[k]),
    ensures
        label::first_stray(s, from) is Some,
    decreases k - from,
{
    if from < k {
        lemma_stray_found(s, from + 1, k);
    }
}

/// Where a host entry came from. Those of the configuration are read-only.
#[derive(Debug, Clone, Copy, PartialEq, Eq, Structural)]
pub enum HostSource {
    Registry,
    Config,
}

/// A host as the user sees it.
#[derive(Debug, Clone, PartialEq, Eq)]
pub struct HostEntry {
    pub record: HostRecord,
    pub source: HostSource,
}

/// What a host entry says.
pub struct HostEntryView {
    pub record: HostRecordView,
    pub source: HostSource,
}

impl View for HostEntry {
    type V = HostEntryView;

    open spec fn view(&self) -> HostEntryView {
        HostEntryView { record: self.record@, source: self.source }
    }
}

/// What the entries say.
pub open spec fn entries(hosts: Seq<HostEntry>) -> Seq<HostEntryView> {
    hosts.map_values(|e: HostEntry| e@)
}

/// What the records say.
pub open spec fn records(hosts: Seq<HostRecord>) -> Seq<HostRecordView> {
    hosts.map_values(|r: HostRecord| r@)
}

/// The records as entries of the registry.
pub open spec fn registered(file: Seq<HostRecordView>) -> Seq<HostEntryView> {
    file.map_values(|r: HostRecordView| HostEntryView { record: r, source: HostSource::Registry })
}

/// An entry has this name.
pub open spec fn name_taken(hosts: Seq<HostEntryView>, name: Seq<char>) -> bool {
    exists|k: int| 0 <= k < hosts.len() && (#[trigger] hosts[k]).record.name == name
}

/// An entry has this address.
pub open spec fn address_taken(hosts: Seq<HostEntryView>, address: Seq<char>) -> bool {
    exists|k: int| 0 <= k < hosts.len() && (#[trigger] hosts[k]).record.address == address
}

/// The name with a number behind it.
pub open spec fn numbered(name: Seq<char>, n: nat) -> Seq<char> {
    name + "-"@ + decimal(n)
}

/// The numbered name with the least number, from 2 on, that is free.
pub open spec fn is_first_free(hosts: Seq<HostEntryView>, name: Seq<char>, chosen: Seq<char>) -> bool {
    exists|n: nat|
        {
            &&& n >= 2
            &&& chosen == #[trigger] numbered(name, n)
            &&& !name_taken(hosts, chosen)
            &&& forall|k: nat| 2 <= k < n ==> name_taken(hosts, #[trigger] numbered(name, k))
        }
}

/// The name that an entry of the configuration gets: `primary` where it is free, else `secondary`
/// where it is free, else the first free `secondary-2`, `secondary-3`, …
pub open spec fn is_unique_name(
    hosts: Seq<HostEntryView>,
    primary: Seq<char>,
    secondary: Seq<char>,
    chosen: Seq<char>,
) -> bool {
    if !name_taken(hosts, primary) {
        chosen == primary
    } else if !name_taken(hosts, secondary) {
        chosen == secondary
    } else {
        is_first_free(hosts, secondary, chosen)
    }
}

/// Whether an entry has this name.
fn has_name(hosts: &[HostEntry], name: &str) -> (yes: bool)
    ensures
        yes == name_taken(entries(hosts@), name@),
{
    let mut i: usize = 0;
    while i < hosts.len()
        invariant
            i <= hosts.len(),
            forall|k: int| 0 <= k < i ==> (#[trigger] entries(hosts@)[k]).record.name != name@,
        decreases hosts.len() - i,
    {
        assert(entries(hosts@)[i as int] == hosts@[i as int]@);
        if text::same(hosts[i].record.name.as_str(), name) {
            return true;
        }
        i = i + 1;
    }
    false
}

/// Different numbers give different names.
proof fn lemma_numbered_injective(name: Seq<char>, a: nat, b: nat)
    requires
        numbered(name, a) == numbered(name, b),
    ensures
        a == b,
{
    let head = name + "-"@;
    assert(decimal(a) =~= numbered(name, a).skip(head.len() as int));
    assert(decimal(b) =~= numbered(name, b).skip(head.len() as int));
    text::lemma_decimal_injective(a, b);
}

/// Some number up to one more than there are entries is free.
proof fn lemma_some_number_is_free(hosts: Seq<HostEntryView>, name: Seq<char>, n: nat)
    requires
        n >= 2,
        forall|k: nat| 2 <= k < n ==> name_taken(hosts, #[trigger] numbered(name, k)),
    ensures
        n <= hosts.len() + 2,
{
    let holder = |k: int|
        choose|i: int| 0 <= i < hosts.len() && (#[trigger] hosts[i]).record.name == numbered(name, k as nat);
    let numbers = Seq::new((n - 2) as nat, |j: int| holder(j + 2));
    assert forall|j: int| 0 <= j < numbers.len() implies {
        &&& 0 <= #[trigger] numbers[j] < hosts.len()
        &&& hosts[numbers[j]].record.name == numbered(name, (j + 2) as nat)
    } by {
        assert(name_taken(hosts, numbered(name, (j + 2) as nat)));
    }
    assert(numbers.no_duplicates()) by {
        assert forall|a: int, b: int|
            0 <= a < numbers.len() && 0 <= b < numbers.len() && a != b implies numbers[a] != numbers[b] by {
            if numbers[a] == numbers[b] {
                lemma_numbered_injective(name, (a + 2) as nat, (b + 2) as nat);
            }
        }
    }
    numbers.unique_seq_to_set();
    let all = vstd::set_lib::set_int_range(0, hosts.len() as int);
    vstd::set_lib::lemma_int_range(0, hosts.len() as int);
    assert(numbers.to_set().subset_of(all));
    vstd::set_lib::lemma_len_subset(numbers.to_set(), all);
}

/// A name that no entry has: `primary`, `secondary`, or `secondary` with a number behind it.
pub fn find_unique_name(hosts: &[HostEntry], primary: &str, secondary: &str) -> (name: String)
    ensures
        is_unique_name(entries(hosts@), primary@, secondary@, name@),
        !name_taken(entries(hosts@), name@),
{
    if !has_name(hosts, primary) {
        return primary.to_owned();
    }
    if !has_name(hosts, secondary) {
        return secondary.to_owned();
    }
    let mut n: u128 = 2;
    loop
        invariant
            2 <= n <= hosts.len() + 2,
            name_taken(entries(hosts@), primary@),
            name_taken(entries(hosts@), secondary@),
            forall|k: nat| 2 <= k < n ==> name_taken(entries(hosts@), #[trigger] numbered(secondary@, k)),
        decreases hosts.len() + 2 - n,
    {
        let mut candidate = secondary.to_owned();
        candidate.append("-");
        candidate.append(text::show(n).as_str());
        assert(candidate@ == numbered(secondary@, n as nat));
        if !has_name(hosts, candidate.as_str()) {
            return candidate;
        }
        proof {
            lemma_some_number_is_free(entries(hosts@), secondary@, (n + 1) as nat);
        }
        n = n + 1;
    }
}

/// The entry that the configuration stands for.
pub open spec fn config_entry(cfg: Config, name: Seq<char>, address: Seq<char>) -> HostEntryView {
    HostEntryView {
        record: HostRecordView {
            name,
            address,
            tls: cfg.remote_tls || cfg.remote_token is Some,
            token: opt_text(cfg.remote_token),
            fingerprint: None,
        },
        source: HostSource::Config,
    }
}

/// The list that the user sees: the registry, then the host of the configuration under a name that
/// no other entry has, unless the registry holds its address.
pub open spec fn is_merged(file: Seq<HostRecordView>, cfg: Config, out: Seq<HostEntryView>) -> bool {
    match opt_text(cfg.remote_host) {
        Some(address) if !address_taken(registered(file), address) => exists|name: Seq<char>|
            {
                &&& is_unique_name(registered(file), "config"@, address, name)
                &&& !name_taken(registered(file), name)
                &&& out == registered(file).push(#[trigger] config_entry(cfg, name, address))
            },
        _ => out == registered(file),
    }
}

/// Merge the host of the configuration into the registry. The configuration stays the only place
/// that says so: nothing of it is written to the registry.
pub fn merged_hosts(file: Vec<HostRecord>, cfg: &Config) -> (out: Vec<HostEntry>)
    ensures
        is_merged(records(file@), *cfg, entries(out@)),
{
    let mut out: Vec<HostEntry> = Vec::new();
    let mut i: usize = 0;
    while i < file.len()
        invariant
            i <= file.len(),
            out@.len() == i,
            forall|k: int|
                0 <= k < i ==> (#[trigger] out@[k])@ == (HostEntryView {
                    record: file@[k]@,
                    source: HostSource::Registry,
                }),
        decreases file.len() - i,
    {
        out.push(HostEntry { record: file[i].copied(), source: HostSource::Registry });
        i = i + 1;
    }
    assert(entries(out@) =~= registered(records(file@)));
    let ghost base = out@;
    let address = match &cfg.remote_host {
        Some(a) => a.clone(),
        None => return out,
    };
    let mut j: usize = 0;
    while j < out.len()
        invariant
            j <= out.len(),
            out@ == base,
            entries(out@) == registered(records(file@)),
            opt_text(cfg.remote_host) == Some(address@),
            forall|k: int| 0 <= k < j ==> (#[trigger] entries(out@)[k]).record.address != address@,
        decreases out.len() - j,
    {
        assert(entries(out@)[j as int] == out@[j as int]@);
        if text::same(out[j].record.address.as_str(), address.as_str()) {
            return out;
        }
        j = j + 1;
    }
    let name = find_unique_name(&out, "config", address.as_str());
    let entry = HostEntry {
        record: HostRecord {
            name,
            address,
            tls: cfg.remote_tls || cfg.remote_token.is_some(),
            token: cfg.remote_token.clone(),
            fingerprint: None,
        },
        source: HostSource::Config,
    };
    out.push(entry);
    proof {
        assert(entries(out@) =~= entries(base).push(entry@));
        assert(entry@ == config_entry(*cfg, entry.record.name@, entry.record.address@));
    }
    out
}

/// No two entries have the same name.
pub open spec fn distinct_names(hosts: Seq<HostEntryView>) -> bool {
    forall|a: int, b: int|
        0 <= a < b < hosts.len() ==> (#[trigger] hosts[a]).record.name != (#[trigger] hosts[b]).record.name
}

/// Merging keeps the names distinct.
pub proof fn law_merged_names_are_distinct(
    file: Seq<HostRecordView>,
    cfg: Config,
    out: Seq<HostEntryView>,
)
    requires
        is_merged(file, cfg, out),
        distinct_names(registered(file)),
    ensures
        distinct_names(out),
{
}

/// Merging what a merge gave changes no record.
pub proof fn law_merge_is_idempotent(
    file: Seq<HostRecordView>,
    cfg: Config,
    once: Seq<HostEntryView>,
    twice: Seq<HostEntryView>,
)
    requires
        is_merged(file, cfg, once),
        is_merged(once.map_values(|e: HostEntryView| e.record), cfg, twice),
    ensures
        twice.map_values(|e: HostEntryView| e.record) == once.map_values(|e: HostEntryView| e.record),
{
    let again = once.map_values(|e: HostEntryView| e.record);
    assert(registered(again).map_values(|e: HostEntryView| e.record) =~= again);
    if let Some(address) = opt_text(cfg.remote_host) {
        if !address_taken(registered(file), address) {
            assert(registered(again).last().record.address == address);
            assert(address_taken(registered(again), address));
        } else {
            let k = choose|k: int|
                0 <= k < registered(file).len() && (#[trigger] registered(file)[k]).record.address
                    == address;
            assert(registered(again)[k].record.address == address);
        }
    }
}

/// A host of the configuration that carries a token is dialled over TLS.
pub proof fn law_config_token_implies_tls(cfg: Config, name: Seq<char>, address: Seq<char>)
    ensures
        config_entry(cfg, name, address).record.token is Some ==> config_entry(
            cfg,
            name,
            address,
        ).record.tls,
{
}

/// What came of reading a file.
pub enum FileRead {
    /// There is no such file.
    Missing,
    /// The file could not be read.
    Failed,
    /// What the file holds.
    Bytes(Vec<u8>),
}

/// An ASCII byte that is white space.
pub open spec fn is_white_byte(b: u8) -> bool {
    b == 0x20 || b == 0x09 || b == 0x0a || b == 0x0c || b == 0x0d
}

/// Nothing but white space.
pub open spec fn is_blank(bytes: Seq<u8>) -> bool {
    forall|k: int| 0 <= k < bytes.len() ==> is_white_byte(#[trigger] bytes[k])
}

/// Whether the bytes are nothing but white space.
pub fn blank(bytes: &[u8]) -> (yes: bool)
    ensures
        yes == is_blank(bytes@),
{
    let mut i: usize = 0;
    while i < bytes.len()
        invariant
            i <= bytes.len(),
            forall|k: int| 0 <= k < i ==> is_white_byte(#[trigger] bytes@[k]),
        decreases bytes.len() - i,
    {
        let b = bytes[i];
        if !(b == 0x20 || b == 0x09 || b == 0x0a || b == 0x0c || b == 0x0d) {
            return false;
        }
        i = i + 1;
    }
    true
}

/// Where the registry stands on disk, and what a change of it may overwrite.
pub struct HostsStore {
    pub path: String,
}

/// The file of the registry: `$CLOWDER_HOSTS_FILE`, else `hosts.json` among the durable state.
pub fn remote_hosts_path(env: &Vars) -> (p: String)
    ensures
        p@ == resolve::state_file(*env, "CLOWDER_HOSTS_FILE"@, "hosts.json"@),
{
    resolve::state_path(env, "CLOWDER_HOSTS_FILE", "hosts.json")
}

impl HostsStore {
    /// The store at this path.
    pub fn new(path: String) -> (s: HostsStore)
        ensures
            s.path@ == path@,
    {
        HostsStore { path }
    }

    /// The store at `remote_hosts_path`.
    pub fn default_store(env: &Vars) -> (s: HostsStore)
        ensures
            s.path@ == resolve::state_file(*env, "CLOWDER_HOSTS_FILE"@, "hosts.json"@),
    {
        HostsStore::new(remote_hosts_path(env))
    }

    /// The records to show, given what came of parsing the file: a file that does not parse shows
    /// none, so that it keeps nobody from the local daemon.
    pub fn load(&self, parsed: Option<Vec<HostRecord>>) -> (all: Vec<HostRecord>)
        ensures
            match parsed {
                Some(v) => records(all@) == records(v@),
                None => all@.len() == 0,
            },
    {
        match parsed {
            Some(v) => v,
            None => Vec::new(),
        }
    }

    /// What a change starts from, given what came of reading the file.
    pub open spec fn is_source(&self, read: FileRead, source: Result<Option<Vec<u8>>, String>) -> bool {
        match read {
            FileRead::Missing => source matches Ok(s) && s is None,
            FileRead::Failed => source matches Err(e) && e@ == "read host registry "@ + self.path@,
            FileRead::Bytes(bytes) => source matches Ok(s) && (if is_blank(bytes@) {
                s is None
            } else {
                s matches Some(b) && b@ == bytes@
            }),
        }
    }

    /// The records that a change starts from, given what came of parsing the file.
    pub open spec fn is_start(
        &self,
        parsed: Result<Vec<HostRecord>, String>,
        all: Result<Vec<HostRecord>, String>,
    ) -> bool {
        match parsed {
            Ok(v) => all matches Ok(a) && records(a@) == records(v@),
            Err(why) => all matches Err(e) && e@ == "host registry "@ + self.path@
                + " is not valid JSON ("@ + why@
                + "); refusing to overwrite it — it holds your bearer tokens and certificate pins. Fix or move the file, then retry."@,
        }
    }

    /// What a change starts from, given what came of reading the file: the bytes to parse, or an
    /// empty registry where the file is missing or blank. A file that cannot be read stops the
    /// change, since nobody knows what it would overwrite.
    pub fn mutation_source(&self, read: FileRead) -> (source: Result<Option<Vec<u8>>, String>)
        ensures
            self.is_source(read, source),
    {
        match read {
            FileRead::Missing => Ok(None),
            FileRead::Failed => {
                let mut m = "read host registry ".to_owned();
                m.append(self.path.as_str());
                Err(m)
            },
            FileRead::Bytes(bytes) => if blank(&bytes) {
                Ok(None)
            } else {
                Ok(Some(bytes))
            },
        }
    }

    /// The records that a change starts from, given what came of parsing the file. One that does not
    /// parse stops the change: writing back would delete every token and every pin in it.
    pub fn load_for_mutation(&self, parsed: Result<Vec<HostRecord>, String>) -> (all: Result<
        Vec<HostRecord>,
        String,
    >)
        ensures
            self.is_start(parsed, all),
    {
        match parsed {
            Ok(v) => Ok(v),
            Err(why) => {
                let mut m = "host registry ".to_owned();
                m.append(self.path.as_str());
                m.append(" is not valid JSON (");
                m.append(why.as_str());
                m.append(
                    "); refusing to overwrite it — it holds your bearer tokens and certificate pins. Fix or move the file, then retry.",
                );
                Err(m)
            },
        }
    }

    /// The file whose lock a change holds. It is not the registry itself, which a rename replaces.
    pub fn lock_path(&self) -> (p: String)
        ensures
            p@ == self.path@ + ".lock"@,
    {
        let mut p = self.path.clone();
        p.append(".lock");
        p
    }

    /// The file that a change writes before the rename: one for each process and each write.
    pub fn temp_path(&self, pid: u32, seq: u64) -> (p: String)
        ensures
            p@ == temp_name(self.path@, pid as nat, seq as nat),
    {
        let mut p = self.path.clone();
        p.append(".");
        p.append(text::show(pid as u128).as_str());
        p.append(".");
        p.append(text::show(seq as u128).as_str());
        p.append(".tmp");
        p
    }
}

/// The file that a change of `path` writes before the rename.
pub open spec fn temp_name(path: Seq<char>, pid: nat, seq: nat) -> Seq<char> {
    path + "."@ + decimal(pid) + "."@ + decimal(seq) + ".tmp"@
}

/// Two writes of one process never share the file that they write before the rename.
pub proof fn law_temp_names_differ(path: Seq<char>, pid: nat, a: nat, b: nat)
    requires
        a != b,
    ensures
        temp_name(path, pid, a) != temp_name(path, pid, b),
{
    if temp_name(path, pid, a) == temp_name(path, pid, b) {
        let head = path + "."@ + decimal(pid) + "."@;
        let x = temp_name(path, pid, a);
        let y = temp_name(path, pid, b);
        assert(decimal(a) =~= x.subrange(head.len() as int, x.len() - ".tmp"@.len()));
        assert(decimal(b) =~= y.subrange(head.len() as int, y.len() - ".tmp"@.len()));
        text::lemma_decimal_injective(a, b);
    }
}

/// A host and a port with a colon between them are an address, and come apart as they were put
/// together; an IPv6 address stands in brackets for that. Only the ports from 1 to 65535 pass.
pub proof fn law_a_host_and_a_port_make_an_address(host: Seq<char>, port: nat)
    requires
        host.len() > 0,
        !has_white(host),
    ensures
        ({
            let plain = host.push(':') + decimal(port);
            let in_brackets = seq!['['] + host + seq![']', ':'] + decimal(port);
            &&& !host.contains(':') && host[0] != '[' ==> {
                &&& host_and_port(plain) == Some((host, decimal(port)))
                &&& address_fault(plain) is None <==> 1 <= port <= 65535
            }
            &&& !host.contains(']') ==> {
                &&& host_and_port(in_brackets) == Some((host, decimal(port)))
                &&& address_fault(in_brackets) is None <==> 1 <= port <= 65535
            }
        }),
{
    text::lemma_decimal_nonempty(port);
    text::law_a_number_is_read_back(port, u16::MAX as nat, seq![], 0);
    let digits = decimal(port);
    let n = host.len() as int;
    assert forall|k: int| 0 <= k < digits.len() implies !is_white(#[trigger] digits[k]) && digits[k] != ':'
        && digits[k] != ']' by {
        assert(text::is_digit(digits[k]));
    }
    if !host.contains(':') && host[0] != '[' {
        let s = host.push(':') + digits;
        assert forall|k: int| 0 <= k < s.len() implies !is_white(#[trigger] s[k]) by {
            if k < n {
                assert(s[k] == host[k]);
            } else if k > n {
                assert(s[k] == digits[k - n - 1]);
            }
        }
        text::lemma_index_from(s, ':', 0);
        assert(s[n] == ':');
        assert forall|k: int| 0 <= k < n implies #[trigger] s[k] != ':' by {
            assert(s[k] == host[k]);
            assert(host.contains(host[k]));
        }
        assert(index_from(s, ':', 0) == Some(n));
        text::lemma_index_from(s, ':', n + 1);
        assert forall|k: int| n < k < s.len() implies #[trigger] s[k] != ':' by {
            assert(s[k] == digits[k - n - 1]);
        }
        assert(index_from(s, ':', n + 1) is None);
        assert(s.take(n) =~= host);
        assert(s.skip(n + 1) =~= digits);
        assert(s[0] == host[0]);
    }
    if !host.contains(']') {
        let s = seq!['['] + host + seq![']', ':'] + digits;
        assert forall|k: int| 0 <= k < s.len() implies !is_white(#[trigger] s[k]) by {
            if 0 < k <= n {
                assert(s[k] == host[k - 1]);
            } else if k > n + 2 {
                assert(s[k] == digits[k - n - 3]);
            }
        }
        text::lemma_index_from(s, ']', 1);
        assert(s[n + 1] == ']');
        assert forall|k: int| 1 <= k <= n implies #[trigger] s[k] != ']' by {
            assert(s[k] == host[k - 1]);
            assert(host.contains(host[k - 1]));
        }
        assert(index_from(s, ']', 1) == Some(n + 1));
        assert(s.subrange(1, n + 1) =~= host);
        assert(s.skip(n + 3) =~= digits);
    }
}

/// A text without a colon, or with white space, is no address; nor is one that begins with its colon,
/// or that has two and no bracket before them.
pub proof fn law_what_is_no_address(s: Seq<char>, j: int, k: int)
    requires
        !s.contains(':') || (0 <= k < s.len() && is_white(s[k])) || (s.len() > 0 && s[0] == ':') || (0
            <= j < k < s.len() && s[j] == ':' && s[k] == ':' && s[0] != '['),
    ensures
        address_fault(s) is Some,
{
    text::lemma_index_from(s, ']', 1);
    text::lemma_index_from(s, ':', 0);
    if let Some(i) = index_from(s, ':', 0) {
        text::lemma_index_from(s, ':', i + 1);
    }
    if !s.contains(':') {
        assert(forall|i: int| 0 <= i < s.len() ==> s.contains(#[trigger] s[i]));
    }
}

/// The list that the user sees begins with the registry, entry for entry and in its order. One entry
/// may follow: the host of the configuration, with the address, the token and the wish for TLS that
/// stand there, and only where the registry does not hold that address.
pub proof fn law_the_list_begins_with_the_registry(
    file: Seq<HostRecordView>,
    cfg: Config,
    out: Seq<HostEntryView>,
    k: int,
)
    requires
        is_merged(file, cfg, out),
    ensures
        0 <= k < file.len() ==> k < out.len() && out[k].record == file[k] && out[k].source
            is Registry,
        cfg.remote_host is None ==> out.len() == file.len(),
        0 <= k < file.len() && opt_text(cfg.remote_host) == Some(file[k].address) ==> out.len()
            == file.len(),
        cfg.remote_host is Some && (forall|j: int|
            0 <= j < file.len() ==> (#[trigger] file[j]).address != cfg.remote_host->0@) ==> {
            &&& out.len() == file.len() + 1
            &&& out.last().source is Config
            &&& Some(out.last().record.address) == opt_text(cfg.remote_host)
            &&& out.last().record.token == opt_text(cfg.remote_token)
            &&& cfg.remote_tls ==> out.last().record.tls
            &&& !cfg.remote_tls && cfg.remote_token is None ==> !out.last().record.tls
            &&& out.last().record.fingerprint is None
            &&& (forall|j: int| 0 <= j < file.len() ==> (#[trigger] file[j]).name != "config"@)
                ==> out.last().record.name == "config"@
        },
{
    let shown = registered(file);
    if 0 <= k < file.len() {
        assert(shown[k].record == file[k]);
    }
    if cfg.remote_host is Some && (forall|j: int|
        0 <= j < file.len() ==> (#[trigger] file[j]).address != cfg.remote_host->0@) {
        assert forall|j: int| 0 <= j < shown.len() implies (#[trigger] shown[j]).record.address
            != cfg.remote_host->0@ by {
            assert(shown[j].record == file[j]);
        }
        if forall|j: int| 0 <= j < file.len() ==> (#[trigger] file[j]).name != "config"@ {
            assert forall|j: int| 0 <= j < shown.len() implies (#[trigger] shown[j]).record.name
                != "config"@ by {
                assert(shown[j].record == file[j]);
            }
        }
    }
}

/// A change starts from an empty registry only where no registry can be lost by it: where the file is
/// not there, or holds nothing but white space. What cannot be read or parsed stops the change, and
/// what can be is handed on as it stands.
pub proof fn law_no_change_loses_the_registry(
    store: HostsStore,
    read: FileRead,
    source: Result<Option<Vec<u8>>, String>,
    parsed: Result<Vec<HostRecord>, String>,
    start: Result<Vec<HostRecord>, String>,
)
    requires
        store.is_source(read, source),
        store.is_start(parsed, start),
    ensures
        source is Err <==> read is Failed,
        source matches Ok(s) ==> s is None ==> read is Missing || (read matches FileRead::Bytes(bytes)
            && forall|k: int|
            0 <= k < bytes@.len() ==> #[trigger] bytes@[k] == 0x20 || 0x09 <= bytes@[k] <= 0x0d),
        source matches Ok(s) ==> s matches Some(b) ==> read matches FileRead::Bytes(bytes) && b@
            == bytes@,
        start is Err <==> parsed is Err,
        start matches Ok(all) ==> all@.len() == parsed->Ok_0@.len() && forall|k: int|
            0 <= k < all@.len() ==> (#[trigger] all@[k])@ == parsed->Ok_0@[k]@,
{
    if let Ok(all) = start {
        let v = parsed->Ok_0;
        assert(records(all@).len() == records(v@).len());
        assert forall|k: int| 0 <= k < all@.len() implies (#[trigger] all@[k])@ == v@[k]@ by {
            assert(records(all@)[k] == records(v@)[k]);
        }
    }
}

/// A pin is hex in pairs of digits: whatever bytes are written in it pass, and a capital, an odd
/// number of digits or any other character does not.
pub proof fn law_what_is_a_pin(bytes: Seq<u8>, s: Seq<char>, k: int)
    ensures
        bytes.len() > 0 ==> fingerprint_fault(crate::proto::auth::hex_text(bytes)) is None,
        s.len() % 2 == 1 ==> fingerprint_fault(s) is Some,
        s.len() == 0 ==> fingerprint_fault(s) is Some,
        0 <= k < s.len() && !('0' <= s[k] <= '9' || 'a' <= s[k] <= 'f') ==> fingerprint_fault(s) is Some,
{
    crate::proto::auth::lemma_hex_text(bytes);
    if 0 <= k < s.len() && !('0' <= s[k] <= '9' || 'a' <= s[k] <= 'f') {
        assert(!is_hex(s[k]));
    }
}

} // verus!
