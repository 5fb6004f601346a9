//! Daemon discovery: what the server registry says of running daemons.
use vstd::prelude::*;

use crate::json::{json_text, json_views, parse_json, Json, JsonView};
use crate::net::{addr_views, normalize_host, reached_host, AddrView, DaemonAddr};
use crate::text::{ends_with, same};
use crate::version::{daemon_stale, is_stale, opt_view};

verus! {

broadcast use vstd::string::group_string_axioms;

/// One entry of the directory `server/instances`, with its text where it could
/// be read.
pub struct RegistryFile {
    pub name: String,
    pub text: Option<String>,
}

/// What a registry file is called and says.
pub struct FileView {
    pub name: Seq<char>,
    pub text: Option<Seq<char>>,
}

impl RegistryFile {
    pub open spec fn view(self) -> FileView {
        FileView {
            name: self.name@,
            text: match self.text {
                Some(t) => Some(t@),
                None => None,
            },
        }
    }
}

/// The views of a list of registry files.
pub open spec fn file_views(v: Seq<RegistryFile>) -> Seq<FileView> {
    v.map_values(|f: RegistryFile| f@)
}

/// The document that a text spells, if it is there and spells one.
pub open spec fn document(text: Option<Seq<char>>) -> Option<JsonView> {
    match text {
        Some(t) => match json_text(t) {
            Ok(v) => Some(v),
            Err(_) => None,
        },
        None => None,
    }
}

/// The record that a registry file holds.
pub open spec fn record_of(f: FileView) -> Option<JsonView> {
    if ".json"@.is_suffix_of(f.name) {
        document(f.text)
    } else {
        None
    }
}

/// The records of the registry, in the order of its files.
pub open spec fn records(files: Seq<FileView>) -> Seq<JsonView>
    decreases files.len(),
{
    if files.len() == 0 {
        seq![]
    } else {
        match record_of(files.last()) {
            Some(v) => records(files.drop_last()).push(v),
            None => records(files.drop_last()),
        }
    }
}

/// Where the daemon of a record is reached.
pub open spec fn record_addr(v: JsonView) -> Option<AddrView> {
    match v.u64_at("port"@) {
        Some(p) => if p <= u16::MAX {
            Some(AddrView { host: reached_host(v.text_at("host"@)), port: p as u16 })
        } else {
            None
        },
        None => None,
    }
}

/// The record is of a daemon proven older than the installed CLI.
pub open spec fn record_stale(v: JsonView, cli_version: Option<Seq<char>>) -> bool {
    is_stale(v.text_at("host_version"@), cli_version)
}

/// When the daemon of a record was started.
pub open spec fn record_start(v: JsonView) -> u64 {
    match v.u64_at("started_at"@) {
        Some(t) => t,
        None => 0,
    }
}

/// The daemon of a record is one to attach to.
pub open spec fn usable(v: JsonView, cli_version: Option<Seq<char>>) -> bool {
    !record_stale(v, cli_version) && record_addr(v) is Some
}

/// The daemons of the registry to attach to, each with its start.
pub open spec fn fresh(recs: Seq<JsonView>, cli_version: Option<Seq<char>>) -> Seq<(u64, AddrView)>
    decreases recs.len(),
{
    if recs.len() == 0 {
        seq![]
    } else if usable(recs.last(), cli_version) {
        fresh(recs.drop_last(), cli_version).push(
            (record_start(recs.last()), record_addr(recs.last())->0),
        )
    } else {
        fresh(recs.drop_last(), cli_version)
    }
}

/// `x` put behind the last item of `s` that did not start later.
pub open spec fn insert_by_start(s: Seq<(u64, AddrView)>, x: (u64, AddrView)) -> Seq<(u64, AddrView)>
    decreases s.len(),
{
    if s.len() == 0 || s.last().0 <= x.0 {
        s.push(x)
    } else {
        insert_by_start(s.drop_last(), x).push(s.last())
    }
}

/// The items of `s` by their start, the earliest first; those with the same
/// start in their order in `s`.
pub open spec fn by_start(s: Seq<(u64, AddrView)>) -> Seq<(u64, AddrView)>
    decreases s.len(),
{
    if s.len() == 0 {
        seq![]
    } else {
        insert_by_start(by_start(s.drop_last()), s.last())
    }
}

/// The addresses of a list of started daemons.
pub open spec fn addrs(s: Seq<(u64, AddrView)>) -> Seq<AddrView> {
    s.map_values(|x: (u64, AddrView)| x.1)
}

/// The address that the legacy lock adds.
pub open spec fn lock_addr(lock: Option<JsonView>, cli_version: Option<Seq<char>>) -> Seq<AddrView> {
    match lock {
        Some(v) => if usable(v, cli_version) {
            seq![record_addr(v)->0]
        } else {
            seq![]
        },
        None => seq![],
    }
}

/// Where to look for a daemon, in order.
pub open spec fn candidates(
    recs: Seq<JsonView>,
    lock: Option<JsonView>,
    cli_version: Option<Seq<char>>,
) -> Seq<AddrView> {
    addrs(by_start(fresh(recs, cli_version))) + lock_addr(lock, cli_version)
}

/// Every record there is, the legacy lock last.
pub open spec fn all_records(recs: Seq<JsonView>, lock: Option<JsonView>) -> Seq<JsonView> {
    match lock {
        Some(v) => recs.push(v),
        None => recs,
    }
}

/// The addresses of the daemons proven older than the installed CLI.
pub open spec fn stale_addrs(recs: Seq<JsonView>, cli_version: Option<Seq<char>>) -> Seq<AddrView>
    decreases recs.len(),
{
    if recs.len() == 0 {
        seq![]
    } else {
        let rest = stale_addrs(recs.drop_last(), cli_version);
        if record_stale(recs.last(), cli_version) && record_addr(recs.last()) is Some {
            rest.push(record_addr(recs.last())->0)
        } else {
            rest
        }
    }
}

/// The process id in a record of the daemon at `addr`.
pub open spec fn pid_in(v: JsonView, addr: AddrView) -> Option<u32> {
    if v.u64_at("port"@) == Some(addr.port as u64) && reached_host(v.text_at("host"@)) == addr.host {
        match v.u64_at("pid"@) {
            Some(p) => if p <= u32::MAX {
                Some(p as u32)
            } else {
                None
            },
            None => None,
        }
    } else {
        None
    }
}

/// The process id in the first record of the daemon at `addr` that gives one.
pub open spec fn pid_for(recs: Seq<JsonView>, addr: AddrView) -> Option<u32>
    decreases recs.len(),
{
    if recs.len() == 0 {
        None
    } else {
        match pid_in(recs[0], addr) {
            Some(p) => Some(p),
            None => pid_for(recs.skip(1), addr),
        }
    }
}

/// The view of an optional document.
pub open spec fn opt_json(v: Option<&Json>) -> Option<JsonView> {
    match v {
        Some(v) => Some(v@),
        None => None,
    }
}

fn read_document(text: Option<&str>) -> (r: Option<Json>)
    ensures
        match r {
            Some(v) => document(opt_view(text)) == Some(v@),
            None => document(opt_view(text)) is None,
        },
{
    match text {
        Some(t) => match parse_json(t) {
            Ok(v) => Some(v),
            Err(_) => None,
        },
        None => None,
    }
}

/// Whether a registry file of this name holds a record.
pub fn is_record_name(name: &str) -> (r: bool)
    ensures
        r == ".json"@.is_suffix_of(name@),
{
    ends_with(name, ".json")
}

/// Reads the records of the registry.
pub fn read_records(files: &Vec<RegistryFile>) -> (r: Vec<Json>)
    ensures
        json_views(r@) == records(file_views(files@)),
{
    let mut out: Vec<Json> = Vec::new();
    let mut i: usize = 0;
    let ghost fv = file_views(files@);
    proof {
        assert(json_views(out@) == records(fv.take(0)));
    }
    while i < files.len()
        invariant
            fv == file_views(files@),
            i <= files@.len(),
            json_views(out@) == records(fv.take(i as int)),
        decreases files@.len() - i,
    {
        proof {
            assert(fv.take(i + 1).drop_last() == fv.take(i as int));
            assert(fv.take(i + 1).last() == files@[i as int]@);
        }
        if is_record_name(files[i].name.as_str()) {
            let text = match &files[i].text {
                Some(t) => Some(t.as_str()),
                None => None,
            };
            match read_document(text) {
                Some(v) => {
                    let ghost before = out@;
                    out.push(v);
                    proof {
                        assert(json_views(out@) == json_views(before).push(v@));
                    }
                },
                None => {},
            }
        }
        i = i + 1;
    }
    proof {
        assert(fv.take(i as int) == fv);
    }
    out
}

fn addr_in(v: &Json) -> (r: Option<DaemonAddr>)
    ensures
        match r {
            Some(a) => record_addr(v@) == Some(a@),
            None => record_addr(v@) is None,
        },
{
    match v.u64_at("port") {
        Some(p) => if p <= u16::MAX as u64 {
            Some(DaemonAddr { host: normalize_host(v.text_at("host")), port: p as u16 })
        } else {
            None
        },
        None => None,
    }
}

/// What an exec list of started daemons says.
pub open spec fn started_views(v: Seq<(u64, DaemonAddr)>) -> Seq<(u64, AddrView)> {
    v.map_values(|x: (u64, DaemonAddr)| (x.0, x.1@))
}

proof fn lemma_insert_at(s: Seq<(u64, AddrView)>, x: (u64, AddrView), i: int)
    requires
        0 <= i <= s.len(),
        i > 0 ==> s[i - 1].0 <= x.0,
        forall|j: int| i <= j < s.len() ==> s[j].0 > x.0,
    ensures
        insert_by_start(s, x) == s.insert(i, x),
    decreases s.len(),
{
    if i == s.len() {
        assert(s.insert(i, x) == s.push(x));
    } else {
        lemma_insert_at(s.drop_last(), x, i);
        assert(s.insert(i, x) == s.drop_last().insert(i, x).push(s.last()));
    }
}

fn place(list: &mut Vec<(u64, DaemonAddr)>, start: u64, addr: DaemonAddr)
    ensures
        started_views(final(list)@) == insert_by_start(started_views(old(list)@), (start, addr@)),
{
    let mut i: usize = list.len();
    while i > 0 && list[i - 1].0 > start
        invariant
            i <= list@.len(),
            list@ == old(list)@,
            forall|j: int| i <= j < list@.len() ==> list@[j].0 > start,
        decreases i,
    {
        i = i - 1;
    }
    proof {
        lemma_insert_at(started_views(list@), (start, addr@), i as int);
    }
    list.insert(i, (start, addr));
    proof {
        assert(started_views(list@) == started_views(old(list)@).insert(i as int, (start, addr@)));
    }
}

fn fresh_by_start(recs: &Vec<Json>, cli_version: Option<&str>) -> (r: Vec<(u64, DaemonAddr)>)
    ensures
        started_views(r@) == by_start(fresh(json_views(recs@), opt_view(cli_version))),
{
    let mut out: Vec<(u64, DaemonAddr)> = Vec::new();
    let mut i: usize = 0;
    let ghost rv = json_views(recs@);
    let ghost cli = opt_view(cli_version);
    proof {
        assert(started_views(out@) == by_start(fresh(rv.take(0), cli)));
    }
    while i < recs.len()
        invariant
            rv == json_views(recs@),
            cli == opt_view(cli_version),
            i <= recs@.len(),
            started_views(out@) == by_start(fresh(rv.take(i as int), cli)),
        decreases recs@.len() - i,
    {
        proof {
            assert(rv.take(i + 1).drop_last() == rv.take(i as int));
            assert(rv.take(i + 1).last() == recs@[i as int]@);
        }
        if !daemon_stale(recs[i].text_at("host_version"), cli_version) {
            match addr_in(&recs[i]) {
                Some(a) => {
                    let start: u64 = match recs[i].u64_at("started_at") {
                        Some(t) => t,
                        None => 0,
                    };
                    proof {
                        let item = (start, a@);
                        let f = fresh(rv.take(i as int), cli);
                        assert(fresh(rv.take(i + 1), cli) == f.push(item));
                        assert(f.push(item).drop_last() == f);
                    }
                    place(&mut out, start, a);
                },
                None => {},
            }
        }
        i = i + 1;
    }
    proof {
        assert(rv.take(i as int) == rv);
    }
    out
}

/// The candidate addresses in a set of records: the registry's daemons, longest
/// running first, then the legacy lock's. No liveness checks, so callers can
/// apply their own.
pub fn candidates_in(recs: &Vec<Json>, lock: Option<&Json>, cli_version: Option<&str>) -> (r: Vec<
    DaemonAddr,
>)
    ensures
        addr_views(r@) == candidates(json_views(recs@), opt_json(lock), opt_view(cli_version)),
{
    let list = fresh_by_start(recs, cli_version);
    let mut out: Vec<DaemonAddr> = Vec::new();
    let mut i: usize = 0;
    let ghost lv = started_views(list@);
    while i < list.len()
        invariant
            lv == started_views(list@),
            i <= list@.len(),
            addr_views(out@) == addrs(lv.take(i as int)),
        decreases list@.len() - i,
    {
        let ghost before = out@;
        let a = list[i].1.copied();
        out.push(a);
        proof {
            assert(addr_views(out@) == addr_views(before).push(a@));
            assert(addrs(lv.take(i + 1)) == addrs(lv.take(i as int)).push(lv[i as int].1));
        }
        i = i + 1;
    }
    proof {
        assert(lv.take(i as int) == lv);
    }
    match lock {
        Some(v) => {
            if !daemon_stale(v.text_at("host_version"), cli_version) {
                match addr_in(v) {
                    Some(a) => {
                        let ghost before = out@;
                        out.push(a);
                        proof {
                            assert(addr_views(out@) == addr_views(before).push(a@));
                            assert(addr_views(before).push(a@) == addr_views(before) + seq![a@]);
                        }
                        return out;
                    },
                    None => {},
                }
            }
        },
        None => {},
    }
    proof {
        assert(addr_views(out@) == addr_views(out@) + Seq::<AddrView>::empty());
    }
    out
}

/// Ordered candidate addresses from the multi-instance registry and the legacy
/// lock.
pub fn daemon_candidates(
    files: &Vec<RegistryFile>,
    lock: Option<&str>,
    cli_version: Option<&str>,
) -> (r: Vec<DaemonAddr>)
    ensures
        addr_views(r@) == candidates(
            records(file_views(files@)),
            document(opt_view(lock)),
            opt_view(cli_version),
        ),
{
    let recs = read_records(files);
    let locked = read_document(lock);
    candidates_in(&recs, locked.as_ref(), cli_version)
}

fn all_in(recs: Vec<Json>, lock: Option<Json>) -> (r: Vec<Json>)
    ensures
        json_views(r@) == all_records(
            json_views(recs@),
            match lock {
                Some(v) => Some(v@),
                None => None,
            },
        ),
{
    let mut out = recs;
    match lock {
        Some(v) => {
            out.push(v);
            proof {
                assert(json_views(out@) == json_views(recs@).push(v@));
            }
        },
        None => {},
    }
    out
}

/// The addresses, in a set of records, of the daemons proven older than the
/// installed CLI.
pub fn stale_in(recs: &Vec<Json>, cli_version: Option<&str>) -> (r: Vec<DaemonAddr>)
    ensures
        addr_views(r@) == stale_addrs(json_views(recs@), opt_view(cli_version)),
{
    let mut out: Vec<DaemonAddr> = Vec::new();
    let mut i: usize = 0;
    let ghost rv = json_views(recs@);
    let ghost cli = opt_view(cli_version);
    while i < recs.len()
        invariant
            rv == json_views(recs@),
            cli == opt_view(cli_version),
            i <= recs@.len(),
            addr_views(out@) == stale_addrs(rv.take(i as int), cli),
        decreases recs@.len() - i,
    {
        proof {
            assert(rv.take(i + 1).drop_last() == rv.take(i as int));
            assert(rv.take(i + 1).last() == recs@[i as int]@);
        }
        if daemon_stale(recs[i].text_at("host_version"), cli_version) {
            match addr_in(&recs[i]) {
                Some(a) => {
                    let ghost before = out@;
                    out.push(a);
                    proof {
                        assert(addr_views(out@) == addr_views(before).push(a@));
                    }
                },
                None => {},
            }
        }
        i = i + 1;
    }
    proof {
        assert(rv.take(i as int) == rv);
    }
    out
}

/// Daemons proven older than the installed CLI: the ones that discovery skips.
/// Scans the same registry and legacy lock.
pub fn stale_daemons(files: &Vec<RegistryFile>, lock: Option<&str>, cli_version: Option<&str>) -> (r:
    Vec<DaemonAddr>)
    ensures
        addr_views(r@) == stale_addrs(
            all_records(records(file_views(files@)), document(opt_view(lock))),
            opt_view(cli_version),
        ),
{
    let all = all_in(read_records(files), read_document(lock));
    stale_in(&all, cli_version)
}

/// The addresses that accept connections.
pub open spec fn reachable(addrs: Seq<AddrView>, alive: Seq<bool>) -> Seq<AddrView>
    decreases addrs.len(),
{
    if addrs.len() == 0 {
        seq![]
    } else if alive[addrs.len() - 1] {
        reachable(addrs.drop_last(), alive).push(addrs.last())
    } else {
        reachable(addrs.drop_last(), alive)
    }
}

/// Keeps the addresses that accept connections.
pub fn live_only(addrs: &Vec<DaemonAddr>, alive: &Vec<bool>) -> (r: Vec<DaemonAddr>)
    requires
        alive@.len() == addrs@.len(),
    ensures
        addr_views(r@) == reachable(addr_views(addrs@), alive@),
{
    let mut out: Vec<DaemonAddr> = Vec::new();
    let mut i: usize = 0;
    let ghost av = addr_views(addrs@);
    while i < addrs.len()
        invariant
            av == addr_views(addrs@),
            alive@.len() == addrs@.len(),
            i <= addrs@.len(),
            addr_views(out@) == reachable(av.take(i as int), alive@),
        decreases addrs@.len() - i,
    {
        proof {
            assert(av.take(i + 1).drop_last() == av.take(i as int));
            assert(av.take(i + 1).last() == addrs@[i as int]@);
        }
        if alive[i] {
            let ghost before = out@;
            let a = addrs[i].copied();
            out.push(a);
            proof {
                assert(addr_views(out@) == addr_views(before).push(a@));
            }
        }
        i = i + 1;
    }
    proof {
        assert(av.take(i as int) == av);
    }
    out
}

/// The process id, in a set of records, of the daemon at `addr`.
pub fn pid_among(recs: &Vec<Json>, addr: &DaemonAddr) -> (r: Option<u32>)
    ensures
        r == pid_for(json_views(recs@), addr@),
{
    let mut i: usize = 0;
    let ghost rv = json_views(recs@);
    proof {
        assert(rv.skip(0) == rv);
    }
    while i < recs.len()
        invariant
            rv == json_views(recs@),
            i <= recs@.len(),
            pid_for(rv, addr@) == pid_for(rv.skip(i as int), addr@),
        decreases recs@.len() - i,
    {
        proof {
            assert(rv.skip(i as int)[0] == recs@[i as int]@);
            assert(rv.skip(i as int).skip(1) == rv.skip(i + 1));
        }
        match recs[i].u64_at("port") {
            Some(port) => if port == addr.port as u64 && same(
                normalize_host(recs[i].text_at("host")).as_str(),
                addr.host.as_str(),
            ) {
                match recs[i].u64_at("pid") {
                    Some(p) => if p <= u32::MAX as u64 {
                        return Some(p as u32);
                    },
                    None => {},
                }
            },
            None => {},
        }
        i = i + 1;
    }
    None
}

/// The process id that the registry gives for the daemon at `addr`.
pub fn instance_pid_for(files: &Vec<RegistryFile>, lock: Option<&str>, addr: &DaemonAddr) -> (r:
    Option<u32>)
    ensures
        r == pid_for(all_records(records(file_views(files@)), document(opt_view(lock))), addr@),
{
    let all = all_in(read_records(files), read_document(lock));
    pid_among(&all, addr)
}

/// The items of `s` are in the order of their start.
pub open spec fn start_sorted(s: Seq<(u64, AddrView)>) -> bool {
    forall|i: int, j: int| 0 <= i <= j < s.len() ==> s[i].0 <= s[j].0
}

proof fn lemma_insert_sorted(s: Seq<(u64, AddrView)>, x: (u64, AddrView))
    requires
        start_sorted(s),
    ensures
        start_sorted(insert_by_start(s, x)),
        insert_by_start(s, x).len() == s.len() + 1,
        insert_by_start(s, x).to_multiset() == s.to_multiset().insert(x),
        forall|y: (u64, AddrView)|
            insert_by_start(s, x).contains(y) ==> y == x || s.contains(y),
    decreases s.len(),
{
    broadcast use vstd::seq_lib::group_to_multiset_ensures;

    let r = insert_by_start(s, x);
    if s.len() == 0 || s.last().0 <= x.0 {
        assert forall|y: (u64, AddrView)| r.contains(y) implies y == x || s.contains(y) by {
            let k = r.index_of(y);
            if k < s.len() {
                assert(s[k] == y);
            }
        }
    } else {
        let rest = insert_by_start(s.drop_last(), x);
        lemma_insert_sorted(s.drop_last(), x);
        assert(s.drop_last().push(s.last()) == s);
        assert(r == rest.push(s.last()));
        assert(r.to_multiset() == s.to_multiset().insert(x));
        assert forall|y: (u64, AddrView)| r.contains(y) implies y == x || s.contains(y) by {
            let k = r.index_of(y);
            if k < rest.len() {
                assert(rest[k] == y);
                assert(rest.contains(y));
                if y != x {
                    assert(s.drop_last().contains(y));
                    let j = choose|j: int| 0 <= j < s.len() - 1 && s.drop_last()[j] == y;
                    assert(s[j] == y);
                }
            } else {
                assert(s[s.len() - 1] == y);
            }
        }
        assert forall|i: int, j: int| 0 <= i <= j < r.len() implies r[i].0 <= r[j].0 by {
            if j == rest.len() && i < rest.len() {
                assert(rest.contains(rest[i]));
                if rest[i] != x {
                    assert(s.drop_last().contains(rest[i]));
                    let k = choose|k: int| 0 <= k < s.len() - 1 && s.drop_last()[k] == rest[i];
                    assert(s[k].0 <= s[s.len() - 1].0);
                }
            }
        }
    }
}

/// Ordering by start puts the longest running daemon first, and neither loses
/// nor adds one.
pub proof fn longest_running_comes_first(s: Seq<(u64, AddrView)>)
    ensures
        start_sorted(by_start(s)),
        by_start(s).to_multiset() == s.to_multiset(),
    decreases s.len(),
{
    broadcast use vstd::seq_lib::group_to_multiset_ensures;

    if s.len() > 0 {
        longest_running_comes_first(s.drop_last());
        lemma_insert_sorted(by_start(s.drop_last()), s.last());
        assert(s.drop_last().push(s.last()) == s);
    } else {
        assert(s == Seq::<(u64, AddrView)>::empty());
    }
}

/// The items of `s` that started at `t`, in order.
pub open spec fn started_at(s: Seq<(u64, AddrView)>, t: u64) -> Seq<(u64, AddrView)>
    decreases s.len(),
{
    if s.len() == 0 {
        seq![]
    } else if s.last().0 == t {
        started_at(s.drop_last(), t).push(s.last())
    } else {
        started_at(s.drop_last(), t)
    }
}

proof fn lemma_insert_stable(s: Seq<(u64, AddrView)>, x: (u64, AddrView), t: u64)
    requires
        start_sorted(s),
    ensures
        started_at(insert_by_start(s, x), t) == if x.0 == t {
            started_at(s, t).push(x)
        } else {
            started_at(s, t)
        },
    decreases s.len(),
{
    let r = insert_by_start(s, x);
    if s.len() == 0 || s.last().0 <= x.0 {
        assert(r.drop_last() == s);
    } else {
        lemma_insert_stable(s.drop_last(), x, t);
        assert(r.drop_last() == insert_by_start(s.drop_last(), x));
    }
}

/// Daemons with the same start keep the order in which the registry lists them.
pub proof fn same_start_keeps_registry_order(s: Seq<(u64, AddrView)>, t: u64)
    ensures
        started_at(by_start(s), t) == started_at(s, t),
    decreases s.len(),
{
    if s.len() > 0 {
        same_start_keeps_registry_order(s.drop_last(), t);
        longest_running_comes_first(s.drop_last());
        lemma_insert_stable(by_start(s.drop_last()), s.last(), t);
    }
}

proof fn lemma_fresh_contains(recs: Seq<JsonView>, cli: Option<Seq<char>>, x: (u64, AddrView))
    ensures
        fresh(recs, cli).contains(x) <==> exists|i: int|
            0 <= i < recs.len() && usable(#[trigger] recs[i], cli) && x == (
                record_start(recs[i]),
                record_addr(recs[i])->0,
            ),
    decreases recs.len(),
{
    if recs.len() > 0 {
        let rest = recs.drop_last();
        let f = fresh(rest, cli);
        lemma_fresh_contains(rest, cli, x);
        if fresh(recs, cli).contains(x) {
            let k = fresh(recs, cli).index_of(x);
            if k < f.len() {
                assert(f[k] == x);
                let i = choose|i: int|
                    0 <= i < rest.len() && usable(#[trigger] rest[i], cli) && x == (
                        record_start(rest[i]),
                        record_addr(rest[i])->0,
                    );
                assert(recs[i] == rest[i]);
            } else {
                assert(usable(recs[recs.len() - 1], cli));
            }
        }
        if exists|i: int|
            0 <= i < recs.len() && usable(#[trigger] recs[i], cli) && x == (
                record_start(recs[i]),
                record_addr(recs[i])->0,
            ) {
            let i = choose|i: int|
                0 <= i < recs.len() && usable(#[trigger] recs[i], cli) && x == (
                    record_start(recs[i]),
                    record_addr(recs[i])->0,
                );
            if i < rest.len() {
                assert(rest[i] == recs[i]);
                let k = f.index_of(x);
                assert(fresh(recs, cli)[k] == x);
            } else {
                assert(fresh(recs, cli)[f.len() as int] == x);
            }
        }
    }
}

proof fn lemma_candidates_contain(
    recs: Seq<JsonView>,
    lock: Option<JsonView>,
    cli: Option<Seq<char>>,
    a: AddrView,
)
    ensures
        candidates(recs, lock, cli).contains(a) <==> exists|i: int|
            0 <= i < all_records(recs, lock).len() && usable(
                #[trigger] all_records(recs, lock)[i],
                cli,
            ) && record_addr(all_records(recs, lock)[i]) == Some(a),
{
    broadcast use vstd::seq_lib::group_to_multiset_ensures;

    let all = all_records(recs, lock);
    let c = candidates(recs, lock, cli);
    let f = fresh(recs, cli);
    let s = by_start(f);
    longest_running_comes_first(f);
    if c.contains(a) {
        let k = c.index_of(a);
        if k < s.len() {
            assert(addrs(s)[k] == a);
            let x = s[k];
            assert(s.contains(x));
            assert(s.to_multiset().count(x) > 0);
            assert(f.contains(x));
            lemma_fresh_contains(recs, cli, x);
            let i = choose|i: int|
                0 <= i < recs.len() && usable(#[trigger] recs[i], cli) && x == (
                    record_start(recs[i]),
                    record_addr(recs[i])->0,
                );
            assert(all[i] == recs[i]);
            assert(record_addr(all[i]) == Some(a));
        } else {
            assert(lock_addr(lock, cli)[k - s.len()] == a);
            assert(all[recs.len() as int] == lock->0);
            assert(usable(all[recs.len() as int], cli));
        }
    }
    if exists|i: int|
        0 <= i < all.len() && usable(#[trigger] all[i], cli) && record_addr(all[i]) == Some(a) {
        let i = choose|i: int|
            0 <= i < all.len() && usable(#[trigger] all[i], cli) && record_addr(all[i]) == Some(a);
        if i < recs.len() {
            let x = (record_start(recs[i]), a);
            assert(usable(recs[i], cli));
            lemma_fresh_contains(recs, cli, x);
            assert(f.contains(x));
            assert(f.to_multiset().count(x) > 0);
            assert(s.contains(x));
            let k = s.index_of(x);
            assert(addrs(s)[k] == a);
            assert(c[k] == a);
        } else {
            assert(lock_addr(lock, cli)[0] == a);
            assert(c[s.len() as int] == a);
        }
    }
}

proof fn lemma_stale_contains(recs: Seq<JsonView>, cli: Option<Seq<char>>, a: AddrView)
    ensures
        stale_addrs(recs, cli).contains(a) <==> exists|i: int|
            0 <= i < recs.len() && record_stale(#[trigger] recs[i], cli) && record_addr(recs[i])
                == Some(a),
    decreases recs.len(),
{
    if recs.len() > 0 {
        let rest = recs.drop_last();
        let f = stale_addrs(rest, cli);
        lemma_stale_contains(rest, cli, a);
        if stale_addrs(recs, cli).contains(a) {
            let k = stale_addrs(recs, cli).index_of(a);
            if k < f.len() {
                assert(f[k] == a);
                let i = choose|i: int|
                    0 <= i < rest.len() && record_stale(#[trigger] rest[i], cli) && record_addr(
                        rest[i],
                    ) == Some(a);
                assert(recs[i] == rest[i]);
            } else {
                assert(record_stale(recs[recs.len() - 1], cli));
            }
        }
        if exists|i: int|
            0 <= i < recs.len() && record_stale(#[trigger] recs[i], cli) && record_addr(recs[i])
                == Some(a) {
            let i = choose|i: int|
                0 <= i < recs.len() && record_stale(#[trigger] recs[i], cli) && record_addr(recs[i])
                    == Some(a);
            if i < rest.len() {
                assert(rest[i] == recs[i]);
                let k = f.index_of(a);
                assert(stale_addrs(recs, cli)[k] == a);
            } else {
                assert(stale_addrs(recs, cli)[f.len() as int] == a);
            }
        }
    }
}

/// Discovery and the shutdown of old daemons share the records out: the daemon
/// of a record that names a port is a candidate where it is not proven old, and
/// is listed as stale where it is; nothing else is in either list.
pub proof fn candidates_and_stale_share_the_records(
    recs: Seq<JsonView>,
    lock: Option<JsonView>,
    cli: Option<Seq<char>>,
    a: AddrView,
)
    ensures
        candidates(recs, lock, cli).contains(a) <==> exists|i: int|
            0 <= i < all_records(recs, lock).len() && !record_stale(
                #[trigger] all_records(recs, lock)[i],
                cli,
            ) && record_addr(all_records(recs, lock)[i]) == Some(a),
        stale_addrs(all_records(recs, lock), cli).contains(a) <==> exists|i: int|
            0 <= i < all_records(recs, lock).len() && record_stale(
                #[trigger] all_records(recs, lock)[i],
                cli,
            ) && record_addr(all_records(recs, lock)[i]) == Some(a),
{
    let all = all_records(recs, lock);
    lemma_candidates_contain(recs, lock, cli, a);
    lemma_stale_contains(all, cli, a);
    if exists|i: int|
        0 <= i < all.len() && !record_stale(#[trigger] all[i], cli) && record_addr(all[i]) == Some(
            a,
        ) {
        let i = choose|i: int|
            0 <= i < all.len() && !record_stale(#[trigger] all[i], cli) && record_addr(all[i])
                == Some(a);
        assert(usable(all[i], cli));
    }
}

proof fn lemma_insert_bag(s: Seq<(u64, AddrView)>, x: (u64, AddrView))
    ensures
        addrs(insert_by_start(s, x)).to_multiset() == addrs(s).to_multiset().insert(x.1),
    decreases s.len(),
{
    broadcast use vstd::seq_lib::group_to_multiset_ensures;

    if s.len() == 0 || s.last().0 <= x.0 {
        assert(addrs(s.push(x)) == addrs(s).push(x.1));
    } else {
        let front = s.drop_last();
        lemma_insert_bag(front, x);
        assert(addrs(insert_by_start(front, x).push(s.last())) == addrs(
            insert_by_start(front, x),
        ).push(s.last().1));
        assert(addrs(s) == addrs(front).push(s.last().1));
    }
}

proof fn lemma_by_start_bag(s: Seq<(u64, AddrView)>)
    ensures
        addrs(by_start(s)).to_multiset() == addrs(s).to_multiset(),
    decreases s.len(),
{
    broadcast use vstd::seq_lib::group_to_multiset_ensures;

    if s.len() == 0 {
        assert(addrs(by_start(s)) == addrs(s));
    } else {
        lemma_by_start_bag(s.drop_last());
        lemma_insert_bag(by_start(s.drop_last()), s.last());
        assert(addrs(s) == addrs(s.drop_last()).push(s.last().1));
    }
}

proof fn lemma_fresh_bag(recs: Seq<JsonView>, cli: Option<Seq<char>>)
    ensures
        addrs(fresh(recs, cli)).to_multiset().add(stale_addrs(recs, cli).to_multiset()) == addrs(
            fresh(recs, None),
        ).to_multiset(),
    decreases recs.len(),
{
    broadcast use vstd::seq_lib::group_to_multiset_ensures;

    if recs.len() == 0 {
        assert(addrs(fresh(recs, cli)) == Seq::<AddrView>::empty());
        assert(addrs(fresh(recs, None)) == Seq::<AddrView>::empty());
    } else {
        let front = recs.drop_last();
        lemma_fresh_bag(front, cli);
        if record_addr(recs.last()) is Some {
            let x = (record_start(recs.last()), record_addr(recs.last())->0);
            assert(addrs(fresh(front, cli).push(x)) == addrs(fresh(front, cli)).push(x.1));
            assert(addrs(fresh(front, None).push(x)) == addrs(fresh(front, None)).push(x.1));
        }
    }
}

/// No daemon is lost and none counted twice between discovery and the shutdown of
/// old daemons: the candidates and the stale ones together are, each as often as
/// it is recorded, the candidates where the CLI's version is unknown.
pub proof fn candidates_and_stale_are_all(
    recs: Seq<JsonView>,
    lock: Option<JsonView>,
    cli: Option<Seq<char>>,
)
    ensures
        candidates(recs, lock, cli).to_multiset().add(
            stale_addrs(all_records(recs, lock), cli).to_multiset(),
        ) == candidates(recs, lock, None).to_multiset(),
{
    broadcast use vstd::seq_lib::group_to_multiset_ensures;

    lemma_by_start_bag(fresh(recs, cli));
    lemma_by_start_bag(fresh(recs, None));
    lemma_fresh_bag(recs, cli);
    let known = addrs(by_start(fresh(recs, cli)));
    let every = addrs(by_start(fresh(recs, None)));
    assert(known + Seq::<AddrView>::empty() == known);
    assert(every + Seq::<AddrView>::empty() == every);
    if let Some(v) = lock {
        assert(recs.push(v).drop_last() == recs);
        if let Some(a) = record_addr(v) {
            assert(known + seq![a] == known.push(a));
            assert(every + seq![a] == every.push(a));
        }
    }
}

/// Without a known CLI version no daemon is taken for stale: every record that
/// names a port is a candidate.
pub proof fn unknown_cli_skips_nothing(
    recs: Seq<JsonView>,
    lock: Option<JsonView>,
    i: int,
)
    requires
        0 <= i < all_records(recs, lock).len(),
        record_addr(all_records(recs, lock)[i]) is Some,
    ensures
        candidates(recs, lock, None).contains(record_addr(all_records(recs, lock)[i])->0),
        stale_addrs(all_records(recs, lock), None) == Seq::<AddrView>::empty(),
{
    let all = all_records(recs, lock);
    let a = record_addr(all[i])->0;
    assert(usable(all[i], None));
    lemma_candidates_contain(recs, lock, None, a);
    let s = stale_addrs(all, None);
    if s.len() > 0 {
        lemma_stale_contains(all, None, s[0]);
        assert(s.contains(s[0]));
    }
    assert(s =~= Seq::<AddrView>::empty());
}

/// The legacy lock's daemon is tried after every daemon of the registry.
pub proof fn lock_is_tried_last(recs: Seq<JsonView>, lock: Option<JsonView>, cli: Option<Seq<char>>)
    ensures
        candidates(recs, lock, cli) == candidates(recs, None, cli) + lock_addr(lock, cli),
        lock_addr(lock, cli).len() <= 1,
{
    assert(candidates(recs, None, cli) =~= addrs(by_start(fresh(recs, cli))));
}

/// Every address to try can be connected to: none is a wildcard bind.
pub proof fn candidates_are_reachable_hosts(
    recs: Seq<JsonView>,
    lock: Option<JsonView>,
    cli: Option<Seq<char>>,
    a: AddrView,
)
    requires
        candidates(recs, lock, cli).contains(a),
    ensures
        !crate::net::is_wildcard(a.host),
{
    let all = all_records(recs, lock);
    lemma_candidates_contain(recs, lock, cli, a);
    let i = choose|i: int|
        0 <= i < all.len() && usable(#[trigger] all[i], cli) && record_addr(all[i]) == Some(a);
    crate::net::normalized_hosts_are_reachable(all[i].text_at("host"@));
}

/// A process id comes from a record of that very daemon.
pub proof fn pid_is_of_the_daemon(recs: Seq<JsonView>, addr: AddrView)
    ensures
        pid_for(recs, addr) is Some <==> exists|i: int|
            0 <= i < recs.len() && pid_in(#[trigger] recs[i], addr) is Some,
        pid_for(recs, addr) is Some ==> exists|i: int|
            0 <= i < recs.len() && pid_in(#[trigger] recs[i], addr) == pid_for(recs, addr)
                && record_addr(recs[i]) == Some(addr),
    decreases recs.len(),
{
    if recs.len() > 0 {
        let rest = recs.skip(1);
        pid_is_of_the_daemon(rest, addr);
        if pid_in(recs[0], addr) is Some {
            assert(record_addr(recs[0]) == Some(addr));
        } else {
            if pid_for(recs, addr) is Some {
                let i = choose|i: int|
                    0 <= i < rest.len() && pid_in(#[trigger] rest[i], addr) == pid_for(rest, addr)
                        && record_addr(rest[i]) == Some(addr);
                assert(recs[i + 1] == rest[i]);
            }
            if exists|i: int| 0 <= i < recs.len() && pid_in(#[trigger] recs[i], addr) is Some {
                let i = choose|i: int|
                    0 <= i < recs.len() && pid_in(#[trigger] recs[i], addr) is Some;
                assert(rest[i - 1] == recs[i]);
            }
        }
    }
}

/// The text that a record holds under `key`, if any.
pub open spec fn said(v: JsonView, key: Seq<char>) -> Option<Seq<char>> {
    match v.member(key) {
        Some(JsonView::Text(s)) => Some(s),
        _ => None,
    }
}

/// The record is of a daemon at `a`: it holds its port as a number, and its host
/// is where a daemon that recorded such a host is reached.
pub open spec fn tells_address(v: JsonView, a: AddrView) -> bool {
    &&& v.member("port"@) matches Some(JsonView::Number(Some(p), _)) && p == a.port
    &&& reached_host(said(v, "host"@)) == a.host
}

/// The record is of a daemon at `a` that is not proven older than the CLI.
pub open spec fn offers(v: JsonView, cli: Option<Seq<char>>, a: AddrView) -> bool {
    tells_address(v, a) && !is_stale(said(v, "host_version"@), cli)
}

/// The start that a record tells: the number in its member started_at, or zero.
pub open spec fn tells_start(v: JsonView, t: u64) -> bool {
    match v.member("started_at"@) {
        Some(JsonView::Number(Some(n), _)) => n == t,
        _ => t == 0,
    }
}

proof fn lemma_told(v: JsonView, cli: Option<Seq<char>>, a: AddrView, t: u64)
    ensures
        tells_address(v, a) <==> record_addr(v) == Some(a),
        record_stale(v, cli) <==> is_stale(said(v, "host_version"@), cli),
        offers(v, cli, a) <==> usable(v, cli) && record_addr(v) == Some(a),
        tells_start(v, t) <==> record_start(v) == t,
{
}

proof fn lemma_fresh_pair(recs: Seq<JsonView>, cli: Option<Seq<char>>, i: int, j: int)
    requires
        0 <= i < j < recs.len(),
        usable(recs[i], cli),
        usable(recs[j], cli),
    ensures
        exists|p: int, q: int|
            0 <= p < q < fresh(recs, cli).len() && #[trigger] fresh(recs, cli)[p] == (
                record_start(recs[i]),
                record_addr(recs[i])->0,
            ) && #[trigger] fresh(recs, cli)[q] == (record_start(recs[j]), record_addr(recs[j])->0),
    decreases recs.len(),
{
    let rest = recs.drop_last();
    let f = fresh(recs, cli);
    let g = fresh(rest, cli);
    if j < rest.len() {
        lemma_fresh_pair(rest, cli, i, j);
        let (p, q) = choose|p: int, q: int|
            0 <= p < q < g.len() && #[trigger] g[p] == (
                record_start(rest[i]),
                record_addr(rest[i])->0,
            ) && #[trigger] g[q] == (record_start(rest[j]), record_addr(rest[j])->0);
        assert(f[p] == g[p] && f[q] == g[q]);
    } else {
        let x = (record_start(recs[i]), record_addr(recs[i])->0);
        assert(rest[i] == recs[i]);
        lemma_fresh_contains(rest, cli, x);
        let p = g.index_of(x);
        assert(f[p] == x);
        assert(f[g.len() as int] == (record_start(recs[j]), record_addr(recs[j])->0));
    }
}

proof fn lemma_started_pair(s: Seq<(u64, AddrView)>, t: u64, p: int, q: int)
    requires
        0 <= p < q < s.len(),
        s[p].0 == t,
        s[q].0 == t,
    ensures
        exists|a: int, b: int|
            0 <= a < b < started_at(s, t).len() && #[trigger] started_at(s, t)[a] == s[p]
                && #[trigger] started_at(s, t)[b] == s[q],
    decreases s.len(),
{
    let rest = s.drop_last();
    let f = started_at(s, t);
    let g = started_at(rest, t);
    if q < rest.len() {
        lemma_started_pair(rest, t, p, q);
        let (a, b) = choose|a: int, b: int|
            0 <= a < b < g.len() && #[trigger] g[a] == rest[p] && #[trigger] g[b] == rest[q];
        assert(f[a] == g[a] && f[b] == g[b]);
    } else {
        lemma_started_one(rest, t, p);
        let a = choose|a: int| 0 <= a < g.len() && #[trigger] g[a] == rest[p];
        assert(f[a] == g[a]);
        assert(f[g.len() as int] == s[q]);
    }
}

proof fn lemma_started_one(s: Seq<(u64, AddrView)>, t: u64, p: int)
    requires
        0 <= p < s.len(),
        s[p].0 == t,
    ensures
        exists|a: int| 0 <= a < started_at(s, t).len() && #[trigger] started_at(s, t)[a] == s[p],
    decreases s.len(),
{
    let rest = s.drop_last();
    let f = started_at(s, t);
    let g = started_at(rest, t);
    if p < rest.len() {
        lemma_started_one(rest, t, p);
        let a = choose|a: int| 0 <= a < g.len() && #[trigger] g[a] == rest[p];
        assert(f[a] == g[a]);
    } else {
        assert(f[g.len() as int] == s[p]);
    }
}

proof fn lemma_started_back(s: Seq<(u64, AddrView)>, t: u64, a: int, b: int)
    requires
        0 <= a < b < started_at(s, t).len(),
    ensures
        exists|p: int, q: int|
            0 <= p < q < s.len() && #[trigger] s[p] == started_at(s, t)[a] && #[trigger] s[q]
                == started_at(s, t)[b],
    decreases s.len(),
{
    let rest = s.drop_last();
    let g = started_at(rest, t);
    if b < g.len() {
        lemma_started_back(rest, t, a, b);
        let (p, q) = choose|p: int, q: int|
            0 <= p < q < rest.len() && #[trigger] rest[p] == g[a] && #[trigger] rest[q] == g[b];
        assert(s[p] == rest[p] && s[q] == rest[q]);
    } else {
        lemma_started_back_one(rest, t, a);
        let p = choose|p: int| 0 <= p < rest.len() && #[trigger] rest[p] == g[a];
        assert(s[p] == rest[p]);
        assert(s[s.len() - 1] == started_at(s, t)[b]);
    }
}

proof fn lemma_started_back_one(s: Seq<(u64, AddrView)>, t: u64, a: int)
    requires
        0 <= a < started_at(s, t).len(),
    ensures
        exists|p: int| 0 <= p < s.len() && #[trigger] s[p] == started_at(s, t)[a],
    decreases s.len(),
{
    let rest = s.drop_last();
    let g = started_at(rest, t);
    if a < g.len() {
        lemma_started_back_one(rest, t, a);
        let p = choose|p: int| 0 <= p < rest.len() && #[trigger] rest[p] == g[a];
        assert(s[p] == rest[p]);
    } else {
        assert(s[s.len() - 1] == started_at(s, t)[a]);
    }
}

/// Of two daemons of the registry the one whose record tells the earlier start is
/// tried first, and of two with the same start the one that the registry lists
/// first, whatever else their records say.
pub proof fn earlier_start_is_tried_first(
    recs: Seq<JsonView>,
    lock: Option<JsonView>,
    cli: Option<Seq<char>>,
    i: int,
    j: int,
    a: AddrView,
    b: AddrView,
    s: u64,
    t: u64,
)
    requires
        0 <= i < recs.len(),
        0 <= j < recs.len(),
        offers(recs[i], cli, a),
        offers(recs[j], cli, b),
        tells_start(recs[i], s),
        tells_start(recs[j], t),
        s < t || (s == t && i < j),
    ensures
        exists|p: int, q: int|
            0 <= p < q < candidates(recs, lock, cli).len() && #[trigger] candidates(recs, lock, cli)[p]
                == a && #[trigger] candidates(recs, lock, cli)[q] == b,
{
    broadcast use vstd::seq_lib::group_to_multiset_ensures;

    lemma_told(recs[i], cli, a, s);
    lemma_told(recs[j], cli, b, t);
    let f = fresh(recs, cli);
    let o = by_start(f);
    let x = (s, a);
    let y = (t, b);
    longest_running_comes_first(f);
    let (p, q) = if s < t {
        lemma_fresh_contains(recs, cli, x);
        lemma_fresh_contains(recs, cli, y);
        assert(f.contains(x) && f.contains(y));
        assert(f.to_multiset().count(x) > 0 && f.to_multiset().count(y) > 0);
        assert(o.contains(x) && o.contains(y));
        let p = o.index_of(x);
        let q = o.index_of(y);
        if q <= p {
            assert(o[q].0 <= o[p].0);
        }
        (p, q)
    } else {
        lemma_fresh_pair(recs, cli, i, j);
        let (k, l) = choose|k: int, l: int|
            0 <= k < l < f.len() && #[trigger] f[k] == (
                record_start(recs[i]),
                record_addr(recs[i])->0,
            ) && #[trigger] f[l] == (record_start(recs[j]), record_addr(recs[j])->0);
        lemma_started_pair(f, t, k, l);
        let (c, d) = choose|c: int, d: int|
            0 <= c < d < started_at(f, t).len() && #[trigger] started_at(f, t)[c] == f[k]
                && #[trigger] started_at(f, t)[d] == f[l];
        same_start_keeps_registry_order(f, t);
        lemma_started_back(o, t, c, d);
        choose|p: int, q: int|
            0 <= p < q < o.len() && #[trigger] o[p] == started_at(o, t)[c] && #[trigger] o[q]
                == started_at(o, t)[d]
    };
    let all = candidates(recs, lock, cli);
    assert(all[p] == addrs(o)[p] && all[q] == addrs(o)[q]);
    assert(all[p] == a && all[q] == b);
}

/// A daemon is a candidate where some record or the lock offers it, and is to be
/// shut down where one tells its address and a version proven older; the lock's
/// daemon comes last.
pub proof fn records_decide_what_is_tried(
    recs: Seq<JsonView>,
    lock: Option<JsonView>,
    cli: Option<Seq<char>>,
    a: AddrView,
)
    ensures
        candidates(recs, lock, cli).contains(a) <==> (exists|i: int|
            0 <= i < recs.len() && offers(#[trigger] recs[i], cli, a)) || (lock is Some && offers(
            lock->0,
            cli,
            a,
        )),
        stale_addrs(recs, cli).contains(a) <==> exists|i: int|
            0 <= i < recs.len() && tells_address(#[trigger] recs[i], a) && is_stale(
                said(recs[i], "host_version"@),
                cli,
            ),
        lock is Some && offers(lock->0, cli, a) ==> candidates(recs, lock, cli).last() == a,
{
    let all = all_records(recs, lock);
    lemma_candidates_contain(recs, lock, cli, a);
    lemma_stale_contains(recs, cli, a);
    assert forall|v: JsonView| #[trigger] offers(v, cli, a) <==> usable(v, cli) && record_addr(v)
        == Some(a) by {
        lemma_told(v, cli, a, 0);
    }
    assert forall|v: JsonView| #[trigger] tells_address(v, a) <==> record_addr(v) == Some(a) by {
        lemma_told(v, cli, a, 0);
    }
    if candidates(recs, lock, cli).contains(a) {
        let i = choose|i: int|
            0 <= i < all.len() && usable(#[trigger] all[i], cli) && record_addr(all[i]) == Some(a);
        if i < recs.len() {
            assert(all[i] == recs[i]);
            assert(offers(recs[i], cli, a));
        } else {
            assert(offers(lock->0, cli, a));
        }
    }
    if exists|i: int| 0 <= i < recs.len() && offers(#[trigger] recs[i], cli, a) {
        let i = choose|i: int| 0 <= i < recs.len() && offers(#[trigger] recs[i], cli, a);
        assert(all[i] == recs[i]);
        assert(usable(all[i], cli));
    }
    if lock is Some && offers(lock->0, cli, a) {
        assert(all[recs.len() as int] == lock->0);
        assert(usable(all[recs.len() as int], cli));
    }
    if stale_addrs(recs, cli).contains(a) {
        let i = choose|i: int|
            0 <= i < recs.len() && record_stale(#[trigger] recs[i], cli) && record_addr(recs[i])
                == Some(a);
        assert(tells_address(recs[i], a));
    }
    if exists|i: int|
        0 <= i < recs.len() && tells_address(#[trigger] recs[i], a) && is_stale(
            said(recs[i], "host_version"@),
            cli,
        ) {
        let i = choose|i: int|
            0 <= i < recs.len() && tells_address(#[trigger] recs[i], a) && is_stale(
                said(recs[i], "host_version"@),
                cli,
            );
        assert(record_stale(recs[i], cli));
    }
}

/// The registry is read file by file in order: a file gives its document where its
/// name ends in ".json", its text could be read and is one; every other gives
/// nothing.
pub proof fn registry_files_are_read_in_order(a: Seq<FileView>, b: Seq<FileView>, f: FileView)
    ensures
        records(a + b) == records(a) + records(b),
        records(seq![f]) == match f.text {
            Some(t) => match json_text(t) {
                Ok(v) => if ".json"@.is_suffix_of(f.name) {
                    seq![v]
                } else {
                    Seq::<JsonView>::empty()
                },
                Err(_) => Seq::<JsonView>::empty(),
            },
            None => Seq::<JsonView>::empty(),
        },
    decreases b.len(),
{
    if b.len() > 0 {
        assert((a + b).drop_last() == a + b.drop_last());
        registry_files_are_read_in_order(a, b.drop_last(), f);
    } else {
        assert(a + b == a);
    }
    assert(seq![f].drop_last() == Seq::<FileView>::empty());
    reveal_with_fuel(records, 2);
}

/// Old daemons are listed record by record in order.
pub proof fn stale_daemons_are_listed_in_order(a: Seq<JsonView>, b: Seq<JsonView>, cli: Option<Seq<char>>)
    ensures
        stale_addrs(a + b, cli) == stale_addrs(a, cli) + stale_addrs(b, cli),
    decreases b.len(),
{
    if b.len() > 0 {
        assert((a + b).drop_last() == a + b.drop_last());
        stale_daemons_are_listed_in_order(a, b.drop_last(), cli);
    } else {
        assert(a + b == a);
    }
}

proof fn lemma_reachable_prefix(s: Seq<AddrView>, x: Seq<bool>, y: Seq<bool>)
    requires
        x.len() >= s.len(),
        y.len() >= s.len(),
        forall|i: int| 0 <= i < s.len() ==> x[i] == y[i],
    ensures
        reachable(s, x) == reachable(s, y),
    decreases s.len(),
{
    if s.len() > 0 {
        lemma_reachable_prefix(s.drop_last(), x, y);
    }
}

/// Each address stays where its own probe was answered, in order, and no other.
pub proof fn answering_addresses_stay(s: Seq<AddrView>, alive: Seq<bool>, a: AddrView, up: bool)
    requires
        alive.len() == s.len(),
    ensures
        reachable(s.push(a), alive.push(up)) == if up {
            reachable(s, alive).push(a)
        } else {
            reachable(s, alive)
        },
        reachable(seq![], alive).len() == 0,
{
    assert(s.push(a).drop_last() == s);
    lemma_reachable_prefix(s, alive.push(up), alive);
}

/// The record tells `pid` as the process of the daemon at `a`.
pub open spec fn tells_pid(v: JsonView, a: AddrView, pid: u32) -> bool {
    &&& tells_address(v, a)
    &&& v.member("pid"@) matches Some(JsonView::Number(Some(n), _)) && n == pid
}

/// The process of a daemon is the one that the first record of it tells which
/// tells any; there is none where no record tells one.
pub proof fn first_told_pid_counts(recs: Seq<JsonView>, a: AddrView, i: int, pid: u32)
    requires
        0 <= i <= recs.len(),
        i < recs.len() ==> tells_pid(recs[i], a, pid),
        forall|k: int, q: u32| 0 <= k < i ==> !#[trigger] tells_pid(recs[k], a, q),
    ensures
        pid_for(recs, a) == if i < recs.len() {
            Some(pid)
        } else {
            None
        },
    decreases recs.len(),
{
    if recs.len() > 0 {
        if i > 0 {
            if let Some(q) = pid_in(recs[0], a) {
                assert(tells_pid(recs[0], a, q));
            }
            let rest = recs.skip(1);
            assert forall|k: int, q: u32| 0 <= k < i - 1 implies !#[trigger] tells_pid(
                rest[k],
                a,
                q,
            ) by {
                assert(rest[k] == recs[k + 1]);
                assert(!tells_pid(recs[k + 1], a, q));
            }
            first_told_pid_counts(rest, a, i - 1, pid);
        }
    }
}

/// Among the daemons of the registry that are not proven older than the CLI, the
/// one whose member started_at is the smaller number stands before the other among
/// the candidates, whatever the other members of the two records say.
pub proof fn started_at_decides_the_order(
    recs: Seq<JsonView>,
    lock: Option<JsonView>,
    cli: Option<Seq<char>>,
    i: int,
    j: int,
    a: AddrView,
    b: AddrView,
)
    requires
        0 <= i < recs.len(),
        0 <= j < recs.len(),
        recs[i].u64_at("started_at"@) is Some,
        recs[j].u64_at("started_at"@) is Some,
        recs[i].u64_at("started_at"@)->0 < recs[j].u64_at("started_at"@)->0,
        recs[i].u64_at("port"@) == Some(a.port as u64),
        recs[j].u64_at("port"@) == Some(b.port as u64),
        reached_host(recs[i].text_at("host"@)) == a.host,
        reached_host(recs[j].text_at("host"@)) == b.host,
        !is_stale(recs[i].text_at("host_version"@), cli),
        !is_stale(recs[j].text_at("host_version"@), cli),
    ensures
        exists|k: int, l: int|
            0 <= k < l < candidates(recs, lock, cli).len() && #[trigger] candidates(recs, lock, cli)[k]
                == a && #[trigger] candidates(recs, lock, cli)[l] == b,
{
    let s = recs[i].u64_at("started_at"@)->0;
    let t = recs[j].u64_at("started_at"@)->0;
    earlier_start_is_tried_first(recs, lock, cli, i, j, a, b, s, t);
}

/// The document in a text is what the parser makes of it, and the legacy lock is
/// one more record behind the others.
pub proof fn lock_is_one_more_record(recs: Seq<JsonView>, text: Seq<char>, v: JsonView)
    ensures
        match json_text(text) {
            Ok(d) => document(Some(text)) == Some(d),
            Err(_) => document(Some(text)) is None,
        },
        document(None) is None,
        all_records(recs, Some(v)) == recs.push(v),
        all_records(recs, None) == recs,
{
}

} // verus!
