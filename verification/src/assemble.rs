//! Assembling the per-tick snapshot: kernel table rows into
//! connection records, process names from the cache, and hostnames
//! from the DNS cache.

use vstd::prelude::*;
use vstd::string::StrSliceExecFns;
use vstd::string::StringExecFns;

use crate::dns::{dns_lookup, DnsCache};
use crate::net::{ipv4_from_bytes, ntohs, spec_ipv4_from_bytes, spec_ntohs, IpAddress};
use crate::text::{path_basename, push_decimal, spec_basename, spec_dec};
use crate::types::{ConnProto, Connection, ConnectionModel, TcpState};

verus! {

// ─── Kernel table rows, as plain values ──────────────────────────────────

/// One row of the per-PID TCP/IPv4 table: addresses as the four wire
/// bytes, ports as the kernel's 32-bit network-order field.
pub struct Tcp4Row {
    pub state: u32,
    pub local_addr: [u8; 4],
    pub local_port: u32,
    pub remote_addr: [u8; 4],
    pub remote_port: u32,
    pub pid: u32,
}

/// One row of the per-PID TCP/IPv6 table.
pub struct Tcp6Row {
    pub local_addr: [u8; 16],
    pub local_port: u32,
    pub remote_addr: [u8; 16],
    pub remote_port: u32,
    pub state: u32,
    pub pid: u32,
}

/// One row of the per-PID UDP/IPv4 table.
pub struct Udp4Row {
    pub local_addr: [u8; 4],
    pub local_port: u32,
    pub pid: u32,
}

/// One row of the per-PID UDP/IPv6 table.
pub struct Udp6Row {
    pub local_addr: [u8; 16],
    pub local_port: u32,
    pub pid: u32,
}

/// The value of sixteen wire bytes, most significant first.
pub open spec fn spec_ipv6_from_bytes(b: Seq<u8>) -> int
    recommends
        b.len() == 16,
{
    (b[0] as int) * 0x1000000000000000000000000000000 + (b[1] as int)
        * 0x10000000000000000000000000000 + (b[2] as int) * 0x100000000000000000000000000 + (
    b[3] as int) * 0x1000000000000000000000000 + (b[4] as int) * 0x10000000000000000000000 + (
    b[5] as int) * 0x100000000000000000000 + (b[6] as int) * 0x1000000000000000000 + (b[7] as int)
        * 0x10000000000000000 + (b[8] as int) * 0x100000000000000 + (b[9] as int) * 0x1000000000000
        + (b[10] as int) * 0x10000000000 + (b[11] as int) * 0x100000000 + (b[12] as int) * 0x1000000
        + (b[13] as int) * 0x10000 + (b[14] as int) * 0x100 + (b[15] as int)
}

pub fn ipv6_from_bytes(b: &[u8; 16]) -> (r: u128)
    ensures
        r as int == spec_ipv6_from_bytes(b@),
{
    (b[0] as u128) * 0x1000000000000000000000000000000 + (b[1] as u128)
        * 0x10000000000000000000000000000 + (b[2] as u128) * 0x100000000000000000000000000 + (
    b[3] as u128) * 0x1000000000000000000000000 + (b[4] as u128) * 0x10000000000000000000000 + (
    b[5] as u128) * 0x100000000000000000000 + (b[6] as u128) * 0x1000000000000000000 + (
    b[7] as u128) * 0x10000000000000000 + (b[8] as u128) * 0x100000000000000 + (b[9] as u128)
        * 0x1000000000000 + (b[10] as u128) * 0x10000000000 + (b[11] as u128) * 0x100000000 + (
    b[12] as u128) * 0x1000000 + (b[13] as u128) * 0x10000 + (b[14] as u128) * 0x100 + (
    b[15] as u128)
}

// ─── Rows into records ───────────────────────────────────────────────────

pub open spec fn spec_conn_from_tcp4(r: Tcp4Row) -> ConnectionModel {
    ConnectionModel {
        proto: ConnProto::Tcp,
        local_addr: IpAddress::V4(
            spec_ipv4_from_bytes(r.local_addr[0], r.local_addr[1], r.local_addr[2], r.local_addr[3]),
        ),
        local_port: spec_ntohs(r.local_port),
        remote_addr: Some(
            IpAddress::V4(
                spec_ipv4_from_bytes(
                    r.remote_addr[0],
                    r.remote_addr[1],
                    r.remote_addr[2],
                    r.remote_addr[3],
                ),
            ),
        ),
        remote_port: Some(spec_ntohs(r.remote_port)),
        state: Some(TcpState::spec_from_raw(r.state)),
        pid: r.pid,
        process_name: Seq::empty(),
        dns_hostname: None,
    }
}

pub open spec fn spec_conn_from_tcp6(r: Tcp6Row) -> ConnectionModel {
    ConnectionModel {
        proto: ConnProto::Tcp,
        local_addr: IpAddress::V6(spec_ipv6_from_bytes(r.local_addr@) as u128),
        local_port: spec_ntohs(r.local_port),
        remote_addr: Some(IpAddress::V6(spec_ipv6_from_bytes(r.remote_addr@) as u128)),
        remote_port: Some(spec_ntohs(r.remote_port)),
        state: Some(TcpState::spec_from_raw(r.state)),
        pid: r.pid,
        process_name: Seq::empty(),
        dns_hostname: None,
    }
}

/// A UDP row yields no remote endpoint and no state.
pub open spec fn spec_conn_from_udp4(r: Udp4Row) -> ConnectionModel {
    ConnectionModel {
        proto: ConnProto::Udp,
        local_addr: IpAddress::V4(
            spec_ipv4_from_bytes(r.local_addr[0], r.local_addr[1], r.local_addr[2], r.local_addr[3]),
        ),
        local_port: spec_ntohs(r.local_port),
        remote_addr: None,
        remote_port: None,
        state: None,
        pid: r.pid,
        process_name: Seq::empty(),
        dns_hostname: None,
    }
}

pub open spec fn spec_conn_from_udp6(r: Udp6Row) -> ConnectionModel {
    ConnectionModel {
        proto: ConnProto::Udp,
        local_addr: IpAddress::V6(spec_ipv6_from_bytes(r.local_addr@) as u128),
        local_port: spec_ntohs(r.local_port),
        remote_addr: None,
        remote_port: None,
        state: None,
        pid: r.pid,
        process_name: Seq::empty(),
        dns_hostname: None,
    }
}

fn conn_from_tcp4(r: &Tcp4Row) -> (c: Connection)
    ensures
        c@ == spec_conn_from_tcp4(*r),
{
    Connection {
        proto: ConnProto::Tcp,
        local_addr: IpAddress::V4(
            ipv4_from_bytes(r.local_addr[0], r.local_addr[1], r.local_addr[2], r.local_addr[3]),
        ),
        local_port: ntohs(r.local_port),
        remote_addr: Some(
            IpAddress::V4(
                ipv4_from_bytes(
                    r.remote_addr[0],
                    r.remote_addr[1],
                    r.remote_addr[2],
                    r.remote_addr[3],
                ),
            ),
        ),
        remote_port: Some(ntohs(r.remote_port)),
        state: Some(TcpState::from_raw(r.state)),
        pid: r.pid,
        process_name: String::new(),
        dns_hostname: None,
    }
}

fn conn_from_tcp6(r: &Tcp6Row) -> (c: Connection)
    ensures
        c@ == spec_conn_from_tcp6(*r),
{
    Connection {
        proto: ConnProto::Tcp,
        local_addr: IpAddress::V6(ipv6_from_bytes(&r.local_addr)),
        local_port: ntohs(r.local_port),
        remote_addr: Some(IpAddress::V6(ipv6_from_bytes(&r.remote_addr))),
        remote_port: Some(ntohs(r.remote_port)),
        state: Some(TcpState::from_raw(r.state)),
        pid: r.pid,
        process_name: String::new(),
        dns_hostname: None,
    }
}

fn conn_from_udp4(r: &Udp4Row) -> (c: Connection)
    ensures
        c@ == spec_conn_from_udp4(*r),
{
    Connection {
        proto: ConnProto::Udp,
        local_addr: IpAddress::V4(
            ipv4_from_bytes(r.local_addr[0], r.local_addr[1], r.local_addr[2], r.local_addr[3]),
        ),
        local_port: ntohs(r.local_port),
        remote_addr: None,
        remote_port: None,
        state: None,
        pid: r.pid,
        process_name: String::new(),
        dns_hostname: None,
    }
}

fn conn_from_udp6(r: &Udp6Row) -> (c: Connection)
    ensures
        c@ == spec_conn_from_udp6(*r),
{
    Connection {
        proto: ConnProto::Udp,
        local_addr: IpAddress::V6(ipv6_from_bytes(&r.local_addr)),
        local_port: ntohs(r.local_port),
        remote_addr: None,
        remote_port: None,
        state: None,
        pid: r.pid,
        process_name: String::new(),
        dns_hostname: None,
    }
}

pub open spec fn map_tcp4(rows: Seq<Tcp4Row>) -> Seq<ConnectionModel> {
    rows.map_values(|r: Tcp4Row| spec_conn_from_tcp4(r))
}

pub open spec fn map_tcp6(rows: Seq<Tcp6Row>) -> Seq<ConnectionModel> {
    rows.map_values(|r: Tcp6Row| spec_conn_from_tcp6(r))
}

pub open spec fn map_udp4(rows: Seq<Udp4Row>) -> Seq<ConnectionModel> {
    rows.map_values(|r: Udp4Row| spec_conn_from_udp4(r))
}

pub open spec fn map_udp6(rows: Seq<Udp6Row>) -> Seq<ConnectionModel> {
    rows.map_values(|r: Udp6Row| spec_conn_from_udp6(r))
}

/// Merges the four kernel tables into one snapshot, TCP before UDP and
/// v4 before v6 within each, names and hostnames still unset. A UDP
/// record never carries a state.
pub fn assemble_connections(
    tcp4: &Vec<Tcp4Row>,
    tcp6: &Vec<Tcp6Row>,
    udp4: &Vec<Udp4Row>,
    udp6: &Vec<Udp6Row>,
) -> (r: Vec<Connection>)
    ensures
        r.deep_view() == map_tcp4(tcp4@) + map_tcp6(tcp6@) + map_udp4(udp4@) + map_udp6(udp6@),
        forall|k: int|
            0 <= k < r.deep_view().len() ==> ((#[trigger] r.deep_view()[k]).proto
                == ConnProto::Udp ==> r.deep_view()[k].state is None),
{
    let mut out: Vec<Connection> = Vec::new();
    let mut i: usize = 0;
    proof {
        assert(out.deep_view() =~= map_tcp4(tcp4@.take(0)));
        assert(map_tcp4(tcp4@.take(0)).len() == 0);
    }
    while i < tcp4.len()
        invariant
            i <= tcp4@.len(),
            out.deep_view() == map_tcp4(tcp4@.take(i as int)),
        decreases tcp4@.len() - i,
    {
        let ghost before = out.deep_view();
        out.push(conn_from_tcp4(&tcp4[i]));
        proof {
            assert(out.deep_view() =~= before.push(spec_conn_from_tcp4(tcp4@[i as int])));
            assert(map_tcp4(tcp4@.take(i + 1)) =~= map_tcp4(tcp4@.take(i as int)).push(
                spec_conn_from_tcp4(tcp4@[i as int]),
            ));
        }
        i = i + 1;
    }
    proof {
        assert(tcp4@.take(tcp4@.len() as int) =~= tcp4@);
    }
    let mut i: usize = 0;
    while i < tcp6.len()
        invariant
            i <= tcp6@.len(),
            out.deep_view() == map_tcp4(tcp4@) + map_tcp6(tcp6@.take(i as int)),
        decreases tcp6@.len() - i,
    {
        let ghost before = out.deep_view();
        out.push(conn_from_tcp6(&tcp6[i]));
        proof {
            assert(out.deep_view() =~= before.push(spec_conn_from_tcp6(tcp6@[i as int])));
            assert(map_tcp4(tcp4@) + map_tcp6(tcp6@.take(i + 1)) =~= (map_tcp4(tcp4@) + map_tcp6(
                tcp6@.take(i as int),
            )).push(spec_conn_from_tcp6(tcp6@[i as int])));
        }
        i = i + 1;
    }
    proof {
        assert(tcp6@.take(tcp6@.len() as int) =~= tcp6@);
        assert(map_tcp4(tcp4@) + map_tcp6(tcp6@.take(0)) =~= map_tcp4(tcp4@) + map_tcp6(tcp6@.take(
            0,
        )));
    }
    let mut i: usize = 0;
    while i < udp4.len()
        invariant
            i <= udp4@.len(),
            out.deep_view() == map_tcp4(tcp4@) + map_tcp6(tcp6@) + map_udp4(udp4@.take(i as int)),
        decreases udp4@.len() - i,
    {
        let ghost before = out.deep_view();
        out.push(conn_from_udp4(&udp4[i]));
        proof {
            assert(out.deep_view() =~= before.push(spec_conn_from_udp4(udp4@[i as int])));
            assert(map_tcp4(tcp4@) + map_tcp6(tcp6@) + map_udp4(udp4@.take(i + 1)) =~= (map_tcp4(
                tcp4@,
            ) + map_tcp6(tcp6@) + map_udp4(udp4@.take(i as int))).push(
                spec_conn_from_udp4(udp4@[i as int]),
            ));
        }
        i = i + 1;
    }
    proof {
        assert(udp4@.take(udp4@.len() as int) =~= udp4@);
    }
    let mut i: usize = 0;
    while i < udp6.len()
        invariant
            i <= udp6@.len(),
            out.deep_view() == map_tcp4(tcp4@) + map_tcp6(tcp6@) + map_udp4(udp4@) + map_udp6(
                udp6@.take(i as int),
            ),
        decreases udp6@.len() - i,
    {
        let ghost before = out.deep_view();
        out.push(conn_from_udp6(&udp6[i]));
        proof {
            assert(out.deep_view() =~= before.push(spec_conn_from_udp6(udp6@[i as int])));
            assert(map_tcp4(tcp4@) + map_tcp6(tcp6@) + map_udp4(udp4@) + map_udp6(
                udp6@.take(i + 1),
            ) =~= (map_tcp4(tcp4@) + map_tcp6(tcp6@) + map_udp4(udp4@) + map_udp6(
                udp6@.take(i as int),
            )).push(spec_conn_from_udp6(udp6@[i as int])));
        }
        i = i + 1;
    }
    proof {
        assert(udp6@.take(udp6@.len() as int) =~= udp6@);
    }
    out
}

// ─── Process names ───────────────────────────────────────────────────────

/// A cache of resolved process names, pid to name, first writer wins;
/// placeholders are never cached, so failures retry next tick.
pub struct PidCache {
    pub entries: Vec<(u32, String)>,
}

pub open spec fn pid_lookup(m: Seq<(u32, Seq<char>)>, pid: u32) -> Option<Seq<char>>
    decreases m.len(),
{
    if m.len() == 0 {
        None
    } else if m[0].0 == pid {
        Some(m[0].1)
    } else {
        pid_lookup(m.skip(1), pid)
    }
}

impl View for PidCache {
    type V = Seq<(u32, Seq<char>)>;

    open spec fn view(&self) -> Seq<(u32, Seq<char>)> {
        Seq::new(self.entries@.len(), |i: int| (self.entries@[i].0, self.entries@[i].1@))
    }
}

impl PidCache {
    pub fn new() -> (c: PidCache)
        ensures
            c@ == Seq::<(u32, Seq<char>)>::empty(),
    {
        let c = PidCache { entries: Vec::new() };
        proof {
            assert(c@ =~= Seq::<(u32, Seq<char>)>::empty());
        }
        c
    }

    pub fn lookup(&self, pid: u32) -> (r: Option<String>)
        ensures
            r.deep_view() == pid_lookup(self@, pid),
    {
        let n = self.entries.len();
        let mut i: usize = 0;
        proof {
            assert(self@.skip(0) =~= self@);
        }
        while i < n
            invariant
                i <= n,
                n == self.entries@.len(),
                pid_lookup(self@, pid) == pid_lookup(self@.skip(i as int), pid),
            decreases n - i,
        {
            proof {
                assert(self@.skip(i as int)[0] == self@[i as int]);
            }
            if self.entries[i].0 == pid {
                return Some(self.entries[i].1.clone());
            }
            proof {
                assert(self@.skip(i as int).skip(1) =~= self@.skip(i + 1));
            }
            i = i + 1;
        }
        proof {
            assert(self@.skip(i as int).len() == 0);
        }
        None
    }

    /// Caches a name for a pid unless one is already present.
    pub fn record(&mut self, pid: u32, name: String)
        ensures
            final(self)@ == (if pid_lookup(old(self)@, pid) is Some {
                old(self)@
            } else {
                old(self)@.push((pid, name@))
            }),
    {
        let existing = self.lookup(pid);
        if existing.is_none() {
            self.entries.push((pid, name));
            proof {
                assert(final(self)@ =~= old(self)@.push((pid, name@)));
            }
        }
    }
}

/// The placeholder name of an unresolved process.
pub open spec fn spec_pid_placeholder(pid: u32) -> Seq<char> {
    "PID:"@ + spec_dec(pid as nat)
}

fn pid_placeholder(pid: u32) -> (r: String)
    ensures
        r@ == spec_pid_placeholder(pid),
{
    let mut s = String::new();
    s.append("PID:");
    push_decimal(&mut s, pid as u64);
    s
}

/// The display name a pid resolves to, with whether it may be cached:
/// fixed labels for the idle and system pids, the final path segment
/// of a resolved image path, and an uncacheable `PID:` placeholder
/// when the query failed.
pub fn resolve_process_name(pid: u32, image_path: Option<&str>) -> (r: (String, bool))
    ensures
        pid == 0 ==> r.0@ == "[Kernel]"@ && r.1,
        pid == 4 ==> r.0@ == "System"@ && r.1,
        pid != 0 && pid != 4 ==> (match image_path {
            Some(p) => r.0@ == spec_basename(p@) && r.1,
            None => r.0@ == spec_pid_placeholder(pid) && !r.1,
        }),
{
    if pid == 0 {
        let mut s = String::new();
        s.append("[Kernel]");
        return (s, true);
    }
    if pid == 4 {
        let mut s = String::new();
        s.append("System");
        return (s, true);
    }
    match image_path {
        Some(p) => (path_basename(p), true),
        None => (pid_placeholder(pid), false),
    }
}

/// What the name-application step makes of one record: the cached name
/// when the pid has one, else the placeholder (the idle pid keeps its
/// empty name).
pub open spec fn spec_named(c: ConnectionModel, cache: Seq<(u32, Seq<char>)>) -> ConnectionModel {
    match pid_lookup(cache, c.pid) {
        Some(n) => ConnectionModel { process_name: n, ..c },
        None => if c.pid != 0 {
            ConnectionModel { process_name: spec_pid_placeholder(c.pid), ..c }
        } else {
            c
        },
    }
}

/// Fills every record's process name from the cache.
pub fn apply_process_names(conns: Vec<Connection>, cache: &PidCache) -> (r: Vec<Connection>)
    ensures
        r.deep_view() == conns.deep_view().map_values(
            |c: ConnectionModel| spec_named(c, cache@),
        ),
{
    let n = conns.len();
    let mut out: Vec<Connection> = Vec::new();
    let mut i: usize = 0;
    proof {
        assert(out.deep_view() =~= conns.deep_view().take(0).map_values(
            |c: ConnectionModel| spec_named(c, cache@),
        ));
    }
    while i < n
        invariant
            i <= n,
            n == conns@.len(),
            conns.deep_view().len() == n,
            out.deep_view() == conns.deep_view().take(i as int).map_values(
                |c: ConnectionModel| spec_named(c, cache@),
            ),
        decreases n - i,
    {
        proof {
            assert(conns.deep_view()[i as int] == conns@[i as int]@);
        }
        let mut c = conns[i].clone();
        match cache.lookup(c.pid) {
            Some(name) => {
                c.process_name = name;
            },
            None => {
                if c.pid != 0 {
                    c.process_name = pid_placeholder(c.pid);
                }
            },
        }
        let ghost before = out.deep_view();
        out.push(c);
        proof {
            assert(out.deep_view() =~= before.push(spec_named(conns@[i as int]@, cache@)));
            assert(conns.deep_view().take(i + 1).map_values(
                |c: ConnectionModel| spec_named(c, cache@),
            ) =~= conns.deep_view().take(i as int).map_values(
                |c: ConnectionModel| spec_named(c, cache@),
            ).push(spec_named(conns.deep_view()[i as int], cache@)));
        }
        i = i + 1;
    }
    proof {
        assert(conns.deep_view().take(n as int) =~= conns.deep_view());
    }
    out
}

/// The pids of a snapshot the cache cannot name yet, in snapshot order
/// with repeats kept.
pub open spec fn spec_unresolved(
    s: Seq<ConnectionModel>,
    cache: Seq<(u32, Seq<char>)>,
) -> Seq<u32>
    decreases s.len(),
{
    if s.len() == 0 {
        Seq::empty()
    } else {
        spec_unresolved(s.drop_last(), cache) + (if pid_lookup(cache, s.last().pid) is None {
            seq![s.last().pid]
        } else {
            Seq::empty()
        })
    }
}

pub fn unresolved_pids(conns: &Vec<Connection>, cache: &PidCache) -> (r: Vec<u32>)
    ensures
        r@ == spec_unresolved(conns.deep_view(), cache@),
{
    let n = conns.len();
    let mut out: Vec<u32> = Vec::new();
    let mut i: usize = 0;
    proof {
        assert(out@ =~= spec_unresolved(conns.deep_view().take(0), cache@));
    }
    while i < n
        invariant
            i <= n,
            n == conns@.len(),
            conns.deep_view().len() == n,
            out@ == spec_unresolved(conns.deep_view().take(i as int), cache@),
        decreases n - i,
    {
        proof {
            assert(conns.deep_view().take(i + 1).drop_last() =~= conns.deep_view().take(i as int));
            assert(conns.deep_view().take(i + 1).last() == conns.deep_view()[i as int]);
            assert(conns.deep_view()[i as int] == conns@[i as int]@);
        }
        let pid = conns[i].pid;
        let hit = cache.lookup(pid);
        if hit.is_none() {
            let ghost before = out@;
            out.push(pid);
            proof {
                assert(out@ =~= before + seq![pid]);
            }
        } else {
            proof {
                assert(out@ + Seq::<u32>::empty() =~= out@);
            }
        }
        i = i + 1;
    }
    proof {
        assert(conns.deep_view().take(n as int) =~= conns.deep_view());
    }
    out
}

// ─── Hostnames ───────────────────────────────────────────────────────────

/// What the hostname step makes of one record: nothing for an
/// unspecified remote, `localhost` for a loopback remote, else
/// whatever the cache holds.
pub open spec fn spec_with_hostname(
    c: ConnectionModel,
    m: Seq<(IpAddress, Seq<char>)>,
) -> ConnectionModel {
    match c.remote_addr {
        Some(ip) => if ip.spec_is_unspecified() {
            c
        } else if ip.spec_is_loopback() {
            ConnectionModel { dns_hostname: Some("localhost"@), ..c }
        } else {
            match dns_lookup(m, ip) {
                Some(h) => ConnectionModel { dns_hostname: Some(h), ..c },
                None => c,
            }
        },
        None => c,
    }
}

/// Attaches a hostname to every record per the cache and the loopback
/// and unspecified-remote rules.
pub fn attach_hostnames(conns: Vec<Connection>, dns: &DnsCache) -> (r: Vec<Connection>)
    ensures
        r.deep_view() == conns.deep_view().map_values(
            |c: ConnectionModel| spec_with_hostname(c, dns@),
        ),
{
    let n = conns.len();
    let mut out: Vec<Connection> = Vec::new();
    let mut i: usize = 0;
    proof {
        assert(out.deep_view() =~= conns.deep_view().take(0).map_values(
            |c: ConnectionModel| spec_with_hostname(c, dns@),
        ));
    }
    while i < n
        invariant
            i <= n,
            n == conns@.len(),
            conns.deep_view().len() == n,
            out.deep_view() == conns.deep_view().take(i as int).map_values(
                |c: ConnectionModel| spec_with_hostname(c, dns@),
            ),
        decreases n - i,
    {
        proof {
            assert(conns.deep_view()[i as int] == conns@[i as int]@);
        }
        let mut c = conns[i].clone();
        if let Some(ip) = c.remote_addr {
            if ip.is_unspecified() {
            } else if ip.is_loopback() {
                let mut s = String::new();
                s.append("localhost");
                c.dns_hostname = Some(s);
            } else {
                if let Some(h) = dns.lookup(ip) {
                    c.dns_hostname = Some(h);
                }
            }
        }
        let ghost before = out.deep_view();
        out.push(c);
        proof {
            assert(out.deep_view() =~= before.push(
                spec_with_hostname(conns@[i as int]@, dns@),
            ));
            assert(conns.deep_view().take(i + 1).map_values(
                |c: ConnectionModel| spec_with_hostname(c, dns@),
            ) =~= conns.deep_view().take(i as int).map_values(
                |c: ConnectionModel| spec_with_hostname(c, dns@),
            ).push(spec_with_hostname(conns.deep_view()[i as int], dns@)));
        }
        i = i + 1;
    }
    proof {
        assert(conns.deep_view().take(n as int) =~= conns.deep_view());
    }
    out
}

} // verus!
