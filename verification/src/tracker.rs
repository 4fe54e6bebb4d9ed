//! The traffic tracker: diffs consecutive connection snapshots into
//! lifecycle events kept in a bounded log.

use vstd::prelude::*;

use crate::clock::TimeOfDay;
use crate::dns::{dns_lookup, DnsCache};
use crate::net::IpAddress;
use crate::types::{
    ConnKey, ConnProto, Connection, ConnectionModel, TcpState, TrafficEntry, TrafficEntryModel,
    TrafficEventKind,
};

verus! {

// ─── Association sequences ───────────────────────────────────────────────
// Small maps kept as key-value vectors in insertion order, so that the
// event order of the diff is fully determined.

pub open spec fn assoc_has<V>(m: Seq<(ConnKey, V)>, k: ConnKey) -> bool {
    exists|i: int| 0 <= i < m.len() && m[i].0 == k
}

pub open spec fn assoc_get<V>(m: Seq<(ConnKey, V)>, k: ConnKey) -> Option<V>
    decreases m.len(),
{
    if m.len() == 0 {
        None
    } else if m[0].0 == k {
        Some(m[0].1)
    } else {
        assoc_get(m.skip(1), k)
    }
}

/// Replaces the value of the first entry with key `k`, or appends.
pub open spec fn assoc_upsert<V>(m: Seq<(ConnKey, V)>, k: ConnKey, v: V) -> Seq<(ConnKey, V)>
    decreases m.len(),
{
    if m.len() == 0 {
        seq![(k, v)]
    } else if m[0].0 == k {
        seq![(k, v)] + m.skip(1)
    } else {
        seq![m[0]] + assoc_upsert(m.skip(1), k, v)
    }
}

proof fn lemma_assoc_get_at<V>(m: Seq<(ConnKey, V)>, k: ConnKey, j: int)
    requires
        0 <= j < m.len(),
        m[j].0 == k,
        forall|i: int| 0 <= i < j ==> m[i].0 != k,
    ensures
        assoc_get(m, k) == Some(m[j].1),
    decreases j,
{
    if j > 0 {
        assert(forall|i: int| 0 <= i < j - 1 ==> m.skip(1)[i] == m[i + 1]);
        assert(m.skip(1)[j - 1] == m[j]);
        lemma_assoc_get_at(m.skip(1), k, j - 1);
    }
}

proof fn lemma_assoc_get_absent<V>(m: Seq<(ConnKey, V)>, k: ConnKey)
    requires
        forall|i: int| 0 <= i < m.len() ==> m[i].0 != k,
    ensures
        assoc_get(m, k) is None,
    decreases m.len(),
{
    if m.len() > 0 {
        assert(forall|i: int| 0 <= i < m.skip(1).len() ==> m.skip(1)[i] == m[i + 1]);
        lemma_assoc_get_absent(m.skip(1), k);
    }
}

proof fn lemma_assoc_upsert_at<V>(m: Seq<(ConnKey, V)>, k: ConnKey, v: V, j: int)
    requires
        0 <= j < m.len(),
        m[j].0 == k,
        forall|i: int| 0 <= i < j ==> m[i].0 != k,
    ensures
        assoc_upsert(m, k, v) == m.update(j, (k, v)),
    decreases j,
{
    if j == 0 {
        assert(seq![(k, v)] + m.skip(1) =~= m.update(0, (k, v)));
    } else {
        assert(forall|i: int| 0 <= i < j - 1 ==> m.skip(1)[i] == m[i + 1]);
        assert(m.skip(1)[j - 1] == m[j]);
        lemma_assoc_upsert_at(m.skip(1), k, v, j - 1);
        assert(seq![m[0]] + m.skip(1).update(j - 1, (k, v)) =~= m.update(j, (k, v)));
    }
}

proof fn lemma_assoc_upsert_absent<V>(m: Seq<(ConnKey, V)>, k: ConnKey, v: V)
    requires
        forall|i: int| 0 <= i < m.len() ==> m[i].0 != k,
    ensures
        assoc_upsert(m, k, v) == m.push((k, v)),
    decreases m.len(),
{
    if m.len() == 0 {
        assert(seq![(k, v)] =~= m.push((k, v)));
    } else {
        assert(forall|i: int| 0 <= i < m.skip(1).len() ==> m.skip(1)[i] == m[i + 1]);
        lemma_assoc_upsert_absent(m.skip(1), k, v);
        assert(seq![m[0]] + m.skip(1).push((k, v)) =~= m.push((k, v)));
    }
}

/// The index of the first entry with key `k`, if any.
fn find_key<V: DeepView>(v: &Vec<(ConnKey, V)>, k: ConnKey) -> (r: Option<usize>)
    ensures
        match r {
            Some(j) => j < v@.len() && v@[j as int].0 == k && forall|i: int|
                0 <= i < j ==> v@[i].0 != k,
            None => forall|i: int| 0 <= i < v@.len() ==> v@[i].0 != k,
        },
{
    let n = v.len();
    let mut i: usize = 0;
    while i < n
        invariant
            i <= n,
            n == v@.len(),
            forall|j: int| 0 <= j < i ==> v@[j].0 != k,
        decreases n - i,
    {
        if v[i].0 == k {
            return Some(i);
        }
        i = i + 1;
    }
    None
}

/// The deep view of a key-value vector agrees with the vector entry by
/// entry.
proof fn lemma_pairs_deep_view<V: DeepView>(v: &Vec<(ConnKey, V)>)
    ensures
        v.deep_view().len() == v@.len(),
        forall|i: int|
            0 <= i < v@.len() ==> #[trigger] v.deep_view()[i] == (
            v@[i].0,
            v@[i].1.deep_view(),
            ),
{
    assert(forall|i: int|
        0 <= i < v@.len() ==> #[trigger] v.deep_view()[i] == (v@[i].0, v@[i].1.deep_view()));
}

// ─── Per-connection info across ticks ────────────────────────────────────

/// Info tracked per connection across ticks.
#[derive(Debug)]
pub struct ConnInfo {
    pub state: Option<TcpState>,
    pub process_name: String,
    pub proto: ConnProto,
    pub outbound: bool,
    pub dns_name: Option<String>,
}

/// The spec-level image of a `ConnInfo`.
pub struct ConnInfoModel {
    pub state: Option<TcpState>,
    pub process_name: Seq<char>,
    pub proto: ConnProto,
    pub outbound: bool,
    pub dns_name: Option<Seq<char>>,
}

impl View for ConnInfo {
    type V = ConnInfoModel;

    open spec fn view(&self) -> ConnInfoModel {
        ConnInfoModel {
            state: self.state,
            process_name: self.process_name@,
            proto: self.proto,
            outbound: self.outbound,
            dns_name: match self.dns_name {
                Some(ref h) => Some(h@),
                None => None,
            },
        }
    }
}

impl DeepView for ConnInfo {
    type V = ConnInfoModel;

    open spec fn deep_view(&self) -> ConnInfoModel {
        self.view()
    }
}

impl Clone for ConnInfo {
    fn clone(&self) -> (r: Self)
        ensures
            r@ == self@,
    {
        ConnInfo {
            state: self.state,
            process_name: self.process_name.clone(),
            proto: self.proto,
            outbound: self.outbound,
            dns_name: match &self.dns_name {
                Some(h) => Some(h.clone()),
                None => None,
            },
        }
    }
}

// ─── The diff, in specification form ─────────────────────────────────────

/// Records the diff follows: neither listening sockets nor UDP sockets
/// without a remote endpoint take part.
pub open spec fn spec_tracked(c: ConnectionModel) -> bool {
    &&& c.state != Some(TcpState::Listen)
    &&& !(c.proto == ConnProto::Udp && c.remote_addr is None)
}

/// The hostname the cache gives a record's remote address.
pub open spec fn spec_remote_dns(
    remote: Option<IpAddress>,
    m: Seq<(IpAddress, Seq<char>)>,
) -> Option<Seq<char>> {
    match remote {
        Some(ip) => dns_lookup(m, ip),
        None => None,
    }
}

/// What the tracker remembers of a connection.
pub open spec fn spec_info_of(c: ConnectionModel, m: Seq<(IpAddress, Seq<char>)>) -> ConnInfoModel {
    ConnInfoModel {
        state: c.state,
        process_name: c.process_name,
        proto: c.proto,
        outbound: c.spec_is_outbound(),
        dns_name: spec_remote_dns(c.remote_addr, m),
    }
}

/// The tracked connections of a snapshot as a key-to-info map, built in
/// snapshot order, a later duplicate key replacing the earlier info.
pub open spec fn spec_build_current(
    conns: Seq<ConnectionModel>,
    m: Seq<(IpAddress, Seq<char>)>,
) -> Seq<(ConnKey, ConnInfoModel)>
    decreases conns.len(),
{
    if conns.len() == 0 {
        Seq::empty()
    } else {
        let rest = spec_build_current(conns.drop_last(), m);
        let c = conns.last();
        if spec_tracked(c) {
            assoc_upsert(rest, c.spec_key(), spec_info_of(c, m))
        } else {
            rest
        }
    }
}

pub open spec fn spec_new_entry(
    c: ConnectionModel,
    m: Seq<(IpAddress, Seq<char>)>,
    now: TimeOfDay,
) -> TrafficEntryModel {
    TrafficEntryModel {
        timestamp: now,
        event: TrafficEventKind::NewConnection,
        proto: c.proto,
        local_addr: c.local_addr,
        local_port: c.local_port,
        remote_addr: c.remote_addr,
        remote_port: c.remote_port,
        process_name: c.process_name,
        outbound: c.spec_is_outbound(),
        state_label: match c.state {
            Some(s) => s.spec_label(),
            None => "-"@,
        },
        dns_name: spec_remote_dns(c.remote_addr, m),
        data_size: None,
    }
}

pub open spec fn spec_change_entry(
    c: ConnectionModel,
    from: TcpState,
    to: TcpState,
    m: Seq<(IpAddress, Seq<char>)>,
    now: TimeOfDay,
    data: Option<u64>,
) -> TrafficEntryModel {
    TrafficEntryModel {
        timestamp: now,
        event: TrafficEventKind::StateChange { from, to },
        proto: c.proto,
        local_addr: c.local_addr,
        local_port: c.local_port,
        remote_addr: c.remote_addr,
        remote_port: c.remote_port,
        process_name: c.process_name,
        outbound: c.spec_is_outbound(),
        state_label: to.spec_label(),
        dns_name: spec_remote_dns(c.remote_addr, m),
        data_size: data,
    }
}

pub open spec fn spec_closed_entry(
    k: ConnKey,
    info: ConnInfoModel,
    now: TimeOfDay,
    data: Option<u64>,
) -> TrafficEntryModel {
    TrafficEntryModel {
        timestamp: now,
        event: TrafficEventKind::ConnectionClosed,
        proto: info.proto,
        local_addr: k.local_addr,
        local_port: k.local_port,
        remote_addr: k.remote_addr,
        remote_port: k.remote_port,
        process_name: info.process_name,
        outbound: info.outbound,
        state_label: match info.state {
            Some(s) => s.spec_label(),
            None => "CLOSED"@,
        },
        dns_name: info.dns_name,
        data_size: data,
    }
}

/// The events one snapshot record contributes when held against the
/// previous tick: a new key gives `NewConnection`; a key whose TCP state
/// moved gives `StateChange`; anything else gives nothing.
pub open spec fn spec_events_of(
    prev: Seq<(ConnKey, ConnInfoModel)>,
    cd: Seq<(ConnKey, u64)>,
    c: ConnectionModel,
    m: Seq<(IpAddress, Seq<char>)>,
    now: TimeOfDay,
) -> Seq<TrafficEntryModel> {
    if !spec_tracked(c) {
        Seq::empty()
    } else {
        let k = c.spec_key();
        match assoc_get(prev, k) {
            None => seq![spec_new_entry(c, m, now)],
            Some(info) => match (info.state, c.state) {
                (Some(ps), Some(cs)) => if ps != cs {
                    seq![spec_change_entry(c, ps, cs, m, now, assoc_get(cd, k))]
                } else {
                    Seq::empty()
                },
                _ => Seq::empty(),
            },
        }
    }
}

/// The new-connection and state-change events of a snapshot, in
/// snapshot order.
pub open spec fn spec_fresh_events(
    prev: Seq<(ConnKey, ConnInfoModel)>,
    cd: Seq<(ConnKey, u64)>,
    conns: Seq<ConnectionModel>,
    m: Seq<(IpAddress, Seq<char>)>,
    now: TimeOfDay,
) -> Seq<TrafficEntryModel>
    decreases conns.len(),
{
    if conns.len() == 0 {
        Seq::empty()
    } else {
        spec_fresh_events(prev, cd, conns.drop_last(), m, now) + spec_events_of(
            prev,
            cd,
            conns.last(),
            m,
            now,
        )
    }
}

/// The closed-connection events: one per previously tracked key that
/// the new snapshot no longer holds, in the tracker's insertion order.
pub open spec fn spec_closed_events(
    prev: Seq<(ConnKey, ConnInfoModel)>,
    current: Seq<(ConnKey, ConnInfoModel)>,
    cd: Seq<(ConnKey, u64)>,
    now: TimeOfDay,
) -> Seq<TrafficEntryModel>
    decreases prev.len(),
{
    if prev.len() == 0 {
        Seq::empty()
    } else {
        spec_closed_events(prev.drop_last(), current, cd, now) + (if !assoc_has(
            current,
            prev.last().0,
        ) {
            seq![
                spec_closed_entry(
                    prev.last().0,
                    prev.last().1,
                    now,
                    assoc_get(cd, prev.last().0),
                ),
            ]
        } else {
            Seq::empty()
        })
    }
}

/// The byte-estimate map with the entries of closed keys dropped.
pub open spec fn spec_retain_data(
    cd: Seq<(ConnKey, u64)>,
    prev: Seq<(ConnKey, ConnInfoModel)>,
    current: Seq<(ConnKey, ConnInfoModel)>,
) -> Seq<(ConnKey, u64)>
    decreases cd.len(),
{
    if cd.len() == 0 {
        Seq::empty()
    } else {
        spec_retain_data(cd.drop_last(), prev, current) + (if assoc_has(prev, cd.last().0)
            && !assoc_has(current, cd.last().0) {
            Seq::empty()
        } else {
            seq![cd.last()]
        })
    }
}

/// A log bounded to its newest `max` entries.
pub open spec fn spec_trim(log: Seq<TrafficEntryModel>, max: int) -> Seq<TrafficEntryModel> {
    if log.len() <= max {
        log
    } else {
        log.skip(log.len() - max)
    }
}

proof fn lemma_trim_append(a: Seq<TrafficEntryModel>, b: Seq<TrafficEntryModel>, max: int)
    requires
        max >= 0,
    ensures
        spec_trim(spec_trim(a, max) + b, max) == spec_trim(a + b, max),
{
    if a.len() <= max {
    } else {
        let a2 = a.skip(a.len() - max);
        if a2.len() + b.len() <= max {
            assert(b.len() == 0);
            assert(a2 + b =~= a2);
            assert(a + b =~= a);
        } else {
            assert((a2 + b).skip(a2.len() + b.len() - max) =~= (a + b).skip(
                a.len() + b.len() - max,
            ));
        }
    }
}

// ─── The tracker ─────────────────────────────────────────────────────────

/// Tracks connection state across ticks and produces traffic events.
pub struct TrafficTracker {
    /// Previous tick's tracked connections, in insertion order.
    pub prev_connections: Vec<(ConnKey, ConnInfo)>,
    /// Log of traffic events, newest at the end.
    pub log: Vec<TrafficEntry>,
    /// Max events to keep in the log.
    pub max_log_size: usize,
    /// Whether to keep the view scrolled to the newest entry.
    pub auto_scroll: bool,
    /// Current scroll offset in the log.
    pub scroll_offset: usize,
    /// Only events matching this text are shown.
    pub filter_text: String,
    /// A paused tracker ignores updates entirely.
    pub paused: bool,
    /// Per-connection cumulative data estimate, if a source ever fills it.
    pub conn_data: Vec<(ConnKey, u64)>,
    /// Hide loopback-to-loopback events in the traffic view.
    pub hide_localhost: bool,
}

impl TrafficTracker {
    pub open spec fn prev_view(&self) -> Seq<(ConnKey, ConnInfoModel)> {
        self.prev_connections.deep_view()
    }

    pub open spec fn log_view(&self) -> Seq<TrafficEntryModel> {
        self.log.deep_view()
    }

    pub open spec fn data_view(&self) -> Seq<(ConnKey, u64)> {
        self.conn_data.deep_view()
    }

    /// The log never exceeds its bound, and an emitted state change
    /// always records two distinct states.
    pub open spec fn wf(&self) -> bool {
        &&& self.log_view().len() <= self.max_log_size
        &&& forall|i: int|
            0 <= i < self.log_view().len() ==> (#[trigger] self.log_view()[i].event matches
            TrafficEventKind::StateChange { from, to } ==> from != to)
    }

    pub fn new(max_log_size: usize) -> (t: TrafficTracker)
        ensures
            t.prev_view() == Seq::<(ConnKey, ConnInfoModel)>::empty(),
            t.log_view() == Seq::<TrafficEntryModel>::empty(),
            t.data_view() == Seq::<(ConnKey, u64)>::empty(),
            t.max_log_size == max_log_size,
            t.auto_scroll,
            t.scroll_offset == 0,
            t.filter_text@ == Seq::<char>::empty(),
            !t.paused,
            t.hide_localhost,
            t.wf(),
    {
        let t = TrafficTracker {
            prev_connections: Vec::new(),
            log: Vec::new(),
            max_log_size,
            auto_scroll: true,
            scroll_offset: 0,
            filter_text: String::new(),
            paused: false,
            conn_data: Vec::new(),
            hide_localhost: true,
        };
        proof {
            assert(t.prev_view() =~= Seq::<(ConnKey, ConnInfoModel)>::empty());
            assert(t.log_view() =~= Seq::<TrafficEntryModel>::empty());
            assert(t.data_view() =~= Seq::<(ConnKey, u64)>::empty());
        }
        t
    }

    /// Appends one event, trims the log to its bound from the oldest
    /// end, and follows the tail when auto-scroll is on.
    fn push_event(&mut self, entry: TrafficEntry)
        ensures
            final(self).log_view() == spec_trim(
                old(self).log_view().push(entry@),
                old(self).max_log_size as int,
            ),
            final(self).scroll_offset == (if old(self).auto_scroll {
                final(self).log_view().len() as usize
            } else {
                old(self).scroll_offset
            }),
            final(self).prev_connections == old(self).prev_connections,
            final(self).conn_data == old(self).conn_data,
            final(self).max_log_size == old(self).max_log_size,
            final(self).auto_scroll == old(self).auto_scroll,
            final(self).filter_text == old(self).filter_text,
            final(self).paused == old(self).paused,
            final(self).hide_localhost == old(self).hide_localhost,
    {
        self.log.push(entry);
        proof {
            assert(self.log_view() =~= old(self).log_view().push(entry@));
        }
        while self.log.len() > self.max_log_size
            invariant
                spec_trim(self.log_view(), self.max_log_size as int) == spec_trim(
                    old(self).log_view().push(entry@),
                    old(self).max_log_size as int,
                ),
                self.prev_connections == old(self).prev_connections,
                self.conn_data == old(self).conn_data,
                self.max_log_size == old(self).max_log_size,
                self.auto_scroll == old(self).auto_scroll,
                self.filter_text == old(self).filter_text,
                self.paused == old(self).paused,
                self.hide_localhost == old(self).hide_localhost,
                self.scroll_offset == old(self).scroll_offset,
            decreases self.log.len(),
        {
            let ghost before = self.log_view();
            self.log.remove(0);
            proof {
                assert(self.log_view() =~= before.skip(1));
                assert(spec_trim(before, self.max_log_size as int) =~= spec_trim(
                    before.skip(1),
                    self.max_log_size as int,
                ));
            }
        }
        if self.auto_scroll {
            self.scroll_offset = self.log.len();
        }
    }

    /// Holds the snapshot against the previous tick and logs the
    /// lifecycle events: new keys, moved TCP states, and vanished keys,
    /// in that order; the snapshot then becomes the previous tick. A
    /// paused tracker does nothing.
    pub fn update(&mut self, now: TimeOfDay, connections: &Vec<Connection>, dns_cache: &DnsCache)
        requires
            old(self).wf(),
        ensures
            old(self).paused ==> *final(self) == *old(self),
            !old(self).paused ==> {
                let prevm = old(self).prev_view();
                let cd = old(self).data_view();
                let conns = connections.deep_view();
                let m = dns_cache@;
                let current = spec_build_current(conns, m);
                let emitted = spec_fresh_events(prevm, cd, conns, m, now) + spec_closed_events(
                    prevm,
                    current,
                    cd,
                    now,
                );
                &&& final(self).prev_view() == current
                &&& final(self).log_view() == spec_trim(
                    old(self).log_view() + emitted,
                    old(self).max_log_size as int,
                )
                &&& final(self).data_view() == spec_retain_data(cd, prevm, current)
                &&& final(self).scroll_offset == (if old(self).auto_scroll && emitted.len() > 0 {
                    final(self).log_view().len() as usize
                } else {
                    old(self).scroll_offset
                })
            },
            final(self).max_log_size == old(self).max_log_size,
            final(self).auto_scroll == old(self).auto_scroll,
            final(self).filter_text == old(self).filter_text,
            final(self).paused == old(self).paused,
            final(self).hide_localhost == old(self).hide_localhost,
            final(self).wf(),
    {
        if self.paused {
            return ;
        }
        let ghost prevm = self.prev_view();
        let ghost cd = self.data_view();
        let ghost conns = connections.deep_view();
        let ghost m = dns_cache@;
        let ghost old_log = self.log_view();
        let ghost max = self.max_log_size as int;

        // Build the key-to-info map of the tracked part of the snapshot.
        let mut current: Vec<(ConnKey, ConnInfo)> = Vec::new();
        let n = connections.len();
        let mut i: usize = 0;
        proof {
            assert(conns.take(0) =~= Seq::<ConnectionModel>::empty());
            assert(current.deep_view() =~= Seq::<(ConnKey, ConnInfoModel)>::empty());
        }
        while i < n
            invariant
                i <= n,
                n == connections@.len(),
                conns == connections.deep_view(),
                m == dns_cache@,
                current.deep_view() == spec_build_current(conns.take(i as int), m),
            decreases n - i,
        {
            proof {
                assert(conns.take(i + 1).drop_last() =~= conns.take(i as int));
                assert(conns.take(i + 1).last() == conns[i as int]);
                assert(conns[i as int] == connections@[i as int]@);
            }
            let c = &connections[i];
            if Self::is_tracked(c) {
                let key = c.key();
                let info = ConnInfo {
                    state: c.state,
                    process_name: c.process_name.clone(),
                    proto: c.proto,
                    outbound: c.is_outbound(),
                    dns_name: Self::remote_dns_name(c.remote_addr, dns_cache),
                };
                proof {
                    assert(info@ == spec_info_of(conns[i as int], m));
                }
                Self::upsert(&mut current, key, info);
            }
            i = i + 1;
        }
        proof {
            assert(conns.take(n as int) =~= conns);
        }

        // New connections and state changes, in snapshot order.
        let mut i: usize = 0;
        proof {
            assert(conns.take(0) =~= Seq::<ConnectionModel>::empty());
            assert(spec_trim(old_log, max) =~= old_log);
            assert(old_log + spec_fresh_events(prevm, cd, conns.take(0), m, now) =~= old_log);
        }
        while i < n
            invariant
                i <= n,
                n == connections@.len(),
                conns == connections.deep_view(),
                m == dns_cache@,
                prevm == self.prev_view(),
                cd == self.data_view(),
                max == self.max_log_size as int,
                self.prev_connections == old(self).prev_connections,
                self.conn_data == old(self).conn_data,
                self.max_log_size == old(self).max_log_size,
                self.auto_scroll == old(self).auto_scroll,
                self.filter_text == old(self).filter_text,
                self.paused == old(self).paused,
                self.hide_localhost == old(self).hide_localhost,
                self.log_view() == spec_trim(
                    old_log + spec_fresh_events(prevm, cd, conns.take(i as int), m, now),
                    max,
                ),
                self.scroll_offset == (if old(self).auto_scroll && spec_fresh_events(
                    prevm,
                    cd,
                    conns.take(i as int),
                    m,
                    now,
                ).len() > 0 {
                    self.log_view().len() as usize
                } else {
                    old(self).scroll_offset
                }),
            decreases n - i,
    {
            let ghost fresh_i = spec_fresh_events(prevm, cd, conns.take(i as int), m, now);
            proof {
                assert(conns.take(i + 1).drop_last() =~= conns.take(i as int));
                assert(conns.take(i + 1).last() == conns[i as int]);
                assert(conns[i as int] == connections@[i as int]@);
            }
            let c = &connections[i];
            if Self::is_tracked(c) {
                let key = c.key();
                match find_key(&self.prev_connections, key) {
                    None => {
                        proof {
                            lemma_pairs_deep_view(&self.prev_connections);
                            assert forall|ii: int| 0 <= ii < prevm.len() implies prevm[ii].0
                                != key by {
                                assert(prevm[ii] == (
                                    self.prev_connections@[ii].0,
                                    self.prev_connections@[ii].1.deep_view(),
                                ));
                            }
                            lemma_assoc_get_absent(prevm, key);
                        }
                        let entry = Self::make_new_entry(c, now, dns_cache);
                        proof {
                            lemma_trim_append(old_log + fresh_i, seq![entry@], max);
                            assert((old_log + fresh_i) + seq![entry@] =~= old_log + (fresh_i
                                + seq![entry@]));
                            assert(spec_trim(old_log + fresh_i, max).push(entry@) =~= spec_trim(
                                old_log + fresh_i,
                                max,
                            ) + seq![entry@]);
                        }
                        self.push_event(entry);
                    },
                    Some(j) => {
                        proof {
                            lemma_pairs_deep_view(&self.prev_connections);
                            assert forall|ii: int| 0 <= ii < j implies prevm[ii].0 != key by {
                                assert(prevm[ii] == (
                                    self.prev_connections@[ii].0,
                                    self.prev_connections@[ii].1.deep_view(),
                                ));
                            }
                            assert(prevm[j as int].0 == key);
                            lemma_assoc_get_at(prevm, key, j as int);
                        }
                        let prev_state = self.prev_connections[j].1.state;
                        if let (Some(ps), Some(cs)) = (prev_state, c.state) {
                            if ps != cs {
                                let data = Self::data_of(&self.conn_data, key);
                                let entry = Self::make_change_entry(c, ps, cs, now, dns_cache, data);
                                proof {
                                    lemma_trim_append(old_log + fresh_i, seq![entry@], max);
                                    assert((old_log + fresh_i) + seq![entry@] =~= old_log + (fresh_i
                                        + seq![entry@]));
                                    assert(spec_trim(old_log + fresh_i, max).push(entry@)
                                        =~= spec_trim(old_log + fresh_i, max) + seq![entry@]);
                                }
                                self.push_event(entry);
                            } else {
                                proof {
                                    assert(fresh_i + Seq::<TrafficEntryModel>::empty() =~= fresh_i);
                                }
                            }
                        } else {
                            proof {
                                assert(fresh_i + Seq::<TrafficEntryModel>::empty() =~= fresh_i);
                            }
                        }
                    },
                }
            } else {
                proof {
                    assert(fresh_i + Seq::<TrafficEntryModel>::empty() =~= fresh_i);
                }
            }
            i = i + 1;
        }
        proof {
            assert(conns.take(n as int) =~= conns);
        }
        let ghost fresh = spec_fresh_events(prevm, cd, conns, m, now);
        let ghost currentm = spec_build_current(conns, m);

        // Closed connections: previously tracked keys the snapshot lost.
        let mut closed: Vec<TrafficEntry> = Vec::new();
        let pn = self.prev_connections.len();
        let mut j: usize = 0;
        proof {
            assert(prevm.take(0) =~= Seq::<(ConnKey, ConnInfoModel)>::empty());
            assert(closed.deep_view() =~= Seq::<TrafficEntryModel>::empty());
        }
        while j < pn
            invariant
                j <= pn,
                pn == self.prev_connections@.len(),
                prevm == self.prev_view(),
                cd == self.data_view(),
                currentm == current.deep_view(),
                closed.deep_view() == spec_closed_events(prevm.take(j as int), currentm, cd, now),
            decreases pn - j,
        {
            proof {
                lemma_pairs_deep_view(&self.prev_connections);
                assert(prevm.take(j + 1).drop_last() =~= prevm.take(j as int));
                assert(prevm.take(j + 1).last() == prevm[j as int]);
            }
            let key = self.prev_connections[j].0;
            match find_key(&current, key) {
                None => {
                    proof {
                        lemma_pairs_deep_view(&current);
                        assert forall|ii: int| 0 <= ii < currentm.len() implies currentm[ii].0
                            != key by {
                            assert(currentm[ii] == (current@[ii].0, current@[ii].1.deep_view()));
                        }
                        assert(!assoc_has(currentm, key));
                    }
                    let data = Self::data_of(&self.conn_data, key);
                    let entry = Self::make_closed_entry(key, &self.prev_connections[j].1, now, data);
                    let ghost closed_j = closed.deep_view();
                    closed.push(entry);
                    proof {
                        assert(closed.deep_view() =~= closed_j + seq![entry@]);
                    }
                },
                Some(jj) => {
                    proof {
                        lemma_pairs_deep_view(&current);
                        assert(currentm[jj as int] == (
                            current@[jj as int].0,
                            current@[jj as int].1.deep_view(),
                        ));
                        assert(assoc_has(currentm, key));
                        assert(closed.deep_view() + Seq::<TrafficEntryModel>::empty()
                            =~= closed.deep_view());
                    }
                },
            }
            j = j + 1;
        }
        proof {
            assert(prevm.take(pn as int) =~= prevm);
        }

        // Drop byte estimates of closed keys.
        let mut kept: Vec<(ConnKey, u64)> = Vec::new();
        let dn = self.conn_data.len();
        let mut j: usize = 0;
        proof {
            assert(cd.take(0) =~= Seq::<(ConnKey, u64)>::empty());
            assert(kept.deep_view() =~= Seq::<(ConnKey, u64)>::empty());
        }
        while j < dn
            invariant
                j <= dn,
                dn == self.conn_data@.len(),
                cd == self.data_view(),
                prevm == self.prev_view(),
                currentm == current.deep_view(),
                kept.deep_view() == spec_retain_data(cd.take(j as int), prevm, currentm),
            decreases dn - j,
        {
            proof {
                lemma_pairs_deep_view(&self.conn_data);
                assert(cd.take(j + 1).drop_last() =~= cd.take(j as int));
                assert(cd.take(j + 1).last() == cd[j as int]);
            }
            let key = self.conn_data[j].0;
            let in_prev = find_key(&self.prev_connections, key);
            let in_current = find_key(&current, key);
            proof {
                lemma_pairs_deep_view(&self.prev_connections);
                lemma_pairs_deep_view(&current);
            }
            let ghost kept_j = kept.deep_view();
            proof {
                assert forall|ii: int| 0 <= ii < prevm.len() implies prevm[ii] == (
                    self.prev_connections@[ii].0,
                    self.prev_connections@[ii].1.deep_view(),
                ) by {}
                assert forall|ii: int| 0 <= ii < currentm.len() implies currentm[ii] == (
                    current@[ii].0,
                    current@[ii].1.deep_view(),
                ) by {}
            }
            if in_prev.is_some() && in_current.is_none() {
                proof {
                    let jp = in_prev->0;
                    assert(prevm[jp as int].0 == key);
                    assert(assoc_has(prevm, key));
                    assert(!assoc_has(currentm, key));
                    assert(kept.deep_view() =~= kept_j + Seq::<(ConnKey, u64)>::empty());
                }
            } else {
                let e = (self.conn_data[j].0, self.conn_data[j].1);
                kept.push(e);
                proof {
                    if in_prev is None {
                        assert(!assoc_has(prevm, key));
                    } else {
                        let jc = in_current->0;
                        assert(currentm[jc as int].0 == key);
                        assert(assoc_has(currentm, key));
                    }
                    assert(kept.deep_view() =~= kept_j + seq![cd[j as int]]);
                }
            }
            j = j + 1;
        }
        proof {
            assert(cd.take(dn as int) =~= cd);
        }

        // Log the closed events, oldest tracked key first.
        let ghost closed_events = spec_closed_events(prevm, currentm, cd, now);
        let cn = closed.len();
        let mut j: usize = 0;
        proof {
            assert(closed.deep_view().take(0) =~= Seq::<TrafficEntryModel>::empty());
            assert(old_log + fresh + closed.deep_view().take(0) =~= old_log + fresh);
        }
        while j < cn
            invariant
                j <= cn,
                cn == closed@.len(),
                closed.deep_view() == closed_events,
                max == self.max_log_size as int,
                self.prev_connections == old(self).prev_connections,
                self.conn_data == old(self).conn_data,
                self.max_log_size == old(self).max_log_size,
                self.auto_scroll == old(self).auto_scroll,
                self.filter_text == old(self).filter_text,
                self.paused == old(self).paused,
                self.hide_localhost == old(self).hide_localhost,
                self.log_view() == spec_trim(
                    old_log + fresh + closed_events.take(j as int),
                    max,
                ),
                self.scroll_offset == (if old(self).auto_scroll && (fresh
                    + closed_events.take(j as int)).len() > 0 {
                    self.log_view().len() as usize
                } else {
                    old(self).scroll_offset
                }),
            decreases cn - j,
        {
            let entry = closed[j].clone();
            proof {
                assert(closed.deep_view()[j as int] == closed@[j as int]@);
                assert(entry@ == closed_events[j as int]);
                lemma_trim_append(old_log + fresh + closed_events.take(j as int), seq![entry@], max);
                assert((old_log + fresh + closed_events.take(j as int)) + seq![entry@] =~= old_log
                    + fresh + closed_events.take(j + 1));
                assert(spec_trim(old_log + fresh + closed_events.take(j as int), max).push(entry@)
                    =~= spec_trim(old_log + fresh + closed_events.take(j as int), max)
                    + seq![entry@]);
            }
            self.push_event(entry);
            j = j + 1;
        }
        proof {
            assert(closed_events.take(cn as int) =~= closed_events);
            assert(old_log + fresh + closed_events =~= old_log + (fresh + closed_events));
        }

        self.prev_connections = current;
        self.conn_data = kept;
        proof {
            if !(old(self).auto_scroll && (fresh + closed_events).len() > 0) {
                if fresh.len() > 0 || closed_events.len() > 0 {
                } else {
                    assert(old_log + (fresh + closed_events) =~= old_log);
                }
            }
            lemma_update_wf(old(self).log_view(), fresh + closed_events, prevm, cd, conns, currentm, m, now, max);
        }
    }

    /// A record the diff follows: not a listener, not a UDP socket
    /// without a remote endpoint.
    fn is_tracked(c: &Connection) -> (r: bool)
        ensures
            r == spec_tracked(c@),
    {
        !matches!(c.state, Some(TcpState::Listen)) && !(c.proto == ConnProto::Udp
            && c.remote_addr.is_none())
    }

    fn remote_dns_name(remote: Option<IpAddress>, dns_cache: &DnsCache) -> (r: Option<String>)
        ensures
            r.deep_view() == spec_remote_dns(remote, dns_cache@),
    {
        match remote {
            Some(ip) => dns_cache.lookup(ip),
            None => None,
        }
    }

    fn make_new_entry(c: &Connection, now: TimeOfDay, dns_cache: &DnsCache) -> (e: TrafficEntry)
        ensures
            e@ == spec_new_entry(c@, dns_cache@, now),
    {
        TrafficEntry {
            timestamp: now,
            event: TrafficEventKind::NewConnection,
            proto: c.proto,
            local_addr: c.local_addr,
            local_port: c.local_port,
            remote_addr: c.remote_addr,
            remote_port: c.remote_port,
            process_name: c.process_name.clone(),
            outbound: c.is_outbound(),
            state_label: match c.state {
                Some(s) => String::from_str(s.label()),
                None => String::from_str("-"),
            },
            dns_name: Self::remote_dns_name(c.remote_addr, dns_cache),
            data_size: None,
        }
    }

    fn make_change_entry(
        c: &Connection,
        from: TcpState,
        to: TcpState,
        now: TimeOfDay,
        dns_cache: &DnsCache,
        data: Option<u64>,
    ) -> (e: TrafficEntry)
        ensures
            e@ == spec_change_entry(c@, from, to, dns_cache@, now, data),
    {
        TrafficEntry {
            timestamp: now,
            event: TrafficEventKind::StateChange { from, to },
            proto: c.proto,
            local_addr: c.local_addr,
            local_port: c.local_port,
            remote_addr: c.remote_addr,
            remote_port: c.remote_port,
            process_name: c.process_name.clone(),
            outbound: c.is_outbound(),
            state_label: String::from_str(to.label()),
            dns_name: Self::remote_dns_name(c.remote_addr, dns_cache),
            data_size: data,
        }
    }

    fn make_closed_entry(k: ConnKey, info: &ConnInfo, now: TimeOfDay, data: Option<u64>) -> (e:
        TrafficEntry)
        ensures
            e@ == spec_closed_entry(k, info@, now, data),
    {
        TrafficEntry {
            timestamp: now,
            event: TrafficEventKind::ConnectionClosed,
            proto: info.proto,
            local_addr: k.local_addr,
            local_port: k.local_port,
            remote_addr: k.remote_addr,
            remote_port: k.remote_port,
            process_name: info.process_name.clone(),
            outbound: info.outbound,
            state_label: match info.state {
                Some(s) => String::from_str(s.label()),
                None => String::from_str("CLOSED"),
            },
            dns_name: match &info.dns_name {
                Some(h) => Some(h.clone()),
                None => None,
            },
            data_size: data,
        }
    }

    fn data_of(cd: &Vec<(ConnKey, u64)>, k: ConnKey) -> (r: Option<u64>)
        ensures
            r == assoc_get(cd.deep_view(), k),
    {
        proof {
            lemma_pairs_deep_view(cd);
        }
        match find_key(cd, k) {
            Some(j) => {
                proof {
                    lemma_assoc_get_at(cd.deep_view(), k, j as int);
                }
                Some(cd[j].1)
            },
            None => {
                proof {
                    lemma_assoc_get_absent::<u64>(cd.deep_view(), k);
                }
                None
            },
        }
    }

    fn upsert(v: &mut Vec<(ConnKey, ConnInfo)>, k: ConnKey, info: ConnInfo)
        ensures
            final(v).deep_view() == assoc_upsert(old(v).deep_view(), k, info@),
    {
        proof {
            lemma_pairs_deep_view(old(v));
        }
        match find_key(v, k) {
            Some(j) => {
                proof {
                    lemma_assoc_upsert_at(old(v).deep_view(), k, info@, j as int);
                }
                v.remove(j);
                v.insert(j, (k, info));
                proof {
                    lemma_pairs_deep_view(v);
                    assert(v.deep_view() =~= old(v).deep_view().update(j as int, (k, info@)));
                }
            },
            None => {
                proof {
                    lemma_assoc_upsert_absent(old(v).deep_view(), k, info@);
                }
                v.push((k, info));
                proof {
                    lemma_pairs_deep_view(v);
                    assert(v.deep_view() =~= old(v).deep_view().push((k, info@)));
                }
            },
        }
    }

    /// The log entries the filter text admits, in order.
    pub fn filtered_log(&self) -> (r: Vec<TrafficEntry>)
        ensures
            r.deep_view() == crate::filter::spec_filtered_log(
                self.log@,
                self.filter_text@,
            ).map_values(|e: TrafficEntry| e@),
    {
        crate::filter::filtered_log(&self.log, &self.filter_text)
    }

    /// Empties the log and rewinds the scroll; the diff state stays.
    pub fn clear(&mut self)
        ensures
            final(self).log_view() == Seq::<TrafficEntryModel>::empty(),
            final(self).log@ == Seq::<TrafficEntry>::empty(),
            final(self).scroll_offset == 0,
            final(self).prev_connections == old(self).prev_connections,
            final(self).conn_data == old(self).conn_data,
            final(self).max_log_size == old(self).max_log_size,
            final(self).auto_scroll == old(self).auto_scroll,
            final(self).filter_text == old(self).filter_text,
            final(self).paused == old(self).paused,
            final(self).hide_localhost == old(self).hide_localhost,
            final(self).wf(),
    {
        self.log.clear();
        self.scroll_offset = 0;
        proof {
            assert(self.log_view() =~= Seq::<TrafficEntryModel>::empty());
        }
    }
}

// ─── The emitted events are well formed ──────────────────────────────────

proof fn lemma_events_of_wf(
    prev: Seq<(ConnKey, ConnInfoModel)>,
    cd: Seq<(ConnKey, u64)>,
    c: ConnectionModel,
    m: Seq<(IpAddress, Seq<char>)>,
    now: TimeOfDay,
)
    ensures
        forall|i: int|
            0 <= i < spec_events_of(prev, cd, c, m, now).len()
                ==> (#[trigger] spec_events_of(prev, cd, c, m, now)[i].event matches
            TrafficEventKind::StateChange { from, to } ==> from != to),
{
}

proof fn lemma_fresh_events_wf(
    prev: Seq<(ConnKey, ConnInfoModel)>,
    cd: Seq<(ConnKey, u64)>,
    conns: Seq<ConnectionModel>,
    m: Seq<(IpAddress, Seq<char>)>,
    now: TimeOfDay,
)
    ensures
        forall|i: int|
            0 <= i < spec_fresh_events(prev, cd, conns, m, now).len()
                ==> (#[trigger] spec_fresh_events(prev, cd, conns, m, now)[i].event matches
            TrafficEventKind::StateChange { from, to } ==> from != to),
    decreases conns.len(),
{
    if conns.len() > 0 {
        lemma_fresh_events_wf(prev, cd, conns.drop_last(), m, now);
        lemma_events_of_wf(prev, cd, conns.last(), m, now);
    }
}

proof fn lemma_closed_events_wf(
    prev: Seq<(ConnKey, ConnInfoModel)>,
    current: Seq<(ConnKey, ConnInfoModel)>,
    cd: Seq<(ConnKey, u64)>,
    now: TimeOfDay,
)
    ensures
        forall|i: int|
            0 <= i < spec_closed_events(prev, current, cd, now).len()
                ==> (#[trigger] spec_closed_events(prev, current, cd, now)[i].event matches
            TrafficEventKind::StateChange { from, to } ==> from != to),
    decreases prev.len(),
{
    if prev.len() > 0 {
        lemma_closed_events_wf(prev.drop_last(), current, cd, now);
    }
}

proof fn lemma_update_wf(
    old_log: Seq<TrafficEntryModel>,
    emitted: Seq<TrafficEntryModel>,
    prev: Seq<(ConnKey, ConnInfoModel)>,
    cd: Seq<(ConnKey, u64)>,
    conns: Seq<ConnectionModel>,
    current: Seq<(ConnKey, ConnInfoModel)>,
    m: Seq<(IpAddress, Seq<char>)>,
    now: TimeOfDay,
    max: int,
)
    requires
        max >= 0,
        emitted == spec_fresh_events(prev, cd, conns, m, now) + spec_closed_events(
            prev,
            current,
            cd,
            now,
        ),
        old_log.len() <= max,
        forall|i: int|
            0 <= i < old_log.len() ==> (#[trigger] old_log[i].event matches
            TrafficEventKind::StateChange { from, to } ==> from != to),
    ensures
        spec_trim(old_log + emitted, max).len() <= max,
        forall|i: int|
            0 <= i < spec_trim(old_log + emitted, max).len() ==> (#[trigger] spec_trim(
                old_log + emitted,
                max,
            )[i].event matches TrafficEventKind::StateChange { from, to } ==> from != to),
{
    lemma_fresh_events_wf(prev, cd, conns, m, now);
    lemma_closed_events_wf(prev, current, cd, now);
    let all = old_log + emitted;
    assert(forall|i: int|
        0 <= i < all.len() ==> (#[trigger] all[i].event matches TrafficEventKind::StateChange {
            from,
            to,
        } ==> from != to));
    if all.len() > max {
        assert(forall|i: int|
            0 <= i < spec_trim(all, max).len() ==> spec_trim(all, max)[i] == all[i + all.len()
                - max]);
    }
}

} // verus!
