//! Sorting of the connection view: per-column keys and a stable sort.

use vstd::prelude::*;
use vstd::string::StringExecFns;

use crate::net::{ip_text, spec_ip_text};
use crate::text::{lower_of, spec_lex_le, str_lex_le, to_lowercase};
use crate::types::{ConnProto, Connection, ConnectionModel, TcpState};

verus! {

/// The sort rank of a TCP state: the established and actively moving
/// states first, passive and defunct states later, UDP (no state)
/// last.
pub open spec fn spec_state_rank(s: Option<TcpState>) -> u8 {
    match s {
        Some(TcpState::Established) => 0,
        Some(TcpState::SynSent) => 1,
        Some(TcpState::SynReceived) => 2,
        Some(TcpState::CloseWait) => 3,
        Some(TcpState::FinWait1) => 4,
        Some(TcpState::FinWait2) => 5,
        Some(TcpState::Closing) => 6,
        Some(TcpState::LastAck) => 7,
        Some(TcpState::TimeWait) => 8,
        Some(TcpState::Listen) => 9,
        Some(TcpState::Closed) => 10,
        Some(TcpState::DeleteTcb) => 11,
        Some(TcpState::Unknown(_)) => 12,
        None => 13,
    }
}

pub fn state_rank(s: &Option<TcpState>) -> (r: u8)
    ensures
        r == spec_state_rank(*s),
{
    match s {
        Some(TcpState::Established) => 0,
        Some(TcpState::SynSent) => 1,
        Some(TcpState::SynReceived) => 2,
        Some(TcpState::CloseWait) => 3,
        Some(TcpState::FinWait1) => 4,
        Some(TcpState::FinWait2) => 5,
        Some(TcpState::Closing) => 6,
        Some(TcpState::LastAck) => 7,
        Some(TcpState::TimeWait) => 8,
        Some(TcpState::Listen) => 9,
        Some(TcpState::Closed) => 10,
        Some(TcpState::DeleteTcb) => 11,
        Some(TcpState::Unknown(_)) => 12,
        None => 13,
    }
}

/// The state-rank comparison is a total order on ranks: any two states
/// compare, the comparison is transitive, and two states each at most
/// the other share one rank.
pub proof fn lemma_state_rank_total_order(
    a: Option<TcpState>,
    b: Option<TcpState>,
    c: Option<TcpState>,
)
    ensures
        spec_state_rank(a) <= spec_state_rank(b) || spec_state_rank(b) <= spec_state_rank(a),
        spec_state_rank(a) <= spec_state_rank(b) && spec_state_rank(b) <= spec_state_rank(c)
            ==> spec_state_rank(a) <= spec_state_rank(c),
        spec_state_rank(a) <= spec_state_rank(b) && spec_state_rank(b) <= spec_state_rank(a)
            ==> spec_state_rank(a) == spec_state_rank(b),
{
}

/// Protocol order as the labels order: `TCP` before `UDP`.
pub open spec fn spec_proto_rank(p: ConnProto) -> int {
    match p {
        ConnProto::Tcp => 0,
        ConnProto::Udp => 1,
    }
}

pub open spec fn spec_remote_text(c: ConnectionModel) -> Seq<char> {
    match c.remote_addr {
        Some(ip) => spec_ip_text(ip),
        None => Seq::empty(),
    }
}

pub open spec fn spec_remote_port_or_zero(c: ConnectionModel) -> u16 {
    match c.remote_port {
        Some(p) => p,
        None => 0,
    }
}

/// One column's at-most-or-equal comparison: protocol label, local
/// address text, local port, remote address text (empty when absent),
/// remote port (zero when absent), state rank, or process name folded
/// to lowercase. Any other column holds every pair equal.
pub open spec fn spec_col_le(col: int, a: ConnectionModel, b: ConnectionModel) -> bool {
    if col == 0 {
        spec_proto_rank(a.proto) <= spec_proto_rank(b.proto)
    } else if col == 1 {
        spec_lex_le(spec_ip_text(a.local_addr), spec_ip_text(b.local_addr))
    } else if col == 2 {
        a.local_port <= b.local_port
    } else if col == 3 {
        spec_lex_le(spec_remote_text(a), spec_remote_text(b))
    } else if col == 4 {
        spec_remote_port_or_zero(a) <= spec_remote_port_or_zero(b)
    } else if col == 5 {
        spec_state_rank(a.state) <= spec_state_rank(b.state)
    } else if col == 6 {
        spec_lex_le(lower_of(a.process_name), lower_of(b.process_name))
    } else {
        true
    }
}

/// The effective comparison: the column's, reversed when descending.
pub open spec fn spec_conn_le(col: int, asc: bool, a: ConnectionModel, b: ConnectionModel) -> bool {
    if asc {
        spec_col_le(col, a, b)
    } else {
        spec_col_le(col, b, a)
    }
}

fn col_le(a: &Connection, b: &Connection, col: usize) -> (r: bool)
    ensures
        r == spec_col_le(col as int, a@, b@),
{
    if col == 0 {
        !(matches!(a.proto, ConnProto::Udp) && matches!(b.proto, ConnProto::Tcp))
    } else if col == 1 {
        let sa = ip_text(&a.local_addr);
        let sb = ip_text(&b.local_addr);
        str_lex_le(sa.as_str(), sb.as_str())
    } else if col == 2 {
        a.local_port <= b.local_port
    } else if col == 3 {
        let sa = match &a.remote_addr {
            Some(ip) => ip_text(ip),
            None => String::new(),
        };
        let sb = match &b.remote_addr {
            Some(ip) => ip_text(ip),
            None => String::new(),
        };
        str_lex_le(sa.as_str(), sb.as_str())
    } else if col == 4 {
        let pa = match a.remote_port {
            Some(p) => p,
            None => 0,
        };
        let pb = match b.remote_port {
            Some(p) => p,
            None => 0,
        };
        pa <= pb
    } else if col == 5 {
        state_rank(&a.state) <= state_rank(&b.state)
    } else if col == 6 {
        let la = to_lowercase(a.process_name.as_str());
        let lb = to_lowercase(b.process_name.as_str());
        str_lex_le(la.as_str(), lb.as_str())
    } else {
        true
    }
}

fn conn_le(a: &Connection, b: &Connection, col: usize, asc: bool) -> (r: bool)
    ensures
        r == spec_conn_le(col as int, asc, a@, b@),
{
    if asc {
        col_le(a, b, col)
    } else {
        col_le(b, a, col)
    }
}

/// Where a stable sort puts one more record: after every sorted record
/// at most it, before the rest.
pub open spec fn spec_insert_sorted(
    sorted: Seq<Connection>,
    c: Connection,
    col: int,
    asc: bool,
) -> Seq<Connection>
    decreases sorted.len(),
{
    if sorted.len() == 0 {
        seq![c]
    } else if spec_conn_le(col, asc, sorted.last()@, c@) {
        sorted.push(c)
    } else {
        spec_insert_sorted(sorted.drop_last(), c, col, asc).push(sorted.last())
    }
}

/// The stable sort of a snapshot under one column's comparison:
/// records inserted one by one in snapshot order, each after the
/// records at most it, so records the column holds equal keep their
/// snapshot order.
pub open spec fn spec_sort_connections(s: Seq<Connection>, col: int, asc: bool) -> Seq<Connection>
    decreases s.len(),
{
    if s.len() == 0 {
        s
    } else {
        spec_insert_sorted(spec_sort_connections(s.drop_last(), col, asc), s.last(), col, asc)
    }
}

/// Sorts the connection list by the given column, stably, reversed
/// when descending.
pub fn sort_connections(conns: &mut Vec<Connection>, col: usize, asc: bool)
    ensures
        final(conns)@ == spec_sort_connections(old(conns)@, col as int, asc),
{
    let n = conns.len();
    let ghost orig = conns@;
    if n <= 1 {
        proof {
            if n == 1 {
                assert(orig.drop_last().len() == 0);
                assert(spec_sort_connections(orig.drop_last(), col as int, asc)
                    == orig.drop_last());
                assert(spec_insert_sorted(orig.drop_last(), orig.last(), col as int, asc)
                    =~= seq![orig.last()]);
                assert(seq![orig.last()] =~= orig);
                assert(spec_sort_connections(orig, col as int, asc) == orig);
            }
        }
        return ;
    }
    proof {
        let t1 = orig.take(1);
        assert(t1.drop_last().len() == 0);
        assert(spec_sort_connections(t1.drop_last(), col as int, asc) == t1.drop_last());
        assert(spec_insert_sorted(t1.drop_last(), t1.last(), col as int, asc) =~= seq![t1.last()]);
        assert(seq![t1.last()] =~= t1);
        assert(spec_sort_connections(t1, col as int, asc) == t1);
        assert(conns@.subrange(0, 1) =~= t1);
        assert(conns@.subrange(1, n as int) =~= orig.subrange(1, n as int));
    }
    let mut i: usize = 1;
    while i < n
        invariant
            1 <= i <= n,
            n == conns@.len(),
            orig.len() == n,
            conns@.subrange(i as int, n as int) == orig.subrange(i as int, n as int),
            conns@.subrange(0, i as int) == spec_sort_connections(
                orig.take(i as int),
                col as int,
                asc,
            ),
        decreases n - i,
    {
        let ghost before = conns@;
        let ghost sorted = before.subrange(0, i as int);
        let x = conns.remove(i);
        proof {
            assert(before.subrange(i as int, n as int)[0] == before[i as int]);
            assert(x == orig[i as int]);
            assert(conns@ =~= before.remove(i as int));
        }
        let mut j: usize = i;
        proof {
            assert(sorted.take(i as int) =~= sorted);
            assert(sorted.skip(i as int) =~= Seq::<Connection>::empty());
            assert(spec_insert_sorted(sorted, x, col as int, asc) =~= spec_insert_sorted(
                sorted.take(i as int),
                x,
                col as int,
                asc,
            ) + sorted.skip(i as int));
            assert(forall|k: int| 0 <= k < i ==> conns@[k] == before[k]);
        }
        while j > 0 && !conn_le(&conns[j - 1], &x, col, asc)
            invariant
                j <= i,
                i < n == orig.len(),
                before.len() == n,
                conns@.len() == n - 1,
                sorted == before.subrange(0, i as int),
                sorted.len() == i,
                forall|k: int| 0 <= k < i ==> conns@[k] == sorted[k],
                spec_insert_sorted(sorted, x, col as int, asc) == spec_insert_sorted(
                    sorted.take(j as int),
                    x,
                    col as int,
                    asc,
                ) + sorted.skip(j as int),
            decreases j,
        {
            proof {
                assert(sorted.take(j as int).last() == sorted[j - 1]);
                assert(sorted.take(j as int).drop_last() =~= sorted.take(j - 1));
                assert(spec_insert_sorted(sorted.take(j as int), x, col as int, asc)
                    == spec_insert_sorted(sorted.take(j - 1), x, col as int, asc).push(
                    sorted[j - 1],
                ));
                assert(spec_insert_sorted(sorted.take(j - 1), x, col as int, asc).push(
                    sorted[j - 1],
                ) + sorted.skip(j as int) =~= spec_insert_sorted(
                    sorted.take(j - 1),
                    x,
                    col as int,
                    asc,
                ) + sorted.skip(j - 1));
            }
            j = j - 1;
        }
        proof {
            if j == 0 {
                assert(sorted.take(0).len() == 0);
                assert(spec_insert_sorted(sorted.take(0), x, col as int, asc) =~= seq![x]);
                assert(seq![x] =~= sorted.take(0).push(x));
            } else {
                assert(sorted.take(j as int).last() == sorted[j - 1]);
                assert(spec_conn_le(col as int, asc, sorted[j - 1]@, x@));
                assert(spec_insert_sorted(sorted.take(j as int), x, col as int, asc)
                    == sorted.take(j as int).push(x));
            }
            assert(spec_insert_sorted(sorted, x, col as int, asc) == sorted.take(j as int).push(x)
                + sorted.skip(j as int));
        }
        let ghost removed = conns@;
        conns.insert(j, x);
        proof {
            assert(conns@ =~= removed.insert(j as int, x));
            assert(forall|k: int| 0 <= k < j ==> conns@[k] == removed[k]);
            assert(conns@[j as int] == x);
            assert(forall|k: int| j < k < n ==> conns@[k] == removed[k - 1]);
            assert(forall|k: int|
                i <= k < n ==> before[k] == #[trigger] orig[k]) by {
                assert(forall|t: int|
                    0 <= t < n - i ==> before.subrange(i as int, n as int)[t]
                        == #[trigger] orig.subrange(i as int, n as int)[t]);
                assert(forall|k: int|
                    i <= k < n ==> #[trigger] before[k] == before.subrange(i as int, n as int)[
                    k - i]);
            }
            assert(forall|k: int| i <= k < n - 1 ==> removed[k] == before[k + 1]);
            assert(conns@.subrange(0, i + 1) =~= sorted.take(j as int).push(x) + sorted.skip(
                j as int,
            ));
            assert(conns@.subrange(0, i + 1) == spec_insert_sorted(sorted, x, col as int, asc));
            assert(orig.take(i + 1).drop_last() =~= orig.take(i as int));
            assert(orig.take(i + 1).last() == orig[i as int]);
            assert(sorted == spec_sort_connections(orig.take(i as int), col as int, asc)) by {
                assert(forall|k: int| 0 <= k < i ==> before[k] == removed[k]);
                assert(before.subrange(0, i as int) =~= removed.subrange(0, i as int));
            }
            assert(conns@.subrange(0, i + 1) == spec_sort_connections(
                orig.take(i + 1),
                col as int,
                asc,
            ));
            assert(conns@.subrange(i + 1, n as int) =~= orig.subrange(i + 1, n as int));
        }
        i = i + 1;
    }
    proof {
        assert(orig.take(n as int) =~= orig);
        assert(conns@.subrange(0, n as int) =~= conns@);
    }
}


/// The stable sort at the model level, for stating what a sorted view
/// holds.
pub open spec fn spec_insert_sorted_models(
    sorted: Seq<ConnectionModel>,
    c: ConnectionModel,
    col: int,
    asc: bool,
) -> Seq<ConnectionModel>
    decreases sorted.len(),
{
    if sorted.len() == 0 {
        seq![c]
    } else if spec_conn_le(col, asc, sorted.last(), c) {
        sorted.push(c)
    } else {
        spec_insert_sorted_models(sorted.drop_last(), c, col, asc).push(sorted.last())
    }
}

pub open spec fn spec_sort_models(s: Seq<ConnectionModel>, col: int, asc: bool) -> Seq<
    ConnectionModel,
>
    decreases s.len(),
{
    if s.len() == 0 {
        s
    } else {
        spec_insert_sorted_models(spec_sort_models(s.drop_last(), col, asc), s.last(), col, asc)
    }
}

proof fn lemma_insert_sorted_view(sorted: Seq<Connection>, c: Connection, col: int, asc: bool)
    ensures
        spec_insert_sorted(sorted, c, col, asc).map_values(|x: Connection| x@)
            == spec_insert_sorted_models(
            sorted.map_values(|x: Connection| x@),
            c@,
            col,
            asc,
        ),
    decreases sorted.len(),
{
    let sm = sorted.map_values(|x: Connection| x@);
    if sorted.len() == 0 {
        assert(seq![c].map_values(|x: Connection| x@) =~= seq![c@]);
        assert(spec_insert_sorted_models(sm, c@, col, asc) == seq![c@]);
    } else {
        assert(sm.last() == sorted.last()@);
        if spec_conn_le(col, asc, sorted.last()@, c@) {
            assert(sorted.push(c).map_values(|x: Connection| x@) =~= sm.push(c@));
        } else {
            lemma_insert_sorted_view(sorted.drop_last(), c, col, asc);
            assert(sorted.drop_last().map_values(|x: Connection| x@) =~= sm.drop_last());
            assert(spec_insert_sorted(sorted.drop_last(), c, col, asc).push(
                sorted.last(),
            ).map_values(|x: Connection| x@) =~= spec_insert_sorted(
                sorted.drop_last(),
                c,
                col,
                asc,
            ).map_values(|x: Connection| x@).push(sorted.last()@));
        }
    }
}

/// The sorted view of a snapshot is the model-level sort of its view.
pub proof fn lemma_sort_view(s: Seq<Connection>, col: int, asc: bool)
    ensures
        spec_sort_connections(s, col, asc).map_values(|x: Connection| x@) == spec_sort_models(
            s.map_values(|x: Connection| x@),
            col,
            asc,
        ),
    decreases s.len(),
{
    let sm = s.map_values(|x: Connection| x@);
    if s.len() == 0 {
        assert(s.map_values(|x: Connection| x@) =~= sm);
    } else {
        lemma_sort_view(s.drop_last(), col, asc);
        assert(s.drop_last().map_values(|x: Connection| x@) =~= sm.drop_last());
        assert(sm.last() == s.last()@);
        lemma_insert_sorted_view(spec_sort_connections(s.drop_last(), col, asc), s.last(), col, asc);
    }
}


proof fn lemma_insert_sorted_models_membership(
    sorted: Seq<ConnectionModel>,
    c: ConnectionModel,
    col: int,
    asc: bool,
)
    ensures
        forall|x: ConnectionModel|
            #[trigger] spec_insert_sorted_models(sorted, c, col, asc).contains(x) ==> x == c
                || sorted.contains(x),
    decreases sorted.len(),
{
    let out = spec_insert_sorted_models(sorted, c, col, asc);
    if sorted.len() == 0 {
        assert forall|x: ConnectionModel| #[trigger] out.contains(x) implies x == c by {
            let i = choose|i: int| 0 <= i < out.len() && out[i] == x;
            assert(out[0] == c);
        }
    } else if spec_conn_le(col, asc, sorted.last(), c) {
        assert forall|x: ConnectionModel| #[trigger] out.contains(x) implies x == c
            || sorted.contains(x) by {
            let i = choose|i: int| 0 <= i < out.len() && out[i] == x;
            if i < sorted.len() {
                assert(sorted[i] == x);
            }
        }
    } else {
        lemma_insert_sorted_models_membership(sorted.drop_last(), c, col, asc);
        let inner = spec_insert_sorted_models(sorted.drop_last(), c, col, asc);
        assert forall|x: ConnectionModel| #[trigger] out.contains(x) implies x == c
            || sorted.contains(x) by {
            let i = choose|i: int| 0 <= i < out.len() && out[i] == x;
            if i == out.len() - 1 {
                assert(x == sorted.last());
                assert(sorted[sorted.len() - 1] == x);
            } else {
                assert(inner[i] == x);
                assert(inner.contains(x));
                if x != c {
                    assert(sorted.drop_last().contains(x));
                    let j = choose|j: int|
                        0 <= j < sorted.drop_last().len() && sorted.drop_last()[j] == x;
                    assert(sorted[j] == x);
                }
            }
        }
    }
}

/// Every record of a sorted view comes from the unsorted view: the
/// sort only reorders.
pub proof fn lemma_sort_models_membership(s: Seq<ConnectionModel>, col: int, asc: bool)
    ensures
        forall|x: ConnectionModel|
            #[trigger] spec_sort_models(s, col, asc).contains(x) ==> s.contains(x),
    decreases s.len(),
{
    if s.len() > 0 {
        lemma_sort_models_membership(s.drop_last(), col, asc);
        lemma_insert_sorted_models_membership(
            spec_sort_models(s.drop_last(), col, asc),
            s.last(),
            col,
            asc,
        );
        assert forall|x: ConnectionModel|
            #[trigger] spec_sort_models(s, col, asc).contains(x) implies s.contains(x) by {
            if x == s.last() {
                assert(s[s.len() - 1] == x);
            } else if spec_sort_models(s.drop_last(), col, asc).contains(x) {
                assert(s.drop_last().contains(x));
                let j = choose|j: int| 0 <= j < s.drop_last().len() && s.drop_last()[j] == x;
                assert(s[j] == x);
            }
        }
    }
}


/// Any two records compare under every column: each column orders by
/// a totally ordered key.
pub proof fn lemma_conn_le_total(col: int, asc: bool, a: ConnectionModel, b: ConnectionModel)
    ensures
        spec_conn_le(col, asc, a, b) || spec_conn_le(col, asc, b, a),
{
    if col == 1 {
        crate::text::lemma_lex_le_total(spec_ip_text(a.local_addr), spec_ip_text(b.local_addr));
    } else if col == 3 {
        crate::text::lemma_lex_le_total(spec_remote_text(a), spec_remote_text(b));
    } else if col == 6 {
        crate::text::lemma_lex_le_total(lower_of(a.process_name), lower_of(b.process_name));
    }
}

/// The column comparison is transitive.
pub proof fn lemma_conn_le_trans(
    col: int,
    asc: bool,
    a: ConnectionModel,
    b: ConnectionModel,
    c: ConnectionModel,
)
    requires
        spec_conn_le(col, asc, a, b),
        spec_conn_le(col, asc, b, c),
    ensures
        spec_conn_le(col, asc, a, c),
{
    if col == 1 {
        if asc {
            crate::text::lemma_lex_le_trans(
                spec_ip_text(a.local_addr),
                spec_ip_text(b.local_addr),
                spec_ip_text(c.local_addr),
            );
        } else {
            crate::text::lemma_lex_le_trans(
                spec_ip_text(c.local_addr),
                spec_ip_text(b.local_addr),
                spec_ip_text(a.local_addr),
            );
        }
    } else if col == 3 {
        if asc {
            crate::text::lemma_lex_le_trans(
                spec_remote_text(a),
                spec_remote_text(b),
                spec_remote_text(c),
            );
        } else {
            crate::text::lemma_lex_le_trans(
                spec_remote_text(c),
                spec_remote_text(b),
                spec_remote_text(a),
            );
        }
    } else if col == 6 {
        if asc {
            crate::text::lemma_lex_le_trans(
                lower_of(a.process_name),
                lower_of(b.process_name),
                lower_of(c.process_name),
            );
        } else {
            crate::text::lemma_lex_le_trans(
                lower_of(c.process_name),
                lower_of(b.process_name),
                lower_of(a.process_name),
            );
        }
    }
}

/// Every two records of the view stand in the column's order.
pub open spec fn spec_sorted_by(s: Seq<ConnectionModel>, col: int, asc: bool) -> bool {
    forall|i: int, j: int| 0 <= i < j < s.len() ==> spec_conn_le(col, asc, s[i], s[j])
}

proof fn lemma_insert_sorted_models_sorted(
    sorted: Seq<ConnectionModel>,
    c: ConnectionModel,
    col: int,
    asc: bool,
)
    requires
        spec_sorted_by(sorted, col, asc),
    ensures
        spec_sorted_by(spec_insert_sorted_models(sorted, c, col, asc), col, asc),
    decreases sorted.len(),
{
    let out = spec_insert_sorted_models(sorted, c, col, asc);
    if sorted.len() == 0 {
        assert(out.len() == 1);
    } else if spec_conn_le(col, asc, sorted.last(), c) {
        assert forall|i: int, j: int| 0 <= i < j < out.len() implies spec_conn_le(
            col,
            asc,
            out[i],
            out[j],
        ) by {
            if j == out.len() - 1 {
                assert(out[j] == c);
                if i == sorted.len() - 1 {
                } else {
                    assert(spec_conn_le(col, asc, sorted[i], sorted.last()));
                    lemma_conn_le_trans(col, asc, sorted[i], sorted.last(), c);
                }
            }
        }
    } else {
        lemma_conn_le_total(col, asc, sorted.last(), c);
        assert(spec_conn_le(col, asc, c, sorted.last()));
        assert(spec_sorted_by(sorted.drop_last(), col, asc));
        lemma_insert_sorted_models_sorted(sorted.drop_last(), c, col, asc);
        lemma_insert_sorted_models_membership(sorted.drop_last(), c, col, asc);
        let inner = spec_insert_sorted_models(sorted.drop_last(), c, col, asc);
        assert forall|i: int| 0 <= i < inner.len() implies spec_conn_le(
            col,
            asc,
            inner[i],
            sorted.last(),
        ) by {
            assert(inner.contains(inner[i]));
            if inner[i] == c {
            } else {
                assert(sorted.drop_last().contains(inner[i]));
                let k = choose|k: int|
                    0 <= k < sorted.drop_last().len() && sorted.drop_last()[k] == inner[i];
                assert(spec_conn_le(col, asc, sorted[k], sorted.last()));
            }
        }
        assert forall|i: int, j: int| 0 <= i < j < out.len() implies spec_conn_le(
            col,
            asc,
            out[i],
            out[j],
        ) by {
            if j < out.len() - 1 {
                assert(out[i] == inner[i] && out[j] == inner[j]);
            } else {
                assert(out[j] == sorted.last());
                assert(out[i] == inner[i]);
            }
        }
    }
}

/// The sorted view is sorted: every two of its records stand in the
/// chosen column's order.
pub proof fn lemma_sort_models_sorted(s: Seq<ConnectionModel>, col: int, asc: bool)
    ensures
        spec_sorted_by(spec_sort_models(s, col, asc), col, asc),
    decreases s.len(),
{
    if s.len() > 0 {
        lemma_sort_models_sorted(s.drop_last(), col, asc);
        lemma_insert_sorted_models_sorted(
            spec_sort_models(s.drop_last(), col, asc),
            s.last(),
            col,
            asc,
        );
    }
}

proof fn lemma_insert_sorted_models_multiset(
    sorted: Seq<ConnectionModel>,
    c: ConnectionModel,
    col: int,
    asc: bool,
)
    ensures
        spec_insert_sorted_models(sorted, c, col, asc).to_multiset() == sorted.to_multiset().insert(
            c,
        ),
    decreases sorted.len(),
{
    broadcast use vstd::seq_lib::group_to_multiset_ensures;

    let out = spec_insert_sorted_models(sorted, c, col, asc);
    if sorted.len() == 0 {
        assert(out =~= Seq::<ConnectionModel>::empty().push(c));
        assert(sorted.to_multiset() =~= Seq::<ConnectionModel>::empty().to_multiset());
    } else if spec_conn_le(col, asc, sorted.last(), c) {
    } else {
        lemma_insert_sorted_models_multiset(sorted.drop_last(), c, col, asc);
        let inner = spec_insert_sorted_models(sorted.drop_last(), c, col, asc);
        assert(out.to_multiset() =~= inner.to_multiset().insert(sorted.last()));
        assert(sorted.drop_last().push(sorted.last()) =~= sorted);
        assert(sorted.to_multiset() =~= sorted.drop_last().to_multiset().insert(sorted.last()));
        assert(sorted.drop_last().to_multiset().insert(c).insert(sorted.last())
            =~= sorted.drop_last().to_multiset().insert(sorted.last()).insert(c));
    }
}

/// The sorted view is a permutation of the snapshot: the sort neither
/// drops nor invents records.
pub proof fn lemma_sort_models_permutes(s: Seq<ConnectionModel>, col: int, asc: bool)
    ensures
        spec_sort_models(s, col, asc).to_multiset() == s.to_multiset(),
    decreases s.len(),
{
    broadcast use vstd::seq_lib::group_to_multiset_ensures;

    if s.len() > 0 {
        lemma_sort_models_permutes(s.drop_last(), col, asc);
        lemma_insert_sorted_models_multiset(
            spec_sort_models(s.drop_last(), col, asc),
            s.last(),
            col,
            asc,
        );
        assert(s.drop_last().push(s.last()) =~= s);
        assert(s.to_multiset() =~= s.drop_last().to_multiset().insert(s.last()));
    }
}

} // verus!
