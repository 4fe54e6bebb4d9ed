//! Filtering of the connection and traffic views: case-insensitive
//! substring matching over every displayed field.

use vstd::prelude::*;
use vstd::string::StringExecFns;

use crate::net::{ip_text, spec_ip_text};
use crate::text::{
    lower_of, spec_contains, spec_dec, str_contains, to_lowercase, u64_to_string,
};
use crate::types::{Connection, ConnectionModel, TcpState, TrafficEntry, TrafficEntryModel};

verus! {

/// A connection record matches a filter when the lowercase filter text
/// occurs in any of: the process name or the state, protocol or
/// hostname labels folded to lowercase, or the address and port texts
/// as they stand.
pub open spec fn spec_conn_matches(c: ConnectionModel, ft: Seq<char>) -> bool {
    let ftl = lower_of(ft);
    ||| spec_contains(lower_of(c.process_name), ftl)
    ||| spec_contains(spec_ip_text(c.local_addr), ftl)
    ||| spec_contains(spec_dec(c.local_port as nat), ftl)
    ||| (match c.remote_addr {
        Some(a) => spec_contains(spec_ip_text(a), ftl),
        None => false,
    })
    ||| (match c.remote_port {
        Some(p) => spec_contains(spec_dec(p as nat), ftl),
        None => false,
    })
    ||| (match c.state {
        Some(st) => spec_contains(lower_of(st.spec_label()), ftl),
        None => false,
    })
    ||| spec_contains(lower_of(c.proto.spec_label()), ftl)
    ||| (match c.dns_hostname {
        Some(h) => spec_contains(lower_of(h), ftl),
        None => false,
    })
}

/// What the connection view shows: loopback-to-loopback records and
/// listeners can be hidden, and a non-empty filter must match.
pub open spec fn spec_conn_visible(
    c: ConnectionModel,
    hide_localhost: bool,
    show_listen: bool,
    ft: Seq<char>,
) -> bool {
    &&& !(hide_localhost && c.local_addr.spec_is_loopback() && (match c.remote_addr {
        Some(a) => a.spec_is_loopback(),
        None => false,
    }))
    &&& !(!show_listen && c.state == Some(TcpState::Listen))
    &&& (ft.len() == 0 || spec_conn_matches(c, ft))
}

pub open spec fn spec_filtered_connections(
    s: Seq<Connection>,
    hide_localhost: bool,
    show_listen: bool,
    ft: Seq<char>,
) -> Seq<Connection>
    decreases s.len(),
{
    if s.len() == 0 {
        s
    } else {
        spec_filtered_connections(s.drop_last(), hide_localhost, show_listen, ft) + (if
        spec_conn_visible(s.last()@, hide_localhost, show_listen, ft) {
            seq![s.last()]
        } else {
            Seq::empty()
        })
    }
}

fn conn_matches(c: &Connection, ftl: &String, ghost_ft: Ghost<Seq<char>>) -> (r: bool)
    requires
        ftl@ == lower_of(ghost_ft@),
    ensures
        r == spec_conn_matches(c@, ghost_ft@),
{
    let pl = to_lowercase(c.process_name.as_str());
    if str_contains(pl.as_str(), ftl.as_str()) {
        return true;
    }
    let la = ip_text(&c.local_addr);
    if str_contains(la.as_str(), ftl.as_str()) {
        return true;
    }
    let lp = u64_to_string(c.local_port as u64);
    if str_contains(lp.as_str(), ftl.as_str()) {
        return true;
    }
    let ra_hit = match &c.remote_addr {
        Some(a) => {
            let t = ip_text(a);
            str_contains(t.as_str(), ftl.as_str())
        },
        None => false,
    };
    if ra_hit {
        return true;
    }
    let rp_hit = match c.remote_port {
        Some(p) => {
            let t = u64_to_string(p as u64);
            str_contains(t.as_str(), ftl.as_str())
        },
        None => false,
    };
    if rp_hit {
        return true;
    }
    let st_hit = match &c.state {
        Some(st) => {
            let t = to_lowercase(st.label());
            str_contains(t.as_str(), ftl.as_str())
        },
        None => false,
    };
    if st_hit {
        return true;
    }
    let prl = to_lowercase(c.proto.label());
    if str_contains(prl.as_str(), ftl.as_str()) {
        return true;
    }
    match &c.dns_hostname {
        Some(h) => {
            let t = to_lowercase(h.as_str());
            str_contains(t.as_str(), ftl.as_str())
        },
        None => false,
    }
}

/// The records the connection view shows, in order.
pub fn filtered_connections(
    conns: &Vec<Connection>,
    hide_localhost: bool,
    show_listen: bool,
    filter_text: &String,
) -> (r: Vec<Connection>)
    ensures
        r@ == spec_filtered_connections(conns@, hide_localhost, show_listen, filter_text@),
{
    let ftl = to_lowercase(filter_text.as_str());
    let ft_empty = filter_text.as_str().is_empty();
    let n = conns.len();
    let mut out: Vec<Connection> = Vec::new();
    let mut i: usize = 0;
    proof {
        assert(conns@.take(0).len() == 0);
        assert(out@ =~= spec_filtered_connections(
            conns@.take(0),
            hide_localhost,
            show_listen,
            filter_text@,
        ));
    }
    while i < n
        invariant
            i <= n,
            n == conns@.len(),
            ftl@ == lower_of(filter_text@),
            ft_empty == (filter_text@.len() == 0),
            out@ == spec_filtered_connections(
                conns@.take(i as int),
                hide_localhost,
                show_listen,
                filter_text@,
            ),
        decreases n - i,
    {
        proof {
            assert(conns@.take(i + 1).drop_last() =~= conns@.take(i as int));
            assert(conns@.take(i + 1).last() == conns@[i as int]);
        }
        let c = &conns[i];
        let mut visible = true;
        if hide_localhost {
            let remote_loop = match &c.remote_addr {
                Some(a) => a.is_loopback(),
                None => false,
            };
            if c.local_addr.is_loopback() && remote_loop {
                visible = false;
            }
        }
        if visible && !show_listen && matches!(c.state, Some(TcpState::Listen)) {
            visible = false;
        }
        if visible && !ft_empty {
            visible = conn_matches(c, &ftl, Ghost(filter_text@));
        }
        if visible {
            let ghost before = out@;
            out.push(c.clone());
            proof {
                assert(out@ =~= before + seq![conns@[i as int]]);
            }
        } else {
            proof {
                assert(out@ + Seq::<Connection>::empty() =~= out@);
            }
        }
        i = i + 1;
    }
    proof {
        assert(conns@.take(n as int) =~= conns@);
    }
    out
}

/// A traffic entry matches a filter when the lowercase filter text
/// occurs in any displayed field of the entry.
pub open spec fn spec_entry_matches(e: TrafficEntryModel, ft: Seq<char>) -> bool {
    let ftl = lower_of(ft);
    ||| spec_contains(lower_of(e.process_name), ftl)
    ||| spec_contains(lower_of(e.proto.spec_label()), ftl)
    ||| spec_contains(spec_ip_text(e.local_addr), ftl)
    ||| spec_contains(spec_dec(e.local_port as nat), ftl)
    ||| (match e.remote_addr {
        Some(a) => spec_contains(spec_ip_text(a), ftl),
        None => false,
    })
    ||| (match e.remote_port {
        Some(p) => spec_contains(spec_dec(p as nat), ftl),
        None => false,
    })
    ||| spec_contains(lower_of(e.event.spec_label()), ftl)
    ||| spec_contains(lower_of(e.state_label), ftl)
    ||| (match e.dns_name {
        Some(h) => spec_contains(lower_of(h), ftl),
        None => false,
    })
}

pub open spec fn spec_filtered_log(s: Seq<TrafficEntry>, ft: Seq<char>) -> Seq<TrafficEntry>
    decreases s.len(),
{
    if ft.len() == 0 {
        s
    } else if s.len() == 0 {
        s
    } else {
        spec_filtered_log(s.drop_last(), ft) + (if spec_entry_matches(s.last()@, ft) {
            seq![s.last()]
        } else {
            Seq::empty()
        })
    }
}

fn entry_matches(e: &TrafficEntry, ftl: &String, ghost_ft: Ghost<Seq<char>>) -> (r: bool)
    requires
        ftl@ == lower_of(ghost_ft@),
    ensures
        r == spec_entry_matches(e@, ghost_ft@),
{
    let pl = to_lowercase(e.process_name.as_str());
    if str_contains(pl.as_str(), ftl.as_str()) {
        return true;
    }
    let prl = to_lowercase(e.proto.label());
    if str_contains(prl.as_str(), ftl.as_str()) {
        return true;
    }
    let la = ip_text(&e.local_addr);
    if str_contains(la.as_str(), ftl.as_str()) {
        return true;
    }
    let lp = u64_to_string(e.local_port as u64);
    if str_contains(lp.as_str(), ftl.as_str()) {
        return true;
    }
    let ra_hit = match &e.remote_addr {
        Some(a) => {
            let t = ip_text(a);
            str_contains(t.as_str(), ftl.as_str())
        },
        None => false,
    };
    if ra_hit {
        return true;
    }
    let rp_hit = match e.remote_port {
        Some(p) => {
            let t = u64_to_string(p as u64);
            str_contains(t.as_str(), ftl.as_str())
        },
        None => false,
    };
    if rp_hit {
        return true;
    }
    let evl = to_lowercase(e.event.label());
    if str_contains(evl.as_str(), ftl.as_str()) {
        return true;
    }
    let stl = to_lowercase(e.state_label.as_str());
    if str_contains(stl.as_str(), ftl.as_str()) {
        return true;
    }
    match &e.dns_name {
        Some(h) => {
            let t = to_lowercase(h.as_str());
            str_contains(t.as_str(), ftl.as_str())
        },
        None => false,
    }
}

/// The log entries the traffic view shows, in order; an empty filter
/// shows them all.
pub fn filtered_log(log: &Vec<TrafficEntry>, filter_text: &String) -> (r: Vec<TrafficEntry>)
    ensures
        r.deep_view() == spec_filtered_log(log@, filter_text@).map_values(
            |e: TrafficEntry| e@,
        ),
{
    let ftl = to_lowercase(filter_text.as_str());
    let ft_empty = filter_text.as_str().is_empty();
    let n = log.len();
    let mut out: Vec<TrafficEntry> = Vec::new();
    let mut i: usize = 0;
    proof {
        assert(log@.take(0).len() == 0);
        assert(out.deep_view() =~= spec_filtered_log(log@.take(0), filter_text@).map_values(
            |e: TrafficEntry| e@,
        ));
    }
    while i < n
        invariant
            i <= n,
            n == log@.len(),
            ftl@ == lower_of(filter_text@),
            ft_empty == (filter_text@.len() == 0),
            out.deep_view() == spec_filtered_log(log@.take(i as int), filter_text@).map_values(
                |e: TrafficEntry| e@,
            ),
        decreases n - i,
    {
        proof {
            assert(log@.take(i + 1).drop_last() =~= log@.take(i as int));
            assert(log@.take(i + 1).last() == log@[i as int]);
        }
        let e = &log[i];
        let push_it = if ft_empty {
            true
        } else {
            entry_matches(e, &ftl, Ghost(filter_text@))
        };
        if push_it {
            let ghost before = out.deep_view();
            out.push(e.clone());
            proof {
                assert(out.deep_view() =~= before.push(log@[i as int]@));
                if ft_empty {
                    assert(spec_filtered_log(log@.take(i + 1), filter_text@) == log@.take(i + 1));
                    assert(log@.take(i + 1).map_values(|e: TrafficEntry| e@) =~= log@.take(
                        i as int,
                    ).map_values(|e: TrafficEntry| e@).push(log@[i as int]@));
                } else {
                    assert((spec_filtered_log(log@.take(i as int), filter_text@) + seq![
                        log@[i as int],
                    ]).map_values(|e: TrafficEntry| e@) =~= spec_filtered_log(
                        log@.take(i as int),
                        filter_text@,
                    ).map_values(|e: TrafficEntry| e@).push(log@[i as int]@));
                }
            }
        } else {
            proof {
                assert(spec_filtered_log(log@.take(i as int), filter_text@) + Seq::<
                    TrafficEntry,
                >::empty() =~= spec_filtered_log(log@.take(i as int), filter_text@));
            }
        }
        i = i + 1;
    }
    proof {
        assert(log@.take(n as int) =~= log@);
    }
    out
}

} // verus!
