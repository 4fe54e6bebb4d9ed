//! The snapshot differ: lifecycle events, pausing, and the log bound.

use netwatch_core::clock::TimeOfDay;
use netwatch_core::dns::DnsCache;
use netwatch_core::net::IpAddress;
use netwatch_core::tracker::TrafficTracker;
use netwatch_core::types::{ConnProto, Connection, TcpState, TrafficEventKind};

const GOOGLE: u32 = 0x8EFA502E; // 142.250.80.46

fn tcp_conn(state: TcpState) -> Connection {
    Connection {
        proto: ConnProto::Tcp,
        local_addr: IpAddress::V4(0x0A000001),
        local_port: 55123,
        remote_addr: Some(IpAddress::V4(GOOGLE)),
        remote_port: Some(443),
        state: Some(state),
        pid: 1000,
        process_name: String::from("chrome.exe"),
        dns_hostname: None,
    }
}

fn at(s: u32) -> TimeOfDay {
    TimeOfDay::from_seconds(s)
}

#[test]
fn new_then_closed() {
    let mut t = TrafficTracker::new(100);
    let dns = DnsCache::new();
    t.update(at(1), &vec![tcp_conn(TcpState::Established)], &dns);
    assert_eq!(t.log.len(), 1);
    assert!(matches!(t.log[0].event, TrafficEventKind::NewConnection));
    assert_eq!(t.log[0].timestamp.seconds, 1);
    assert_eq!(t.log[0].state_label.as_str(), "ESTABLISHED");
    assert!(t.log[0].outbound);

    t.update(at(2), &vec![tcp_conn(TcpState::Established)], &dns);
    assert_eq!(t.log.len(), 1);

    t.update(at(3), &vec![], &dns);
    assert_eq!(t.log.len(), 2);
    assert!(matches!(t.log[1].event, TrafficEventKind::ConnectionClosed));
    assert_eq!(t.log[1].timestamp.seconds, 3);
    assert_eq!(t.log[1].process_name.as_str(), "chrome.exe");
}

#[test]
fn state_transitions() {
    let mut t = TrafficTracker::new(100);
    let dns = DnsCache::new();
    t.update(at(1), &vec![tcp_conn(TcpState::SynSent)], &dns);
    t.update(at(2), &vec![tcp_conn(TcpState::Established)], &dns);
    t.update(at(3), &vec![tcp_conn(TcpState::CloseWait)], &dns);
    assert_eq!(t.log.len(), 3);
    assert!(matches!(t.log[0].event, TrafficEventKind::NewConnection));
    match &t.log[1].event {
        TrafficEventKind::StateChange { from, to } => {
            assert_eq!(*from, TcpState::SynSent);
            assert_eq!(*to, TcpState::Established);
            assert_ne!(*from, *to);
        },
        other => panic!("expected a state change, got {:?}", other),
    }
    match &t.log[2].event {
        TrafficEventKind::StateChange { from, to } => {
            assert_eq!(*from, TcpState::Established);
            assert_eq!(*to, TcpState::CloseWait);
            assert_ne!(*from, *to);
        },
        other => panic!("expected a state change, got {:?}", other),
    }
    assert_eq!(t.log[1].state_label.as_str(), "ESTABLISHED");
    assert_eq!(t.log[2].state_label.as_str(), "CLOSE_WAIT");
}

#[test]
fn dns_name_attached_to_events() {
    let mut t = TrafficTracker::new(100);
    let mut dns = DnsCache::new();
    dns.record(IpAddress::V4(GOOGLE), String::from("www.google.com"));
    t.update(at(1), &vec![tcp_conn(TcpState::Established)], &dns);
    assert_eq!(t.log.len(), 1);
    assert_eq!(t.log[0].dns_name.as_ref().map(|s| s.as_str()), Some("www.google.com"));
}

#[test]
fn paused_tracker_ignores_updates() {
    let mut t = TrafficTracker::new(100);
    let dns = DnsCache::new();
    t.paused = true;
    t.update(at(1), &vec![tcp_conn(TcpState::Established)], &dns);
    assert_eq!(t.log.len(), 0);
    assert_eq!(t.prev_connections.len(), 0);

    t.paused = false;
    t.update(at(5), &vec![tcp_conn(TcpState::Established)], &dns);
    assert_eq!(t.log.len(), 1);
    assert!(matches!(t.log[0].event, TrafficEventKind::NewConnection));
    assert_eq!(t.log[0].timestamp.seconds, 5);
}

#[test]
fn log_stays_within_bound() {
    let mut t = TrafficTracker::new(2);
    let dns = DnsCache::new();
    let mut conns: Vec<Connection> = Vec::new();
    for port in [1001u16, 1002, 1003] {
        let mut c = tcp_conn(TcpState::Established);
        c.local_port = port;
        conns.push(c);
    }
    t.update(at(1), &conns, &dns);
    assert_eq!(t.log.len(), 2);
    // The oldest event was trimmed; the newest two remain.
    assert_eq!(t.log[0].local_port, 1002);
    assert_eq!(t.log[1].local_port, 1003);
}

#[test]
fn listeners_and_bound_udp_ignored() {
    let mut t = TrafficTracker::new(100);
    let dns = DnsCache::new();
    let listener = Connection {
        state: Some(TcpState::Listen),
        ..tcp_conn(TcpState::Listen)
    };
    let udp_bind = Connection {
        proto: ConnProto::Udp,
        remote_addr: None,
        remote_port: None,
        state: None,
        ..tcp_conn(TcpState::Established)
    };
    t.update(at(1), &vec![listener, udp_bind], &dns);
    assert_eq!(t.log.len(), 0);
    assert_eq!(t.prev_connections.len(), 0);
}

#[test]
fn clear_empties_log_but_keeps_diff_state() {
    let mut t = TrafficTracker::new(100);
    let dns = DnsCache::new();
    t.update(at(1), &vec![tcp_conn(TcpState::Established)], &dns);
    assert_eq!(t.log.len(), 1);
    t.clear();
    assert_eq!(t.log.len(), 0);
    assert_eq!(t.scroll_offset, 0);
    assert_eq!(t.prev_connections.len(), 1);
    // The still-present connection emits nothing new after a clear.
    t.update(at(2), &vec![tcp_conn(TcpState::Established)], &dns);
    assert_eq!(t.log.len(), 0);
}

#[test]
fn filtered_log_matches_fields() {
    let mut t = TrafficTracker::new(100);
    let dns = DnsCache::new();
    t.update(at(1), &vec![tcp_conn(TcpState::Established)], &dns);
    t.filter_text = String::from("CHROME");
    assert_eq!(t.filtered_log().len(), 1);
    t.filter_text = String::from("nosuch");
    assert_eq!(t.filtered_log().len(), 0);
    t.filter_text = String::from("443");
    assert_eq!(t.filtered_log().len(), 1);
    t.filter_text = String::new();
    assert_eq!(t.filtered_log().len(), 1);
}
