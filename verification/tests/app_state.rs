//! The coordinator: ticks, sorting, filtering, key handling, speed.

use netwatch_core::assemble::{
    apply_process_names, assemble_connections, attach_hostnames, resolve_process_name,
    unresolved_pids, PidCache, Tcp4Row, Udp4Row,
};
use netwatch_core::clock::{time_of_day_now, TimeOfDay};
use netwatch_core::dns::DnsCache;
use netwatch_core::filter::filtered_connections;
use netwatch_core::monitor::{App, KeyInput};
use netwatch_core::net::IpAddress;
use netwatch_core::sort::sort_connections;
use netwatch_core::speed::{aggregate_network_bytes, SpeedHistory, SpeedMonitor};
use netwatch_core::types::{BottomTab, ConnProto, Connection, TcpState};

fn conn(local_port: u16, state: Option<TcpState>, name: &str) -> Connection {
    Connection {
        proto: if state.is_some() { ConnProto::Tcp } else { ConnProto::Udp },
        local_addr: IpAddress::V4(0x0A000001),
        local_port,
        remote_addr: Some(IpAddress::V4(0x08080808)),
        remote_port: Some(443),
        state,
        pid: 7,
        process_name: String::from(name),
        dns_hostname: None,
    }
}

#[test]
fn clock_gives_time_of_day() {
    let t = time_of_day_now();
    assert!(t.seconds < 86400);
    let fixed = TimeOfDay::from_seconds(3661);
    assert_eq!(fixed.hour(), 1);
    assert_eq!(fixed.minute(), 1);
    assert_eq!(fixed.second(), 1);
}

#[test]
fn aggregate_counts_and_names_busiest() {
    let ifaces = vec![
        (String::from("eth0"), 100u64, 50u64),
        (String::from("wlan0"), 300u64, 10u64),
    ];
    let (recv, sent, name) = aggregate_network_bytes(&ifaces);
    assert_eq!(recv, 400);
    assert_eq!(sent, 60);
    assert_eq!(name.as_str(), "wlan0");

    let empty: Vec<(String, u64, u64)> = Vec::new();
    let (r0, s0, n0) = aggregate_network_bytes(&empty);
    assert_eq!((r0, s0), (0, 0));
    assert_eq!(n0.as_str(), "No Interface");
}

#[test]
fn speed_history_keeps_length() {
    let mut h = SpeedHistory::new(3);
    assert_eq!(h.download.len(), 3);
    h.push(10, 20);
    assert_eq!(h.download.len(), 3);
    assert_eq!(h.download, vec![0, 0, 10]);
    assert_eq!(h.upload, vec![0, 0, 20]);
}

#[test]
fn speed_sampler_math() {
    let mut m = SpeedMonitor::new(1000, 500, String::from("eth0"), 4);
    m.sample(3000, 1500, 1000, String::from("eth0"));
    assert_eq!(m.current_down, 2000);
    assert_eq!(m.current_up, 1000);
    assert_eq!(m.peak_down, 2000);
    assert_eq!(m.total_down, 2000);
    // Half a second doubles the rate.
    m.sample(4000, 2000, 500, String::from("eth0"));
    assert_eq!(m.current_down, 2000);
    assert_eq!(m.total_down, 3000);
    // A counter reset counts as zero delta.
    m.sample(100, 100, 1000, String::from("eth0"));
    assert_eq!(m.current_down, 0);
    assert_eq!(m.total_down, 3000);
    assert_eq!(m.peak_down, 2000);
}

#[test]
fn rows_assemble_into_records() {
    let tcp4 = vec![Tcp4Row {
        state: 5,
        local_addr: [10, 0, 0, 1],
        local_port: 0x5000, // port 80 in the kernel's byte order
        remote_addr: [142, 250, 80, 46],
        remote_port: 0xBB01, // port 443
        pid: 42,
    }];
    let udp4 = vec![Udp4Row { local_addr: [10, 0, 0, 2], local_port: 0x3500, pid: 43 }];
    let conns = assemble_connections(&tcp4, &vec![], &udp4, &vec![]);
    assert_eq!(conns.len(), 2);
    assert_eq!(conns[0].proto, ConnProto::Tcp);
    assert_eq!(conns[0].local_port, 80);
    assert_eq!(conns[0].remote_port, Some(443));
    assert_eq!(conns[0].state, Some(TcpState::Established));
    assert_eq!(conns[0].remote_addr, Some(IpAddress::V4(0x8EFA502E)));
    assert_eq!(conns[1].proto, ConnProto::Udp);
    assert_eq!(conns[1].local_port, 53);
    assert!(conns[1].state.is_none());
    assert!(conns[1].remote_addr.is_none());
}

#[test]
fn process_names_resolve_and_cache() {
    let (kernel, c0) = resolve_process_name(0, None);
    assert_eq!(kernel.as_str(), "[Kernel]");
    assert!(c0);
    let (system, _) = resolve_process_name(4, None);
    assert_eq!(system.as_str(), "System");
    let (named, cacheable) = resolve_process_name(42, Some("C:\\Tools\\app.exe"));
    assert_eq!(named.as_str(), "app.exe");
    assert!(cacheable);
    let (placeholder, uncacheable) = resolve_process_name(42, None);
    assert_eq!(placeholder.as_str(), "PID:42");
    assert!(!uncacheable);

    let mut cache = PidCache::new();
    cache.record(42, String::from("app.exe"));
    cache.record(42, String::from("other.exe"));
    assert_eq!(cache.lookup(42).as_deref(), Some("app.exe"));

    let conns = vec![conn(1, Some(TcpState::Established), "")];
    let pids = unresolved_pids(&conns, &cache);
    assert_eq!(pids, vec![7]);
    let named = apply_process_names(conns, &cache);
    assert_eq!(named[0].process_name.as_str(), "PID:7");
}

#[test]
fn hostnames_attach_per_policy() {
    let mut dns = DnsCache::new();
    dns.record(IpAddress::V4(0x8EFA502E), String::from("www.google.com"));
    let mut remote_google = conn(1, Some(TcpState::Established), "a");
    remote_google.remote_addr = Some(IpAddress::V4(0x8EFA502E));
    let mut remote_loop = conn(2, Some(TcpState::Established), "b");
    remote_loop.remote_addr = Some(IpAddress::V4(0x7F000001));
    let mut remote_unspec = conn(3, Some(TcpState::Established), "c");
    remote_unspec.remote_addr = Some(IpAddress::V4(0));
    let out = attach_hostnames(vec![remote_google, remote_loop, remote_unspec], &dns);
    assert_eq!(out[0].dns_hostname.as_deref(), Some("www.google.com"));
    assert_eq!(out[1].dns_hostname.as_deref(), Some("localhost"));
    assert!(out[2].dns_hostname.is_none());
}

#[test]
fn sort_by_state_rank_is_stable() {
    let mut conns = vec![
        conn(3, None, "udp"),
        conn(1, Some(TcpState::Listen), "listen"),
        conn(2, Some(TcpState::Established), "est-a"),
        conn(4, Some(TcpState::Established), "est-b"),
    ];
    sort_connections(&mut conns, 5, true);
    assert_eq!(conns[0].process_name.as_str(), "est-a");
    assert_eq!(conns[1].process_name.as_str(), "est-b");
    assert_eq!(conns[2].process_name.as_str(), "listen");
    assert_eq!(conns[3].process_name.as_str(), "udp");
    sort_connections(&mut conns, 5, false);
    assert_eq!(conns[0].process_name.as_str(), "udp");
}

#[test]
fn filters_apply_toggles_and_text() {
    let mut loop_conn = conn(9, Some(TcpState::Established), "local");
    loop_conn.local_addr = IpAddress::V4(0x7F000001);
    loop_conn.remote_addr = Some(IpAddress::V4(0x7F000001));
    let conns = vec![
        conn(1, Some(TcpState::Established), "chrome.exe"),
        conn(2, Some(TcpState::Listen), "svchost.exe"),
        loop_conn,
    ];
    let all = filtered_connections(&conns, false, true, &String::new());
    assert_eq!(all.len(), 3);
    let no_loopback = filtered_connections(&conns, true, true, &String::new());
    assert_eq!(no_loopback.len(), 2);
    let no_listen = filtered_connections(&conns, false, false, &String::new());
    assert_eq!(no_listen.len(), 2);
    let by_name = filtered_connections(&conns, false, true, &String::from("CHROME"));
    assert_eq!(by_name.len(), 1);
    assert_eq!(by_name[0].process_name.as_str(), "chrome.exe");
    let by_port = filtered_connections(&conns, false, true, &String::from("443"));
    assert_eq!(by_port.len(), 3);
}

#[test]
fn app_tick_updates_everything() {
    let mut app = App::new(1000, 500, String::from("eth0"));
    assert!(app.fallback_due());
    let mut udp_bind = conn(2, None, "udp");
    udp_bind.remote_addr = None;
    udp_bind.remote_port = None;
    let conns = vec![udp_bind, conn(1, Some(TcpState::Established), "chrome.exe")];
    let dns_api = vec![(IpAddress::V4(0x08080808), String::from("dns.google"))];
    app.update(
        TimeOfDay::from_seconds(30),
        3000,
        1500,
        1000,
        String::from("eth0"),
        conns,
        &dns_api,
        None,
    );
    assert_eq!(app.dns_tick, 1);
    assert!(!app.fallback_due());
    assert_eq!(app.speed.current_down, 2000);
    // Sorted by state rank: the TCP record first.
    assert_eq!(app.connections[0].process_name.as_str(), "chrome.exe");
    assert_eq!(app.connections[0].dns_hostname.as_deref(), Some("dns.google"));
    // The diff saw the established connection; the bound UDP socket is
    // not tracked.
    assert_eq!(app.traffic_tracker.log.len(), 1);
    assert_eq!(app.traffic_tracker.log[0].dns_name.as_deref(), Some("dns.google"));
}

#[test]
fn keys_drive_the_views() {
    let mut app = App::new(0, 0, String::from("eth0"));
    assert!(app.handle_key(KeyInput::Char('q')));
    assert!(app.handle_key(KeyInput::Char('Q')));
    assert!(!app.handle_key(KeyInput::Tab));
    assert_eq!(app.bottom_tab, BottomTab::Connections);

    app.handle_key(KeyInput::Char('l'));
    assert!(!app.show_listen);
    app.handle_key(KeyInput::Char('x'));
    assert!(!app.hide_localhost_conn);
    app.handle_key(KeyInput::Char('4'));
    assert_eq!(app.sort_column, 5);
    assert!(!app.sort_ascending);
    app.handle_key(KeyInput::Char('2'));
    assert_eq!(app.sort_column, 3);
    assert!(app.sort_ascending);
    app.handle_key(KeyInput::Char('a'));
    app.handle_key(KeyInput::Char('b'));
    assert_eq!(app.filter_text.as_str(), "ab");
    app.handle_key(KeyInput::Backspace);
    assert_eq!(app.filter_text.as_str(), "a");
    app.handle_key(KeyInput::Esc);
    assert_eq!(app.filter_text.as_str(), "");
    app.handle_key(KeyInput::Char('f'));
    assert_eq!(app.filter_text.as_str(), "");

    app.handle_key(KeyInput::Tab);
    assert_eq!(app.bottom_tab, BottomTab::Traffic);
    app.handle_key(KeyInput::Char('p'));
    assert!(app.traffic_tracker.paused);
    app.handle_key(KeyInput::Char('x'));
    assert!(!app.traffic_tracker.hide_localhost);
    app.handle_key(KeyInput::Char('f'));
    assert_eq!(app.traffic_tracker.filter_text.as_str(), "f");
    app.handle_key(KeyInput::Esc);
    app.handle_key(KeyInput::Char('c'));
    assert_eq!(app.traffic_tracker.log.len(), 0);

    app.traffic_tracker.scroll_offset = 5;
    app.handle_key(KeyInput::Up);
    assert_eq!(app.traffic_tracker.scroll_offset, 4);
    assert!(!app.traffic_tracker.auto_scroll);
    app.handle_key(KeyInput::Home);
    assert_eq!(app.traffic_tracker.scroll_offset, 0);
    app.handle_key(KeyInput::End);
    assert!(app.traffic_tracker.auto_scroll);
}

#[test]
fn app_filtered_connections_view() {
    let mut app = App::new(0, 0, String::from("eth0"));
    app.update(
        TimeOfDay::from_seconds(1),
        0,
        0,
        1000,
        String::from("eth0"),
        vec![conn(1, Some(TcpState::Established), "chrome.exe")],
        &Vec::new(),
        None,
    );
    app.filter_text = String::from("chrome");
    assert_eq!(app.filtered_connections().len(), 1);
    app.filter_text = String::from("zebra");
    assert_eq!(app.filtered_connections().len(), 0);
}
