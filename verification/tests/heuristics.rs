//! Port heuristics, byte-order helpers, labels, and display formats.

use netwatch_core::dns::port_service_name;
use netwatch_core::net::{ntohs, IpAddress};
use netwatch_core::sort::state_rank;
use netwatch_core::text::{format_bytes, format_size_compact, path_basename, str_contains, str_lex_le, to_lowercase, u64_to_string};
use netwatch_core::types::{ConnProto, Connection, TcpState};

fn conn_with_ports(local_port: u16, remote_port: Option<u16>) -> Connection {
    Connection {
        proto: ConnProto::Tcp,
        local_addr: IpAddress::V4(0x0A000001),
        local_port,
        remote_addr: remote_port.map(|_| IpAddress::V4(0x08080808)),
        remote_port,
        state: Some(TcpState::Established),
        pid: 100,
        process_name: String::from("app.exe"),
        dns_hostname: None,
    }
}

#[test]
fn outbound_ephemeral_to_https() {
    assert!(conn_with_ports(51000, Some(443)).is_outbound());
}

#[test]
fn not_outbound_server_side() {
    assert!(!conn_with_ports(80, Some(51234)).is_outbound());
}

#[test]
fn outbound_dynamic_local_port() {
    assert!(conn_with_ports(60000, Some(12345)).is_outbound());
}

#[test]
fn outbound_well_known_remote_any_local() {
    assert!(conn_with_ports(5, Some(443)).is_outbound());
    assert!(conn_with_ports(5, Some(3306)).is_outbound());
}

#[test]
fn not_outbound_without_remote_port() {
    assert!(!conn_with_ports(60000, None).is_outbound());
}

#[test]
fn ntohs_swaps_low_bytes() {
    assert_eq!(ntohs(0x0000BB01), 443);
    assert_eq!(ntohs(0x00005000), 80);
    assert_eq!(ntohs(0x00000000), 0);
    assert_eq!(ntohs(0xFFFF0102), 0x0201);
}

#[test]
fn port_service_labels() {
    assert_eq!(port_service_name(443), Some("HTTPS"));
    assert_eq!(port_service_name(22), Some("SSH"));
    assert_eq!(port_service_name(27017), Some("MongoDB"));
    assert_eq!(port_service_name(9999), None);
}

#[test]
fn state_ranks_order_states() {
    assert_eq!(state_rank(&Some(TcpState::Established)), 0);
    assert_eq!(state_rank(&Some(TcpState::Listen)), 9);
    assert_eq!(state_rank(&Some(TcpState::Unknown(77))), 12);
    assert_eq!(state_rank(&None), 13);
}

#[test]
fn tcp_state_from_raw_and_label() {
    assert_eq!(TcpState::from_raw(5), TcpState::Established);
    assert_eq!(TcpState::from_raw(2), TcpState::Listen);
    assert_eq!(TcpState::from_raw(99), TcpState::Unknown(99));
    assert_eq!(TcpState::Established.label(), "ESTABLISHED");
    assert_eq!(TcpState::Unknown(99).label(), "UNKNOWN");
    assert_eq!(ConnProto::Udp.label(), "UDP");
}

#[test]
fn bytes_format_rounds_like_display() {
    assert_eq!(format_bytes(512).as_str(), "512 B");
    assert_eq!(format_bytes(1024).as_str(), "1.0 KB");
    assert_eq!(format_bytes(1536).as_str(), "1.5 KB");
    assert_eq!(format_bytes(2000).as_str(), "2.0 KB");
    assert_eq!(format_bytes(1572864).as_str(), "1.50 MB");
    assert_eq!(format_bytes(1073741824).as_str(), "1.00 GB");
}

#[test]
fn compact_format() {
    assert_eq!(format_size_compact(100).as_str(), "100B");
    assert_eq!(format_size_compact(2048).as_str(), "2K");
    assert_eq!(format_size_compact(1900).as_str(), "2K");
    assert_eq!(format_size_compact(1572864).as_str(), "1.5M");
}

#[test]
fn decimal_rendering() {
    assert_eq!(u64_to_string(0).as_str(), "0");
    assert_eq!(u64_to_string(65535).as_str(), "65535");
}

#[test]
fn basename_of_image_path() {
    assert_eq!(path_basename("C:\\Windows\\System32\\svchost.exe").as_str(), "svchost.exe");
    assert_eq!(path_basename("plain.exe").as_str(), "plain.exe");
    assert_eq!(path_basename("dir\\").as_str(), "");
}

#[test]
fn lowercase_and_contains() {
    assert_eq!(to_lowercase("ChRoMe.EXE").as_str(), "chrome.exe");
    assert!(str_contains("chrome.exe", "rome"));
    assert!(!str_contains("chrome.exe", "firefox"));
    assert!(str_contains("anything", ""));
}

#[test]
fn lexicographic_order() {
    assert!(str_lex_le("abc", "abd"));
    assert!(str_lex_le("ab", "abc"));
    assert!(!str_lex_le("b", "abc"));
    assert!(str_lex_le("same", "same"));
}
