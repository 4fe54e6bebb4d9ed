//! Packet parsing, snippet extraction, and the bounded snippet ring.

use netwatch_core::clock::TimeOfDay;
use netwatch_core::net::IpAddress;
use netwatch_core::sniffer::{extract_best_snippet, parse_packet, PacketSniffer};
use netwatch_core::types::{ConnProto, PacketDirection, PacketSnippet};

const LOCAL_IP: u32 = 0x0A000001; // 10.0.0.1

fn at(s: u32) -> TimeOfDay {
    TimeOfDay::from_seconds(s)
}

/// An IPv4/TCP packet with a 20-byte IP header, a 20-byte TCP header,
/// and the given payload.
fn tcp_packet(src: [u8; 4], dst: [u8; 4], src_port: u16, dst_port: u16, payload: &[u8]) -> Vec<u8> {
    let mut pkt = vec![0u8; 40];
    pkt[0] = 0x45;
    pkt[9] = 6;
    pkt[12..16].copy_from_slice(&src);
    pkt[16..20].copy_from_slice(&dst);
    pkt[20] = (src_port >> 8) as u8;
    pkt[21] = (src_port & 0xFF) as u8;
    pkt[22] = (dst_port >> 8) as u8;
    pkt[23] = (dst_port & 0xFF) as u8;
    pkt[32] = 0x50; // data offset: five 32-bit words
    pkt.extend_from_slice(payload);
    pkt
}

fn udp_packet(src: [u8; 4], dst: [u8; 4], payload: &[u8]) -> Vec<u8> {
    let mut pkt = vec![0u8; 28];
    pkt[0] = 0x45;
    pkt[9] = 17;
    pkt[12..16].copy_from_slice(&src);
    pkt[16..20].copy_from_slice(&dst);
    pkt[20] = 0x30;
    pkt[21] = 0x39; // source port 12345
    pkt[22] = 0x00;
    pkt[23] = 0x35; // destination port 53
    pkt.extend_from_slice(payload);
    pkt
}

#[test]
fn http_request_yields_snippet() {
    let payload = b"GET / HTTP/1.1\r\nHost: example.com\r\n\r\n";
    let pkt = tcp_packet([10, 0, 0, 1], [93, 184, 216, 34], 55000, 80, payload);
    let snip = parse_packet(&pkt, LOCAL_IP, at(9)).expect("readable payload");
    assert!(snip.snippet.as_str().starts_with("GET / HTTP/1.1"));
    assert_eq!(snip.snippet.as_str(), "GET / HTTP/1.1 | Host: example.com");
    assert_eq!(snip.direction, PacketDirection::Outbound);
    assert_eq!(snip.payload_size, payload.len());
    assert_eq!(snip.src_port, 55000);
    assert_eq!(snip.dst_port, 80);
    assert_eq!(snip.protocol, ConnProto::Tcp);
    assert_eq!(snip.src_ip, IpAddress::V4(LOCAL_IP));
}

#[test]
fn inbound_when_source_differs_from_local() {
    let payload = b"HTTP/1.1 200 OK\r\nContent-Type: text/html\r\n\r\n";
    let pkt = tcp_packet([93, 184, 216, 34], [10, 0, 0, 1], 80, 55000, payload);
    let snip = parse_packet(&pkt, LOCAL_IP, at(9)).expect("readable payload");
    assert_eq!(snip.direction, PacketDirection::Inbound);
}

#[test]
fn unreadable_payload_yields_nothing() {
    // A long printable run whose characters are all outside the
    // readability classes fails the 40% check.
    let payload = [0x7Eu8; 32];
    let pkt = udp_packet([8, 8, 8, 8], [10, 0, 0, 1], &payload);
    assert!(parse_packet(&pkt, LOCAL_IP, at(9)).is_none());
}

#[test]
fn high_entropy_payload_yields_nothing() {
    let mut payload = [0u8; 64];
    let mut x: u32 = 0x12345678;
    for b in payload.iter_mut() {
        x = x.wrapping_mul(1103515245).wrapping_add(12345);
        *b = 0x80 | (x >> 24) as u8;
    }
    let pkt = udp_packet([8, 8, 8, 8], [10, 0, 0, 1], &payload);
    assert!(parse_packet(&pkt, LOCAL_IP, at(9)).is_none());
}

#[test]
fn short_packet_dropped() {
    let pkt = [0x45u8; 19];
    assert!(parse_packet(&pkt, LOCAL_IP, at(9)).is_none());
}

#[test]
fn non_ipv4_dropped() {
    let mut pkt = tcp_packet([10, 0, 0, 1], [8, 8, 8, 8], 1, 2, b"GET / HTTP/1.1\r\n");
    pkt[0] = 0x60;
    assert!(parse_packet(&pkt, LOCAL_IP, at(9)).is_none());
}

#[test]
fn truncated_tcp_dropped() {
    // IHL + 20 exceeds the packet length.
    let mut pkt = vec![0u8; 30];
    pkt[0] = 0x45;
    pkt[9] = 6;
    assert!(parse_packet(&pkt, LOCAL_IP, at(9)).is_none());
}

#[test]
fn empty_payload_dropped() {
    let pkt = tcp_packet([10, 0, 0, 1], [8, 8, 8, 8], 1, 2, b"");
    assert!(parse_packet(&pkt, LOCAL_IP, at(9)).is_none());
}

#[test]
fn offset_past_end_dropped() {
    let mut pkt = tcp_packet([10, 0, 0, 1], [8, 8, 8, 8], 1, 2, b"GET / HTTP/1.1\r\n");
    pkt[32] = 0xF0; // a 60-byte TCP header puts the payload past the end
    assert!(parse_packet(&pkt, LOCAL_IP, at(9)).is_none());
}

#[test]
fn loopback_to_loopback_dropped() {
    let pkt = tcp_packet([127, 0, 0, 1], [127, 0, 0, 1], 1, 2, b"GET / HTTP/1.1\r\n");
    assert!(parse_packet(&pkt, 0x7F000001, at(9)).is_none());
}

#[test]
fn snippet_prefers_readable_run() {
    // Two runs; the longer, more word-like one wins.
    let mut data: Vec<u8> = Vec::new();
    data.extend_from_slice(b"abcdef");
    data.push(0x00);
    data.extend_from_slice(b"hello world from a readable stream");
    let s = extract_best_snippet(&data, 200);
    assert_eq!(s.as_str(), "hello world from a readable stream");
}

#[test]
fn snippet_capped_at_max_len() {
    let data = [b'a'; 400];
    let s = extract_best_snippet(&data, 200);
    assert_eq!(s.as_str().len(), 200);
}

#[test]
fn no_run_of_six_gives_nothing() {
    let data = b"ab\x00cd\x00ef";
    assert_eq!(extract_best_snippet(data, 200).as_str(), "");
}

fn snippet_named(tag: &str) -> PacketSnippet {
    PacketSnippet {
        timestamp: at(1),
        direction: PacketDirection::Inbound,
        src_ip: IpAddress::V4(0x08080808),
        dst_ip: IpAddress::V4(LOCAL_IP),
        src_port: 53,
        dst_port: 40000,
        protocol: ConnProto::Udp,
        snippet: String::from(tag),
        payload_size: tag.len(),
    }
}

#[test]
fn ring_evicts_oldest() {
    let mut s = PacketSniffer::new(3);
    for tag in ["A", "B", "C", "D", "E"] {
        s.accept(snippet_named(tag));
    }
    assert_eq!(s.snippets.len(), 3);
    let recent = s.recent(10);
    let tags: Vec<&str> = recent.iter().map(|p| p.snippet.as_str()).collect();
    assert_eq!(tags, ["C", "D", "E"]);
    let two = s.recent(2);
    let tags2: Vec<&str> = two.iter().map(|p| p.snippet.as_str()).collect();
    assert_eq!(tags2, ["D", "E"]);
}

#[test]
fn drain_skips_past_evictions() {
    let mut s = PacketSniffer::new(3);
    for tag in ["A", "B", "C"] {
        s.accept(snippet_named(tag));
    }
    let first: Vec<String> = s.drain_new().into_iter().map(|p| p.snippet).collect();
    assert_eq!(first, ["A", "B", "C"]);
    for tag in ["D", "E", "F"] {
        s.accept(snippet_named(tag));
    }
    let second: Vec<String> = s.drain_new().into_iter().map(|p| p.snippet).collect();
    assert_eq!(second, ["D", "E", "F"]);
    assert!(s.drain_new().is_empty());
}

#[test]
fn error_slot_round_trips() {
    let mut s = PacketSniffer::new(3);
    assert!(s.get_error().is_none());
    s.set_error("Raw socket creation failed (run as Administrator)");
    assert_eq!(
        s.get_error().as_deref(),
        Some("Raw socket creation failed (run as Administrator)")
    );
    s.clear_error();
    assert!(s.get_error().is_none());
    s.set_active(true);
    assert!(s.is_active());
    s.set_active(false);
    assert!(!s.is_active());
    assert!(s.start());
    assert!(!s.start());
    assert!(s.is_active());
    s.stop();
    assert!(!s.is_active());
}
