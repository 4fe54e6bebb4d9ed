//! The reverse-DNS cache, address text, and the fallback parser.

use netwatch_core::dns::{parse_displaydns, DnsCache};
use netwatch_core::net::{ip_text, ipv6_text, parse_ipv4, parse_ipv6, IpAddress};

const GOOGLE: u32 = 0x8EFA502E; // 142.250.80.46

#[test]
fn first_writer_wins() {
    let mut c = DnsCache::new();
    c.record(IpAddress::V4(GOOGLE), String::from("first.example"));
    c.record(IpAddress::V4(GOOGLE), String::from("second.example"));
    assert_eq!(
        c.lookup(IpAddress::V4(GOOGLE)).as_deref(),
        Some("first.example")
    );
    assert_eq!(c.len(), 1);
}

#[test]
fn merge_keeps_earliest_observation() {
    let mut c = DnsCache::new();
    let obs = vec![
        (IpAddress::V4(1), String::from("one.example")),
        (IpAddress::V4(2), String::from("two.example")),
        (IpAddress::V4(1), String::from("later.example")),
    ];
    c.merge(&obs);
    assert_eq!(c.lookup(IpAddress::V4(1)).as_deref(), Some("one.example"));
    assert_eq!(c.lookup(IpAddress::V4(2)).as_deref(), Some("two.example"));
    assert!(c.lookup(IpAddress::V4(3)).is_none());
    // A later batch never overwrites.
    c.merge(&vec![(IpAddress::V4(2), String::from("new.example"))]);
    assert_eq!(c.lookup(IpAddress::V4(2)).as_deref(), Some("two.example"));
}

#[test]
fn displaydns_output_parses() {
    let lines: Vec<String> = [
        "",
        "Windows IP Configuration",
        "",
        "    www.google.com",
        "    ----------------------------------------",
        "    Record Name . . . . . : www.google.com",
        "    Record Type . . . . . : 1",
        "    Time To Live  . . . . : 120",
        "    A (Host) Record . . . : 142.250.80.46",
        "",
        "    Record Name . . . . . : example.com",
        "    AAAA Record . . . . . : 2606:2800:220:1:248:1893:25c8:1946",
        "",
        "    Record Name . . . . . : .",
        "    A (Host) Record . . . : 1.2.3.4",
    ]
    .iter()
    .map(|s| String::from(*s))
    .collect();
    let obs = parse_displaydns(&lines);
    assert_eq!(obs.len(), 3);
    assert_eq!(obs[0].0, IpAddress::V4(GOOGLE));
    assert_eq!(obs[0].1.as_str(), "www.google.com");
    assert_eq!(
        obs[1].0,
        IpAddress::V6(0x2606_2800_0220_0001_0248_1893_25c8_1946)
    );
    assert_eq!(obs[1].1.as_str(), "example.com");
    // The bare root name does not become the current name, so the
    // following record still binds to the one before it.
    assert_eq!(obs[2].0, IpAddress::V4(0x01020304));
    assert_eq!(obs[2].1.as_str(), "example.com");
}

#[test]
fn ipv4_text_round_trip() {
    assert_eq!(ip_text(&IpAddress::V4(GOOGLE)).as_str(), "142.250.80.46");
    assert_eq!(parse_ipv4("142.250.80.46"), Some(GOOGLE));
    assert_eq!(parse_ipv4("0.0.0.0"), Some(0));
    assert_eq!(parse_ipv4("255.255.255.255"), Some(u32::MAX));
    assert_eq!(parse_ipv4("256.1.1.1"), None);
    assert_eq!(parse_ipv4("01.2.3.4"), None);
    assert_eq!(parse_ipv4("1.2.3"), None);
    assert_eq!(parse_ipv4("1.2.3.4.5"), None);
    assert_eq!(parse_ipv4(""), None);
}

#[test]
fn ipv6_text_compresses_zero_runs() {
    assert_eq!(ipv6_text(1).as_str(), "::1");
    assert_eq!(ipv6_text(0).as_str(), "::");
    assert_eq!(ipv6_text(0x2001_0db8_0000_0000_0000_0000_0000_0001).as_str(), "2001:db8::1");
    assert_eq!(
        ipv6_text(0x2606_2800_0220_0001_0248_1893_25c8_1946).as_str(),
        "2606:2800:220:1:248:1893:25c8:1946"
    );
    // The first of two equal-length zero runs is compressed.
    assert_eq!(ipv6_text(0x0001_0000_0000_0002_0003_0000_0000_0004).as_str(), "1::2:3:0:0:4");
    // A v4-mapped address shows its dotted tail.
    assert_eq!(ipv6_text(0x0000_0000_0000_0000_0000_ffff_0102_0304).as_str(), "::ffff:1.2.3.4");
}

#[test]
fn ipv6_parse_accepts_standard_forms() {
    assert_eq!(parse_ipv6("::"), Some(0));
    assert_eq!(parse_ipv6("::1"), Some(1));
    assert_eq!(parse_ipv6("1::"), Some(0x0001_0000_0000_0000_0000_0000_0000_0000));
    assert_eq!(
        parse_ipv6("2606:2800:220:1:248:1893:25c8:1946"),
        Some(0x2606_2800_0220_0001_0248_1893_25c8_1946)
    );
    assert_eq!(parse_ipv6("2001:db8::1"), Some(0x2001_0db8_0000_0000_0000_0000_0000_0001));
    assert_eq!(parse_ipv6("1::2::3"), None);
    assert_eq!(parse_ipv6("1:2:3:4:5:6:7"), None);
    assert_eq!(parse_ipv6("1:2:3:4:5:6:7:8:9"), None);
    assert_eq!(parse_ipv6("12345::"), None);
    assert_eq!(parse_ipv6(":1::2"), None);
    assert_eq!(parse_ipv6("1:"), None);
    assert_eq!(parse_ipv6(""), None);
}
