//! Tests for the strict dotted-quad parser.

use docker_directory::ip::{parse_ipv4, Ipv4};

fn ip(a: u8, b: u8, c: u8, d: u8) -> Ipv4 {
    Ipv4 { a, b, c, d }
}

#[test]
fn parses_plain_addresses() {
    assert_eq!(parse_ipv4("1.2.3.4"), Some(ip(1, 2, 3, 4)));
    assert_eq!(parse_ipv4("192.168.0.1"), Some(ip(192, 168, 0, 1)));
    assert_eq!(parse_ipv4("10.0.0.2"), Some(ip(10, 0, 0, 2)));
}

#[test]
fn parses_extreme_octets() {
    assert_eq!(parse_ipv4("0.0.0.0"), Some(ip(0, 0, 0, 0)));
    assert_eq!(parse_ipv4("255.255.255.255"), Some(ip(255, 255, 255, 255)));
    assert_eq!(parse_ipv4("0.255.0.255"), Some(ip(0, 255, 0, 255)));
}

#[test]
fn rejects_empty_and_truncated() {
    assert_eq!(parse_ipv4(""), None);
    assert_eq!(parse_ipv4("1"), None);
    assert_eq!(parse_ipv4("1.2.3"), None);
    assert_eq!(parse_ipv4("1.2.3."), None);
    assert_eq!(parse_ipv4(".1.2.3.4"), None);
}

#[test]
fn rejects_extra_parts_and_garbage() {
    assert_eq!(parse_ipv4("1.2.3.4.5"), None);
    assert_eq!(parse_ipv4("1.2.3.4."), None);
    assert_eq!(parse_ipv4("1..2.3"), None);
    assert_eq!(parse_ipv4("a.b.c.d"), None);
    assert_eq!(parse_ipv4("1.2.3.d"), None);
    assert_eq!(parse_ipv4(" 1.2.3.4"), None);
    assert_eq!(parse_ipv4("1.2.3.4 "), None);
    assert_eq!(parse_ipv4("-1.2.3.4"), None);
}

#[test]
fn rejects_octets_over_255() {
    assert_eq!(parse_ipv4("256.1.1.1"), None);
    assert_eq!(parse_ipv4("1.2.3.999"), None);
    assert_eq!(parse_ipv4("1234.1.1.1"), None);
}

#[test]
fn rejects_leading_zeros() {
    assert_eq!(parse_ipv4("01.2.3.4"), None);
    assert_eq!(parse_ipv4("00.1.2.3"), None);
    assert_eq!(parse_ipv4("1.2.3.04"), None);
    assert_eq!(parse_ipv4("010.2.3.4"), None);
}
