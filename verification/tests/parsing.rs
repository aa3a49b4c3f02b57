use ipecho::format::{format_ip, ip_line};
use ipecho::ip::IpAddress;
use ipecho::parse::parse_ip;

#[test]
fn parses_plain_v4() {
    assert_eq!(parse_ip(b"203.0.113.5"), Some(IpAddress::V4(203, 0, 113, 5)));
    assert_eq!(parse_ip(b"0.0.0.0"), Some(IpAddress::V4(0, 0, 0, 0)));
    assert_eq!(parse_ip(b"255.255.255.255"), Some(IpAddress::V4(255, 255, 255, 255)));
}

#[test]
fn rejects_bad_v4() {
    assert_eq!(parse_ip(b"256.0.0.1"), None);
    assert_eq!(parse_ip(b"01.2.3.4"), None);
    assert_eq!(parse_ip(b"1.2.3"), None);
    assert_eq!(parse_ip(b"1.2.3.4.5"), None);
    assert_eq!(parse_ip(b"1.2.3.4 "), None);
    assert_eq!(parse_ip(b" 1.2.3.4"), None);
    assert_eq!(parse_ip(b"1..2.3"), None);
    assert_eq!(parse_ip(b""), None);
    assert_eq!(parse_ip(b"not-an-ip"), None);
    assert_eq!(parse_ip(b"1234.0.0.1"), None);
}

#[test]
fn parses_plain_v6() {
    assert_eq!(
        parse_ip(b"2001:db8::1"),
        Some(IpAddress::V6(0x2001, 0xdb8, 0, 0, 0, 0, 0, 1))
    );
    assert_eq!(parse_ip(b"::"), Some(IpAddress::V6(0, 0, 0, 0, 0, 0, 0, 0)));
    assert_eq!(parse_ip(b"::1"), Some(IpAddress::V6(0, 0, 0, 0, 0, 0, 0, 1)));
    assert_eq!(
        parse_ip(b"1:2:3:4:5:6:7:8"),
        Some(IpAddress::V6(1, 2, 3, 4, 5, 6, 7, 8))
    );
    assert_eq!(
        parse_ip(b"fe80::"),
        Some(IpAddress::V6(0xfe80, 0, 0, 0, 0, 0, 0, 0))
    );
    assert_eq!(
        parse_ip(b"1:2:3:4:5:6:7::"),
        Some(IpAddress::V6(1, 2, 3, 4, 5, 6, 7, 0))
    );
    assert_eq!(
        parse_ip(b"::1:2:3:4:5:6:7"),
        Some(IpAddress::V6(0, 1, 2, 3, 4, 5, 6, 7))
    );
}

#[test]
fn parses_v6_uppercase_hex() {
    assert_eq!(
        parse_ip(b"2001:DB8::A"),
        Some(IpAddress::V6(0x2001, 0xdb8, 0, 0, 0, 0, 0, 0xa))
    );
}

#[test]
fn parses_v6_with_embedded_v4_tail() {
    assert_eq!(
        parse_ip(b"::ffff:192.0.2.128"),
        Some(IpAddress::V6(0, 0, 0, 0, 0, 0xffff, 0xc000, 0x0280))
    );
    assert_eq!(
        parse_ip(b"1:2:3:4:5:6:7.8.9.10"),
        Some(IpAddress::V6(1, 2, 3, 4, 5, 6, 0x0708, 0x090a))
    );
}

#[test]
fn rejects_bad_v6() {
    assert_eq!(parse_ip(b":::"), None);
    assert_eq!(parse_ip(b"1::2::3"), None);
    assert_eq!(parse_ip(b"12345::"), None);
    assert_eq!(parse_ip(b"1:2:3:4:5:6:7:8:9"), None);
    assert_eq!(parse_ip(b"1:2:3:4:5:6:7"), None);
    assert_eq!(parse_ip(b"1:2:3:4:5:6:7:8::"), None);
    assert_eq!(parse_ip(b"::ffff:1.2.3.4.5"), None);
    assert_eq!(parse_ip(b"1.2.3.4::"), None);
    assert_eq!(parse_ip(b"2001:db8::1%eth0"), None);
    assert_eq!(parse_ip(b"g::1"), None);
}

#[test]
fn formats_v4() {
    assert_eq!(format_ip(&IpAddress::V4(203, 0, 113, 5)), b"203.0.113.5".to_vec());
    assert_eq!(format_ip(&IpAddress::V4(0, 0, 0, 0)), b"0.0.0.0".to_vec());
    assert_eq!(format_ip(&IpAddress::V4(255, 255, 255, 255)), b"255.255.255.255".to_vec());
}

#[test]
fn formats_v6_with_compression() {
    assert_eq!(
        format_ip(&IpAddress::V6(0x2001, 0xdb8, 0, 0, 0, 0, 0, 1)),
        b"2001:db8::1".to_vec()
    );
    assert_eq!(format_ip(&IpAddress::V6(0, 0, 0, 0, 0, 0, 0, 0)), b"::".to_vec());
    assert_eq!(format_ip(&IpAddress::V6(0, 0, 0, 0, 0, 0, 0, 1)), b"::1".to_vec());
    assert_eq!(
        format_ip(&IpAddress::V6(0xfe80, 0, 0, 0, 0, 0, 0, 0)),
        b"fe80::".to_vec()
    );
}

#[test]
fn formats_v6_leftmost_longest_run() {
    assert_eq!(
        format_ip(&IpAddress::V6(1, 0, 0, 2, 0, 0, 3, 4)),
        b"1::2:0:0:3:4".to_vec()
    );
    assert_eq!(
        format_ip(&IpAddress::V6(1, 0, 0, 2, 0, 0, 0, 3)),
        b"1:0:0:2::3".to_vec()
    );
}

#[test]
fn formats_v6_single_zero_uncompressed() {
    assert_eq!(
        format_ip(&IpAddress::V6(1, 0, 2, 3, 4, 5, 6, 7)),
        b"1:0:2:3:4:5:6:7".to_vec()
    );
}

#[test]
fn formats_v4_mapped() {
    assert_eq!(
        format_ip(&IpAddress::V6(0, 0, 0, 0, 0, 0xffff, 0xc000, 0x0280)),
        b"::ffff:192.0.2.128".to_vec()
    );
}

#[test]
fn format_then_parse_round_trips() {
    let samples = [
        IpAddress::V4(203, 0, 113, 5),
        IpAddress::V6(0x2001, 0xdb8, 0, 0, 0, 0, 0, 1),
        IpAddress::V6(0, 0, 0, 0, 0, 0, 0, 0),
        IpAddress::V6(0, 0, 0, 0, 0, 0xffff, 0xc000, 0x0280),
        IpAddress::V6(1, 0, 0, 2, 0, 0, 3, 4),
    ];
    for ip in samples {
        assert_eq!(parse_ip(&format_ip(&ip)), Some(ip));
    }
}

#[test]
fn ip_line_appends_newline() {
    assert_eq!(ip_line(&IpAddress::V4(203, 0, 113, 5)), "203.0.113.5\n");
    assert_eq!(ip_line(&IpAddress::V6(0x2001, 0xdb8, 0, 0, 0, 0, 0, 1)), "2001:db8::1\n");
}
