use garroute::addr::{dec_str, format_ipv4, parse_ipv4, Ipv4};

fn quad(a: u8, b: u8, c: u8, d: u8) -> Ipv4 {
    Ipv4 { a, b, c, d }
}

#[test]
fn dec_str_exact_values() {
    assert_eq!(dec_str(0), "0");
    assert_eq!(dec_str(7), "7");
    assert_eq!(dec_str(10), "10");
    assert_eq!(dec_str(255), "255");
    assert_eq!(dec_str(1000), "1000");
    assert_eq!(dec_str(987654321), "987654321");
}

#[test]
fn format_dotted_quad() {
    assert_eq!(format_ipv4(quad(192, 168, 0, 1)), "192.168.0.1");
    assert_eq!(format_ipv4(quad(0, 0, 0, 0)), "0.0.0.0");
    assert_eq!(format_ipv4(quad(255, 255, 255, 255)), "255.255.255.255");
    assert_eq!(format_ipv4(quad(8, 8, 8, 8)), "8.8.8.8");
}

#[test]
fn parse_accepts_canonical_text() {
    assert_eq!(parse_ipv4("1.2.3.4"), Some(quad(1, 2, 3, 4)));
    assert_eq!(parse_ipv4("0.0.0.0"), Some(quad(0, 0, 0, 0)));
    assert_eq!(parse_ipv4("255.255.255.255"), Some(quad(255, 255, 255, 255)));
    assert_eq!(parse_ipv4("10.0.200.35"), Some(quad(10, 0, 200, 35)));
}

#[test]
fn parse_rejects_malformed_text() {
    assert_eq!(parse_ipv4(""), None);
    assert_eq!(parse_ipv4("1.2.3"), None);
    assert_eq!(parse_ipv4("1.2.3.4.5"), None);
    assert_eq!(parse_ipv4("1.2.3."), None);
    assert_eq!(parse_ipv4(".1.2.3"), None);
    assert_eq!(parse_ipv4("1..2.3"), None);
    assert_eq!(parse_ipv4("256.1.1.1"), None);
    assert_eq!(parse_ipv4("1.2.3.999"), None);
    assert_eq!(parse_ipv4("01.2.3.4"), None);
    assert_eq!(parse_ipv4("1.2.3.00"), None);
    assert_eq!(parse_ipv4("a.b.c.d"), None);
    assert_eq!(parse_ipv4("1.2.3.4 "), None);
    assert_eq!(parse_ipv4("1234.5.6.7"), None);
}

#[test]
fn parse_format_round_trip() {
    let samples = [
        quad(0, 0, 0, 0),
        quad(127, 0, 0, 1),
        quad(10, 99, 200, 255),
        quad(255, 0, 7, 13),
    ];
    for x in samples {
        assert_eq!(parse_ipv4(&format_ipv4(x)), Some(x));
    }
}
