use garroute::addr::Ipv4;
use garroute::geo::GeoInfo;
use garroute::render::render_rows;
use garroute::trace::Tracer;

#[test]
fn all_timeouts_render_as_thirty_one_rows_with_zero_durations() {
    let dest = Ipv4 { a: 203, b: 0, c: 113, d: 9 };
    let mut t = Tracer::new(dest);
    while !t.done {
        t.record_timeout();
    }
    let rows = render_rows(&t.hops);
    assert_eq!(rows.len(), 31);
    for row in rows.iter().skip(1) {
        assert_eq!(row[3], "0");
        assert_eq!(row[1], "***");
    }
}

#[test]
fn header_names_the_nine_columns() {
    let hops = Vec::new();
    let rows = render_rows(&hops);
    assert_eq!(rows.len(), 1);
    assert_eq!(
        rows[0],
        vec!["hop", "ip_address", "hostname", "duration", "city", "country", "region", "org",
            "location"]
    );
}

#[test]
fn populated_hop_renders_its_fields() {
    let dest = Ipv4 { a: 8, b: 8, c: 8, d: 8 };
    let mut t = Tracer::new(dest);
    t.record_reply(
        dest,
        2_000_000,
        Some("dns.example".to_string()),
        GeoInfo {
            city: Some("Anytown".to_string()),
            country: Some("US".to_string()),
            region: None,
            org: None,
            location: None,
        },
    );
    let rows = render_rows(&t.hops);
    assert_eq!(rows.len(), 2);
    let row = &rows[1];
    assert_eq!(row[0], "1");
    assert_eq!(row[1], "8.8.8.8");
    assert_eq!(row[2], "dns.example");
    assert_eq!(row[3], "2000000");
    assert_eq!(row[4], "Anytown");
    assert_eq!(row[5], "US");
    assert_eq!(row[6], "***");
    assert_eq!(row[7], "***");
    assert_eq!(row[8], "***");
}
