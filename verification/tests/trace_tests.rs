use garroute::addr::Ipv4;
use garroute::geo::GeoInfo;
use garroute::trace::Tracer;

fn no_geo() -> GeoInfo {
    GeoInfo { city: None, country: None, region: None, org: None, location: None }
}

fn full_geo() -> GeoInfo {
    GeoInfo {
        city: Some("Springfield".to_string()),
        country: Some("US".to_string()),
        region: Some("Oregon".to_string()),
        org: Some("AS0 Example".to_string()),
        location: Some("44.0,-123.0".to_string()),
    }
}

#[test]
fn all_timeouts_give_thirty_sentinel_hops() {
    let dest = Ipv4 { a: 203, b: 0, c: 113, d: 9 };
    let mut t = Tracer::new(dest);
    while !t.done {
        t.record_timeout();
    }
    assert_eq!(t.hops.len(), 30);
    for (i, hop) in t.hops.iter().enumerate() {
        assert_eq!(hop.hop, (i + 1) as u32);
        assert_eq!(hop.ip_address, "***");
        assert_eq!(hop.hostname, "***");
        assert_eq!(hop.duration, 0);
        assert_eq!(hop.city, "***");
        assert_eq!(hop.country, "***");
        assert_eq!(hop.region, "***");
        assert_eq!(hop.org, "***");
        assert_eq!(hop.location, "***");
    }
}

#[test]
fn destination_at_first_hop_ends_the_trace() {
    let dest = Ipv4 { a: 192, b: 168, c: 1, d: 1 };
    let mut t = Tracer::new(dest);
    assert_eq!(t.next_hop(), 1);
    t.record_reply(dest, 1_500_000, Some("router.local".to_string()), no_geo());
    assert!(t.done);
    assert_eq!(t.hops.len(), 1);
    assert_eq!(t.hops[0].hop, 1);
    assert_eq!(t.hops[0].ip_address, "192.168.1.1");
    assert_eq!(t.hops[0].hostname, "router.local");
    assert_eq!(t.hops[0].duration, 1_500_000);
}

#[test]
fn single_reply_then_timeouts_runs_whole_budget() {
    let dest = Ipv4 { a: 198, b: 51, c: 100, d: 77 };
    let router = Ipv4 { a: 10, b: 0, c: 0, d: 1 };
    let mut t = Tracer::new(dest);
    t.record_timeout();
    assert_eq!(t.next_hop(), 2);
    t.record_reply(router, 900, None, no_geo());
    assert!(!t.done);
    while !t.done {
        t.record_timeout();
    }
    assert_eq!(t.hops.len(), 30);
    for (i, hop) in t.hops.iter().enumerate() {
        assert_eq!(hop.hop, (i + 1) as u32);
        if i == 1 {
            assert_eq!(hop.ip_address, "10.0.0.1");
            assert_eq!(hop.duration, 900);
        } else {
            assert_eq!(hop.ip_address, "***");
            assert_eq!(hop.duration, 0);
        }
    }
}

#[test]
fn intermediate_routers_then_destination() {
    let dest = Ipv4 { a: 8, b: 8, c: 8, d: 8 };
    let r1 = Ipv4 { a: 10, b: 0, c: 0, d: 1 };
    let r2 = Ipv4 { a: 172, b: 16, c: 5, d: 200 };
    let mut t = Tracer::new(dest);
    t.record_reply(r1, 100, None, no_geo());
    assert!(!t.done);
    t.record_reply(r2, 200, None, no_geo());
    assert!(!t.done);
    t.record_reply(dest, 300, None, no_geo());
    assert!(t.done);
    assert_eq!(t.hops.len(), 3);
    assert_eq!(t.hops[0].ip_address, "10.0.0.1");
    assert_eq!(t.hops[1].ip_address, "172.16.5.200");
    assert_eq!(t.hops[2].ip_address, "8.8.8.8");
    assert_eq!(t.hops[0].hop, 1);
    assert_eq!(t.hops[1].hop, 2);
    assert_eq!(t.hops[2].hop, 3);
}

#[test]
fn enrichment_never_alters_address_or_rtt() {
    let dest = Ipv4 { a: 8, b: 8, c: 4, d: 4 };
    let router = Ipv4 { a: 10, b: 1, c: 2, d: 3 };

    let mut bare = Tracer::new(dest);
    bare.record_reply(router, 4242, None, no_geo());

    let mut rich = Tracer::new(dest);
    rich.record_reply(router, 4242, Some("gw.example".to_string()), full_geo());

    assert_eq!(bare.hops[0].ip_address, rich.hops[0].ip_address);
    assert_eq!(bare.hops[0].duration, rich.hops[0].duration);
    assert_eq!(bare.hops[0].hop, rich.hops[0].hop);
    assert_eq!(bare.hops[0].city, "***");
    assert_eq!(rich.hops[0].city, "Springfield");
    assert_eq!(rich.hops[0].country, "US");
    assert_eq!(rich.hops[0].region, "Oregon");
    assert_eq!(rich.hops[0].org, "AS0 Example");
    assert_eq!(rich.hops[0].location, "44.0,-123.0");
}

#[test]
fn reply_at_last_hop_spends_the_budget() {
    let dest = Ipv4 { a: 203, b: 0, c: 113, d: 1 };
    let router = Ipv4 { a: 10, b: 9, c: 9, d: 9 };
    let mut t = Tracer::new(dest);
    for _ in 0..29 {
        t.record_timeout();
    }
    assert!(!t.done);
    assert_eq!(t.next_hop(), 30);
    t.record_reply(router, 5, None, no_geo());
    assert!(t.done);
    assert_eq!(t.hops.len(), 30);
    assert_eq!(t.hops[29].ip_address, "10.9.9.9");
}
