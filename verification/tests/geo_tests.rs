use garroute::geo::geo_from_json;

#[test]
fn full_payload_fills_every_field() {
    let body = r#"{"city":"Anytown","country":"US","region":"Oregon","org":"AS0 Example","loc":"44.0,-123.0"}"#;
    let g = geo_from_json(body);
    assert_eq!(g.city.as_deref(), Some("Anytown"));
    assert_eq!(g.country.as_deref(), Some("US"));
    assert_eq!(g.region.as_deref(), Some("Oregon"));
    assert_eq!(g.org.as_deref(), Some("AS0 Example"));
    assert_eq!(g.location.as_deref(), Some("44.0,-123.0"));
}

#[test]
fn partial_payload_leaves_missing_fields_absent() {
    let body = r#"{"city":"Anytown","org":"AS0 Example"}"#;
    let g = geo_from_json(body);
    assert_eq!(g.city.as_deref(), Some("Anytown"));
    assert_eq!(g.country, None);
    assert_eq!(g.region, None);
    assert_eq!(g.org.as_deref(), Some("AS0 Example"));
    assert_eq!(g.location, None);
}

#[test]
fn malformed_payload_leaves_everything_absent() {
    let g = geo_from_json("rate limit exceeded");
    assert_eq!(g.city, None);
    assert_eq!(g.country, None);
    assert_eq!(g.region, None);
    assert_eq!(g.org, None);
    assert_eq!(g.location, None);
}

#[test]
fn non_string_member_is_treated_as_absent() {
    let body = r#"{"city":42,"country":["US"],"org":"AS0 Example"}"#;
    let g = geo_from_json(body);
    assert_eq!(g.city, None);
    assert_eq!(g.country, None);
    assert_eq!(g.org.as_deref(), Some("AS0 Example"));
}

#[test]
fn non_object_payload_leaves_everything_absent() {
    let g = geo_from_json(r#"["Anytown","US"]"#);
    assert_eq!(g.city, None);
    assert_eq!(g.country, None);
    assert_eq!(g.region, None);
    assert_eq!(g.org, None);
    assert_eq!(g.location, None);
}
