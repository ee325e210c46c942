use garroute::args::{args_usable, GarRouteArgs};

#[test]
fn neither_input_is_a_usage_error() {
    let args = GarRouteArgs { ip: None, domain: None };
    assert!(!args_usable(&args));
}

#[test]
fn both_inputs_are_a_usage_error() {
    let args = GarRouteArgs {
        ip: Some("1.2.3.4".to_string()),
        domain: Some("example.com".to_string()),
    };
    assert!(!args_usable(&args));
}

#[test]
fn address_alone_is_usable() {
    let args = GarRouteArgs { ip: Some("1.2.3.4".to_string()), domain: None };
    assert!(args_usable(&args));
}

#[test]
fn domain_alone_is_usable() {
    let args = GarRouteArgs { ip: None, domain: Some("example.com".to_string()) };
    assert!(args_usable(&args));
}
