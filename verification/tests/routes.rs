use cczuvpnproto::cli::commands::{bootstrap_policy_rule_args, route_cidr};
use cczuvpnproto::cli::routes::{
    netmask_to_prefix, normalize_network, parse_split_tunnel_route, prefix_to_netmask,
    route_contains, RouteError, WindowsRoute,
};
use cczuvpnproto::net::Ipv4Addr;

fn route(rule: &str) -> WindowsRoute {
    parse_split_tunnel_route(rule)
        .expect("route should parse")
        .expect("IPv4 route should be retained")
}

fn refusal(rule: &str) -> String {
    parse_split_tunnel_route(rule)
        .expect_err("rule should be refused")
        .message()
}

#[test]
fn parses_and_normalizes_split_tunnel_rule() {
    let route = parse_split_tunnel_route("tcp;10.22.1.99/24;443")
        .expect("route should parse")
        .expect("IPv4 route should be retained");

    assert_eq!(route.destination, Ipv4Addr::new(10, 22, 1, 0));
    assert_eq!(route.netmask, Ipv4Addr::new(255, 255, 255, 0));
}

#[test]
fn parses_host_routes_and_skips_ipv6_rules() {
    let route = parse_split_tunnel_route("10.22.1.99")
        .expect("route should parse")
        .expect("IPv4 route should be retained");
    assert_eq!(route.netmask, Ipv4Addr::new(255, 255, 255, 255));

    assert_eq!(
        parse_split_tunnel_route("2001:db8::1/64").expect("IPv6 rule should parse"),
        None
    );
}

#[test]
fn rejects_non_contiguous_netmasks() {
    assert!(netmask_to_prefix(Ipv4Addr::new(255, 0, 255, 0)).is_err());
}

#[test]
fn detects_proxy_inside_split_tunnel_route() {
    let route = parse_split_tunnel_route("211.65.64.0/20")
        .expect("route should parse")
        .expect("IPv4 route should be retained");
    assert!(route_contains(route, Ipv4Addr::new(211, 65, 64, 100)));
    assert!(!route_contains(route, Ipv4Addr::new(211, 65, 80, 1)));
}

#[test]
fn bootstrap_rule_only_bypasses_one_school_endpoint() {
    assert_eq!(
        bootstrap_policy_rule_args("add", Ipv4Addr::new(211, 65, 66, 99)),
        [
            "-4",
            "rule",
            "add",
            "priority",
            "7999",
            "to",
            "211.65.66.99/32",
            "lookup",
            "main",
        ]
    );
}

#[test]
fn masks_have_leading_ones() {
    assert_eq!(prefix_to_netmask(0).unwrap(), Ipv4Addr::new(0, 0, 0, 0));
    assert_eq!(prefix_to_netmask(1).unwrap(), Ipv4Addr::new(128, 0, 0, 0));
    assert_eq!(prefix_to_netmask(20).unwrap(), Ipv4Addr::new(255, 255, 240, 0));
    assert_eq!(prefix_to_netmask(32).unwrap(), Ipv4Addr::new(255, 255, 255, 255));
}

#[test]
fn prefix_above_thirty_two_is_refused() {
    let error = prefix_to_netmask(33).unwrap_err();
    assert!(matches!(error, RouteError::InvalidPrefix(33)));
    assert_eq!(error.message(), "invalid IPv4 prefix length: 33");
    assert_eq!(refusal("10.0.0.0/33"), "invalid IPv4 prefix length: 33");
}

#[test]
fn every_prefix_is_read_back_from_its_mask() {
    let mut prefix: u8 = 0;
    while prefix <= 32 {
        let mask = prefix_to_netmask(prefix).unwrap();
        assert_eq!(netmask_to_prefix(mask).unwrap(), prefix);
        prefix += 1;
    }
}

#[test]
fn gap_in_mask_is_named() {
    let error = netmask_to_prefix(Ipv4Addr::new(255, 0, 255, 0)).unwrap_err();
    assert_eq!(error.message(), "non-contiguous IPv4 netmask: 255.0.255.0");
}

#[test]
fn normalizing_twice_changes_nothing() {
    let mask = Ipv4Addr::new(255, 255, 240, 0);
    let once = normalize_network(Ipv4Addr::new(211, 65, 79, 255), mask);
    assert_eq!(once, Ipv4Addr::new(211, 65, 64, 0));
    assert_eq!(normalize_network(once, mask), once);
    assert!(route_contains(
        WindowsRoute { destination: once, netmask: mask },
        Ipv4Addr::new(211, 65, 79, 255)
    ));
}

#[test]
fn takes_a_mask_behind_the_slash() {
    let route = route("10.22.1.99/255.255.0.0");
    assert_eq!(route.destination, Ipv4Addr::new(10, 22, 0, 0));
    assert_eq!(route.netmask, Ipv4Addr::new(255, 255, 0, 0));
}

#[test]
fn keeps_a_mask_with_gaps() {
    let route = route("10.22.1.99/255.0.255.0");
    assert_eq!(route.destination, Ipv4Addr::new(10, 0, 1, 0));
    assert!(route_cidr(route).is_err());
}

#[test]
fn takes_white_space_and_a_plus_sign() {
    assert_eq!(route("  tcp; 10.22.1.99/+24 ;443\n"), route("10.22.1.0/24"));
    assert_eq!(route("10.22.1.99/024"), route("10.22.1.0/24"));
}

#[test]
fn prefix_zero_is_everything() {
    let route = route("10.22.1.99/0");
    assert_eq!(route.destination, Ipv4Addr::new(0, 0, 0, 0));
    assert!(route_contains(route, Ipv4Addr::new(255, 1, 2, 3)));
}

#[test]
fn ipv6_rules_are_skipped_whatever_their_suffix() {
    assert_eq!(parse_split_tunnel_route("tcp;fe80::1;*").unwrap(), None);
    assert_eq!(parse_split_tunnel_route("::1/nonsense").unwrap(), None);
}

#[test]
fn malformed_rules_are_refused() {
    assert_eq!(refusal(" \t"), "received an empty split-tunnel route");
    assert_eq!(
        refusal("tcp;10.0.0.1"),
        "invalid split-tunnel rule format: tcp;10.0.0.1"
    );
    assert_eq!(
        refusal("tcp;10.0.0.1;80;x"),
        "invalid split-tunnel rule format: tcp;10.0.0.1;80;x"
    );
    assert_eq!(
        refusal("10.0.0/8"),
        "invalid split-tunnel IP address: 10.0.0/8"
    );
    assert_eq!(
        refusal("10.0.0.0/x"),
        "invalid split-tunnel IPv4 netmask suffix: 10.0.0.0/x"
    );
    assert_eq!(
        refusal("10.0.0.0/256"),
        "invalid split-tunnel IPv4 netmask suffix: 10.0.0.0/256"
    );
    assert_eq!(
        refusal("10.0.0.0/"),
        "invalid split-tunnel IPv4 netmask suffix: 10.0.0.0/"
    );
    assert_eq!(
        refusal("campus"),
        "invalid split-tunnel IP host route: campus"
    );
}

#[test]
fn route_text_is_a_rule_for_the_route() {
    let rules = ["10.22.1.99/24", "211.65.64.0/20", "0.0.0.0/0", "10.1.2.3"];
    for rule in rules {
        let parsed = route(rule);
        let text = route_cidr(parsed).unwrap();
        assert_eq!(route(&text), parsed);
    }
    assert_eq!(route_cidr(route("10.22.1.99/24")).unwrap(), "10.22.1.0/24");
}
