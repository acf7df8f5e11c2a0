use cczuvpnproto::cli::plan::{exclude_proxy_peer, plan_linux_network, plan_routes, PlanError};
use cczuvpnproto::cli::routes::{parse_split_tunnel_route, WindowsRoute};
use cczuvpnproto::net::{parse_ip, IpAddr, Ipv4Addr};
use cczuvpnproto::types::ProxyServer;

fn server(dns: &str, rules: &[&str]) -> ProxyServer {
    ProxyServer {
        address: String::from("10.8.0.5"),
        mask: String::from("255.255.255.0"),
        gateway: String::from("10.8.0.1"),
        dns: String::from(dns),
        wins: String::new(),
        split_tunnel_routes: rules.iter().map(|rule| String::from(*rule)).collect(),
    }
}

fn route(rule: &str) -> WindowsRoute {
    parse_split_tunnel_route(rule).unwrap().unwrap()
}

fn routes(rules: &[&str]) -> Vec<WindowsRoute> {
    rules.iter().map(|rule| route(rule)).collect()
}

fn peer() -> Option<IpAddr> {
    Some(IpAddr::V4(Ipv4Addr::new(211, 65, 64, 100)))
}

#[test]
fn plan_has_each_route_once_in_order() {
    let server = server(
        "10.0.0.53",
        &["tcp;10.22.1.99/24;443", "10.1.0.0/16", "10.22.1.0/24", "10.1.0.0/24", "::1"],
    );
    let plan = plan_routes(&server, None).unwrap();
    assert_eq!(plan.gateway, Ipv4Addr::new(10, 8, 0, 1));
    assert_eq!(plan.routes, routes(&["10.1.0.0/16", "10.1.0.0/24", "10.22.1.0/24"]));
    assert_eq!(plan.skipped, 1);
}

#[test]
fn plan_leaves_out_the_tunnel_itself() {
    let server = server("10.0.0.53", &["10.8.0.77/24", "10.8.0.77"]);
    let plan = plan_routes(&server, None).unwrap();
    assert_eq!(plan.routes, routes(&["10.8.0.77"]));
}

#[test]
fn plan_leaves_out_the_proxy() {
    let server = server("10.0.0.53", &["211.65.64.0/20", "211.65.80.0/20", "0.0.0.0/0"]);
    let plan = plan_routes(&server, peer()).unwrap();
    assert_eq!(plan.routes, routes(&["211.65.80.0/20"]));
    assert_eq!(plan_routes(&server, parse_ip("::1")).unwrap().routes.len(), 3);
}

#[test]
fn only_routes_to_the_proxy_are_excluded() {
    let mut all = routes(&["211.65.80.0/20", "211.65.64.100", "10.0.0.0/8", "211.65.80.0/20"]);
    exclude_proxy_peer(&mut all, peer());
    assert_eq!(all, routes(&["211.65.80.0/20", "10.0.0.0/8", "211.65.80.0/20"]));
    exclude_proxy_peer(&mut all, None);
    assert_eq!(all.len(), 3);
}

#[test]
fn order_of_rules_does_not_matter() {
    let one = plan_routes(&server("", &["10.1.0.0/16", "10.2.0.0/16"]), None).unwrap();
    let other = plan_routes(
        &server("", &["10.2.0.0/16", "10.1.0.0/16", "10.2.0.0/16"]),
        None,
    )
    .unwrap();
    assert_eq!(one.routes, other.routes);
}

#[test]
fn dns_server_has_its_own_route_under_linux() {
    let server = server("10.0.0.53", &["10.1.0.0/16"]);
    let plan = plan_linux_network(String::from("tun0"), &server, peer()).unwrap();
    assert_eq!(plan.interface, "tun0");
    assert_eq!(plan.routes, routes(&["10.0.0.53", "10.1.0.0/16"]));
    assert_eq!(Some(plan.dns), parse_ip("10.0.0.53"));
    assert_eq!(plan.skipped, 0);
}

#[test]
fn ipv6_dns_server_has_no_route() {
    let server = server("fd00::53", &["10.1.0.0/16"]);
    let plan = plan_linux_network(String::from("tun0"), &server, None).unwrap();
    assert_eq!(plan.routes, routes(&["10.1.0.0/16"]));
    assert_eq!(plan.dns.text(), "fd00::53");
}

#[test]
fn dns_server_that_is_the_proxy_has_no_route() {
    let server = server("211.65.64.100", &[]);
    let plan = plan_linux_network(String::from("tun0"), &server, peer()).unwrap();
    assert!(plan.routes.is_empty());
}

#[test]
fn first_fault_is_reported() {
    let mut bad = server("nowhere", &["campus"]);
    bad.gateway = String::from("g");
    bad.address = String::from("a");
    bad.mask = String::from("m");
    let fault = |server: &ProxyServer| {
        plan_linux_network(String::from("tun0"), server, None)
            .expect_err("the plan should be refused")
            .message()
    };
    assert_eq!(fault(&bad), "invalid VPN gateway address: g");
    bad.gateway = String::from("10.8.0.1");
    assert_eq!(fault(&bad), "invalid VPN address: a");
    bad.address = String::from("10.8.0.5");
    assert_eq!(fault(&bad), "invalid VPN mask: m");
    bad.mask = String::from("255.255.255.0");
    assert_eq!(fault(&bad), "invalid split-tunnel IP host route: campus");
    bad.split_tunnel_routes = Vec::new();
    assert_eq!(fault(&bad), "invalid VPN DNS address: nowhere");
    assert!(plan_routes(&bad, None).is_ok());
    bad.gateway = String::from("::1");
    assert!(matches!(
        plan_routes(&bad, None),
        Err(PlanError::InvalidGateway(_))
    ));
}

#[test]
fn faults_have_their_causes() {
    let failure = |server: &ProxyServer| {
        plan_linux_network(String::from("tun0"), server, None)
            .expect_err("the plan should be refused")
            .failure()
            .messages
    };
    assert_eq!(
        failure(&server("nowhere", &[])),
        ["invalid VPN DNS address: nowhere", "invalid IP address syntax"]
    );
    assert_eq!(
        failure(&server("10.0.0.53", &["10.0.0.0/x"])),
        [
            "invalid split-tunnel IPv4 netmask suffix: 10.0.0.0/x",
            "invalid IPv4 address syntax",
        ]
    );
    assert_eq!(
        failure(&server("10.0.0.53", &["campus"])),
        ["invalid split-tunnel IP host route: campus"]
    );
    let mut bad = server("10.0.0.53", &[]);
    bad.mask = String::from("m");
    assert_eq!(failure(&bad), ["invalid VPN mask: m", "invalid IPv4 address syntax"]);
}
