use cczuvpnproto::cli::bootstrap::{BootstrapPhase, LinuxBootstrapRoutes};
use cczuvpnproto::cli::cleanup::{cleanup_linux_network, LinuxCleanup};
use cczuvpnproto::cli::commands::{CommandEvent, CommandOutput};
use cczuvpnproto::cli::linux::{configure_linux_network, LinuxNetworkConfig, LinuxSetup, SetupPhase};
use cczuvpnproto::types::ProxyServer;

fn server(rules: &[&str]) -> ProxyServer {
    ProxyServer {
        address: String::from("10.8.0.5"),
        mask: String::from("255.255.255.0"),
        gateway: String::from("10.8.0.1"),
        dns: String::from("10.0.0.53"),
        wins: String::new(),
        split_tunnel_routes: rules.iter().map(|rule| String::from(*rule)).collect(),
    }
}

fn setup(rules: &[&str]) -> LinuxSetup {
    configure_linux_network(String::from("tun0"), &server(rules), None).unwrap()
}

fn done() -> CommandEvent {
    CommandEvent::Finished(CommandOutput {
        success: true,
        stdout: Vec::new(),
        stderr: Vec::new(),
    })
}

fn failed(stderr: &str) -> CommandEvent {
    CommandEvent::Finished(CommandOutput {
        success: false,
        stdout: b"out".to_vec(),
        stderr: stderr.as_bytes().to_vec(),
    })
}

fn absent() -> CommandEvent {
    failed("RTNETLINK answers: No such file or directory")
}

fn line(setup: &LinuxSetup) -> String {
    let command = setup.command().expect("a command should be due");
    format!("{} {}", command.program, command.args.join(" "))
}

fn step(setup: &mut LinuxSetup, expected: &str, event: CommandEvent) {
    assert_eq!(line(setup), expected);
    setup.observe(&event);
}

fn cleanup_step(cleanup: &mut LinuxCleanup, expected: &str, event: CommandEvent) {
    let command = cleanup.command().expect("a command should be due");
    assert_eq!(format!("{} {}", command.program, command.args.join(" ")), expected);
    cleanup.observe(&event);
}

fn bootstrap_step(rules: &mut LinuxBootstrapRoutes, expected: &str, event: CommandEvent) {
    let command = rules.command().expect("a command should be due");
    assert_eq!(format!("{} {}", command.program, command.args.join(" ")), expected);
    rules.observe(&event);
}

const ADD_DNS_ROUTE: &str = "ip -4 route add 10.0.0.53/32 via 10.8.0.1 dev tun0";
const ADD_ROUTE: &str = "ip -4 route add 10.1.0.0/16 via 10.8.0.1 dev tun0";
const DEL_DNS_ROUTE: &str = "ip -4 route del 10.0.0.53/32 via 10.8.0.1 dev tun0";
const DEL_ROUTE: &str = "ip -4 route del 10.1.0.0/16 via 10.8.0.1 dev tun0";
const SET_DNS: &str = "resolvectl dns tun0 10.0.0.53";
const SET_DOMAIN: &str = "resolvectl domain tun0 ~cczu.edu.cn";
const REVERT: &str = "resolvectl revert tun0";
const DEL_POLICY: &str =
    "ip -4 rule del priority 8000 lookup main suppress_prefixlength 0";
const ADD_POLICY: &str =
    "ip -4 rule add priority 8000 lookup main suppress_prefixlength 0";

fn configured() -> LinuxNetworkConfig {
    let mut setup = setup(&["10.1.0.0/16"]);
    while setup.command().is_some() {
        let event = if setup.phase == SetupPhase::ClearingPolicy {
            absent()
        } else {
            done()
        };
        setup.observe(&event);
    }
    setup.finish().unwrap()
}

#[test]
fn network_is_put_in_place_step_by_step() {
    let mut setup = setup(&["10.1.0.0/16"]);
    step(&mut setup, ADD_DNS_ROUTE, done());
    step(&mut setup, ADD_ROUTE, done());
    step(&mut setup, SET_DNS, done());
    step(&mut setup, SET_DOMAIN, done());
    step(&mut setup, DEL_POLICY, done());
    step(&mut setup, DEL_POLICY, absent());
    step(&mut setup, ADD_POLICY, done());
    assert!(setup.command().is_none());
    let config = setup.finish().unwrap();
    assert_eq!(config.interface, "tun0");
    assert_eq!(config.routes.len(), 2);
    assert!(config.active);
}

#[test]
fn failing_route_takes_back_the_others() {
    let mut setup = setup(&["10.1.0.0/16"]);
    step(&mut setup, ADD_DNS_ROUTE, done());
    step(&mut setup, ADD_ROUTE, failed("File exists"));
    step(&mut setup, DEL_DNS_ROUTE, failed("gone"));
    assert!(setup.command().is_none());
    assert_eq!(setup.installed, 0);
    assert_eq!(
        setup.finish().unwrap_err().messages,
        [
            "failed to add split-tunnel route 10.1.0.0/16 via 10.8.0.1",
            "ip failed: args=[\"-4\", \"route\", \"add\", \"10.1.0.0/16\", \"via\", \"10.8.0.1\", \
             \"dev\", \"tun0\"], stdout=out, stderr=File exists",
        ]
    );
}

#[test]
fn mask_with_gaps_fails_the_setup() {
    let mut setup = setup(&["10.1.0.0/255.255.0.255"]);
    step(&mut setup, ADD_DNS_ROUTE, done());
    step(&mut setup, DEL_DNS_ROUTE, done());
    assert_eq!(
        setup.finish().unwrap_err().messages,
        ["non-contiguous IPv4 netmask: 255.255.0.255"]
    );
}

#[test]
fn failing_dns_server_takes_back_the_routes() {
    let mut setup = setup(&["10.1.0.0/16"]);
    step(&mut setup, ADD_DNS_ROUTE, done());
    step(&mut setup, ADD_ROUTE, done());
    step(&mut setup, SET_DNS, CommandEvent::NotRun(String::from("not found")));
    step(&mut setup, DEL_ROUTE, done());
    step(&mut setup, DEL_DNS_ROUTE, done());
    assert_eq!(
        setup.finish().unwrap_err().messages,
        ["failed to run resolvectl: [\"dns\", \"tun0\", \"10.0.0.53\"]", "not found"]
    );
}

#[test]
fn failing_domain_takes_back_dns_and_routes() {
    let mut setup = setup(&[]);
    step(&mut setup, ADD_DNS_ROUTE, done());
    step(&mut setup, SET_DNS, done());
    step(&mut setup, SET_DOMAIN, failed("x"));
    step(&mut setup, REVERT, failed("y"));
    step(&mut setup, DEL_DNS_ROUTE, done());
    let failure = setup.finish().unwrap_err();
    assert_eq!(
        failure.messages[0],
        "failed to route CCZU DNS queries through the VPN interface"
    );
}

#[test]
fn failing_policy_rule_takes_back_everything() {
    let mut setup = setup(&[]);
    step(&mut setup, ADD_DNS_ROUTE, done());
    step(&mut setup, SET_DNS, done());
    step(&mut setup, SET_DOMAIN, done());
    step(&mut setup, DEL_POLICY, failed("Operation not permitted"));
    step(&mut setup, REVERT, done());
    step(&mut setup, DEL_DNS_ROUTE, done());
    assert_eq!(
        setup.finish().unwrap_err().messages,
        ["ip failed while removing the CCZU policy rule: Operation not permitted"]
    );
}

#[test]
fn policy_rule_that_cannot_be_added_is_reported() {
    let mut setup = setup(&[]);
    step(&mut setup, ADD_DNS_ROUTE, done());
    step(&mut setup, SET_DNS, done());
    step(&mut setup, SET_DOMAIN, done());
    step(&mut setup, DEL_POLICY, absent());
    step(&mut setup, ADD_POLICY, failed("x"));
    step(&mut setup, REVERT, done());
    step(&mut setup, DEL_DNS_ROUTE, done());
    let failure = setup.finish().unwrap_err();
    assert_eq!(failure.messages[0], "failed to install the CCZU VPN policy rule");
}

#[test]
fn cleanup_removes_what_was_put_in_place() {
    let mut config = configured();
    let mut cleanup = cleanup_linux_network(&mut config).unwrap();
    cleanup_step(&mut cleanup, DEL_POLICY, done());
    cleanup_step(&mut cleanup, DEL_ROUTE, done());
    cleanup_step(&mut cleanup, DEL_DNS_ROUTE, done());
    cleanup_step(&mut cleanup, REVERT, done());
    assert!(cleanup.command().is_none());
    assert!(cleanup.finish().is_ok());
    assert!(!config.active);
    assert!(cleanup_linux_network(&mut config).is_none());
}

#[test]
fn cleanup_goes_on_after_failures() {
    let mut config = configured();
    let mut cleanup = cleanup_linux_network(&mut config).unwrap();
    cleanup_step(&mut cleanup, DEL_POLICY, absent());
    cleanup_step(&mut cleanup, DEL_ROUTE, CommandEvent::NotRun(String::from("x")));
    cleanup_step(&mut cleanup, DEL_DNS_ROUTE, failed("y"));
    cleanup_step(&mut cleanup, REVERT, failed("z"));
    let failure = cleanup.finish().unwrap_err();
    assert_eq!(
        failure.messages[0],
        "failed to delete split-tunnel route 10.1.0.0/16 via 10.8.0.1"
    );
    assert_eq!(failure.messages[2], "x");
}

#[test]
fn dns_failure_is_reported_if_nothing_else_failed() {
    let mut config = configured();
    let mut cleanup = cleanup_linux_network(&mut config).unwrap();
    cleanup_step(&mut cleanup, DEL_POLICY, done());
    cleanup_step(&mut cleanup, DEL_ROUTE, done());
    cleanup_step(&mut cleanup, DEL_DNS_ROUTE, done());
    cleanup_step(&mut cleanup, REVERT, failed("z"));
    let failure = cleanup.finish().unwrap_err();
    assert_eq!(failure.messages[0], "failed to remove VPN DNS configuration");
}

const ADD_FIRST: &str = "ip -4 rule add priority 7999 to 211.65.64.100/32 lookup main";
const DEL_FIRST: &str = "ip -4 rule del priority 7999 to 211.65.64.100/32 lookup main";
const ADD_SECOND: &str = "ip -4 rule add priority 7999 to 211.65.66.99/32 lookup main";
const DEL_SECOND: &str = "ip -4 rule del priority 7999 to 211.65.66.99/32 lookup main";

#[test]
fn endpoint_rules_are_installed_and_released() {
    let mut rules = LinuxBootstrapRoutes::install();
    bootstrap_step(&mut rules, DEL_FIRST, done());
    bootstrap_step(&mut rules, DEL_FIRST, absent());
    bootstrap_step(&mut rules, ADD_FIRST, done());
    bootstrap_step(&mut rules, DEL_SECOND, absent());
    bootstrap_step(&mut rules, ADD_SECOND, done());
    assert!(rules.phase == BootstrapPhase::Active);
    rules.release();
    bootstrap_step(&mut rules, DEL_SECOND, failed("x"));
    bootstrap_step(&mut rules, DEL_FIRST, done());
    assert!(rules.phase == BootstrapPhase::Finished);
    assert!(rules.failure.is_none());
}

#[test]
fn failing_endpoint_rule_takes_back_the_other() {
    let mut rules = LinuxBootstrapRoutes::install();
    bootstrap_step(&mut rules, DEL_FIRST, absent());
    bootstrap_step(&mut rules, ADD_FIRST, done());
    bootstrap_step(&mut rules, DEL_SECOND, absent());
    bootstrap_step(&mut rules, ADD_SECOND, failed("x"));
    bootstrap_step(&mut rules, DEL_FIRST, done());
    assert!(rules.phase == BootstrapPhase::Finished);
    assert_eq!(
        rules.failure.unwrap().messages[0],
        "failed to bypass Clash TUN for 211.65.66.99"
    );
}

#[test]
fn stale_endpoint_rule_that_stays_is_reported() {
    let mut rules = LinuxBootstrapRoutes::install();
    bootstrap_step(&mut rules, DEL_FIRST, failed("Operation not permitted"));
    assert!(rules.phase == BootstrapPhase::Finished);
    assert_eq!(
        rules.failure.unwrap().messages,
        ["ip failed while removing bootstrap route for 211.65.64.100: Operation not permitted"]
    );
    let mut rules = LinuxBootstrapRoutes::install();
    bootstrap_step(&mut rules, DEL_FIRST, CommandEvent::NotRun(String::from("not found")));
    assert_eq!(
        rules.failure.unwrap().messages,
        ["failed to remove bootstrap route for 211.65.64.100", "not found"]
    );
}

#[test]
fn rules_without_a_route_are_counted() {
    assert_eq!(setup(&["10.1.0.0/16", "2001:db8::1/64", "::1"]).plan.skipped, 2);
}
