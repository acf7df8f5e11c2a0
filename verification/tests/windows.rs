use cczuvpnproto::cli::commands::{CommandEvent, CommandOutput};
use cczuvpnproto::cli::plan::PlanError;
use cczuvpnproto::cli::windows::{
    cleanup_split_tunnel_routes, configure_split_tunnel_routes, windows_dns, RouteInstaller,
};
use cczuvpnproto::types::ProxyServer;

fn server() -> ProxyServer {
    ProxyServer {
        address: String::from("10.8.0.5"),
        mask: String::from("255.255.255.0"),
        gateway: String::from("10.8.0.1"),
        dns: String::from("10.0.0.53"),
        wins: String::new(),
        split_tunnel_routes: vec![String::from("10.1.0.0/16"), String::from("10.22.1.0/24")],
    }
}

fn done() -> CommandEvent {
    CommandEvent::Finished(CommandOutput {
        success: true,
        stdout: Vec::new(),
        stderr: Vec::new(),
    })
}

fn failed() -> CommandEvent {
    CommandEvent::Finished(CommandOutput {
        success: false,
        stdout: Vec::new(),
        stderr: b"bad \xff".to_vec(),
    })
}

fn step(installer: &mut RouteInstaller, expected: &str, event: CommandEvent) {
    let command = installer.command().expect("a command should be due");
    assert_eq!(format!("{} {}", command.program, command.args.join(" ")), expected);
    installer.observe(&event);
}

const ADD_FIRST: &str = "route ADD 10.1.0.0 MASK 255.255.0.0 10.8.0.1 IF 12";
const ADD_SECOND: &str = "route ADD 10.22.1.0 MASK 255.255.255.0 10.8.0.1 IF 12";
const DELETE_FIRST: &str = "route DELETE 10.1.0.0 MASK 255.255.0.0 10.8.0.1 IF 12";

#[test]
fn routes_are_added_in_order() {
    let mut installer = configure_split_tunnel_routes(Ok(12), &server(), None).unwrap();
    step(&mut installer, ADD_FIRST, done());
    step(&mut installer, ADD_SECOND, done());
    assert!(installer.command().is_none());
    assert_eq!(installer.finish().unwrap().len(), 2);
}

#[test]
fn route_that_cannot_be_added_takes_back_the_others() {
    let mut installer = configure_split_tunnel_routes(Ok(12), &server(), None).unwrap();
    step(&mut installer, ADD_FIRST, done());
    step(&mut installer, ADD_SECOND, failed());
    step(&mut installer, DELETE_FIRST, failed());
    assert_eq!(
        installer.finish().unwrap_err().messages,
        [
            "failed to add split-tunnel route 10.22.1.0/255.255.255.0 via 10.8.0.1 on interface 12",
            "route command failed: args=[\"ADD\", \"10.22.1.0\", \"MASK\", \"255.255.255.0\", \
             \"10.8.0.1\", \"IF\", \"12\"], stdout=, stderr=bad \u{fffd}",
        ]
    );
}

#[test]
fn plan_without_routes_is_active_at_once() {
    let mut bare = server();
    bare.split_tunnel_routes = Vec::new();
    let installer = configure_split_tunnel_routes(Ok(12), &bare, None).unwrap();
    assert!(installer.command().is_none());
    assert!(installer.finish().unwrap().is_empty());
}

#[test]
fn routes_are_removed_from_the_front() {
    let mut installer = configure_split_tunnel_routes(Ok(12), &server(), None).unwrap();
    step(&mut installer, ADD_FIRST, done());
    step(&mut installer, ADD_SECOND, done());
    let routes = installer.finish().unwrap();
    let mut remover = cleanup_split_tunnel_routes(Ok(12), &server(), routes.clone()).unwrap();
    let first = remover.command().unwrap();
    assert_eq!(format!("{} {}", first.program, first.args.join(" ")), DELETE_FIRST);
    remover.observe(&done());
    assert_eq!(remover.command().unwrap().args[1], "10.22.1.0");
    remover.observe(&done());
    assert!(remover.command().is_none());
    assert!(remover.finish().is_ok());

    let mut remover = cleanup_split_tunnel_routes(Ok(12), &server(), routes).unwrap();
    remover.observe(&CommandEvent::NotRun(String::from("not found")));
    assert!(remover.command().is_none());
    let failure = remover.finish().unwrap_err();
    assert_eq!(
        failure.messages,
        [
            "failed to delete split-tunnel route 10.1.0.0/255.255.0.0 via 10.8.0.1 on interface 12",
            "failed to run route command: [\"DELETE\", \"10.1.0.0\", \"MASK\", \"255.255.0.0\", \
             \"10.8.0.1\", \"IF\", \"12\"]",
            "not found",
        ]
    );
}

#[test]
fn gateway_has_to_be_an_address() {
    let mut bad = server();
    bad.gateway = String::from("gateway");
    assert!(matches!(
        configure_split_tunnel_routes(Ok(12), &bad, None),
        Err(PlanError::InvalidGateway(_))
    ));
    assert!(matches!(
        cleanup_split_tunnel_routes(Ok(12), &bad, Vec::new()),
        Err(PlanError::InvalidGateway(_))
    ));
}

#[test]
fn interface_needs_a_number() {
    let none = || Err(String::from("no such device"));
    let messages = ["failed to query TUN interface index", "no such device"];
    let refused = configure_split_tunnel_routes(none(), &server(), None).unwrap_err();
    assert_eq!(refused.failure().messages, messages);
    let refused = cleanup_split_tunnel_routes(none(), &server(), Vec::new()).unwrap_err();
    assert_eq!(refused.failure().messages, messages);
    let mut bad = server();
    bad.address = String::from("address");
    let refused = configure_split_tunnel_routes(none(), &bad, None).unwrap_err();
    assert_eq!(refused.failure().messages, messages);
    bad.gateway = String::from("gateway");
    let refused = configure_split_tunnel_routes(none(), &bad, None).unwrap_err();
    assert!(matches!(refused, PlanError::InvalidGateway(_)));
}

#[test]
fn skipped_rules_are_counted() {
    let mut mixed = server();
    mixed.split_tunnel_routes.push(String::from("2001:db8::1/64"));
    let installer = configure_split_tunnel_routes(Ok(12), &mixed, None).unwrap();
    assert_eq!(installer.plan.skipped, 1);
}

#[test]
fn dns_server_has_to_be_an_address() {
    let mut server = server();
    assert_eq!(windows_dns(&server).unwrap().text(), "10.0.0.53");
    server.dns = String::from("fd00::53");
    assert_eq!(windows_dns(&server).unwrap().text(), "fd00::53");
    server.dns = String::from("nowhere");
    assert_eq!(windows_dns(&server).unwrap_err().messages, ["invalid IP address syntax"]);
}
