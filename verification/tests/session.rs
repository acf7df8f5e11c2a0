use cczuvpnproto::failure::Failure;
use cczuvpnproto::net::parse_ip;
use cczuvpnproto::types::ProxyServer;
use cczuvpnproto::vpn::actor::{
    due, end_session, on_command, write_failure, CommandAction, FrameAction, InboundFrame, Next,
    Outcome, QueueOutcome, QueueReaction, SessionActor, WriteTrouble, INTERVAL_NANOS,
    PACKET_QUEUE_CAPACITY, POLLER_BROADCAST_CAPACITY,
};
use cczuvpnproto::vpn::service::{start_service, GatewayRoutes, ServiceState, SessionCommand};
use cczuvpnproto::vpn::start::{
    advance_start, start_stage, Authorization, StartEvent, StartStage, Trouble, PROXY_ADDRESS,
    PROXY_NAME,
};

const SECOND: u64 = 1_000_000_000;

fn authorization() -> Authorization {
    Authorization {
        token: String::from("token"),
        gateways: vec![GatewayRoutes {
            dns: String::from("10.0.0.53"),
            in_ip_list: vec![String::from("10.2.0.0/16"), String::from("10.1.0.0/16")],
            in_ip_lists_by_gateway: Vec::new(),
        }],
    }
}

fn answer() -> ProxyServer {
    ProxyServer {
        address: String::from("10.8.0.5"),
        mask: String::from("255.255.255.0"),
        gateway: String::from("10.8.0.1"),
        dns: String::from("192.0.2.1"),
        wins: String::new(),
        split_tunnel_routes: vec![String::from("0.0.0.0/0")],
    }
}

fn messages(stage: StartStage) -> Vec<String> {
    match stage {
        StartStage::Failed(failure) => failure.messages,
        _ => panic!("the start should have failed"),
    }
}

fn connected() -> StartStage {
    let stage = advance_start(start_stage(false), false, StartEvent::Authorized(authorization()));
    advance_start(stage, false, StartEvent::Connected(parse_ip("211.65.64.100").unwrap()))
}

#[test]
fn heartbeat_is_due_at_first_and_after_five_seconds() {
    assert_eq!(INTERVAL_NANOS, 5 * SECOND);
    assert!(due(None, 0));
    assert!(!due(Some(SECOND), 6 * SECOND - 1));
    assert!(due(Some(SECOND), 6 * SECOND));
    assert!(!due(Some(SECOND), 0));
}

#[test]
fn queues_hold_as_many_packets() {
    assert_eq!(PACKET_QUEUE_CAPACITY, 256);
    assert_eq!(POLLER_BROADCAST_CAPACITY, 256);
}

#[test]
fn control_frames_are_an_occasion_for_a_heartbeat() {
    let mut actor = SessionActor::new();
    assert!(matches!(
        actor.on_frame(Some(InboundFrame::Control), false, 0),
        FrameAction::WriteHeartbeat
    ));
    let next = actor.on_outcome(Outcome::AutomaticHeartbeat(Ok(())), SECOND);
    assert!(matches!(next, Next::Wait));
    assert!(matches!(actor.on_frame(None, false, 2 * SECOND), FrameAction::Nothing));
    assert!(matches!(actor.on_frame(None, false, 6 * SECOND), FrameAction::WriteHeartbeat));
}

#[test]
fn data_frames_are_delivered() {
    let actor = SessionActor::new();
    assert!(matches!(
        actor.on_frame(Some(InboundFrame::Data(vec![1])), true, 0),
        FrameAction::Deliver(packet, true) if packet == [1]
    ));
    assert!(matches!(
        actor.on_frame(Some(InboundFrame::Data(vec![2])), false, 0),
        FrameAction::Deliver(packet, false) if packet == [2]
    ));
}

#[test]
fn losses_are_counted_and_reported() {
    let mut actor = SessionActor::new();
    assert_eq!(actor.on_queue(QueueOutcome::Queued, 0), QueueReaction::Nothing);
    assert_eq!(actor.on_queue(QueueOutcome::Full, SECOND), QueueReaction::Warn(1));
    assert_eq!(actor.on_queue(QueueOutcome::Full, 2 * SECOND), QueueReaction::Nothing);
    assert_eq!(actor.on_queue(QueueOutcome::Full, 3 * SECOND), QueueReaction::Nothing);
    assert_eq!(actor.dropped_packet_count, 2);
    assert_eq!(actor.on_queue(QueueOutcome::Full, 6 * SECOND), QueueReaction::Warn(3));
    assert_eq!(actor.dropped_packet_count, 0);
    assert_eq!(actor.on_queue(QueueOutcome::Closed, 7 * SECOND), QueueReaction::Disable);
}

#[test]
fn commands_become_actions() {
    assert!(matches!(
        on_command(Some(SessionCommand::SendRaw(vec![1]))),
        CommandAction::WriteRaw(packet) if packet == [1]
    ));
    assert!(matches!(
        on_command(Some(SessionCommand::SendTcp(vec![2]))),
        CommandAction::WriteTcp(packet) if packet == [2]
    ));
    assert!(matches!(
        on_command(Some(SessionCommand::SendHeartbeat)),
        CommandAction::WriteHeartbeat
    ));
    assert!(matches!(on_command(Some(SessionCommand::Stop)), CommandAction::Finish));
    assert!(matches!(on_command(None), CommandAction::Finish));
}

#[test]
fn session_uses_the_granted_dns_server_and_routes() {
    assert_eq!(PROXY_ADDRESS, "zmvpn.cczu.edu.cn:443");
    assert_eq!(PROXY_NAME, "zmvpn.cczu.edu.cn");
    let stage = advance_start(connected(), false, StartEvent::Secured);
    let stage = advance_start(stage, false, StartEvent::Sent);
    match advance_start(stage, false, StartEvent::Answered(answer())) {
        StartStage::Established(server, peer) => {
            assert_eq!(server.address, "10.8.0.5");
            assert_eq!(server.dns, "10.0.0.53");
            assert_eq!(server.split_tunnel_routes, ["10.1.0.0/16", "10.2.0.0/16"]);
            assert_eq!(peer.text(), "211.65.64.100");
        }
        _ => panic!("the session should be established"),
    }
}

#[test]
fn start_can_be_cancelled_on_the_way() {
    let cancelled = ["service start cancelled before initialization completed"];
    assert_eq!(messages(start_stage(true)), cancelled);
    let stage = advance_start(start_stage(false), true, StartEvent::Authorized(authorization()));
    assert_eq!(messages(stage), cancelled);
    let stage = advance_start(connected(), true, StartEvent::Secured);
    assert_eq!(messages(stage), cancelled);
    let stage = advance_start(connected(), false, StartEvent::Secured);
    let stage = advance_start(stage, true, StartEvent::Sent);
    assert!(matches!(stage, StartStage::ReadAuthorization(_, _)));
    let stage = advance_start(stage, true, StartEvent::Answered(answer()));
    assert_eq!(messages(stage), cancelled);
}

#[test]
fn authorization_needs_a_gateway() {
    let bare = Authorization { token: String::from("token"), gateways: Vec::new() };
    let stage = advance_start(start_stage(false), false, StartEvent::Authorized(bare));
    assert_eq!(
        messages(stage),
        ["authorization response does not contain gateway dns"]
    );
}

#[test]
fn trouble_is_reported_with_its_cause() {
    let contexts = [
        (Trouble::Authorization, vec!["failed to authorize against webvpn", "cause"]),
        (
            Trouble::Connection,
            vec!["failed to connect to proxy server at zmvpn.cczu.edu.cn:443", "cause"],
        ),
        (Trouble::PeerAddress, vec!["failed to query proxy peer address", "cause"]),
        (Trouble::LocalAddress, vec!["failed to query proxy local address", "cause"]),
        (
            Trouble::ServerName,
            vec!["invalid proxy server name zmvpn.cczu.edu.cn: cause"],
        ),
        (Trouble::Tls, vec!["failed to establish TLS with proxy server", "cause"]),
        (Trouble::Packet, vec!["failed to build authorization packet", "cause"]),
        (Trouble::Sending, vec!["failed to send authorization packet", "cause"]),
        (Trouble::Answer, vec!["cause"]),
    ];
    for (trouble, expected) in contexts {
        let cause = Failure::new(String::from("cause"));
        let stage = advance_start(start_stage(false), false, StartEvent::Broken(trouble, cause));
        assert_eq!(messages(stage), expected);
    }
}

#[test]
fn failed_start_stays_failed() {
    let stage = advance_start(start_stage(true), false, StartEvent::Authorized(authorization()));
    assert_eq!(messages(stage).len(), 1);
    let stage = advance_start(start_stage(false), false, StartEvent::Secured);
    assert!(matches!(stage, StartStage::Authorize));
}

fn cause() -> Failure {
    Failure::new(String::from("cause"))
}

#[test]
fn failed_commands_are_answered_and_the_session_goes_on() {
    let mut actor = SessionActor::new();
    let next = actor.on_outcome(Outcome::Command(false, Err(cause())), SECOND);
    assert!(matches!(next, Next::Respond(Err(failure)) if failure.messages == ["cause"]));
    let next = actor.on_outcome(Outcome::Command(true, Err(cause())), SECOND);
    assert!(matches!(next, Next::Respond(Err(_))));
    let next = actor.on_outcome(Outcome::Command(false, Ok(())), SECOND);
    assert!(matches!(next, Next::Respond(Ok(()))));
    assert_eq!(actor.last_heartbeat, None);
    let next = actor.on_outcome(Outcome::Command(true, Ok(())), 2 * SECOND);
    assert!(matches!(next, Next::Respond(Ok(()))));
    assert_eq!(actor.last_heartbeat, Some(2 * SECOND));
}

#[test]
fn session_ends_on_stop_and_on_its_own_failures() {
    let mut actor = SessionActor::new();
    assert!(matches!(actor.on_outcome(Outcome::Finished, 0), Next::End(Ok(()))));
    let next = actor.on_outcome(Outcome::ReadFailed(cause()), 0);
    assert!(matches!(next, Next::End(Err(failure)) if failure.messages == ["cause"]));
    let next = actor.on_outcome(Outcome::AutomaticHeartbeat(Err(cause())), 0);
    assert!(matches!(next, Next::End(Err(failure)) if failure.messages == ["cause"]));
    assert_eq!(actor, SessionActor::new());
}

#[test]
fn ended_session_is_forgotten() {
    let mut state: ServiceState<u8, u8> = ServiceState::new();
    let ticket = start_service(&mut state, 7).unwrap();
    assert!(end_session(&mut state, ticket.id + 1, Ok(())).is_ok());
    assert!(state.session.is_some());
    let result = end_session(&mut state, ticket.id, Err(cause()));
    assert_eq!(result.unwrap_err().messages, ["cause"]);
    assert!(state.session.is_none());
}

#[test]
fn failed_writes_are_named() {
    let contexts = [
        (WriteTrouble::RawWrite, "failed to write raw packet to proxy"),
        (WriteTrouble::TcpBuild, "failed to build TCP packet"),
        (WriteTrouble::TcpWrite, "failed to write TCP packet to proxy"),
        (WriteTrouble::HeartbeatWrite, "failed to write heartbeat to proxy"),
    ];
    for (trouble, context) in contexts {
        assert_eq!(write_failure(trouble, cause()).messages, [context, "cause"]);
    }
}
