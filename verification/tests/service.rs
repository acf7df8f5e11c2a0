use cczuvpnproto::failure::Failure;
use cczuvpnproto::net::{parse_ip, IpAddr};
use cczuvpnproto::types::{ProxyServer, StartOptions};
use cczuvpnproto::vpn::service::{
    check_start_cancelled, clear_session_if_matches, collect_split_tunnel_routes, commanded,
    end_poller, finish_start, keeps_polling, poll_step, poller_joined, polling_ended,
    polling_started, proxy_peer_ip, proxy_server, receive_packet, received, send_heartbeat,
    send_packet, send_tcp_packet, service_available, start_polling_packet, start_service,
    start_service_with_options, stop_polling_packet, stop_result, stop_service, wait_failure,
    waiting_polling_packet_stop, CommandReply, GatewayRoutes, PollEvent, PollStep, PollerState,
    PollerWait, ServiceError, ServiceState, SessionCommand, SessionHandle, SessionSlot, StopAction,
    TaskOutcome,
};

type State = ServiceState<&'static str, &'static str>;

fn server() -> ProxyServer {
    ProxyServer {
        address: String::from("10.8.0.5"),
        mask: String::from("255.255.255.0"),
        gateway: String::from("10.8.0.1"),
        dns: String::from("10.0.0.53"),
        wins: String::from("10.0.0.54"),
        split_tunnel_routes: vec![String::from("10.1.0.0/16")],
    }
}

fn peer() -> IpAddr {
    parse_ip("211.65.64.100").unwrap()
}

fn handle(id: u64) -> SessionHandle<&'static str> {
    SessionHandle { id, server: server(), peer_ip: peer(), link: "link" }
}

fn running() -> State {
    let mut state = State::new();
    let ticket = start_service(&mut state, "cancel").unwrap();
    let outcome: Result<SessionHandle<&'static str>, ()> = Ok(handle(ticket.id));
    finish_start(&mut state, ticket.id, outcome).unwrap();
    state
}

fn gateway(dns: &str, own: &[&str], others: &[&[&str]]) -> GatewayRoutes {
    let list = |rules: &[&str]| rules.iter().map(|rule| String::from(*rule)).collect();
    GatewayRoutes {
        dns: String::from(dns),
        in_ip_list: list(own),
        in_ip_lists_by_gateway: others.iter().map(|rules| list(rules)).collect(),
    }
}

#[test]
fn certificate_is_verified_by_default() {
    assert!(!StartOptions::default().no_verification);
    let mut state = State::new();
    assert!(start_service(&mut state, "a").unwrap().verify_certificate);
    let mut state = State::new();
    let options = StartOptions { no_verification: true };
    let ticket = start_service_with_options(&mut state, "a", options).unwrap();
    assert!(!ticket.verify_certificate);
    assert_eq!(ticket.id, 1);
}

#[test]
fn there_is_one_session_at_a_time() {
    let mut state = running();
    assert_eq!(start_service(&mut state, "b"), Err(ServiceError::AlreadyRunning));
    let mut state = State::new();
    start_service(&mut state, "a").unwrap();
    assert_eq!(start_service(&mut state, "b"), Err(ServiceError::AlreadyRunning));
    assert_eq!(state.next_session_id, 3);
}

#[test]
fn session_numbers_are_not_used_twice() {
    let mut state = State::new();
    let first = start_service(&mut state, "a").unwrap();
    let _ = stop_service(&mut state, Ok(()));
    let second = start_service(&mut state, "b").unwrap();
    assert_eq!((first.id, second.id), (1, 2));
}

#[test]
fn running_session_tells_its_parameters() {
    let state = running();
    let shown = proxy_server(&state).unwrap();
    assert_eq!(shown.address, "10.8.0.5");
    assert_eq!(shown.wins, "10.0.0.54");
    assert_eq!(shown.split_tunnel_routes, ["10.1.0.0/16"]);
    assert_eq!(proxy_peer_ip(&state), Some(peer()));
    assert!(service_available(&state, false));
    assert!(!service_available(&state, true));
}

#[test]
fn starting_session_tells_nothing() {
    let mut state = State::new();
    start_service(&mut state, "a").unwrap();
    assert!(proxy_server(&state).is_none());
    assert!(proxy_peer_ip(&state).is_none());
    assert!(!service_available(&state, false));
    assert!(matches!(receive_packet(&state), Err(ServiceError::StillStarting)));
    assert!(matches!(send_heartbeat(&state), Err(ServiceError::StillStarting)));
}

#[test]
fn failed_start_is_forgotten() {
    let mut state = State::new();
    let ticket = start_service(&mut state, "a").unwrap();
    let outcome: Result<SessionHandle<&'static str>, &str> = Err("no network");
    assert_eq!(finish_start(&mut state, ticket.id, outcome), Err("no network"));
    assert!(state.session.is_none());
    assert!(matches!(receive_packet(&state), Err(ServiceError::NotRunning)));
}

#[test]
fn cancelled_start_does_not_disturb_a_newer_one() {
    let mut state = State::new();
    let first = start_service(&mut state, "a").unwrap();
    assert!(matches!(stop_service(&mut state, Ok(())), Ok(StopAction::Cancel("a"))));
    let second = start_service(&mut state, "b").unwrap();
    let outcome: Result<SessionHandle<&'static str>, ()> = Err(());
    assert!(finish_start(&mut state, first.id, outcome).is_err());
    clear_session_if_matches(&mut state, first.id);
    assert!(matches!(&state.session, Some(SessionSlot::Starting(handle)) if handle.id == second.id));
    clear_session_if_matches(&mut state, second.id);
    assert!(state.session.is_none());
}

#[test]
fn stop_takes_the_session_out() {
    let mut state = running();
    assert_eq!(
        stop_service(&mut state, Err(ServiceError::PollerPanicked)).err().unwrap().messages,
        ["poller thread panicked while stopping", "poller thread panicked"]
    );
    assert!(proxy_server(&state).is_some());
    assert!(matches!(stop_service(&mut state, Ok(())), Ok(StopAction::Stop("link"))));
    assert!(proxy_server(&state).is_none());
    assert!(matches!(stop_service(&mut state, Ok(())), Ok(StopAction::Nothing)));
}

#[test]
fn cancelled_start_stops() {
    assert_eq!(check_start_cancelled(false), Ok(()));
    let fault = check_start_cancelled(true).unwrap_err();
    assert_eq!(
        fault.message(),
        "service start cancelled before initialization completed"
    );
}

#[test]
fn commands_go_to_the_running_session() {
    let state = running();
    let (link, command) = send_packet(&state, &[1, 2]).unwrap();
    assert_eq!(*link, "link");
    assert!(matches!(command, SessionCommand::SendRaw(packet) if packet == [1, 2]));
    let (_, command) = send_tcp_packet(&state, &[3]).unwrap();
    assert!(matches!(command, SessionCommand::SendTcp(packet) if packet == [3]));
    let (_, command) = send_heartbeat(&state).unwrap();
    assert!(matches!(command, SessionCommand::SendHeartbeat));
    let wait = receive_packet(&state).ok().unwrap();
    assert_eq!(*wait.link, "link");
    assert!(wait.queue_enabled);
    assert!(matches!(send_packet(&State::new(), &[]), Err(ServiceError::NotRunning)));
}

#[test]
fn faults_have_messages() {
    let messages = [
        (ServiceError::AlreadyRunning, "service is already running"),
        (ServiceError::StillStarting, "service is still starting"),
        (ServiceError::NotRunning, "service is not running"),
        (ServiceError::PollerPanicked, "poller thread panicked"),
        (ServiceError::QueueClosed, "session packet queue closed"),
        (ServiceError::CommandNotSent, "failed to send command to session actor"),
        (ServiceError::CommandNotAnswered, "session actor dropped command response"),
        (ServiceError::SessionLockPoisoned, "session state lock poisoned"),
        (ServiceError::PollerLockPoisoned, "poller state lock poisoned"),
    ];
    for (fault, message) in messages {
        assert_eq!(fault.message(), message);
    }
}

#[test]
fn poller_is_stopped_and_started() {
    let mut poller: PollerState<u32> = PollerState::new();
    poller.handle = Some(5);
    stop_polling_packet(&mut poller);
    assert!(poller.signal);
    assert_eq!(waiting_polling_packet_stop(&mut poller), Some(5));
    assert_eq!(waiting_polling_packet_stop(&mut poller), None);
    assert_eq!(
        start_polling_packet(&State::new(), &mut poller, Ok(())).unwrap_err().messages,
        ["service is not running"]
    );
    assert!(poller.signal);
    let panicked = Err(ServiceError::PollerPanicked);
    assert_eq!(
        start_polling_packet(&running(), &mut poller, panicked).unwrap_err().messages,
        ["poller thread panicked while restarting", "poller thread panicked"]
    );
    assert!(poller.signal);
    assert_eq!(*start_polling_packet(&running(), &mut poller, Ok(())).unwrap(), "link");
    assert!(!poller.signal);
    stop_polling_packet(&mut poller);
    polling_ended(&mut poller);
    assert!(!poller.signal);
}

#[test]
fn poller_hands_out_packets() {
    assert!(matches!(
        poll_step(PollEvent::Packet(vec![7, 8, 9])),
        PollStep::Deliver(3, packet) if packet == [7, 8, 9]
    ));
    assert!(matches!(poll_step(PollEvent::Lagged(4)), PollStep::Report(4)));
    assert!(matches!(poll_step(PollEvent::Closed), PollStep::End));
    assert!(matches!(poll_step(PollEvent::TimedOut), PollStep::Wait));
}

#[test]
fn rules_of_all_gateways_are_collected() {
    let gateways = vec![
        gateway("10.0.0.53", &["b", "a"], &[&["c"], &["a", "Z"]]),
        gateway("10.0.0.54", &["b"], &[&["ab", ""]]),
    ];
    assert_eq!(
        collect_split_tunnel_routes(&gateways),
        ["", "Z", "a", "ab", "b", "c"]
    );
    assert!(collect_split_tunnel_routes(&Vec::new()).is_empty());
}

#[test]
fn order_of_gateways_does_not_matter() {
    let one = vec![gateway("", &["a", "b"], &[]), gateway("", &[], &[&["c"]])];
    let other = vec![gateway("", &[], &[&["c", "c"]]), gateway("", &["b"], &[&["a"]])];
    assert_eq!(
        collect_split_tunnel_routes(&one),
        collect_split_tunnel_routes(&other)
    );
}

fn cause() -> Failure {
    Failure::new(String::from("cause"))
}

#[test]
fn only_a_panic_fails_the_wait_for_the_poller() {
    assert_eq!(poller_joined(None), Ok(()));
    assert_eq!(poller_joined(Some(false)), Ok(()));
    assert_eq!(poller_joined(Some(true)), Err(ServiceError::PollerPanicked));
}

#[test]
fn earlier_poller_is_ended_before_another_starts() {
    let mut poller: PollerState<u32> = PollerState::new();
    polling_started(&mut poller, 5);
    assert_eq!(end_poller(&mut poller), Some(5));
    assert!(poller.signal);
    assert_eq!(poller.handle, None);
    let empty = State::new();
    let refused = start_polling_packet(&empty, &mut poller, poller_joined(Some(false)));
    assert_eq!(refused.unwrap_err().messages, ["service is not running"]);
    assert_eq!(poller.handle, None);
    assert!(poller.signal);
    assert!(start_polling_packet(&running(), &mut poller, Ok(())).is_ok());
    assert_eq!(poller.handle, None);
    polling_started(&mut poller, 6);
    assert_eq!(poller.handle, Some(6));
    assert!(!poller.signal);
}

#[test]
fn poller_looks_at_the_signal() {
    assert!(keeps_polling(false));
    assert!(!keeps_polling(true));
}

#[test]
fn stop_fails_only_with_the_task_of_a_session() {
    assert!(stop_result(None).is_ok());
    assert!(stop_result(Some(TaskOutcome::Ended(Ok(())))).is_ok());
    assert_eq!(
        stop_result(Some(TaskOutcome::Ended(Err(cause())))).unwrap_err().messages,
        ["cause"]
    );
    assert_eq!(
        stop_result(Some(TaskOutcome::Lost(cause()))).unwrap_err().messages,
        ["session actor task join failed", "cause"]
    );
}

#[test]
fn closed_queue_gives_no_packet() {
    assert_eq!(received(Some(vec![1, 2])), Ok(vec![1, 2]));
    assert_eq!(received(None), Err(ServiceError::QueueClosed));
}

#[test]
fn commands_fail_with_a_cause() {
    assert!(commanded(CommandReply::Answered(Ok(()))).is_ok());
    assert_eq!(
        commanded(CommandReply::Answered(Err(cause()))).unwrap_err().messages,
        ["cause"]
    );
    assert_eq!(
        commanded(CommandReply::NotSent(cause())).unwrap_err().messages,
        ["failed to send command to session actor", "cause"]
    );
    assert_eq!(
        commanded(CommandReply::NotAnswered(cause())).unwrap_err().messages,
        ["session actor dropped command response", "cause"]
    );
}

#[test]
fn poller_that_ends_takes_back_the_signal() {
    let mut poller: PollerState<u32> = PollerState::new();
    polling_started(&mut poller, 5);
    assert_eq!(end_poller(&mut poller), Some(5));
    polling_ended(&mut poller);
    let empty = State::new();
    assert!(start_polling_packet(&empty, &mut poller, poller_joined(Some(false))).is_err());
    assert!(!poller.signal);
    assert_eq!(poller.handle, None);
}

#[test]
fn waits_in_vain_are_named() {
    assert_eq!(
        wait_failure(PollerWait::Stopping, ServiceError::PollerLockPoisoned).messages,
        ["poller thread panicked while stopping", "poller state lock poisoned"]
    );
}
