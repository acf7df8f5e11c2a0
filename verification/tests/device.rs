use cczuvpnproto::cli::device::{
    create_device, device_config, forward_packet, forward_step, packet_for_device, read_packet,
    summarize_packet, DeviceEvent, DeviceRun, DeviceStage, DEVICE_NAME,
};
use cczuvpnproto::failure::Failure;
use cczuvpnproto::net::{parse_ip, Ipv4Addr};
use cczuvpnproto::types::ProxyServer;
use cczuvpnproto::vpn::service::{
    finish_start, poll_step, start_service, PollEvent, PollStep, ServiceError, ServiceState,
    SessionCommand, SessionHandle,
};

fn fault(message: &str) -> DeviceEvent {
    DeviceEvent::Failed(Failure::new(String::from(message)))
}

fn forwarding() -> DeviceRun {
    let mut run = create_device();
    for stage in [
        DeviceStage::Build,
        DeviceStage::ConfigureNetwork,
        DeviceStage::CreateInterrupt,
        DeviceStage::StartPolling,
    ] {
        assert_eq!(run.stage, stage);
        run.observe(DeviceEvent::Succeeded);
    }
    assert_eq!(run.stage, DeviceStage::Forward);
    run
}

#[test]
fn device_needs_a_session() {
    let failure = device_config(&None, false).unwrap_err();
    assert_eq!(failure.messages, ["No server to create TUN device"]);
}

#[test]
fn device_has_the_parameters_of_the_session() {
    let server = Some(ProxyServer {
        address: String::from("10.8.0.5"),
        mask: String::from("255.255.255.0"),
        gateway: String::from("10.8.0.1"),
        dns: String::new(),
        wins: String::new(),
        split_tunnel_routes: Vec::new(),
    });
    let config = device_config(&server, false).unwrap();
    assert_eq!(config.name, DEVICE_NAME);
    assert_eq!(config.name, "CCZU-VPN-PROTO");
    assert_eq!(config.address, "10.8.0.5");
    assert_eq!(config.mask, "255.255.255.0");
    assert_eq!(config.destination, None);
    let config = device_config(&server, true).unwrap();
    assert_eq!(config.destination, Some(String::from("10.8.0.1")));
}

#[test]
fn ipv4_packets_are_summarized() {
    let mut packet = vec![0u8; 20];
    packet[0] = 0x45;
    packet[9] = 6;
    packet[12..16].copy_from_slice(&[10, 8, 0, 5]);
    packet[16..20].copy_from_slice(&[10, 1, 2, 3]);
    let summary = summarize_packet(&packet).unwrap();
    assert_eq!(summary.protocol, 6);
    assert_eq!(summary.source, Ipv4Addr::new(10, 8, 0, 5));
    assert_eq!(summary.destination, Ipv4Addr::new(10, 1, 2, 3));
    assert!(summarize_packet(&packet[..19]).is_none());
    packet[0] = 0x60;
    assert!(summarize_packet(&packet).is_none());
    assert!(summarize_packet(&[]).is_none());
}

#[test]
fn interruption_for_shutdown_ends_well() {
    let mut run = forwarding();
    run.observe(DeviceEvent::Forwarded(false));
    run.observe(DeviceEvent::Interrupted(false));
    assert_eq!(run.stage, DeviceStage::Forward);
    run.observe(DeviceEvent::Interrupted(true));
    assert_eq!(run.stage, DeviceStage::StopService);
    run.observe(DeviceEvent::Succeeded);
    assert_eq!(run.stage, DeviceStage::CleanUpNetwork);
    run.observe(DeviceEvent::Succeeded);
    assert_eq!(run.stage, DeviceStage::EndShutdownTask);
    run.observe(DeviceEvent::Succeeded);
    assert_eq!(run.stage, DeviceStage::Done);
    assert!(run.finish().is_ok());
}

#[test]
fn stopped_poller_ends_the_forwarding() {
    let mut run = forwarding();
    run.observe(DeviceEvent::Forwarded(true));
    assert_eq!(run.stage, DeviceStage::StopService);
}

#[test]
fn first_failure_is_reported() {
    let mut run = forwarding();
    run.observe(fault("read"));
    run.observe(fault("stop"));
    run.observe(fault("cleanup"));
    run.observe(fault("signal"));
    assert_eq!(run.finish().unwrap_err().messages, ["read"]);
    let mut run = forwarding();
    run.observe(DeviceEvent::Interrupted(true));
    run.observe(DeviceEvent::Succeeded);
    run.observe(fault("cleanup"));
    run.observe(fault("signal"));
    assert_eq!(run.finish().unwrap_err().messages, ["cleanup"]);
}

#[test]
fn lost_shutdown_task_is_reported_above_all() {
    let mut run = forwarding();
    run.observe(fault("read"));
    run.observe(DeviceEvent::Succeeded);
    run.observe(DeviceEvent::Succeeded);
    run.observe(DeviceEvent::JoinFailed(Failure::new(String::from("panic"))));
    assert_eq!(
        run.finish().unwrap_err().messages,
        ["shutdown task join failed", "panic"]
    );
}

#[test]
fn configured_network_is_abandoned_on_failure() {
    let mut run = create_device();
    run.observe(DeviceEvent::Succeeded);
    run.observe(DeviceEvent::Succeeded);
    run.observe(fault("interrupt"));
    assert_eq!(run.stage, DeviceStage::AbandonNetwork);
    run.observe(fault("cleanup"));
    assert_eq!(run.finish().unwrap_err().messages, ["interrupt"]);

    let mut run = create_device();
    run.observe(DeviceEvent::Succeeded);
    run.observe(DeviceEvent::Succeeded);
    run.observe(DeviceEvent::Succeeded);
    run.observe(fault("polling"));
    assert_eq!(run.stage, DeviceStage::AbandonNetwork);
}

#[test]
fn unconfigured_network_is_left_alone() {
    let mut run = create_device();
    run.observe(fault("build"));
    assert_eq!(run.stage, DeviceStage::Done);
    let mut run = create_device();
    run.observe(DeviceEvent::Succeeded);
    run.observe(fault("configure"));
    assert_eq!(run.stage, DeviceStage::Done);
    assert_eq!(run.finish().unwrap_err().messages, ["configure"]);
}

fn server() -> ProxyServer {
    ProxyServer {
        address: String::from("10.8.0.5"),
        mask: String::from("255.255.255.0"),
        gateway: String::from("10.8.0.1"),
        dns: String::new(),
        wins: String::new(),
        split_tunnel_routes: Vec::new(),
    }
}

#[test]
fn packets_are_cut_to_their_length() {
    assert_eq!(read_packet(&[1, 2, 3, 4], 2), [1, 2]);
    assert!(read_packet(&[1, 2], 0).is_empty());
    let mut state: ServiceState<u8, u8> = ServiceState::new();
    assert!(matches!(forward_packet(&state, &[1, 2], 1), Err(ServiceError::NotRunning)));
    let ticket = start_service(&mut state, 7).unwrap();
    let handle = SessionHandle {
        id: ticket.id,
        server: server(),
        peer_ip: parse_ip("211.65.64.100").unwrap(),
        link: 9,
    };
    let outcome: Result<SessionHandle<u8>, ()> = Ok(handle);
    finish_start(&mut state, ticket.id, outcome).unwrap();
    let (link, command) = forward_packet(&state, &[1, 2, 3], 2).unwrap();
    assert_eq!(*link, 9);
    assert!(matches!(command, SessionCommand::SendTcp(packet) if packet == [1, 2]));
}

#[test]
fn failed_send_does_not_end_forwarding() {
    let mut run = forwarding();
    run.observe(forward_step(Err(Failure::new(String::from("x"))), false));
    assert_eq!(run.stage, DeviceStage::Forward);
    run.observe(forward_step(Ok(()), false));
    assert_eq!(run.stage, DeviceStage::Forward);
    run.observe(forward_step(Err(Failure::new(String::from("x"))), true));
    assert_eq!(run.stage, DeviceStage::StopService);
}

#[test]
fn polled_packets_are_written_unchanged() {
    let step = poll_step(PollEvent::Packet(vec![1, 2, 3]));
    assert_eq!(packet_for_device(step), Some(vec![1, 2, 3]));
    assert_eq!(packet_for_device(PollStep::Report(4)), None);
    assert_eq!(packet_for_device(PollStep::Wait), None);
    assert_eq!(packet_for_device(PollStep::End), None);
}
