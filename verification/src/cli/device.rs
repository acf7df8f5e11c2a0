//! The life of the tunnel device: it is built, packets are forwarded, and it is taken down.

use vstd::prelude::*;
use vstd::slice::slice_subrange;
use crate::cli::commands::is_outcome;
use crate::failure::{maybe_failure, Failure};
use crate::net::{octets_read_back, Ipv4Addr};
use crate::text::{copy_text, maybe_text};
use crate::types::{ProxyServer, ProxyServerView};
use crate::vpn::service::{
    handed_out, has_ended, is_request, poll_action, send_tcp_packet, PollEvent, PollStep,
    ServiceError, ServiceState, SessionCommand, SessionCommandView,
};

verus! {

/// The name of the tunnel device.
pub const DEVICE_NAME: &'static str = "CCZU-VPN-PROTO";

/// How a tunnel device is built.
#[derive(Debug)]
pub struct DeviceConfig {
    pub name: String,
    pub address: String,
    pub mask: String,
    /// The other end of the tunnel, where the system wants it.
    pub destination: Option<String>,
}

/// A [`DeviceConfig`] as characters.
pub struct DeviceConfigView {
    pub name: Seq<char>,
    pub address: Seq<char>,
    pub mask: Seq<char>,
    pub destination: Option<Seq<char>>,
}

impl View for DeviceConfig {
    type V = DeviceConfigView;

    open spec fn view(&self) -> DeviceConfigView {
        DeviceConfigView {
            name: self.name@,
            address: self.address@,
            mask: self.mask@,
            destination: maybe_text(self.destination),
        }
    }
}

/// How the tunnel device for a session is built.
pub open spec fn device_config_of(
    server: ProxyServerView,
    with_destination: bool,
) -> DeviceConfigView {
    DeviceConfigView {
        name: DEVICE_NAME@,
        address: server.address,
        mask: server.mask,
        destination: if with_destination {
            Some(server.gateway)
        } else {
            None
        },
    }
}

/// How the tunnel device for the running session is built; it needs one.
pub fn device_config(server: &Option<ProxyServer>, with_destination: bool) -> (r: Result<
    DeviceConfig,
    Failure,
>)
    ensures
        match *server {
            None => r matches Err(f) && f@ == seq!["No server to create TUN device"@],
            Some(server) => {
                &&& r matches Ok(config)
                &&& config.name@ == DEVICE_NAME@
                &&& config.address@ == server.address@
                &&& config.mask@ == server.mask@
                &&& config.destination is Some <==> with_destination
                &&& config.destination matches Some(s) ==> s@ == server.gateway@
                &&& config@ == device_config_of(server@, with_destination)
            },
        },
{
    match server {
        None => Err(Failure::new(String::from_str("No server to create TUN device"))),
        Some(server) => Ok(
            DeviceConfig {
                name: String::from_str(DEVICE_NAME),
                address: copy_text(&server.address),
                mask: copy_text(&server.mask),
                destination: if with_destination {
                    Some(copy_text(&server.gateway))
                } else {
                    None
                },
            },
        ),
    }
}

/// What diagnostics show of an IPv4 packet.
#[derive(Debug, Clone, Copy, PartialEq, Eq, Structural)]
pub struct PacketSummary {
    pub protocol: u8,
    pub source: Ipv4Addr,
    pub destination: Ipv4Addr,
}

/// A packet has an IPv4 header, by its length and by the version in its first byte.
pub open spec fn has_ipv4_header(packet: Seq<u8>) -> bool {
    packet.len() >= 20 && packet[0] / 16 == 4
}

/// Protocol and addresses of a packet, if it is one of IPv4.
pub open spec fn packet_summary(packet: Seq<u8>) -> Option<PacketSummary> {
    if has_ipv4_header(packet) {
        Some(
            PacketSummary {
                protocol: packet[9],
                source: Ipv4Addr::of(packet[12], packet[13], packet[14], packet[15]),
                destination: Ipv4Addr::of(packet[16], packet[17], packet[18], packet[19]),
            },
        )
    } else {
        None
    }
}

/// Protocol and addresses of a packet, if it is one of IPv4.
pub fn summarize_packet(packet: &[u8]) -> (r: Option<PacketSummary>)
    ensures
        r == (if has_ipv4_header(packet@) {
            Some(
                PacketSummary {
                    protocol: packet@[9],
                    source: Ipv4Addr::of(packet@[12], packet@[13], packet@[14], packet@[15]),
                    destination: Ipv4Addr::of(packet@[16], packet@[17], packet@[18], packet@[19]),
                },
            )
        } else {
            None
        }),
        r == packet_summary(packet@),
{
    if packet.len() >= 20 && packet[0] / 16 == 4 {
        Some(
            PacketSummary {
                protocol: packet[9],
                source: Ipv4Addr::new(packet[12], packet[13], packet[14], packet[15]),
                destination: Ipv4Addr::new(packet[16], packet[17], packet[18], packet[19]),
            },
        )
    } else {
        None
    }
}

/// The packet that was read from the device: the front of the buffer, as far as it was filled.
pub open spec fn packet_read(buffer: Seq<u8>, len: int) -> Seq<u8> {
    buffer.take(len)
}

/// The packet that was read from the device: the front of the buffer, as far as it was filled.
pub fn read_packet(buffer: &[u8], len: usize) -> (r: &[u8])
    requires
        len <= buffer@.len(),
    ensures
        r@ == buffer@.take(len as int),
        r@ == packet_read(buffer@, len as int),
{
    slice_subrange(buffer, 0, len)
}

/// The packet that was read from the device, for the running session to send in a frame.
pub fn forward_packet<'a, K, L>(
    state: &'a ServiceState<K, L>,
    buffer: &[u8],
    len: usize,
) -> (r: Result<(&'a L, SessionCommand), ServiceError>)
    requires
        len <= buffer@.len(),
    ensures
        is_request(r, *state, SessionCommandView::SendTcp(buffer@.take(len as int))),
        is_request(r, *state, SessionCommandView::SendTcp(packet_read(buffer@, len as int))),
{
    send_tcp_packet(state, read_packet(buffer, len))
}

/// What became of the stage when a packet was to be sent, whether or not it could be.
pub open spec fn forward_event(sent: Result<(), Failure>, told_to_stop: bool) -> DeviceEvent {
    DeviceEvent::Forwarded(told_to_stop)
}

/// What became of the stage when a packet was to be sent: a packet that could not be is lost,
/// and no more than that.
pub fn forward_step(_sent: Result<(), Failure>, told_to_stop: bool) -> (r: DeviceEvent)
    ensures
        r == DeviceEvent::Forwarded(told_to_stop),
        r == forward_event(_sent, told_to_stop),
{
    DeviceEvent::Forwarded(told_to_stop)
}

/// What is written to the device when the poller does `step`.
pub open spec fn device_write(step: PollStep) -> Option<Vec<u8>> {
    match step {
        PollStep::Deliver(_, packet) => Some(packet),
        _ => None,
    }
}

/// What is written to the device when the poller does `step`: the packet that it hands out, as
/// it is.
pub fn packet_for_device(step: PollStep) -> (r: Option<Vec<u8>>)
    ensures
        r == device_write(step),
{
    match step {
        PollStep::Deliver(_, packet) => Some(packet),
        _ => None,
    }
}

/// What is to be done next with the device.
#[derive(Debug, Clone, Copy, PartialEq, Eq, Structural)]
pub enum DeviceStage {
    Build,
    ConfigureNetwork,
    CreateInterrupt,
    StartPolling,
    /// Read a packet from the device, and send it to the proxy.
    Forward,
    StopService,
    CleanUpNetwork,
    /// The device could not be used: what was configured for it is removed.
    AbandonNetwork,
    /// Wait for the task that waits for a signal, if it got one, and else stop it.
    EndShutdownTask,
    Done,
}

/// What has become of the stage.
#[derive(Debug)]
pub enum DeviceEvent {
    Succeeded,
    Failed(Failure),
    /// A packet was sent, or lost; and whether the poller was told to stop meanwhile.
    Forwarded(bool),
    /// The device was not read, as that was interrupted; and whether for a shutdown.
    Interrupted(bool),
    /// The task that waits for a signal cannot be waited for.
    JoinFailed(Failure),
}

/// The device, with what went wrong first.
#[derive(Debug)]
pub struct DeviceRun {
    pub stage: DeviceStage,
    pub failure: Option<Failure>,
}

/// A [`DeviceRun`] in terms of sequences.
pub struct DeviceView {
    pub stage: DeviceStage,
    pub failure: Option<Seq<Seq<char>>>,
}

impl View for DeviceRun {
    type V = DeviceView;

    open spec fn view(&self) -> DeviceView {
        DeviceView { stage: self.stage, failure: maybe_failure(self.failure) }
    }
}

impl DeviceView {
    /// Goes on to a stage.
    pub open spec fn at(self, stage: DeviceStage) -> DeviceView {
        DeviceView { stage, ..self }
    }

    /// Takes note of what went wrong, unless something did before.
    pub open spec fn noted(self, messages: Seq<Seq<char>>) -> DeviceView {
        DeviceView {
            failure: if self.failure is Some {
                self.failure
            } else {
                Some(messages)
            },
            ..self
        }
    }

    /// The state when the stage has come to `event`.
    pub open spec fn after(self, event: DeviceEvent) -> DeviceView {
        match self.stage {
            DeviceStage::Build => match event {
                DeviceEvent::Succeeded => self.at(DeviceStage::ConfigureNetwork),
                DeviceEvent::Failed(f) => self.noted(f@).at(DeviceStage::Done),
                _ => self,
            },
            DeviceStage::ConfigureNetwork => match event {
                DeviceEvent::Succeeded => self.at(DeviceStage::CreateInterrupt),
                DeviceEvent::Failed(f) => self.noted(f@).at(DeviceStage::Done),
                _ => self,
            },
            DeviceStage::CreateInterrupt => match event {
                DeviceEvent::Succeeded => self.at(DeviceStage::StartPolling),
                DeviceEvent::Failed(f) => self.noted(f@).at(DeviceStage::AbandonNetwork),
                _ => self,
            },
            DeviceStage::StartPolling => match event {
                DeviceEvent::Succeeded => self.at(DeviceStage::Forward),
                DeviceEvent::Failed(f) => self.noted(f@).at(DeviceStage::AbandonNetwork),
                _ => self,
            },
            DeviceStage::Forward => match event {
                DeviceEvent::Forwarded(told_to_stop) => if told_to_stop {
                    self.at(DeviceStage::StopService)
                } else {
                    self
                },
                DeviceEvent::Interrupted(for_shutdown) => if for_shutdown {
                    self.at(DeviceStage::StopService)
                } else {
                    self
                },
                DeviceEvent::Failed(f) => self.noted(f@).at(DeviceStage::StopService),
                _ => self,
            },
            DeviceStage::StopService => match event {
                DeviceEvent::Succeeded => self.at(DeviceStage::CleanUpNetwork),
                DeviceEvent::Failed(f) => self.noted(f@).at(DeviceStage::CleanUpNetwork),
                _ => self,
            },
            DeviceStage::CleanUpNetwork => match event {
                DeviceEvent::Succeeded => self.at(DeviceStage::EndShutdownTask),
                DeviceEvent::Failed(f) => self.noted(f@).at(DeviceStage::EndShutdownTask),
                _ => self,
            },
            DeviceStage::AbandonNetwork => match event {
                DeviceEvent::Succeeded | DeviceEvent::Failed(_) => self.at(DeviceStage::Done),
                _ => self,
            },
            DeviceStage::EndShutdownTask => match event {
                DeviceEvent::Succeeded => self.at(DeviceStage::Done),
                DeviceEvent::Failed(f) => self.noted(f@).at(DeviceStage::Done),
                DeviceEvent::JoinFailed(f) => DeviceView {
                    stage: DeviceStage::Done,
                    failure: Some(seq!["shutdown task join failed"@] + f@),
                },
                _ => self,
            },
            DeviceStage::Done => self,
        }
    }
}

/// The first stage of a device.
pub open spec fn device_start() -> DeviceView {
    DeviceView { stage: DeviceStage::Build, failure: None }
}

/// Starts to use a device.
pub fn create_device() -> (r: DeviceRun)
    ensures
        r@ == device_start(),
{
    DeviceRun { stage: DeviceStage::Build, failure: None }
}

impl DeviceRun {
    fn go(&mut self, stage: DeviceStage, trouble: Option<Failure>)
        ensures
            final(self)@ == (match trouble {
                Some(f) => old(self)@.noted(f@).at(stage),
                None => old(self)@.at(stage),
            }),
    {
        self.stage = stage;
        if let Some(f) = trouble {
            if self.failure.is_none() {
                self.failure = Some(f);
            }
        }
    }

    /// Takes note of what became of the stage.
    pub fn observe(&mut self, event: DeviceEvent)
        ensures
            final(self)@ == old(self)@.after(event),
    {
        match (self.stage, event) {
            (DeviceStage::Build, DeviceEvent::Succeeded) => {
                self.go(DeviceStage::ConfigureNetwork, None);
            },
            (DeviceStage::Build, DeviceEvent::Failed(f)) => {
                self.go(DeviceStage::Done, Some(f));
            },
            (DeviceStage::ConfigureNetwork, DeviceEvent::Succeeded) => {
                self.go(DeviceStage::CreateInterrupt, None);
            },
            (DeviceStage::ConfigureNetwork, DeviceEvent::Failed(f)) => {
                self.go(DeviceStage::Done, Some(f));
            },
            (DeviceStage::CreateInterrupt, DeviceEvent::Succeeded) => {
                self.go(DeviceStage::StartPolling, None);
            },
            (DeviceStage::CreateInterrupt, DeviceEvent::Failed(f)) => {
                self.go(DeviceStage::AbandonNetwork, Some(f));
            },
            (DeviceStage::StartPolling, DeviceEvent::Succeeded) => {
                self.go(DeviceStage::Forward, None);
            },
            (DeviceStage::StartPolling, DeviceEvent::Failed(f)) => {
                self.go(DeviceStage::AbandonNetwork, Some(f));
            },
            (DeviceStage::Forward, DeviceEvent::Forwarded(told_to_stop)) => {
                if told_to_stop {
                    self.go(DeviceStage::StopService, None);
                }
            },
            (DeviceStage::Forward, DeviceEvent::Interrupted(for_shutdown)) => {
                if for_shutdown {
                    self.go(DeviceStage::StopService, None);
                }
            },
            (DeviceStage::Forward, DeviceEvent::Failed(f)) => {
                self.go(DeviceStage::StopService, Some(f));
            },
            (DeviceStage::StopService, DeviceEvent::Succeeded) => {
                self.go(DeviceStage::CleanUpNetwork, None);
            },
            (DeviceStage::StopService, DeviceEvent::Failed(f)) => {
                self.go(DeviceStage::CleanUpNetwork, Some(f));
            },
            (DeviceStage::CleanUpNetwork, DeviceEvent::Succeeded) => {
                self.go(DeviceStage::EndShutdownTask, None);
            },
            (DeviceStage::CleanUpNetwork, DeviceEvent::Failed(f)) => {
                self.go(DeviceStage::EndShutdownTask, Some(f));
            },
            (DeviceStage::AbandonNetwork, DeviceEvent::Succeeded) => {
                self.go(DeviceStage::Done, None);
            },
            (DeviceStage::AbandonNetwork, DeviceEvent::Failed(_)) => {
                self.go(DeviceStage::Done, None);
            },
            (DeviceStage::EndShutdownTask, DeviceEvent::Succeeded) => {
                self.go(DeviceStage::Done, None);
            },
            (DeviceStage::EndShutdownTask, DeviceEvent::Failed(f)) => {
                self.go(DeviceStage::Done, Some(f));
            },
            (DeviceStage::EndShutdownTask, DeviceEvent::JoinFailed(f)) => {
                self.stage = DeviceStage::Done;
                self.failure = Some(f.context(String::from_str("shutdown task join failed")));
            },
            _ => {},
        }
    }

    /// How it went.
    pub fn finish(self) -> (r: Result<(), Failure>)
        requires
            self.stage == DeviceStage::Done,
        ensures
            match self@.failure {
                Some(messages) => r matches Err(f) && f@ == messages,
                None => r is Ok,
            },
            is_outcome(r, self@.failure),
    {
        match self.failure {
            Some(f) => Err(f),
            None => Ok(()),
        }
    }
}

/// The state when the stages have come to `events`, one after the other.
pub open spec fn device_run(events: Seq<DeviceEvent>) -> DeviceView
    decreases events.len(),
{
    if events.len() == 0 {
        device_start()
    } else {
        device_run(events.drop_last()).after(events.last())
    }
}

/// What the device has brought about: that the network is configured for it, and that
/// packets are forwarded.
pub struct Underway {
    pub network: bool,
    pub forwarding: bool,
}

/// What is brought about when the stage `stage` has come to `event`. Something counts as
/// ended once that was attempted.
pub open spec fn underway_after(u: Underway, stage: DeviceStage, event: DeviceEvent) -> Underway {
    let attempted = event is Succeeded || event is Failed;
    match stage {
        DeviceStage::ConfigureNetwork if event is Succeeded => Underway { network: true, ..u },
        DeviceStage::StartPolling if event is Succeeded => Underway { forwarding: true, ..u },
        DeviceStage::StopService if attempted => Underway { forwarding: false, ..u },
        DeviceStage::CleanUpNetwork if attempted => Underway { network: false, ..u },
        DeviceStage::AbandonNetwork if attempted => Underway { network: false, ..u },
        _ => u,
    }
}

/// What is brought about by some events.
pub open spec fn underway(events: Seq<DeviceEvent>) -> Underway
    decreases events.len(),
{
    if events.len() == 0 {
        Underway { network: false, forwarding: false }
    } else {
        underway_after(
            underway(events.drop_last()),
            device_run(events.drop_last()).stage,
            events.last(),
        )
    }
}

/// The stages in which the network is configured.
pub open spec fn network_stage(stage: DeviceStage) -> bool {
    stage != DeviceStage::Build && stage != DeviceStage::ConfigureNetwork && stage
        != DeviceStage::EndShutdownTask && stage != DeviceStage::Done
}

/// The stages in which packets are forwarded.
pub open spec fn forwarding_stage(stage: DeviceStage) -> bool {
    stage == DeviceStage::Forward || stage == DeviceStage::StopService
}

/// Whatever happens, the stage tells what is underway.
pub proof fn stage_tells_what_is_underway(events: Seq<DeviceEvent>)
    ensures
        underway(events).network == network_stage(device_run(events).stage),
        underway(events).forwarding == forwarding_stage(device_run(events).stage),
    decreases events.len(),
{
    if events.len() > 0 {
        stage_tells_what_is_underway(events.drop_last());
    }
}

/// When the device is done, the network is cleaned up and nothing is forwarded any more,
/// whatever went wrong.
pub proof fn done_device_leaves_nothing(events: Seq<DeviceEvent>)
    requires
        device_run(events).stage == DeviceStage::Done,
    ensures
        !underway(events).network,
        !underway(events).forwarding,
{
    stage_tells_what_is_underway(events);
}

/// A packet that was read from the device.
pub struct PacketRead {
    pub buffer: Seq<u8>,
    pub len: int,
    /// What became of the attempt to send it.
    pub sent: Result<(), Failure>,
}

/// What is handed to the session for some packets that were read.
pub open spec fn sent_packets(reads: Seq<PacketRead>) -> Seq<SessionCommandView> {
    reads.map_values(|read: PacketRead| SessionCommandView::SendTcp(read.buffer.take(read.len)))
}

/// What became of the stage for these packets, if the poller was not told to stop meanwhile.
pub open spec fn forwarded(reads: Seq<PacketRead>) -> Seq<DeviceEvent> {
    reads.map_values(|read: PacketRead| DeviceEvent::Forwarded(false))
}

/// While nobody asks for a stop, forwarding goes on, whether packets could be sent or not:
/// every packet that is read is handed to the session once, in order, cut to its length.
pub proof fn forwarding_goes_on(events: Seq<DeviceEvent>, reads: Seq<PacketRead>)
    requires
        device_run(events).stage == DeviceStage::Forward,
    ensures
        device_run(events + forwarded(reads)) == device_run(events),
        sent_packets(reads).len() == reads.len(),
        forall|i: int|
            0 <= i < reads.len() ==> #[trigger] sent_packets(reads)[i]
                == SessionCommandView::SendTcp(reads[i].buffer.take(reads[i].len)),
    decreases reads.len(),
{
    if reads.len() == 0 {
        assert(events + forwarded(reads) =~= events);
    } else {
        let front = reads.drop_last();
        forwarding_goes_on(events, front);
        let all = events + forwarded(reads);
        assert(all.drop_last() =~= events + forwarded(front));
        assert(all.last() == DeviceEvent::Forwarded(false));
    }
}

/// What is written to the device while a poller meets with `steps`.
pub open spec fn device_writes(steps: Seq<(bool, PollEvent)>) -> Seq<Vec<u8>>
    decreases steps.len(),
{
    if steps.len() == 0 {
        Seq::empty()
    } else {
        let before = device_writes(steps.drop_last());
        if has_ended(steps.drop_last()) || steps.last().0 {
            before
        } else {
            match device_write(poll_action(steps.last().1)) {
                Some(packet) => before.push(packet),
                None => before,
            }
        }
    }
}

/// The packets that the poller hands out are written to the device, in order and unchanged, and
/// nothing else is.
pub proof fn polled_packets_reach_the_device(steps: Seq<(bool, PollEvent)>)
    ensures
        device_writes(steps) == handed_out(steps),
        forall|packet: Vec<u8>| #[trigger]
            device_write(poll_action(PollEvent::Packet(packet))) == Some(packet),
    decreases steps.len(),
{
    if steps.len() > 0 {
        polled_packets_reach_the_device(steps.drop_last());
    }
}

/// A packet of IPv4 is summed up by what its header says: the protocol in byte 9, the source in
/// the four bytes from 12 and the destination in the four bytes from 16. Nothing behind the
/// header matters. A packet that is shorter than a header, or whose first byte names another
/// version, is not summed up.
pub proof fn summary_is_read_off_the_header(packet: Seq<u8>)
    ensures
        packet_summary(packet) is Some <==> packet.len() >= 20 && 0x40 <= packet[0] <= 0x4f,
        packet_summary(packet) matches Some(summary) ==> {
            &&& summary.protocol == packet[9]
            &&& summary.source.octet(0) == packet[12]
            &&& summary.source.octet(1) == packet[13]
            &&& summary.source.octet(2) == packet[14]
            &&& summary.source.octet(3) == packet[15]
            &&& summary.destination.octet(0) == packet[16]
            &&& summary.destination.octet(1) == packet[17]
            &&& summary.destination.octet(2) == packet[18]
            &&& summary.destination.octet(3) == packet[19]
        },
        packet.len() >= 20 ==> packet_summary(packet) == packet_summary(packet.take(20)),
{
    octets_read_back(packet[12], packet[13], packet[14], packet[15]);
    octets_read_back(packet[16], packet[17], packet[18], packet[19]);
}

/// The device has the address and the mask of the session, always the same name, and the gateway
/// at its other end where the system wants one.
pub proof fn device_has_the_address_of_the_session(server: ProxyServerView)
    ensures
        device_config_of(server, true).address == server.address,
        device_config_of(server, true).mask == server.mask,
        device_config_of(server, true).name == "CCZU-VPN-PROTO"@,
        device_config_of(server, true).destination == Some(server.gateway),
        device_config_of(server, false) == (DeviceConfigView {
            destination: None,
            ..device_config_of(server, true)
        }),
{
}

/// What goes wrong first is what the device comes to. Nothing that goes wrong later changes it,
/// but that the task which waits for a signal cannot be waited for. Only the removal of what was
/// configured for a device that could not be used may fail without a word.
pub proof fn first_failure_of_a_device_stays(device: DeviceView, event: DeviceEvent)
    ensures
        device.failure is Some && !(event is JoinFailed) ==> device.after(event).failure
            == device.failure,
        device.failure is None && !(event is Failed) && !(event is JoinFailed) ==> device.after(
            event,
        ).failure is None,
        device.failure is None && device.stage != DeviceStage::AbandonNetwork && device.stage
            != DeviceStage::Done ==> (event matches DeviceEvent::Failed(f) ==> device.after(
            event,
        ).failure == Some(f@)),
        device.stage == DeviceStage::AbandonNetwork ==> (event matches DeviceEvent::Failed(f)
            ==> device.after(event) == device.after(DeviceEvent::Succeeded)),
        device.stage == DeviceStage::EndShutdownTask ==> (event matches DeviceEvent::JoinFailed(f)
            ==> (device.after(event).failure matches Some(messages) && messages.len() == f@.len()
            + 1 && messages.drop_first() == f@)),
{
    if let DeviceEvent::JoinFailed(f) = event {
        assert((seq!["shutdown task join failed"@] + f@).drop_first() =~= f@);
    }
}

proof fn lemma_device_step(events: Seq<DeviceEvent>, event: DeviceEvent)
    ensures
        device_run(events.push(event)) == device_run(events).after(event),
{
    assert(events.push(event).drop_last() =~= events);
}

/// A device is built, the network is configured for it, its reads can be interrupted, and the
/// poller is started; then packets are forwarded. If one of these steps fails, the device is at
/// its end, and before that what was configured is removed, as far as it came to that.
pub proof fn device_is_set_up_step_by_step(failure: Failure, last: DeviceEvent)
    requires
        last is Succeeded || last is Failed,
    ensures
        ({
            let good = DeviceEvent::Succeeded;
            let bad = DeviceEvent::Failed(failure);
            let none = Seq::<DeviceEvent>::empty();
            let one = none.push(good);
            let two = one.push(good);
            let three = two.push(good);
            let four = three.push(good);
            &&& device_run(none).stage == DeviceStage::Build
            &&& device_run(one).stage == DeviceStage::ConfigureNetwork
            &&& device_run(two).stage == DeviceStage::CreateInterrupt
            &&& device_run(three).stage == DeviceStage::StartPolling
            &&& device_run(four).stage == DeviceStage::Forward
            &&& device_run(four).failure is None
            &&& device_run(none.push(bad)).stage == DeviceStage::Done
            &&& device_run(one.push(bad)).stage == DeviceStage::Done
            &&& device_run(two.push(bad)).stage == DeviceStage::AbandonNetwork
            &&& device_run(two.push(bad).push(last)).stage == DeviceStage::Done
            &&& device_run(three.push(bad)).stage == DeviceStage::AbandonNetwork
            &&& device_run(three.push(bad).push(last)).stage == DeviceStage::Done
            &&& device_run(two.push(bad).push(last)).failure == Some(failure@)
            &&& device_run(three.push(bad).push(last)).failure == Some(failure@)
        }),
{
    let good = DeviceEvent::Succeeded;
    let bad = DeviceEvent::Failed(failure);
    let none = Seq::<DeviceEvent>::empty();
    let one = none.push(good);
    let two = one.push(good);
    let three = two.push(good);
    lemma_device_step(none, good);
    lemma_device_step(one, good);
    lemma_device_step(two, good);
    lemma_device_step(three, good);
    lemma_device_step(none, bad);
    lemma_device_step(one, bad);
    lemma_device_step(two, bad);
    lemma_device_step(three, bad);
    lemma_device_step(two.push(bad), last);
    lemma_device_step(three.push(bad), last);
}

/// Forwarding ends when the poller was told to stop, when a read was interrupted for a shutdown
/// and when it fails, and not otherwise. Then the service is stopped, the network is cleaned up
/// and the task that waits for a signal is ended, in this order, whatever these come to.
pub proof fn device_is_taken_down_step_by_step(
    device: DeviceView,
    end: DeviceEvent,
    stopped: DeviceEvent,
    cleaned: DeviceEvent,
    ended: DeviceEvent,
)
    requires
        device.stage == DeviceStage::Forward,
        end == DeviceEvent::Forwarded(true) || end == DeviceEvent::Interrupted(true) || end
            is Failed,
        stopped is Succeeded || stopped is Failed,
        cleaned is Succeeded || cleaned is Failed,
        ended is Succeeded || ended is Failed || ended is JoinFailed,
    ensures
        device.after(end).stage == DeviceStage::StopService,
        device.after(end).after(stopped).stage == DeviceStage::CleanUpNetwork,
        device.after(end).after(stopped).after(cleaned).stage == DeviceStage::EndShutdownTask,
        device.after(end).after(stopped).after(cleaned).after(ended).stage == DeviceStage::Done,
        device.after(DeviceEvent::Interrupted(false)) == device,
        device.after(DeviceEvent::Forwarded(false)) == device,
        !(end is Failed) && stopped is Succeeded && cleaned is Succeeded && ended is Succeeded
            ==> device.after(end).after(stopped).after(cleaned).after(ended).failure
            == device.failure,
{
}

/// A packet that could not be sent is lost, and no more than that: forwarding goes on as if it had
/// been sent, and it ends after either if the poller was told to stop meanwhile.
pub proof fn lost_packet_does_not_end_forwarding(
    device: DeviceView,
    failure: Failure,
    told_to_stop: bool,
)
    requires
        device.stage == DeviceStage::Forward,
    ensures
        device.after(forward_event(Err(failure), told_to_stop)) == device.after(
            forward_event(Ok(()), told_to_stop),
        ),
        device.after(forward_event(Err(failure), false)) == device,
        device.after(forward_event(Err(failure), true)).stage == DeviceStage::StopService,
        device.after(forward_event(Err(failure), true)).failure == device.failure,
{
}

/// What a stage of a device waits for.
pub open spec fn is_awaited(stage: DeviceStage, event: DeviceEvent) -> bool {
    match stage {
        DeviceStage::Forward => event is Forwarded || event is Interrupted || event is Failed,
        DeviceStage::EndShutdownTask => event is Succeeded || event is Failed || event
            is JoinFailed,
        DeviceStage::Done => false,
        _ => event is Succeeded || event is Failed,
    }
}

/// What a stage does not wait for leaves the device as it is, and what it waits for leads to
/// another stage, but that forwarding may go on.
pub proof fn device_goes_on_by_what_it_waits_for(device: DeviceView, event: DeviceEvent)
    ensures
        !is_awaited(device.stage, event) ==> device.after(event) == device,
        is_awaited(device.stage, event) && device.stage != DeviceStage::Forward ==> device.after(
            event,
        ).stage != device.stage,
{
}

/// A packet that was read is all that the buffer was filled with, byte for byte, and nothing of
/// what stands behind it.
pub proof fn packet_is_what_was_read(packet: Seq<u8>, left: Seq<u8>)
    ensures
        packet_read(packet + left, packet.len() as int) == packet,
{
    assert(packet_read(packet + left, packet.len() as int) =~= packet);
}

} // verus!
