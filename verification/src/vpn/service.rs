//! The state of the tunnel service: at most one session, and the packet poller.

use vstd::prelude::*;
use crate::failure::{caused, Failure};
use crate::net::IpAddr;
use crate::sorted::{ascending, ascending_is_unique, insert_sorted, keys};
use crate::text::{lemma_push_contains, text_less, texts};
use crate::types::{ProxyServer, ProxyServerView, StartOptions};

verus! {

/// A session that is being started. `cancel` tells the starter to give up.
pub struct StartingHandle<K> {
    pub id: u64,
    pub cancel: K,
}

/// A running session. `link` is what reaches the task that serves it.
pub struct SessionHandle<L> {
    pub id: u64,
    pub server: ProxyServer,
    pub peer_ip: IpAddr,
    pub link: L,
}

/// What the service holds while there is a session.
pub enum SessionSlot<K, L> {
    Starting(StartingHandle<K>),
    Running(SessionHandle<L>),
}

/// The session of the service, if there is one, and the number of the next one.
pub struct ServiceState<K, L> {
    pub session: Option<SessionSlot<K, L>>,
    pub next_session_id: u64,
}

/// Why the service does not do what it is asked for.
#[derive(Debug, Clone, Copy, PartialEq, Eq, Structural)]
pub enum ServiceError {
    /// There is a session already.
    AlreadyRunning,
    /// The session does not run yet.
    StillStarting,
    /// There is no session.
    NotRunning,
    /// The service was stopped before the session ran.
    StartCancelled,
    /// The poller ended in a panic.
    PollerPanicked,
    /// The session ended while it was waited for a packet.
    QueueClosed,
    /// The session does not take commands any more.
    CommandNotSent,
    /// The session ended before it answered a command.
    CommandNotAnswered,
    /// Who held the state of the session before ended in a panic.
    SessionLockPoisoned,
    /// Who held the state of the poller before ended in a panic.
    PollerLockPoisoned,
}

impl ServiceError {
    /// What the user is told.
    pub open spec fn text(self) -> Seq<char> {
        match self {
            ServiceError::AlreadyRunning => "service is already running"@,
            ServiceError::StillStarting => "service is still starting"@,
            ServiceError::NotRunning => "service is not running"@,
            ServiceError::StartCancelled =>
                "service start cancelled before initialization completed"@,
            ServiceError::PollerPanicked => "poller thread panicked"@,
            ServiceError::QueueClosed => "session packet queue closed"@,
            ServiceError::CommandNotSent => "failed to send command to session actor"@,
            ServiceError::CommandNotAnswered => "session actor dropped command response"@,
            ServiceError::SessionLockPoisoned => "session state lock poisoned"@,
            ServiceError::PollerLockPoisoned => "poller state lock poisoned"@,
        }
    }

    /// What the user is told.
    pub fn message(&self) -> (r: &'static str)
        ensures
            r@ == self.text(),
    {
        match self {
            ServiceError::AlreadyRunning => "service is already running",
            ServiceError::StillStarting => "service is still starting",
            ServiceError::NotRunning => "service is not running",
            ServiceError::StartCancelled =>
                "service start cancelled before initialization completed",
            ServiceError::PollerPanicked => "poller thread panicked",
            ServiceError::QueueClosed => "session packet queue closed",
            ServiceError::CommandNotSent => "failed to send command to session actor",
            ServiceError::CommandNotAnswered => "session actor dropped command response",
            ServiceError::SessionLockPoisoned => "session state lock poisoned",
            ServiceError::PollerLockPoisoned => "poller state lock poisoned",
        }
    }
}

impl<K, L> SessionSlot<K, L> {
    /// The number of the session.
    pub open spec fn id(self) -> u64 {
        match self {
            SessionSlot::Starting(handle) => handle.id,
            SessionSlot::Running(handle) => handle.id,
        }
    }
}

impl<K, L> ServiceState<K, L> {
    /// The running session, if there is one.
    pub open spec fn running(self) -> Option<SessionHandle<L>> {
        match self.session {
            Some(SessionSlot::Running(handle)) => Some(handle),
            _ => None,
        }
    }

    /// Why no session can be talked to, if none can.
    pub open spec fn fault(self) -> Option<ServiceError> {
        match self.session {
            Some(SessionSlot::Running(_)) => None,
            Some(SessionSlot::Starting(_)) => Some(ServiceError::StillStarting),
            None => Some(ServiceError::NotRunning),
        }
    }

    /// The state without the session, if it is the one with this number.
    pub open spec fn cleared(self, session_id: u64) -> ServiceState<K, L> {
        if self.session is Some && self.session->0.id() == session_id {
            ServiceState { session: None, ..self }
        } else {
            self
        }
    }

    /// The state after a session was asked for: it is reserved if there is none, and a number
    /// is used up in any case.
    pub open spec fn begun(self, cancel: K) -> ServiceState<K, L> {
        ServiceState {
            session: match self.session {
                Some(slot) => Some(slot),
                None => Some(
                    SessionSlot::Starting(StartingHandle { id: self.next_session_id, cancel }),
                ),
            },
            next_session_id: self.next_session_id.wrapping_add(1),
        }
    }

    /// The state after the start of a session ended: it runs, or it is forgotten.
    pub open spec fn finished<E>(
        self,
        session_id: u64,
        outcome: Result<SessionHandle<L>, E>,
    ) -> ServiceState<K, L> {
        match outcome {
            Ok(handle) => ServiceState { session: Some(SessionSlot::Running(handle)), ..self },
            Err(_) => self.cleared(session_id),
        }
    }

    /// The state without a session.
    pub open spec fn stopped(self) -> ServiceState<K, L> {
        ServiceState { session: None, ..self }
    }

    /// The service before the first session.
    pub fn new() -> (r: Self)
        ensures
            r.session is None,
            r.next_session_id == 1,
    {
        ServiceState { session: None, next_session_id: 1 }
    }
}

/// A session that is over does not take away one that was started since.
pub proof fn late_end_keeps_newer_session<K, L>(state: ServiceState<K, L>, session_id: u64)
    requires
        state.session is Some,
        state.session->0.id() != session_id,
    ensures
        state.cleared(session_id) == state,
{
}

/// The parameters of the running tunnel; none while no session runs.
pub open spec fn known_server<K, L>(state: ServiceState<K, L>) -> Option<ProxyServerView> {
    match state.running() {
        Some(handle) => Some(handle.server@),
        None => None,
    }
}

/// The address of the proxy that the running session talks to.
pub open spec fn known_peer<K, L>(state: ServiceState<K, L>) -> Option<IpAddr> {
    match state.running() {
        Some(handle) => Some(handle.peer_ip),
        None => None,
    }
}

/// The parameters of the running tunnel; none while no session runs.
pub fn proxy_server<K, L>(state: &ServiceState<K, L>) -> (r: Option<ProxyServer>)
    ensures
        match known_server(*state) {
            Some(view) => r matches Some(server) && server@ == view,
            None => r is None,
        },
        r is Some <==> state.running() is Some,
        r matches Some(server) ==> server@ == state.running()->0.server@,
{
    match &state.session {
        Some(SessionSlot::Running(handle)) => Some(handle.server.clone()),
        _ => None,
    }
}

/// The address of the proxy that the running session talks to.
pub fn proxy_peer_ip<K, L>(state: &ServiceState<K, L>) -> (r: Option<IpAddr>)
    ensures
        r == known_peer(*state),
        r == (match state.running() {
            Some(handle) => Some(handle.peer_ip),
            None => None,
        }),
{
    match &state.session {
        Some(SessionSlot::Running(handle)) => Some(handle.peer_ip),
        _ => None,
    }
}

/// What reaches the task of the running session.
pub fn clone_command_tx<'a, K, L>(state: &'a ServiceState<K, L>) -> (r: Result<
    &'a L,
    ServiceError,
>)
    ensures
        match state.fault() {
            Some(e) => r == Err::<&L, ServiceError>(e),
            None => r == Ok::<&L, ServiceError>(&state.running()->0.link),
        },
{
    match &state.session {
        Some(SessionSlot::Running(handle)) => Ok(&handle.link),
        Some(SessionSlot::Starting(_)) => Err(ServiceError::StillStarting),
        None => Err(ServiceError::NotRunning),
    }
}

/// Forgets the session, if it is the one with this number.
pub fn clear_session_if_matches<K, L>(state: &mut ServiceState<K, L>, session_id: u64)
    ensures
        *final(state) == old(state).cleared(session_id),
{
    let should_clear = match &state.session {
        Some(SessionSlot::Starting(handle)) => handle.id == session_id,
        Some(SessionSlot::Running(handle)) => handle.id == session_id,
        None => false,
    };
    if should_clear {
        state.session = None;
    }
}

/// Why a start does not go on, if it does not: it was cancelled.
pub open spec fn cancel_fault(cancelled: bool) -> Option<ServiceError> {
    if cancelled {
        Some(ServiceError::StartCancelled)
    } else {
        None
    }
}

/// A start goes on unless it was cancelled.
pub fn check_start_cancelled(cancelled: bool) -> (r: Result<(), ServiceError>)
    ensures
        r == (match cancel_fault(cancelled) {
            Some(e) => Err::<(), ServiceError>(e),
            None => Ok(()),
        }),
        r == (if cancelled {
            Err::<(), ServiceError>(ServiceError::StartCancelled)
        } else {
            Ok(())
        }),
{
    if cancelled {
        Err(ServiceError::StartCancelled)
    } else {
        Ok(())
    }
}

/// A session that may be started.
#[derive(Debug, Clone, Copy, PartialEq, Eq, Structural)]
pub struct StartTicket {
    pub id: u64,
    /// The certificate of the proxy is to be verified.
    pub verify_certificate: bool,
}

/// What a start is answered with: the number of the new session, or that there is one already.
pub open spec fn ticket<K, L>(state: ServiceState<K, L>, options: StartOptions) -> Result<
    StartTicket,
    ServiceError,
> {
    if state.session is Some {
        Err(ServiceError::AlreadyRunning)
    } else {
        Ok(
            StartTicket {
                id: state.next_session_id,
                verify_certificate: !options.no_verification,
            },
        )
    }
}

/// Reserves the service for a new session, if there is none. Every attempt uses up a number.
/// The certificate of the proxy is verified unless that is ruled out expressly.
pub fn start_service_with_options<K, L>(
    state: &mut ServiceState<K, L>,
    cancel: K,
    options: StartOptions,
) -> (r: Result<StartTicket, ServiceError>)
    ensures
        *final(state) == old(state).begun(cancel),
        r == (match old(state).session {
            Some(_) => Err::<StartTicket, ServiceError>(ServiceError::AlreadyRunning),
            None => Ok(
                StartTicket {
                    id: old(state).next_session_id,
                    verify_certificate: !options.no_verification,
                },
            ),
        }),
        r == ticket(*old(state), options),
{
    let session_id: u64 = state.next_session_id;
    state.next_session_id = session_id.wrapping_add(1);
    if state.session.is_some() {
        return Err(ServiceError::AlreadyRunning);
    }
    state.session = Some(SessionSlot::Starting(StartingHandle { id: session_id, cancel }));
    Ok(StartTicket { id: session_id, verify_certificate: !options.no_verification })
}

/// Reserves the service for a new session with the default options: the certificate of the
/// proxy is verified.
pub fn start_service<K, L>(state: &mut ServiceState<K, L>, cancel: K) -> (r: Result<
    StartTicket,
    ServiceError,
>)
    ensures
        *final(state) == old(state).begun(cancel),
        r == (match old(state).session {
            Some(_) => Err::<StartTicket, ServiceError>(ServiceError::AlreadyRunning),
            None => Ok(
                StartTicket { id: old(state).next_session_id, verify_certificate: true },
            ),
        }),
{
    start_service_with_options(state, cancel, StartOptions::default())
}

/// Takes note of how the start of a session ended: it runs, or it is forgotten.
pub fn finish_start<K, L, E>(
    state: &mut ServiceState<K, L>,
    session_id: u64,
    outcome: Result<SessionHandle<L>, E>,
) -> (r: Result<(), E>)
    ensures
        *final(state) == old(state).finished(session_id, outcome),
        r == (match outcome {
            Ok(_) => Ok::<(), E>(()),
            Err(e) => Err(e),
        }),
{
    match outcome {
        Ok(handle) => {
            state.session = Some(SessionSlot::Running(handle));
            Ok(())
        },
        Err(e) => {
            clear_session_if_matches(state, session_id);
            Err(e)
        },
    }
}

/// A session runs; `task_finished` says whether the task that serves it has ended.
pub open spec fn is_available<K, L>(state: ServiceState<K, L>, task_finished: bool) -> bool {
    state.running() is Some && !task_finished
}

/// Whether a session runs; `task_finished` says whether the task that serves it has ended.
pub fn service_available<K, L>(state: &ServiceState<K, L>, task_finished: bool) -> (r: bool)
    ensures
        r <==> state.running() is Some && !task_finished,
        r == is_available(*state, task_finished),
{
    match &state.session {
        Some(SessionSlot::Running(_)) => !task_finished,
        _ => false,
    }
}

/// What is left to do for a session that was taken out of the service.
pub enum StopAction<K, L> {
    /// There was none.
    Nothing,
    /// Its start is to be cancelled.
    Cancel(K),
    /// Its task is to be told to stop, and to be waited for.
    Stop(L),
}

/// What is left to do for the session that the service held.
pub open spec fn stop_action<K, L>(session: Option<SessionSlot<K, L>>) -> StopAction<K, L> {
    match session {
        None => StopAction::Nothing,
        Some(SessionSlot::Starting(handle)) => StopAction::Cancel(handle.cancel),
        Some(SessionSlot::Running(handle)) => StopAction::Stop(handle.link),
    }
}

/// What the poller is waited for.
#[derive(Debug, Clone, Copy, PartialEq, Eq, Structural)]
pub enum PollerWait {
    /// The service is stopped.
    Stopping,
    /// Another poller is started.
    Restarting,
}

/// What is said if the poller was waited for in vain.
pub open spec fn wait_messages(wait: PollerWait, fault: ServiceError) -> Seq<Seq<char>> {
    seq![
        match wait {
            PollerWait::Stopping => "poller thread panicked while stopping"@,
            PollerWait::Restarting => "poller thread panicked while restarting"@,
        },
        fault.text(),
    ]
}

/// What is said if the poller was waited for in vain.
pub fn wait_failure(wait: PollerWait, fault: ServiceError) -> (r: Failure)
    ensures
        r@ == wait_messages(wait, fault),
{
    let context = match wait {
        PollerWait::Stopping => "poller thread panicked while stopping",
        PollerWait::Restarting => "poller thread panicked while restarting",
    };
    caused(String::from_str(fault.message()), context)
}

/// Takes the session out of the service, once the poller was waited for. If that failed, the
/// session stays.
pub fn stop_service<K, L>(
    state: &mut ServiceState<K, L>,
    joined: Result<(), ServiceError>,
) -> (r: Result<StopAction<K, L>, Failure>)
    ensures
        match joined {
            Err(e) => {
                &&& *final(state) == *old(state)
                &&& r matches Err(f)
                &&& f@ == wait_messages(PollerWait::Stopping, e)
            },
            Ok(_) => {
                &&& *final(state) == old(state).stopped()
                &&& r == Ok::<StopAction<K, L>, Failure>(stop_action(old(state).session))
            },
        },
{
    if let Err(e) = joined {
        return Err(wait_failure(PollerWait::Stopping, e));
    }
    Ok(
        match state.session.take() {
            Some(SessionSlot::Running(handle)) => StopAction::Stop(handle.link),
            Some(SessionSlot::Starting(handle)) => StopAction::Cancel(handle.cancel),
            None => StopAction::Nothing,
        },
    )
}

/// How the task of a session ended that was waited for.
#[derive(Debug)]
pub enum TaskOutcome {
    /// With a result of its own.
    Ended(Result<(), Failure>),
    /// In a panic, or it was aborted.
    Lost(Failure),
}

impl TaskOutcome {
    /// The task ended well.
    pub open spec fn is_well(self) -> bool {
        self matches TaskOutcome::Ended(Ok(_))
    }
}

/// What is said of a stop, if it failed. `task` is how the task ended, where there was one to
/// wait for.
pub open spec fn stop_fault(task: Option<TaskOutcome>) -> Option<Seq<Seq<char>>> {
    match task {
        None => None,
        Some(TaskOutcome::Ended(Ok(_))) => None,
        Some(TaskOutcome::Ended(Err(f))) => Some(f@),
        Some(TaskOutcome::Lost(f)) => Some(seq!["session actor task join failed"@] + f@),
    }
}

/// What a stop comes to. `task` is how the task ended, where there was one to wait for.
pub fn stop_result(task: Option<TaskOutcome>) -> (r: Result<(), Failure>)
    ensures
        match stop_fault(task) {
            None => r is Ok,
            Some(messages) => r matches Err(f) && f@ == messages,
        },
{
    match task {
        None => Ok(()),
        Some(TaskOutcome::Ended(result)) => result,
        Some(TaskOutcome::Lost(f)) => Err(
            f.context(String::from_str("session actor task join failed")),
        ),
    }
}

/// The task that a stop has to wait for, if it ends as `outcome` says.
pub open spec fn awaited<K, L>(
    action: StopAction<K, L>,
    outcome: TaskOutcome,
) -> Option<TaskOutcome> {
    if action is Stop {
        Some(outcome)
    } else {
        None
    }
}

/// Once the poller has ended well, a stop leaves neither a session nor a poller behind,
/// whether it succeeds or not. It fails exactly if a session ran whose task did not end well;
/// the start of a session that did not run yet is cancelled.
pub proof fn stop_leaves_nothing<K, L, J>(
    state: ServiceState<K, L>,
    poller: PollerState<J>,
    panicked: spec_fn(J) -> bool,
    outcome: TaskOutcome,
)
    requires
        join_fault(joined_thread(poller, panicked)) is None,
    ensures
        state.stopped().session is None,
        state.stopped().running() is None,
        poller.told().emptied().handle is None,
        stop_fault(awaited(stop_action(state.session), outcome)) is Some <==> state.running()
            is Some && !outcome.is_well(),
        state.session matches Some(SessionSlot::Starting(handle)) ==> stop_action(state.session)
            == StopAction::<K, L>::Cancel(handle.cancel) && stop_fault(
            awaited(stop_action(state.session), outcome),
        ) is None,
{
}

/// What changes the state of the service.
pub enum ServiceStep<K, L> {
    /// A session is asked for.
    Begin(K),
    /// A start has ended, well or not.
    Finish(u64, Option<SessionHandle<L>>),
    /// The task of a session has ended.
    Ended(u64),
    /// The service is stopped.
    Stop,
}

/// The state after a step.
pub open spec fn service_after<K, L>(
    state: ServiceState<K, L>,
    step: ServiceStep<K, L>,
) -> ServiceState<K, L> {
    match step {
        ServiceStep::Begin(cancel) => state.begun(cancel),
        ServiceStep::Finish(id, outcome) => state.finished(
            id,
            match outcome {
                Some(handle) => Ok::<SessionHandle<L>, ()>(handle),
                None => Err(()),
            },
        ),
        ServiceStep::Ended(id) => state.cleared(id),
        ServiceStep::Stop => state.stopped(),
    }
}

/// The state after some steps.
pub open spec fn service_run<K, L>(
    start: ServiceState<K, L>,
    steps: Seq<ServiceStep<K, L>>,
) -> ServiceState<K, L>
    decreases steps.len(),
{
    if steps.len() == 0 {
        start
    } else {
        service_after(service_run(start, steps.drop_last()), steps.last())
    }
}

proof fn lemma_numbers_grow<K, L>(
    start: ServiceState<K, L>,
    steps: Seq<ServiceStep<K, L>>,
    i: int,
)
    requires
        0 <= i <= steps.len(),
        start.next_session_id + steps.len() <= u64::MAX,
    ensures
        service_run(start, steps.take(i)).next_session_id <= service_run(
            start,
            steps,
        ).next_session_id <= start.next_session_id + steps.len(),
    decreases steps.len(),
{
    if i == steps.len() {
        assert(steps.take(i) =~= steps);
    }
    if steps.len() > 0 {
        let front = steps.drop_last();
        if i < steps.len() {
            assert(front.take(i) =~= steps.take(i));
            lemma_numbers_grow(start, front, i);
        } else {
            lemma_numbers_grow(start, front, front.len() as int);
        }
    }
}

/// Two starts of sessions do not get the same number, whatever happens before, between and
/// after them.
pub proof fn session_numbers_do_not_repeat<K, L>(
    start: ServiceState<K, L>,
    steps: Seq<ServiceStep<K, L>>,
    i: int,
    j: int,
)
    requires
        0 <= i < j < steps.len(),
        steps[i] is Begin,
        steps[j] is Begin,
        start.next_session_id + steps.len() <= u64::MAX,
    ensures
        service_run(start, steps.take(i)).next_session_id < service_run(
            start,
            steps.take(j),
        ).next_session_id,
{
    let one = steps.take(i + 1);
    assert(one.drop_last() =~= steps.take(i));
    assert(one.last() == steps[i]);
    lemma_numbers_grow(start, one, i);
    assert(one.take(i) =~= steps.take(i));
    lemma_numbers_grow(start, steps.take(i), i);
    assert(steps.take(j).take(i + 1) =~= one);
    lemma_numbers_grow(start, steps.take(j), i + 1);
}

/// A start that is cancelled by a stop does not disturb a session that was asked for since:
/// when it gives up, that session stays.
pub proof fn cancelled_start_leaves_newer_session<K, L, E>(
    state: ServiceState<K, L>,
    newer: K,
    fault: E,
)
    requires
        state.session matches Some(SessionSlot::Starting(handle)) && handle.id
            != state.next_session_id,
    ensures
        state.stopped().begun(newer).finished(
            state.session->0.id(),
            Err::<SessionHandle<L>, E>(fault),
        ) == state.stopped().begun(newer),
{
}

/// What the task of a session can be told to do.
#[derive(Debug)]
pub enum SessionCommand {
    /// Send these bytes as they are.
    SendRaw(Vec<u8>),
    /// Send this packet in a frame.
    SendTcp(Vec<u8>),
    SendHeartbeat,
    Stop,
}

/// A [`SessionCommand`] in terms of sequences.
pub enum SessionCommandView {
    SendRaw(Seq<u8>),
    SendTcp(Seq<u8>),
    SendHeartbeat,
    Stop,
}

impl View for SessionCommand {
    type V = SessionCommandView;

    open spec fn view(&self) -> SessionCommandView {
        match *self {
            SessionCommand::SendRaw(packet) => SessionCommandView::SendRaw(packet@),
            SessionCommand::SendTcp(packet) => SessionCommandView::SendTcp(packet@),
            SessionCommand::SendHeartbeat => SessionCommandView::SendHeartbeat,
            SessionCommand::Stop => SessionCommandView::Stop,
        }
    }
}

/// `r` is the command for the running session, or the reason why there is none.
pub open spec fn is_request<K, L>(
    r: Result<(&L, SessionCommand), ServiceError>,
    state: ServiceState<K, L>,
    command: SessionCommandView,
) -> bool {
    match state.fault() {
        Some(e) => r == Err::<(&L, SessionCommand), ServiceError>(e),
        None => r matches Ok(p) && *p.0 == state.running()->0.link && p.1@ == command,
    }
}

fn request_command<'a, K, L>(state: &'a ServiceState<K, L>, command: SessionCommand) -> (r: Result<
    (&'a L, SessionCommand),
    ServiceError,
>)
    ensures
        is_request(r, *state, command@),
{
    match clone_command_tx(state) {
        Ok(link) => Ok((link, command)),
        Err(e) => Err(e),
    }
}

fn copy_bytes(s: &[u8]) -> (r: Vec<u8>)
    ensures
        r@ == s@,
{
    let mut out: Vec<u8> = Vec::new();
    let mut i: usize = 0;
    while i < s.len()
        invariant
            i <= s@.len(),
            out@ == s@.take(i as int),
        decreases s.len() - i,
    {
        out.push(s[i]);
        i += 1;
    }
    proof {
        assert(s@.take(s@.len() as int) =~= s@);
    }
    out
}

/// Bytes for the running session to send as they are.
pub fn send_packet<'a, K, L>(state: &'a ServiceState<K, L>, packet: &[u8]) -> (r: Result<
    (&'a L, SessionCommand),
    ServiceError,
>)
    ensures
        is_request(r, *state, SessionCommandView::SendRaw(packet@)),
{
    request_command(state, SessionCommand::SendRaw(copy_bytes(packet)))
}

/// A packet for the running session to send in a frame.
pub fn send_tcp_packet<'a, K, L>(state: &'a ServiceState<K, L>, packet: &[u8]) -> (r: Result<
    (&'a L, SessionCommand),
    ServiceError,
>)
    ensures
        is_request(r, *state, SessionCommandView::SendTcp(packet@)),
{
    request_command(state, SessionCommand::SendTcp(copy_bytes(packet)))
}

/// A heartbeat for the running session to send.
pub fn send_heartbeat<'a, K, L>(state: &'a ServiceState<K, L>) -> (r: Result<
    (&'a L, SessionCommand),
    ServiceError,
>)
    ensures
        is_request(r, *state, SessionCommandView::SendHeartbeat),
{
    request_command(state, SessionCommand::SendHeartbeat)
}

/// What a command to the running session came to.
#[derive(Debug)]
pub enum CommandReply {
    /// The session did not take it.
    NotSent(Failure),
    /// The session took it, and ended before it answered.
    NotAnswered(Failure),
    Answered(Result<(), Failure>),
}

/// Why a command failed, if it did.
pub open spec fn command_reply_fault(reply: CommandReply) -> Option<Seq<Seq<char>>> {
    match reply {
        CommandReply::NotSent(cause) => Some(seq![ServiceError::CommandNotSent.text()] + cause@),
        CommandReply::NotAnswered(cause) => Some(
            seq![ServiceError::CommandNotAnswered.text()] + cause@,
        ),
        CommandReply::Answered(Ok(_)) => None,
        CommandReply::Answered(Err(f)) => Some(f@),
    }
}

/// What a command came to, as a result.
pub fn commanded(reply: CommandReply) -> (r: Result<(), Failure>)
    ensures
        match command_reply_fault(reply) {
            None => r is Ok,
            Some(messages) => r matches Err(f) && f@ == messages,
        },
{
    match reply {
        CommandReply::NotSent(cause) => Err(
            cause.context(String::from_str(ServiceError::CommandNotSent.message())),
        ),
        CommandReply::NotAnswered(cause) => Err(
            cause.context(String::from_str(ServiceError::CommandNotAnswered.message())),
        ),
        CommandReply::Answered(result) => result,
    }
}

/// A session whose packets are waited for, and whether its queue is to be used from now on.
pub struct PacketWait<'a, L> {
    pub link: &'a L,
    pub queue_enabled: bool,
}

/// `r` is the running session, whose queue is used from now on, or the reason why there is none.
pub open spec fn is_wait<K, L>(
    r: Result<PacketWait<'_, L>, ServiceError>,
    state: ServiceState<K, L>,
) -> bool {
    match state.fault() {
        Some(e) => r matches Err(x) && x == e,
        None => r matches Ok(wait) && *wait.link == state.running()->0.link && wait.queue_enabled,
    }
}

/// What waiting for a packet came to; there is none once the session has ended.
pub open spec fn reception(packet: Option<Vec<u8>>) -> Result<Vec<u8>, ServiceError> {
    match packet {
        Some(packet) => Ok(packet),
        None => Err(ServiceError::QueueClosed),
    }
}

/// The session to wait for a packet of. Its queue is used from then on.
pub fn receive_packet<'a, K, L>(state: &'a ServiceState<K, L>) -> (r: Result<
    PacketWait<'a, L>,
    ServiceError,
>)
    ensures
        match state.fault() {
            Some(e) => r matches Err(x) && x == e,
            None => r matches Ok(wait) && *wait.link == state.running()->0.link
                && wait.queue_enabled,
        },
        is_wait(r, *state),
{
    match clone_command_tx(state) {
        Ok(link) => Ok(PacketWait { link, queue_enabled: true }),
        Err(e) => Err(e),
    }
}

/// The packet that was waited for; there is none once the session has ended.
pub fn received(packet: Option<Vec<u8>>) -> (r: Result<Vec<u8>, ServiceError>)
    ensures
        r == reception(packet),
        r == (match packet {
            Some(packet) => Ok::<Vec<u8>, ServiceError>(packet),
            None => Err(ServiceError::QueueClosed),
        }),
{
    match packet {
        Some(packet) => Ok(packet),
        None => Err(ServiceError::QueueClosed),
    }
}

/// The packet poller: whether it was told to stop, and its thread.
pub struct PollerState<J> {
    pub signal: bool,
    pub handle: Option<J>,
}

impl<J> PollerState<J> {
    /// The poller is told to stop.
    pub open spec fn told(self) -> PollerState<J> {
        PollerState { signal: true, ..self }
    }

    /// The thread of the poller was handed out.
    pub open spec fn emptied(self) -> PollerState<J> {
        PollerState { handle: None, ..self }
    }

    /// A poller may run.
    pub open spec fn allowed(self) -> PollerState<J> {
        PollerState { signal: false, ..self }
    }

    /// No poller.
    pub fn new() -> (r: Self)
        ensures
            !r.signal,
            r.handle is None,
    {
        PollerState { signal: false, handle: None }
    }
}

/// Tells the poller to stop.
pub fn stop_polling_packet<J>(poller: &mut PollerState<J>)
    ensures
        *final(poller) == old(poller).told(),
{
    poller.signal = true;
}

/// Hands out the thread of the poller, which the caller then waits for.
pub fn waiting_polling_packet_stop<J>(poller: &mut PollerState<J>) -> (r: Option<J>)
    ensures
        r == old(poller).handle,
        *final(poller) == old(poller).emptied(),
{
    poller.handle.take()
}

/// Tells the poller to stop, and hands out its thread, which the caller then waits for.
pub fn end_poller<J>(poller: &mut PollerState<J>) -> (r: Option<J>)
    ensures
        r == old(poller).handle,
        *final(poller) == old(poller).told().emptied(),
{
    stop_polling_packet(poller);
    waiting_polling_packet_stop(poller)
}

/// Why the wait for the poller failed, if it did. `panicked` says how its thread ended, where
/// there was one.
pub open spec fn join_fault(panicked: Option<bool>) -> Option<ServiceError> {
    if panicked == Some(true) {
        Some(ServiceError::PollerPanicked)
    } else {
        None
    }
}

/// What the wait for the poller came to. `panicked` says how its thread ended, where there was
/// one.
pub fn poller_joined(panicked: Option<bool>) -> (r: Result<(), ServiceError>)
    ensures
        r == (match join_fault(panicked) {
            Some(e) => Err::<(), ServiceError>(e),
            None => Ok(()),
        }),
{
    match panicked {
        Some(true) => Err(ServiceError::PollerPanicked),
        _ => Ok(()),
    }
}

/// How the thread of the poller ended, where there is one, if `panicked` says that of each
/// thread.
pub open spec fn joined_thread<J>(poller: PollerState<J>, panicked: spec_fn(J) -> bool) -> Option<
    bool,
> {
    match poller.handle {
        Some(thread) => Some(panicked(thread)),
        None => None,
    }
}

/// After a wait there is no poller, whether the wait failed or not. It fails exactly if there
/// was one whose thread ended in a panic, so a second wait succeeds at once.
pub proof fn wait_leaves_no_poller<J>(poller: PollerState<J>, panicked: spec_fn(J) -> bool)
    ensures
        poller.emptied().handle is None,
        join_fault(joined_thread(poller, panicked)) == (if poller.handle is Some && panicked(
            poller.handle->0,
        ) {
            Some(ServiceError::PollerPanicked)
        } else {
            None
        }),
        poller.emptied().emptied() == poller.emptied(),
        join_fault(joined_thread(poller.emptied(), panicked)) is None,
{
}

/// Why no poller can be started, if none can. `joined` is what the wait for an earlier one
/// came to.
pub open spec fn polling_fault<K, L>(
    state: ServiceState<K, L>,
    joined: Result<(), ServiceError>,
) -> Option<Seq<Seq<char>>> {
    match joined {
        Err(e) => Some(wait_messages(PollerWait::Restarting, e)),
        Ok(_) => match state.fault() {
            Some(e) => Some(seq![e.text()]),
            None => None,
        },
    }
}

/// The session to poll, once an earlier poller was waited for. If that went well and there is
/// a session, a poller may run again.
pub fn start_polling_packet<'a, K, L, J>(
    state: &'a ServiceState<K, L>,
    poller: &mut PollerState<J>,
    joined: Result<(), ServiceError>,
) -> (r: Result<&'a L, Failure>)
    ensures
        match polling_fault(*state, joined) {
            Some(messages) => (r matches Err(f) && f@ == messages) && *final(poller)
                == *old(poller),
            None => r == Ok::<&L, Failure>(&state.running()->0.link) && *final(poller)
                == old(poller).allowed(),
        },
{
    if let Err(e) = joined {
        return Err(wait_failure(PollerWait::Restarting, e));
    }
    match clone_command_tx(state) {
        Ok(link) => {
            poller.signal = false;
            Ok(link)
        },
        Err(e) => Err(Failure::new(String::from_str(e.message()))),
    }
}

/// Takes note of the thread of a poller that was started.
pub fn polling_started<J>(poller: &mut PollerState<J>, thread: J)
    ensures
        *final(poller) == (PollerState { handle: Some(thread), ..*old(poller) }),
{
    poller.handle = Some(thread);
}

/// How the thread of a poller ended that was told to stop and then waited for.
#[derive(Debug, Clone, Copy, PartialEq, Eq, Structural)]
pub enum PollerEnd {
    Panicked,
    /// Well, but already before it was told.
    BeforeTold,
    /// Well, after it was told.
    AfterTold,
}

/// What the wait for a poller says that ended so.
pub open spec fn panicked(end: Option<PollerEnd>) -> Option<bool> {
    match end {
        Some(end) => Some(end == PollerEnd::Panicked),
        None => None,
    }
}

/// The poller when its thread, if there is one, was told to stop and waited for. A thread that
/// ends well takes back the signal to stop as it ends.
pub open spec fn waited_for<J>(poller: PollerState<J>, end: Option<PollerEnd>) -> PollerState<J> {
    match end {
        Some(PollerEnd::BeforeTold) => poller.allowed().told().emptied(),
        Some(PollerEnd::AfterTold) => poller.told().emptied().allowed(),
        _ => poller.told().emptied(),
    }
}

/// What the wait for a poller that ended so comes to.
pub open spec fn join_result(end: Option<PollerEnd>) -> Result<(), ServiceError> {
    match join_fault(panicked(end)) {
        Some(e) => Err(e),
        None => Ok(()),
    }
}

/// The poller when another one was asked for: an earlier one was told to stop and waited for,
/// and then one may run, if nothing speaks against it.
pub open spec fn restarted<K, L, J>(
    state: ServiceState<K, L>,
    poller: PollerState<J>,
    end: Option<PollerEnd>,
) -> PollerState<J> {
    let waited = waited_for(poller, end);
    if polling_fault(state, join_result(end)) is None {
        waited.allowed()
    } else {
        waited
    }
}

/// Who asks for a poller ends an earlier one, on success and on failure alike: it was told to
/// stop, and there is none until a new thread is started. Where the earlier one did not panic,
/// the state of the session alone decides. If no other poller may run, the signal to stop
/// stays, unless an earlier thread took it back as it ended.
pub proof fn restart_ends_earlier_poller<K, L, J>(
    state: ServiceState<K, L>,
    poller: PollerState<J>,
    end: Option<PollerEnd>,
)
    requires
        end is Some <==> poller.handle is Some,
    ensures
        poller.told().signal,
        waited_for(poller, end).handle is None,
        restarted(state, poller, end).handle is None,
        end != Some(PollerEnd::Panicked) ==> polling_fault(state, join_result(end)) == (
        match state.session {
            None => Some(seq![ServiceError::NotRunning.text()]),
            Some(SessionSlot::Starting(_)) => Some(seq![ServiceError::StillStarting.text()]),
            Some(SessionSlot::Running(_)) => None,
        }),
        end == Some(PollerEnd::Panicked) ==> polling_fault(state, join_result(end)) == Some(
            wait_messages(PollerWait::Restarting, ServiceError::PollerPanicked),
        ),
        restarted(state, poller, end).signal <==> polling_fault(state, join_result(end)) is Some
            && end != Some(PollerEnd::AfterTold),
{
}

/// What a poller was woken by.
#[derive(Debug)]
pub enum PollEvent {
    Packet(Vec<u8>),
    /// So many packets were lost, as the poller was too slow.
    Lagged(u64),
    /// The session is over.
    Closed,
    /// Nothing has come for a while.
    TimedOut,
}

/// What a poller does next.
#[derive(Debug)]
pub enum PollStep {
    /// Hand out a packet, and its size.
    Deliver(u32, Vec<u8>),
    /// Report that so many packets were lost.
    Report(u64),
    /// Wait for the next event.
    Wait,
    /// End.
    End,
}

/// What a poller does about an event.
pub open spec fn poll_action(event: PollEvent) -> PollStep {
    match event {
        PollEvent::Packet(packet) => PollStep::Deliver(packet@.len() as u32, packet),
        PollEvent::Lagged(skipped) => PollStep::Report(skipped),
        PollEvent::Closed => PollStep::End,
        PollEvent::TimedOut => PollStep::Wait,
    }
}

/// What a poller does about an event.
pub fn poll_step(event: PollEvent) -> (r: PollStep)
    ensures
        r == poll_action(event),
{
    match event {
        PollEvent::Packet(packet) => PollStep::Deliver(packet.len() as u32, packet),
        PollEvent::Lagged(skipped) => PollStep::Report(skipped),
        PollEvent::Closed => PollStep::End,
        PollEvent::TimedOut => PollStep::Wait,
    }
}

/// A poller waits for another event: it does not once it was told to stop.
pub open spec fn polls_on(signal: bool) -> bool {
    !signal
}

/// Whether a poller waits for another event: it does not once it was told to stop.
pub fn keeps_polling(signal: bool) -> (r: bool)
    ensures
        r == !signal,
        r == polls_on(signal),
{
    !signal
}

/// Takes note that the poller has ended: it is not told to stop any more.
pub fn polling_ended<J>(poller: &mut PollerState<J>)
    ensures
        *final(poller) == old(poller).allowed(),
{
    poller.signal = false;
}

/// A poller has ended that met with `steps`, one after the other. Each step is whether it was
/// told to stop by then, and the event that it waited for if it was not.
pub open spec fn has_ended(steps: Seq<(bool, PollEvent)>) -> bool
    decreases steps.len(),
{
    if steps.len() == 0 {
        false
    } else {
        has_ended(steps.drop_last()) || steps.last().0 || poll_action(steps.last().1) is End
    }
}

/// The packets that a poller handed out.
pub open spec fn handed_out(steps: Seq<(bool, PollEvent)>) -> Seq<Vec<u8>>
    decreases steps.len(),
{
    if steps.len() == 0 {
        Seq::empty()
    } else {
        let before = handed_out(steps.drop_last());
        if has_ended(steps.drop_last()) || steps.last().0 {
            before
        } else {
            match poll_action(steps.last().1) {
                PollStep::Deliver(_, packet) => before.push(packet),
                _ => before,
            }
        }
    }
}

/// A poller that has ended, as it was told to stop or its session is over, hands out nothing
/// any more.
pub proof fn ended_poller_hands_out_nothing(steps: Seq<(bool, PollEvent)>, n: int)
    requires
        0 <= n <= steps.len(),
        has_ended(steps.take(n)),
    ensures
        has_ended(steps),
        handed_out(steps) == handed_out(steps.take(n)),
    decreases steps.len(),
{
    if n == steps.len() {
        assert(steps.take(n) =~= steps);
    } else {
        assert(steps.drop_last().take(n) =~= steps.take(n));
        ended_poller_hands_out_nothing(steps.drop_last(), n);
    }
}

/// What the portal tells of a gateway: its DNS server and the rules for the networks behind
/// it, as a list of its own and as a list for each of its own gateways.
#[derive(Debug)]
pub struct GatewayRoutes {
    pub dns: String,
    pub in_ip_list: Vec<String>,
    pub in_ip_lists_by_gateway: Vec<Vec<String>>,
}

/// The rules in some lists, one list behind the other.
pub open spec fn listed(lists: Seq<Vec<String>>) -> Seq<Seq<char>>
    decreases lists.len(),
{
    if lists.len() == 0 {
        Seq::empty()
    } else {
        listed(lists.drop_last()) + texts(lists.last()@)
    }
}

/// The rules of some gateways, one gateway behind the other.
pub open spec fn offered(gateways: Seq<GatewayRoutes>) -> Seq<Seq<char>>
    decreases gateways.len(),
{
    if gateways.len() == 0 {
        Seq::empty()
    } else {
        offered(gateways.drop_last()) + texts(gateways.last().in_ip_list@) + listed(
            gateways.last().in_ip_lists_by_gateway@,
        )
    }
}

/// `routes` holds each of the rules once, in order.
pub open spec fn is_collection(routes: Seq<Seq<char>>, rules: Seq<Seq<char>>) -> bool {
    &&& ascending::<String>(routes)
    &&& forall|rule: Seq<char>| #[trigger] routes.contains(rule) <==> rules.contains(rule)
}

/// The same rules are collected to the same routes, in whatever order they come and however
/// often.
pub proof fn collection_is_unique(
    a: Seq<Seq<char>>,
    b: Seq<Seq<char>>,
    rules: Seq<Seq<char>>,
    others: Seq<Seq<char>>,
)
    requires
        is_collection(a, rules),
        is_collection(b, others),
        forall|rule: Seq<char>| #[trigger] rules.contains(rule) <==> others.contains(rule),
    ensures
        a == b,
{
    assert forall|rule: Seq<char>| #[trigger] a.contains(rule) <==> b.contains(rule) by {
        assert(rules.contains(rule) <==> others.contains(rule));
    }
    ascending_is_unique::<String>(a, b);
}

fn insert_all(out: &mut Vec<String>, list: &Vec<String>, Ghost(rules): Ghost<Seq<Seq<char>>>)
    requires
        is_collection(texts(old(out)@), rules),
    ensures
        is_collection(texts(final(out)@), rules + texts(list@)),
{
    let ghost all = texts(list@);
    let mut i: usize = 0;
    proof {
        assert(rules + all.take(0) =~= rules);
    }
    while i < list.len()
        invariant
            i <= list@.len(),
            all == texts(list@),
            is_collection(texts(out@), rules + all.take(i as int)),
        decreases list.len() - i,
    {
        let ghost before = out@;
        let rule = list[i].clone();
        proof {
            assert(keys(out@) =~= texts(out@));
        }
        insert_sorted(out, rule);
        proof {
            assert(keys(before) =~= texts(before));
            assert(keys(out@) =~= texts(out@));
            let sofar = rules + all.take(i as int);
            assert(rules + all.take(i + 1) =~= sofar.push(list@[i as int]@));
            assert forall|x: Seq<char>| #[trigger]
                texts(out@).contains(x) <==> (rules + all.take(i + 1)).contains(x) by {
                assert(keys(out@).contains(x) <==> keys(before).contains(x) || x
                    == list@[i as int]@);
                assert(texts(before).contains(x) <==> sofar.contains(x));
                lemma_push_contains(sofar, list@[i as int]@, x);
            }
        }
        i += 1;
    }
    proof {
        assert(all.take(all.len() as int) =~= all);
    }
}

/// The rules of the gateways, each once, in order.
pub fn collect_split_tunnel_routes(gateways: &Vec<GatewayRoutes>) -> (r: Vec<String>)
    ensures
        is_collection(texts(r@), offered(gateways@)),
{
    let mut out: Vec<String> = Vec::new();
    let mut i: usize = 0;
    proof {
        assert(texts(out@) =~= Seq::<Seq<char>>::empty());
        assert(gateways@.take(0) =~= Seq::<GatewayRoutes>::empty());
        assert forall|x: Seq<char>| #[trigger]
            texts(out@).contains(x) <==> offered(gateways@.take(0)).contains(x) by {}
    }
    while i < gateways.len()
        invariant
            i <= gateways@.len(),
            is_collection(texts(out@), offered(gateways@.take(i as int))),
        decreases gateways.len() - i,
    {
        let gateway = &gateways[i];
        let ghost front = offered(gateways@.take(i as int));
        insert_all(&mut out, &gateway.in_ip_list, Ghost(front));
        let ghost own = front + texts(gateway.in_ip_list@);
        let lists = &gateway.in_ip_lists_by_gateway;
        let mut j: usize = 0;
        proof {
            assert(lists@.take(0) =~= Seq::<Vec<String>>::empty());
            assert(own + listed(lists@.take(0)) =~= own);
        }
        while j < lists.len()
            invariant
                j <= lists@.len(),
                is_collection(texts(out@), own + listed(lists@.take(j as int))),
            decreases lists.len() - j,
        {
            let ghost sofar = own + listed(lists@.take(j as int));
            insert_all(&mut out, &lists[j], Ghost(sofar));
            proof {
                assert(lists@.take(j + 1).drop_last() =~= lists@.take(j as int));
                assert(sofar + texts(lists@[j as int]@) =~= own + listed(lists@.take(j + 1)));
            }
            j += 1;
        }
        proof {
            assert(lists@.take(lists@.len() as int) =~= lists@);
            assert(gateways@.take(i + 1).drop_last() =~= gateways@.take(i as int));
            assert(own + listed(lists@) =~= offered(gateways@.take(i + 1)));
        }
        i += 1;
    }
    proof {
        assert(gateways@.take(gateways@.len() as int) =~= gateways@);
    }
    out
}

/// The life of a session: it is asked for while there is none, and is then still starting; it
/// runs once its start has ended well, and is gone if its start has failed, its task has ended or
/// the service was stopped. Its ticket bears its own number, and says that the certificate is
/// verified unless that was ruled out.
pub proof fn session_lives_from_start_to_stop<K, L, E>(
    state: ServiceState<K, L>,
    cancel: K,
    options: StartOptions,
    handle: SessionHandle<L>,
    fault: E,
)
    requires
        state.session is None,
        state.next_session_id < u64::MAX,
        handle.id == state.next_session_id,
    ensures
        ({
            let id = state.next_session_id;
            let starting = state.begun(cancel);
            let running = starting.finished(id, Ok::<SessionHandle<L>, E>(handle));
            let failed = starting.finished(id, Err::<SessionHandle<L>, E>(fault));
            &&& state.fault() == Some(ServiceError::NotRunning)
            &&& ticket(state, options) matches Ok(t)
            &&& t.id == id
            &&& t.verify_certificate <==> !options.no_verification
            &&& starting.session matches Some(SessionSlot::Starting(h))
            &&& h.id == t.id
            &&& h.cancel == cancel
            &&& starting.fault() == Some(ServiceError::StillStarting)
            &&& starting.running() is None
            &&& known_server(starting) is None
            &&& known_peer(starting) is None
            &&& running.running() == Some(handle)
            &&& running.fault() is None
            &&& known_server(running) == Some(handle.server@)
            &&& known_peer(running) == Some(handle.peer_ip)
            &&& known_server(running.stopped()) is None
            &&& known_peer(running.stopped()) is None
            &&& failed.session is None
            &&& running.cleared(id).session is None
            &&& running.stopped().session is None
            &&& starting.stopped().session is None
            &&& running.next_session_id == id + 1
            &&& failed.next_session_id == id + 1
            &&& running.cleared(id).next_session_id == id + 1
            &&& running.stopped().next_session_id == id + 1
        }),
{
}

/// A service is available exactly while a session runs and its task has not ended: not before it
/// runs, and not once it was stopped. A start that ends well makes its session the running one.
pub proof fn service_is_available_while_it_runs<K, L, E>(
    state: ServiceState<K, L>,
    id: u64,
    cancel: K,
    handle: SessionHandle<L>,
    task_finished: bool,
)
    ensures
        ({
            let running = state.finished(id, Ok::<SessionHandle<L>, E>(handle));
            &&& running.running() == Some(handle)
            &&& is_available(running, task_finished) <==> !task_finished
            &&& is_available(running.begun(cancel), task_finished) <==> !task_finished
            &&& !is_available(running.stopped(), task_finished)
            &&& !is_available(running.cleared(handle.id), task_finished)
            &&& !is_available(state.stopped(), task_finished)
            &&& !is_available(state.stopped().begun(cancel), task_finished)
        }),
{
}

/// There is one session at most: while there is one, starting or running, a start is refused and
/// changes nothing about it. The refused start uses up a number all the same.
pub proof fn second_start_is_refused<K, L>(
    state: ServiceState<K, L>,
    cancel: K,
    options: StartOptions,
)
    requires
        state.session is Some,
        state.next_session_id < u64::MAX,
    ensures
        ticket(state, options) == Err::<StartTicket, ServiceError>(ServiceError::AlreadyRunning),
        state.begun(cancel).session == state.session,
        state.begun(cancel).next_session_id == state.next_session_id + 1,
{
}

/// A session can be talked to exactly if it runs, and then what is asked of it goes to that
/// session, and as it was said; else the answer is that there is none, or that it is starting.
pub proof fn requests_reach_the_running_session<K, L>(
    state: ServiceState<K, L>,
    r: Result<(&L, SessionCommand), ServiceError>,
    command: SessionCommandView,
)
    requires
        is_request(r, state, command),
    ensures
        match state.session {
            None => r == Err::<(&L, SessionCommand), ServiceError>(ServiceError::NotRunning),
            Some(SessionSlot::Starting(_)) => r == Err::<(&L, SessionCommand), ServiceError>(
                ServiceError::StillStarting,
            ),
            Some(SessionSlot::Running(handle)) => r matches Ok(p) && *p.0 == handle.link && p.1@
                == command,
        },
{
}

/// Who waits for a packet waits for one of the running session, and switches its queue on; without
/// a running session there is nothing to wait for. The packet that comes is handed on as it is, and
/// that none comes any more means that the session is over.
pub proof fn packets_are_received_from_the_running_session<K, L>(
    state: ServiceState<K, L>,
    r: Result<PacketWait<'_, L>, ServiceError>,
    packet: Vec<u8>,
)
    requires
        is_wait(r, state),
    ensures
        match state.session {
            None => r is Err && r->Err_0 == ServiceError::NotRunning,
            Some(SessionSlot::Starting(_)) => r is Err && r->Err_0 == ServiceError::StillStarting,
            Some(SessionSlot::Running(handle)) => r is Ok && *r->Ok_0.link == handle.link
                && r->Ok_0.queue_enabled,
        },
        reception(Some(packet)) matches Ok(bytes) && bytes@ == packet@,
        reception(None) == Err::<Vec<u8>, ServiceError>(ServiceError::QueueClosed),
        cancel_fault(true) == Some(ServiceError::StartCancelled),
        cancel_fault(false) is None,
{
}

/// A stop tells the task of a running session to stop, cancels a start, and has nothing to do
/// where there is no session. It fails for the reason for which the task failed.
pub proof fn stop_ends_what_there_is<K, L>(session: Option<SessionSlot<K, L>>, failure: Failure)
    ensures
        match session {
            None => stop_action(session) == StopAction::<K, L>::Nothing,
            Some(SessionSlot::Starting(handle)) => stop_action(session)
                == StopAction::<K, L>::Cancel(handle.cancel),
            Some(SessionSlot::Running(handle)) => stop_action(session) == StopAction::<K, L>::Stop(
                handle.link,
            ),
        },
        stop_fault(None) is None,
        stop_fault(Some(TaskOutcome::Ended(Ok(())))) is None,
        stop_fault(Some(TaskOutcome::Ended(Err(failure)))) == Some(failure@),
        stop_fault(Some(TaskOutcome::Lost(failure))) matches Some(messages) && messages.len()
            == failure@.len() + 1 && messages.drop_first() == failure@,
{
    assert((seq!["session actor task join failed"@] + failure@).drop_first() =~= failure@);
}

/// A command succeeds exactly if the session answers that it did. Whatever else becomes of it, the
/// cause is named last.
pub proof fn commands_fail_for_a_reason(reply: CommandReply)
    ensures
        command_reply_fault(reply) is None <==> (reply matches CommandReply::Answered(result)
            && result is Ok),
        command_reply_fault(reply) matches Some(messages) ==> match reply {
            CommandReply::NotSent(cause) => messages.len() == cause@.len() + 1
                && messages.drop_first() == cause@,
            CommandReply::NotAnswered(cause) => messages.len() == cause@.len() + 1
                && messages.drop_first() == cause@,
            CommandReply::Answered(result) => result matches Err(f) && messages == f@,
        },
{
    match reply {
        CommandReply::NotSent(cause) => {
            let text = ServiceError::CommandNotSent.text();
            assert((seq![text] + cause@).drop_first() =~= cause@);
        },
        CommandReply::NotAnswered(cause) => {
            let text = ServiceError::CommandNotAnswered.text();
            assert((seq![text] + cause@).drop_first() =~= cause@);
        },
        CommandReply::Answered(_) => {},
    }
}

/// To tell a poller to stop, to hand out its thread and to let one run again are three things
/// that do not touch one another.
pub proof fn poller_keeps_signal_and_thread_apart<J>(poller: PollerState<J>)
    ensures
        poller.told().signal,
        poller.told().handle == poller.handle,
        poller.emptied().handle is None,
        poller.emptied().signal == poller.signal,
        !poller.allowed().signal,
        poller.allowed().handle == poller.handle,
        !polls_on(poller.told().signal),
        polls_on(poller.told().allowed().signal),
{
}

/// A poller hands out every packet that comes before its end, as it is, once and in order, with
/// its size. Neither lost packets nor a lack of packets end it: only that it is told to stop, and
/// that the session is over.
pub proof fn poller_hands_out_every_packet(
    steps: Seq<(bool, PollEvent)>,
    packet: Vec<u8>,
    skipped: u64,
    event: PollEvent,
)
    requires
        !has_ended(steps),
    ensures
        ({
            let next = steps.push((false, PollEvent::Packet(packet)));
            !has_ended(next) && handed_out(next) == handed_out(steps).push(packet)
        }),
        ({
            let next = steps.push((false, PollEvent::Lagged(skipped)));
            !has_ended(next) && handed_out(next) == handed_out(steps)
        }),
        ({
            let next = steps.push((false, PollEvent::TimedOut));
            !has_ended(next) && handed_out(next) == handed_out(steps)
        }),
        ({
            let next = steps.push((false, PollEvent::Closed));
            has_ended(next) && handed_out(next) == handed_out(steps)
        }),
        ({
            let next = steps.push((true, event));
            has_ended(next) && handed_out(next) == handed_out(steps)
        }),
        poll_action(PollEvent::Packet(packet)) matches PollStep::Deliver(size, bytes) && bytes@
            == packet@ && (packet@.len() <= u32::MAX ==> size == packet@.len()),
        poll_action(PollEvent::Lagged(skipped)) == PollStep::Report(skipped),
{
    assert(steps.push((false, PollEvent::Packet(packet))).drop_last() =~= steps);
    assert(steps.push((false, PollEvent::Lagged(skipped))).drop_last() =~= steps);
    assert(steps.push((false, PollEvent::TimedOut)).drop_last() =~= steps);
    assert(steps.push((false, PollEvent::Closed)).drop_last() =~= steps);
    assert(steps.push((true, event)).drop_last() =~= steps);
}

/// The rule is one of the list.
pub open spec fn lists(list: Seq<String>, rule: Seq<char>) -> bool {
    exists|k: int| 0 <= k < list.len() && (#[trigger] list[k])@ == rule
}

/// The gateway has the rule in its own list, or in a list for one of its own gateways.
pub open spec fn offers(gateway: GatewayRoutes, rule: Seq<char>) -> bool {
    lists(gateway.in_ip_list@, rule) || exists|j: int|
        0 <= j < gateway.in_ip_lists_by_gateway@.len() && lists(
            (#[trigger] gateway.in_ip_lists_by_gateway@[j])@,
            rule,
        )
}

proof fn lemma_texts_contain(list: Seq<String>, rule: Seq<char>)
    ensures
        texts(list).contains(rule) <==> lists(list, rule),
{
    if texts(list).contains(rule) {
        let k = choose|k: int| 0 <= k < texts(list).len() && texts(list)[k] == rule;
        assert(list[k]@ == rule);
    }
    if lists(list, rule) {
        let k = choose|k: int| 0 <= k < list.len() && (#[trigger] list[k])@ == rule;
        assert(texts(list)[k] == rule);
    }
}

proof fn lemma_concat_contains(a: Seq<Seq<char>>, b: Seq<Seq<char>>, x: Seq<char>)
    ensures
        (a + b).contains(x) <==> a.contains(x) || b.contains(x),
{
    if a.contains(x) {
        let i = choose|i: int| 0 <= i < a.len() && a[i] == x;
        assert((a + b)[i] == x);
    }
    if b.contains(x) {
        let i = choose|i: int| 0 <= i < b.len() && b[i] == x;
        assert((a + b)[a.len() + i] == x);
    }
    if (a + b).contains(x) {
        let i = choose|i: int| 0 <= i < (a + b).len() && (a + b)[i] == x;
        if i < a.len() {
            assert(a[i] == x);
        } else {
            assert(b[i - a.len()] == x);
        }
    }
}

proof fn lemma_listed_contains(all: Seq<Vec<String>>, rule: Seq<char>)
    ensures
        listed(all).contains(rule) <==> exists|j: int|
            0 <= j < all.len() && lists((#[trigger] all[j])@, rule),
    decreases all.len(),
{
    if all.len() > 0 {
        let front = all.drop_last();
        let n = all.len() - 1;
        lemma_listed_contains(front, rule);
        lemma_texts_contain(all[n]@, rule);
        lemma_concat_contains(listed(front), texts(all[n]@), rule);
        if listed(front).contains(rule) {
            let j = choose|j: int| 0 <= j < front.len() && lists((#[trigger] front[j])@, rule);
            assert(lists(all[j]@, rule));
        }
        if exists|j: int| 0 <= j < all.len() && lists((#[trigger] all[j])@, rule) {
            let j = choose|j: int| 0 <= j < all.len() && lists((#[trigger] all[j])@, rule);
            if j < n {
                assert(lists(front[j]@, rule));
            }
        }
    }
}

proof fn lemma_offered_contains(gateways: Seq<GatewayRoutes>, rule: Seq<char>)
    ensures
        offered(gateways).contains(rule) <==> exists|i: int|
            0 <= i < gateways.len() && offers(#[trigger] gateways[i], rule),
    decreases gateways.len(),
{
    if gateways.len() > 0 {
        let front = gateways.drop_last();
        let n = gateways.len() - 1;
        let own = texts(gateways[n].in_ip_list@);
        let more = listed(gateways[n].in_ip_lists_by_gateway@);
        lemma_offered_contains(front, rule);
        lemma_texts_contain(gateways[n].in_ip_list@, rule);
        lemma_listed_contains(gateways[n].in_ip_lists_by_gateway@, rule);
        lemma_concat_contains(offered(front), own, rule);
        lemma_concat_contains(offered(front) + own, more, rule);
        assert(offers(gateways[n], rule) <==> own.contains(rule) || more.contains(rule));
        if offered(front).contains(rule) {
            let i = choose|i: int| 0 <= i < front.len() && offers(#[trigger] front[i], rule);
            assert(offers(gateways[i], rule));
        }
        if exists|i: int| 0 <= i < gateways.len() && offers(#[trigger] gateways[i], rule) {
            let i = choose|i: int| 0 <= i < gateways.len() && offers(#[trigger] gateways[i], rule);
            if i < n {
                assert(offers(front[i], rule));
            }
        }
    }
}

/// A rule is collected exactly if it is in a list of one of the gateways, whichever gateway that
/// is and whichever of its lists; and the collected rules come in ascending order, none twice.
pub proof fn collected_rules_are_those_of_all_gateways(
    routes: Seq<Seq<char>>,
    gateways: Seq<GatewayRoutes>,
    rule: Seq<char>,
)
    requires
        is_collection(routes, offered(gateways)),
    ensures
        routes.contains(rule) <==> exists|i: int|
            0 <= i < gateways.len() && offers(#[trigger] gateways[i], rule),
        forall|i: int, j: int|
            0 <= i < j < routes.len() ==> text_less(#[trigger] routes[i], #[trigger] routes[j]),
{
    lemma_offered_contains(gateways, rule);
}

} // verus!
