//! What the task of a session does about commands, frames and time.

use vstd::prelude::*;
use crate::failure::Failure;
use crate::vpn::service::{clear_session_if_matches, ServiceState, SessionCommand};

verus! {

/// The time between two heartbeats, and between two reports of lost packets, in nanoseconds.
pub const INTERVAL_NANOS: u64 = 5_000_000_000;

/// How many packets wait to be received, at most.
pub const PACKET_QUEUE_CAPACITY: usize = 256;

/// How many packets a poller may lag behind, at most.
pub const POLLER_BROADCAST_CAPACITY: usize = 256;

/// What the task of a session remembers. Times are in nanoseconds from some fixed moment.
#[derive(Debug, Clone, Copy, PartialEq, Eq, Structural)]
pub struct SessionActor {
    pub last_heartbeat: Option<u64>,
    pub last_queue_warning: Option<u64>,
    /// The number of packets that were lost since the last report.
    pub dropped_packet_count: u64,
}

/// What has to be written to the proxy for a command, or that the session is to end.
#[derive(Debug)]
pub enum CommandAction {
    WriteRaw(Vec<u8>),
    /// The packet is to be put in a frame first.
    WriteTcp(Vec<u8>),
    WriteHeartbeat,
    Finish,
}

/// A frame from the proxy.
#[derive(Debug)]
pub enum InboundFrame {
    Data(Vec<u8>),
    Control,
}

/// What is done about a frame, or about the lack of one.
#[derive(Debug)]
pub enum FrameAction {
    /// Hand the packet to the pollers, and before that to the queue, if so said.
    Deliver(Vec<u8>, bool),
    WriteHeartbeat,
    Nothing,
}

/// What became of something that the task of a session did.
#[derive(Debug)]
pub enum Outcome {
    /// What the build and the write for a command came to, and whether it was for a heartbeat.
    Command(bool, Result<(), Failure>),
    /// What the write of a heartbeat came to that nobody had asked for.
    AutomaticHeartbeat(Result<(), Failure>),
    /// No frame could be read.
    ReadFailed(Failure),
    /// The session was told to end, or nobody is left to command it.
    Finished,
}

/// What the task of a session does next.
#[derive(Debug)]
pub enum Next {
    /// Answer the command with its result, and wait for what comes next.
    Respond(Result<(), Failure>),
    /// Wait for what comes next.
    Wait,
    /// End with this result.
    End(Result<(), Failure>),
}

/// What could not be done for a command or a heartbeat.
#[derive(Debug, Clone, Copy, PartialEq, Eq, Structural)]
pub enum WriteTrouble {
    RawWrite,
    TcpBuild,
    TcpWrite,
    HeartbeatWrite,
}

/// What the queue said to a packet.
#[derive(Debug, Clone, Copy, PartialEq, Eq, Structural)]
pub enum QueueOutcome {
    Queued,
    Full,
    Closed,
}

/// What is done about what the queue said.
#[derive(Debug, Clone, Copy, PartialEq, Eq, Structural)]
pub enum QueueReaction {
    Nothing,
    /// Report that so many packets were lost.
    Warn(u64),
    /// Do not use the queue any more.
    Disable,
}

/// Nothing has happened yet, or the interval has passed since it did.
pub open spec fn is_due(last: Option<u64>, now: u64) -> bool {
    match last {
        None => true,
        Some(last) => now - last >= INTERVAL_NANOS,
    }
}

/// Whether the interval has passed since `last`. A clock that runs backwards stands still.
pub fn due(last: Option<u64>, now: u64) -> (r: bool)
    ensures
        r == is_due(last, now),
        r <==> (last matches Some(t) ==> now >= t + INTERVAL_NANOS),
{
    match last {
        None => true,
        Some(last) => now >= last && now - last >= INTERVAL_NANOS,
    }
}

/// What is done about a command. The session ends when it is told to, and when nobody is left
/// to command it.
pub open spec fn command_action(command: Option<SessionCommand>) -> CommandAction {
    match command {
        Some(SessionCommand::SendRaw(packet)) => CommandAction::WriteRaw(packet),
        Some(SessionCommand::SendTcp(packet)) => CommandAction::WriteTcp(packet),
        Some(SessionCommand::SendHeartbeat) => CommandAction::WriteHeartbeat,
        Some(SessionCommand::Stop) => CommandAction::Finish,
        None => CommandAction::Finish,
    }
}

/// What is done about a command.
pub fn on_command(command: Option<SessionCommand>) -> (r: CommandAction)
    ensures
        r == command_action(command),
{
    match command {
        Some(SessionCommand::SendRaw(packet)) => CommandAction::WriteRaw(packet),
        Some(SessionCommand::SendTcp(packet)) => CommandAction::WriteTcp(packet),
        Some(SessionCommand::SendHeartbeat) => CommandAction::WriteHeartbeat,
        Some(SessionCommand::Stop) => CommandAction::Finish,
        None => CommandAction::Finish,
    }
}

/// What the task does next when something came to `outcome`.
pub open spec fn next_of(outcome: Outcome) -> Next {
    match outcome {
        Outcome::Command(_, result) => Next::Respond(result),
        Outcome::AutomaticHeartbeat(Ok(_)) => Next::Wait,
        Outcome::AutomaticHeartbeat(Err(e)) => Next::End(Err(e)),
        Outcome::ReadFailed(e) => Next::End(Err(e)),
        Outcome::Finished => Next::End(Ok(())),
    }
}

/// What the user is told about some trouble.
pub open spec fn write_context(trouble: WriteTrouble) -> Seq<char> {
    match trouble {
        WriteTrouble::RawWrite => "failed to write raw packet to proxy"@,
        WriteTrouble::TcpBuild => "failed to build TCP packet"@,
        WriteTrouble::TcpWrite => "failed to write TCP packet to proxy"@,
        WriteTrouble::HeartbeatWrite => "failed to write heartbeat to proxy"@,
    }
}

/// A failure to do something, with its cause.
pub fn write_failure(trouble: WriteTrouble, cause: Failure) -> (r: Failure)
    ensures
        r@ == seq![write_context(trouble)] + cause@,
{
    let context = match trouble {
        WriteTrouble::RawWrite => "failed to write raw packet to proxy",
        WriteTrouble::TcpBuild => "failed to build TCP packet",
        WriteTrouble::TcpWrite => "failed to write TCP packet to proxy",
        WriteTrouble::HeartbeatWrite => "failed to write heartbeat to proxy",
    };
    cause.context(String::from_str(context))
}

/// Before the first heartbeat.
pub open spec fn fresh_actor() -> SessionActor {
    SessionActor { last_heartbeat: None, last_queue_warning: None, dropped_packet_count: 0 }
}

impl SessionActor {
    /// Before the first heartbeat.
    pub fn new() -> (r: Self)
        ensures
            r == (SessionActor {
                last_heartbeat: None,
                last_queue_warning: None,
                dropped_packet_count: 0,
            }),
            r == fresh_actor(),
    {
        SessionActor { last_heartbeat: None, last_queue_warning: None, dropped_packet_count: 0 }
    }

    /// What is done about a frame, or about the lack of one.
    pub open spec fn frame_action(
        self,
        frame: Option<InboundFrame>,
        queue_enabled: bool,
        now: u64,
    ) -> FrameAction {
        match frame {
            Some(InboundFrame::Data(payload)) => FrameAction::Deliver(payload, queue_enabled),
            _ => if is_due(self.last_heartbeat, now) {
                FrameAction::WriteHeartbeat
            } else {
                FrameAction::Nothing
            },
        }
    }

    /// What is done about a frame, or about the lack of one. All that is no data is an
    /// occasion for a heartbeat.
    pub fn on_frame(&self, frame: Option<InboundFrame>, queue_enabled: bool, now: u64) -> (r:
        FrameAction)
        ensures
            match frame {
                Some(InboundFrame::Data(payload)) => r == FrameAction::Deliver(
                    payload,
                    queue_enabled,
                ),
                _ => r == (if is_due(self.last_heartbeat, now) {
                    FrameAction::WriteHeartbeat
                } else {
                    FrameAction::Nothing
                }),
            },
            r == self.frame_action(frame, queue_enabled, now),
    {
        match frame {
            Some(InboundFrame::Data(payload)) => FrameAction::Deliver(payload, queue_enabled),
            _ => if due(self.last_heartbeat, now) {
                FrameAction::WriteHeartbeat
            } else {
                FrameAction::Nothing
            },
        }
    }

    /// The state when something came to `outcome`: a heartbeat that was written counts.
    pub open spec fn after_outcome(self, outcome: Outcome, now: u64) -> SessionActor {
        match outcome {
            Outcome::Command(true, Ok(_)) => SessionActor { last_heartbeat: Some(now), ..self },
            Outcome::AutomaticHeartbeat(Ok(_)) => SessionActor {
                last_heartbeat: Some(now),
                ..self
            },
            _ => self,
        }
    }

    /// Takes note of what became of something. A command is answered with its own result, and
    /// the session goes on even if it failed. It ends when it is told to; and it fails when
    /// no frame can be read, or a heartbeat cannot be written that nobody had asked for.
    pub fn on_outcome(&mut self, outcome: Outcome, now: u64) -> (r: Next)
        ensures
            *final(self) == old(self).after_outcome(outcome, now),
            r == next_of(outcome),
    {
        match outcome {
            Outcome::Command(heartbeat, result) => {
                if heartbeat && result.is_ok() {
                    self.last_heartbeat = Some(now);
                }
                Next::Respond(result)
            },
            Outcome::AutomaticHeartbeat(Ok(_)) => {
                self.last_heartbeat = Some(now);
                Next::Wait
            },
            Outcome::AutomaticHeartbeat(Err(e)) => Next::End(Err(e)),
            Outcome::ReadFailed(e) => Next::End(Err(e)),
            Outcome::Finished => Next::End(Ok(())),
        }
    }

    /// The state when the queue has said something.
    pub open spec fn after_queue(self, outcome: QueueOutcome, now: u64) -> SessionActor {
        if outcome != QueueOutcome::Full {
            self
        } else if is_due(self.last_queue_warning, now) {
            SessionActor {
                last_queue_warning: Some(now),
                dropped_packet_count: 0,
                ..self
            }
        } else {
            SessionActor {
                dropped_packet_count: (self.dropped_packet_count + 1) as u64,
                ..self
            }
        }
    }

    /// What is done about it.
    pub open spec fn queue_reaction(self, outcome: QueueOutcome, now: u64) -> QueueReaction {
        match outcome {
            QueueOutcome::Queued => QueueReaction::Nothing,
            QueueOutcome::Full => if is_due(self.last_queue_warning, now) {
                QueueReaction::Warn((self.dropped_packet_count + 1) as u64)
            } else {
                QueueReaction::Nothing
            },
            QueueOutcome::Closed => QueueReaction::Disable,
        }
    }

    /// Takes note of what the queue said to a packet. A packet that finds the queue full is
    /// lost; losses are reported from time to time.
    pub fn on_queue(&mut self, outcome: QueueOutcome, now: u64) -> (r: QueueReaction)
        requires
            old(self).dropped_packet_count < u64::MAX,
        ensures
            *final(self) == old(self).after_queue(outcome, now),
            r == old(self).queue_reaction(outcome, now),
    {
        match outcome {
            QueueOutcome::Queued => QueueReaction::Nothing,
            QueueOutcome::Full => {
                self.dropped_packet_count += 1;
                if due(self.last_queue_warning, now) {
                    let dropped: u64 = self.dropped_packet_count;
                    self.dropped_packet_count = 0;
                    self.last_queue_warning = Some(now);
                    QueueReaction::Warn(dropped)
                } else {
                    QueueReaction::Nothing
                }
            },
            QueueOutcome::Closed => QueueReaction::Disable,
        }
    }
}

/// The state when the queue has said all of `events`, each at its time.
pub open spec fn queue_run(events: Seq<(QueueOutcome, u64)>) -> SessionActor
    decreases events.len(),
{
    if events.len() == 0 {
        fresh_actor()
    } else {
        queue_run(events.drop_last()).after_queue(events.last().0, events.last().1)
    }
}

/// The number of packets that were lost.
pub open spec fn lost(events: Seq<(QueueOutcome, u64)>) -> int
    decreases events.len(),
{
    if events.len() == 0 {
        0
    } else {
        lost(events.drop_last()) + if events.last().0 == QueueOutcome::Full {
            1int
        } else {
            0int
        }
    }
}

/// The number of lost packets that were reported.
pub open spec fn reported(events: Seq<(QueueOutcome, u64)>) -> int
    decreases events.len(),
{
    if events.len() == 0 {
        0
    } else {
        reported(events.drop_last()) + match queue_run(events.drop_last()).queue_reaction(
            events.last().0,
            events.last().1,
        ) {
            QueueReaction::Warn(dropped) => dropped as int,
            _ => 0,
        }
    }
}

/// Every packet that is lost is reported once, or is counted and still to be reported.
pub proof fn losses_are_reported(events: Seq<(QueueOutcome, u64)>)
    requires
        events.len() < u64::MAX,
    ensures
        reported(events) + queue_run(events).dropped_packet_count == lost(events),
        lost(events) <= events.len(),
        reported(events) >= 0,
    decreases events.len(),
{
    if events.len() > 0 {
        losses_are_reported(events.drop_last());
    }
}

/// Two reports are at least the interval apart.
pub proof fn reports_keep_their_distance(actor: SessionActor, outcome: QueueOutcome, now: u64)
    requires
        actor.queue_reaction(outcome, now) is Warn,
    ensures
        actor.last_queue_warning matches Some(last) ==> now - last >= INTERVAL_NANOS,
        actor.after_queue(outcome, now).last_queue_warning == Some(now),
        actor.after_queue(outcome, now).dropped_packet_count == 0,
{
}

/// `outcome` is what doing `action` can come to, if its build and its write come to `result`.
pub open spec fn is_outcome_of(
    outcome: Outcome,
    action: CommandAction,
    result: Result<(), Failure>,
) -> bool {
    match action {
        CommandAction::WriteRaw(_) => outcome == Outcome::Command(false, result),
        CommandAction::WriteTcp(_) => outcome == Outcome::Command(false, result),
        CommandAction::WriteHeartbeat => outcome == Outcome::Command(true, result),
        CommandAction::Finish => outcome == Outcome::Finished,
    }
}

/// How a session ended that met with `outcomes`, one after the other; none if it goes on. What
/// comes behind its end does not count.
pub open spec fn session_result(outcomes: Seq<Outcome>) -> Option<Result<(), Failure>>
    decreases outcomes.len(),
{
    if outcomes.len() == 0 {
        None
    } else if session_result(outcomes.drop_last()) is Some {
        session_result(outcomes.drop_last())
    } else {
        match next_of(outcomes.last()) {
            Next::End(result) => Some(result),
            _ => None,
        }
    }
}

/// The answers that were given to commands, in order.
pub open spec fn responses(outcomes: Seq<Outcome>) -> Seq<Result<(), Failure>>
    decreases outcomes.len(),
{
    if outcomes.len() == 0 {
        Seq::empty()
    } else if session_result(outcomes.drop_last()) is Some {
        responses(outcomes.drop_last())
    } else {
        match next_of(outcomes.last()) {
            Next::Respond(result) => responses(outcomes.drop_last()).push(result),
            _ => responses(outcomes.drop_last()),
        }
    }
}

/// The outcomes of some commands, whose builds and writes come to `results`.
pub open spec fn are_outcomes_of(
    outcomes: Seq<Outcome>,
    commands: Seq<SessionCommand>,
    results: Seq<Result<(), Failure>>,
) -> bool {
    &&& outcomes.len() == commands.len()
    &&& results.len() == commands.len()
    &&& forall|i: int|
        0 <= i < outcomes.len() ==> is_outcome_of(
            #[trigger] outcomes[i],
            command_action(Some(commands[i])),
            results[i],
        )
}

/// Each command but a stop gets one answer, in order, which is what its own build and write
/// came to; and whatever they came to, the session goes on.
pub proof fn commands_are_answered(
    outcomes: Seq<Outcome>,
    commands: Seq<SessionCommand>,
    results: Seq<Result<(), Failure>>,
)
    requires
        are_outcomes_of(outcomes, commands, results),
        forall|i: int| 0 <= i < commands.len() ==> !(#[trigger] commands[i] is Stop),
    ensures
        responses(outcomes) == results,
        session_result(outcomes) is None,
    decreases outcomes.len(),
{
    if outcomes.len() > 0 {
        let n = outcomes.len() - 1;
        let front = outcomes.drop_last();
        assert forall|i: int| 0 <= i < front.len() implies is_outcome_of(
            #[trigger] front[i],
            command_action(Some(commands.drop_last()[i])),
            results.drop_last()[i],
        ) by {
            assert(front[i] == outcomes[i]);
        }
        assert forall|i: int| 0 <= i < commands.drop_last().len() implies !(
        #[trigger] commands.drop_last()[i] is Stop) by {
            assert(commands.drop_last()[i] == commands[i]);
        }
        commands_are_answered(front, commands.drop_last(), results.drop_last());
        assert(!(commands[n] is Stop));
        assert(is_outcome_of(outcomes[n], command_action(Some(commands[n])), results[n]));
        assert(results.drop_last().push(results[n]) =~= results);
    } else {
        assert(results =~= Seq::<Result<(), Failure>>::empty());
    }
}

/// A session that gets some commands and is then told to stop, or has nobody left to command
/// it, answers each command with its own result and ends well, whatever the results are.
pub proof fn stopped_session_ends_well(
    outcomes: Seq<Outcome>,
    commands: Seq<SessionCommand>,
    results: Seq<Result<(), Failure>>,
    last: Option<SessionCommand>,
    end: Outcome,
    ignored: Result<(), Failure>,
)
    requires
        are_outcomes_of(outcomes, commands, results),
        forall|i: int| 0 <= i < commands.len() ==> !(#[trigger] commands[i] is Stop),
        last is None || last == Some(SessionCommand::Stop),
        is_outcome_of(end, command_action(last), ignored),
    ensures
        responses(outcomes.push(end)) == results,
        session_result(outcomes.push(end)) == Some(Ok::<(), Failure>(())),
{
    commands_are_answered(outcomes, commands, results);
    assert(outcomes.push(end).drop_last() =~= outcomes);
}

/// Nothing but an order to stop, or the loss of the last one to give orders, ends a session
/// well; and nothing but a frame that cannot be read, or a heartbeat that cannot be written
/// and nobody had asked for, makes it fail, and with that error.
pub proof fn session_ends_for_a_reason(outcomes: Seq<Outcome>)
    ensures
        session_result(outcomes) matches Some(result) ==> exists|i: int|
            0 <= i < outcomes.len() && session_result(outcomes.take(i)) is None && (match result {
                Ok(_) => #[trigger] outcomes[i] == Outcome::Finished,
                Err(e) => outcomes[i] == Outcome::ReadFailed(e) || outcomes[i]
                    == Outcome::AutomaticHeartbeat(Err(e)),
            }),
        session_result(outcomes) is None ==> forall|i: int|
            0 <= i < outcomes.len() ==> {
                &&& #[trigger] outcomes[i] != Outcome::Finished
                &&& !(outcomes[i] is ReadFailed)
                &&& !(outcomes[i] matches Outcome::AutomaticHeartbeat(Err(_)))
            },
    decreases outcomes.len(),
{
    if outcomes.len() > 0 {
        let n = outcomes.len() - 1;
        let front = outcomes.drop_last();
        session_ends_for_a_reason(front);
        assert(outcomes.take(n) =~= front);
        if let Some(result) = session_result(front) {
            let i = choose|i: int|
                0 <= i < front.len() && session_result(front.take(i)) is None && (match result {
                    Ok(_) => #[trigger] front[i] == Outcome::Finished,
                    Err(e) => front[i] == Outcome::ReadFailed(e) || front[i]
                        == Outcome::AutomaticHeartbeat(Err(e)),
                });
            assert(front.take(i) =~= outcomes.take(i));
            assert(outcomes[i] == front[i]);
        } else {
            assert(outcomes[n] == outcomes.last());
            assert forall|i: int|
                0 <= i < outcomes.len() && session_result(outcomes) is None implies {
                &&& #[trigger] outcomes[i] != Outcome::Finished
                &&& !(outcomes[i] is ReadFailed)
                &&& !(outcomes[i] matches Outcome::AutomaticHeartbeat(Err(_)))
            } by {
                if i < n {
                    assert(outcomes[i] == front[i]);
                }
            }
        }
    }
}

/// Ends a session with its result: the service forgets it, if it is still the one that the
/// service holds.
pub fn end_session<K, L>(
    state: &mut ServiceState<K, L>,
    session_id: u64,
    result: Result<(), Failure>,
) -> (r: Result<(), Failure>)
    ensures
        *final(state) == old(state).cleared(session_id),
        r == result,
{
    clear_session_if_matches(state, session_id);
    result
}

/// What the service holds when the task of a session has gone on to `next`.
pub open spec fn held_after<K, L>(
    state: ServiceState<K, L>,
    session_id: u64,
    next: Next,
) -> ServiceState<K, L> {
    if next is End {
        state.cleared(session_id)
    } else {
        state
    }
}

/// However a session ends, the service does not hold it any more, and a session with another
/// number stays. As long as it goes on, the service holds what it held.
pub proof fn ended_session_is_not_held<K, L>(
    state: ServiceState<K, L>,
    session_id: u64,
    outcome: Outcome,
)
    ensures
        ({
            let held = held_after(state, session_id, next_of(outcome));
            if next_of(outcome) is End {
                &&& held == state.cleared(session_id)
                &&& match state.session {
                    Some(slot) => if slot.id() == session_id {
                        held.session is None
                    } else {
                        held == state
                    },
                    None => held == state,
                }
            } else {
                held == state
            }
        }),
{
}

/// Once five seconds have passed since something happened, it is due, and it stays due at every
/// later time; before that it is not. What has not happened yet is due at any time.
pub proof fn due_stays_due(last: u64, now: u64, later: u64)
    requires
        now <= later,
    ensures
        is_due(None, now),
        now >= last + 5_000_000_000 ==> is_due(Some(last), now) && is_due(Some(last), later),
        now < last + 5_000_000_000 ==> !is_due(Some(last), now),
{
}

/// What is no data leads to a heartbeat whenever five seconds or more have passed since the last
/// one, or there was none yet, and else to nothing.
pub proof fn silence_leads_to_a_heartbeat(
    actor: SessionActor,
    frame: Option<InboundFrame>,
    queue_enabled: bool,
    now: u64,
)
    requires
        frame matches Some(f) ==> !(f is Data),
    ensures
        actor.last_heartbeat is None ==> actor.frame_action(frame, queue_enabled, now)
            == FrameAction::WriteHeartbeat,
        actor.last_heartbeat matches Some(last) ==> (if now >= last + 5_000_000_000 {
            actor.frame_action(frame, queue_enabled, now) == FrameAction::WriteHeartbeat
        } else {
            actor.frame_action(frame, queue_enabled, now) == FrameAction::Nothing
        }),
{
}

/// The packet of a frame is handed on as it is, at any time, and to the queue exactly as long as
/// the queue is in use.
pub proof fn data_is_delivered_as_it_is(
    actor: SessionActor,
    payload: Vec<u8>,
    queue_enabled: bool,
    now: u64,
)
    ensures
        actor.frame_action(Some(InboundFrame::Data(payload)), queue_enabled, now) matches
            FrameAction::Deliver(packet, queued) && packet@ == payload@ && (queued
            <==> queue_enabled),
{
}

/// The state when the task of a session has met with all of `events`, each at its time.
pub open spec fn outcome_run(events: Seq<(Outcome, u64)>) -> SessionActor
    decreases events.len(),
{
    if events.len() == 0 {
        fresh_actor()
    } else {
        outcome_run(events.drop_last()).after_outcome(events.last().0, events.last().1)
    }
}

/// A heartbeat was written, whether or not somebody had asked for it.
pub open spec fn is_heartbeat(outcome: Outcome) -> bool {
    outcome is Command && outcome->Command_0 && outcome->Command_1 is Ok || outcome
        is AutomaticHeartbeat && outcome->AutomaticHeartbeat_0 is Ok
}

/// Only what was written counts as a heartbeat, and the last one counts: five seconds after it,
/// and not before, silence leads to the next one.
pub proof fn last_heartbeat_counts(
    events: Seq<(Outcome, u64)>,
    i: int,
    queue_enabled: bool,
    now: u64,
)
    requires
        -1 <= i < events.len(),
        i >= 0 ==> is_heartbeat(events[i].0),
        forall|j: int| i < j < events.len() ==> !is_heartbeat((#[trigger] events[j]).0),
    ensures
        outcome_run(events).last_heartbeat == (if i < 0 {
            None
        } else {
            Some(events[i].1)
        }),
        outcome_run(events).frame_action(None, queue_enabled, now) == (if i < 0 || now
            >= events[i].1 + 5_000_000_000 {
            FrameAction::WriteHeartbeat
        } else {
            FrameAction::Nothing
        }),
    decreases events.len(),
{
    if events.len() > 0 && i < events.len() - 1 {
        let front = events.drop_last();
        assert(!is_heartbeat(events[events.len() - 1].0));
        assert forall|j: int| i < j < front.len() implies !is_heartbeat(
            (#[trigger] front[j]).0,
        ) by {
            assert(front[j] == events[j]);
        }
        last_heartbeat_counts(front, i, queue_enabled, now);
    }
}

/// A packet that finds the queue full is counted, and it is reported at once, with all that were
/// lost before it and not reported, if five seconds have passed since the last report. A packet
/// that was queued changes nothing, and neither does one for which the queue is closed: the
/// queue is then not used any more.
pub proof fn loss_is_reported_when_due(actor: SessionActor, now: u64)
    requires
        actor.dropped_packet_count < u64::MAX,
    ensures
        ({
            let late = actor.last_queue_warning matches Some(last) ==> now >= last + 5_000_000_000;
            let n = actor.dropped_packet_count + 1;
            let after = actor.after_queue(QueueOutcome::Full, now);
            let reaction = actor.queue_reaction(QueueOutcome::Full, now);
            &&& late ==> (reaction matches QueueReaction::Warn(count) && count == n)
            &&& late ==> after.dropped_packet_count == 0 && after.last_queue_warning == Some(now)
            &&& !late ==> reaction == QueueReaction::Nothing
            &&& !late ==> after.dropped_packet_count == n && after.last_queue_warning
                == actor.last_queue_warning
            &&& after.last_heartbeat == actor.last_heartbeat
        }),
        actor.after_queue(QueueOutcome::Queued, now) == actor,
        actor.after_queue(QueueOutcome::Closed, now) == actor,
        actor.queue_reaction(QueueOutcome::Queued, now) == QueueReaction::Nothing,
        actor.queue_reaction(QueueOutcome::Closed, now) == QueueReaction::Disable,
{
}

/// A command to send a packet writes that packet, in a frame if so said, and counts for nothing
/// else; a command to send a heartbeat counts as a heartbeat exactly if it could be written.
pub proof fn commands_are_carried_out(
    actor: SessionActor,
    packet: Vec<u8>,
    result: Result<(), Failure>,
    now: u64,
    outcome: Outcome,
)
    ensures
        command_action(Some(SessionCommand::SendRaw(packet))) matches CommandAction::WriteRaw(
            bytes,
        ) && bytes@ == packet@,
        command_action(Some(SessionCommand::SendTcp(packet))) matches CommandAction::WriteTcp(
            bytes,
        ) && bytes@ == packet@,
        is_outcome_of(outcome, command_action(Some(SessionCommand::SendRaw(packet))), result)
            ==> actor.after_outcome(outcome, now) == actor,
        is_outcome_of(outcome, command_action(Some(SessionCommand::SendTcp(packet))), result)
            ==> actor.after_outcome(outcome, now) == actor,
        is_outcome_of(outcome, command_action(Some(SessionCommand::SendHeartbeat)), result) ==> (
        actor.after_outcome(outcome, now).last_heartbeat == (if result is Ok {
            Some(now)
        } else {
            actor.last_heartbeat
        })),
        is_outcome_of(outcome, command_action(Some(SessionCommand::SendHeartbeat)), result)
            ==> next_of(outcome) == Next::Respond(result),
{
}

/// The task of a session that has just begun owes a heartbeat at once, and reports the first packet
/// that is lost, whatever the time is.
pub proof fn fresh_session_owes_a_heartbeat(queue_enabled: bool, now: u64)
    ensures
        fresh_actor().frame_action(None, queue_enabled, now) == FrameAction::WriteHeartbeat,
        fresh_actor().queue_reaction(QueueOutcome::Full, now) == QueueReaction::Warn(1),
{
}

} // verus!
