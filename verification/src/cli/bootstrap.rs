//! The rules that keep the traffic to the portal and to the proxy out of other tunnels, which
//! have to be in place before the session is started.

use vstd::prelude::*;
use crate::cli::command_laws::{
    failed_commands_are_reported, lemma_ends_with, lemma_occurs, missing_rule_is_no_failure,
};
use crate::cli::commands::{
    bootstrap_rule_command, bootstrap_rule_view, command_fault, did_remove, judge_removal,
    lossy_text, removal_fault, run_linux_command, Change, CommandEvent, CommandLine, CommandView,
    Removal,
};
use crate::cli::linux::{all_succeeded, found_nothing, succeeded};
use crate::failure::{maybe_failure, Failure};
use crate::net::{ipv4_text, Ipv4Addr};
use crate::text::occurs;

verus! {

/// The addresses that a session is started through.
pub open spec fn bootstrap_endpoints() -> Seq<Ipv4Addr> {
    seq![Ipv4Addr::of(211, 65, 64, 100), Ipv4Addr::of(211, 65, 66, 99)]
}

/// What is being done to the rules.
#[derive(Debug, Clone, Copy, PartialEq, Eq, Structural)]
pub enum BootstrapPhase {
    /// Rules for the next endpoint that an earlier run left behind are removed.
    Clearing,
    /// The rule for the next endpoint is added.
    Adding,
    /// Every endpoint has its rule.
    Active,
    /// The last rule that was added is removed.
    Removing,
    /// No rule is left.
    Finished,
}

/// The rules, on their way to being in place or to being removed.
#[derive(Debug)]
pub struct LinuxBootstrapRoutes {
    pub endpoints: Vec<Ipv4Addr>,
    /// The number of endpoints whose rule is in place, counted from the front.
    pub installed: usize,
    pub phase: BootstrapPhase,
    /// Why the rules could not be put in place.
    pub failure: Option<Failure>,
}

/// A [`LinuxBootstrapRoutes`] in terms of sequences.
#[verifier::ext_equal]
pub struct BootstrapView {
    pub endpoints: Seq<Ipv4Addr>,
    pub installed: int,
    pub phase: BootstrapPhase,
    pub failure: Option<Seq<Seq<char>>>,
}

impl View for LinuxBootstrapRoutes {
    type V = BootstrapView;

    open spec fn view(&self) -> BootstrapView {
        BootstrapView {
            endpoints: self.endpoints@,
            installed: self.installed as int,
            phase: self.phase,
            failure: maybe_failure(self.failure),
        }
    }
}

/// Why the removal of the rule for `endpoint` is held to have failed, if it is.
pub open spec fn bootstrap_removal_fault(
    endpoint: Ipv4Addr,
    event: CommandEvent,
) -> Option<Seq<Seq<char>>> {
    removal_fault(
        event,
        "failed to remove bootstrap route for "@ + ipv4_text(endpoint),
        "ip failed while removing bootstrap route for "@ + ipv4_text(endpoint) + ": "@,
    )
}

/// What became of the removal of the rule for `endpoint`.
pub fn delete_bootstrap_rule_if_present(endpoint: Ipv4Addr, event: &CommandEvent) -> (r: Removal)
    ensures
        match bootstrap_removal_fault(endpoint, *event) {
            Some(messages) => r matches Removal::Failed(f) && f@ == messages,
            None => if did_remove(*event) {
                r is Removed
            } else {
                r is Absent
            },
        },
{
    let mut not_run = String::from_str("failed to remove bootstrap route for ");
    endpoint.push_text(&mut not_run);
    let mut failed = String::from_str("ip failed while removing bootstrap route for ");
    endpoint.push_text(&mut failed);
    failed.append(": ");
    judge_removal(event, &not_run, &failed)
}

impl BootstrapView {
    /// The rules are next to be removed, as far as there are any.
    pub open spec fn unwound(self) -> BootstrapView {
        BootstrapView {
            phase: if self.installed == 0 {
                BootstrapPhase::Finished
            } else {
                BootstrapPhase::Removing
            },
            ..self
        }
    }

    /// The next endpoint has its turn, if there is one.
    pub open spec fn turned(self) -> BootstrapView {
        BootstrapView {
            phase: if self.installed >= self.endpoints.len() {
                BootstrapPhase::Active
            } else {
                BootstrapPhase::Clearing
            },
            ..self
        }
    }

    /// The command that is to be run next.
    pub open spec fn command(self) -> Option<CommandView> {
        match self.phase {
            BootstrapPhase::Clearing => Some(
                bootstrap_rule_view(Change::Delete, self.endpoints[self.installed]),
            ),
            BootstrapPhase::Adding => Some(
                bootstrap_rule_view(Change::Add, self.endpoints[self.installed]),
            ),
            BootstrapPhase::Removing => Some(
                bootstrap_rule_view(Change::Delete, self.endpoints[self.installed - 1]),
            ),
            BootstrapPhase::Active | BootstrapPhase::Finished => None,
        }
    }

    /// The state when the command of this state has come to `event`.
    pub open spec fn after(self, event: CommandEvent) -> BootstrapView {
        match self.phase {
            BootstrapPhase::Clearing => match bootstrap_removal_fault(
                self.endpoints[self.installed],
                event,
            ) {
                Some(m) => (BootstrapView { failure: Some(m), ..self }).unwound(),
                None => if did_remove(event) {
                    self
                } else {
                    BootstrapView { phase: BootstrapPhase::Adding, ..self }
                },
            },
            BootstrapPhase::Adding => match command_fault(
                bootstrap_rule_view(Change::Add, self.endpoints[self.installed]),
                event,
            ) {
                Some(m) => (BootstrapView {
                    failure: Some(
                        seq![
                            "failed to bypass Clash TUN for "@ + ipv4_text(
                                self.endpoints[self.installed],
                            ),
                        ] + m,
                    ),
                    ..self
                }).unwound(),
                None => (BootstrapView { installed: self.installed + 1, ..self }).turned(),
            },
            BootstrapPhase::Removing => (BootstrapView {
                installed: self.installed - 1,
                ..self
            }).unwound(),
            BootstrapPhase::Active | BootstrapPhase::Finished => self,
        }
    }

    /// What holds in every phase.
    pub open spec fn wf(self) -> bool {
        &&& 0 <= self.installed <= self.endpoints.len()
        &&& match self.phase {
            BootstrapPhase::Clearing | BootstrapPhase::Adding => self.installed
                < self.endpoints.len() && self.failure is None,
            BootstrapPhase::Active => self.installed == self.endpoints.len() && self.failure
                is None,
            BootstrapPhase::Removing => self.installed > 0,
            BootstrapPhase::Finished => self.installed == 0,
        }
    }
}

/// The first state.
pub open spec fn bootstrap_start() -> BootstrapView {
    BootstrapView {
        endpoints: bootstrap_endpoints(),
        installed: 0,
        phase: BootstrapPhase::Clearing,
        failure: None,
    }
}

impl LinuxBootstrapRoutes {
    /// Starts to put the rules in place.
    pub fn install() -> (r: Self)
        ensures
            r@ == bootstrap_start(),
            r@.wf(),
    {
        let mut endpoints: Vec<Ipv4Addr> = Vec::new();
        endpoints.push(Ipv4Addr::new(211, 65, 64, 100));
        endpoints.push(Ipv4Addr::new(211, 65, 66, 99));
        proof {
            assert(endpoints@ =~= bootstrap_endpoints());
        }
        LinuxBootstrapRoutes {
            endpoints,
            installed: 0,
            phase: BootstrapPhase::Clearing,
            failure: None,
        }
    }

    fn unwind(&mut self)
        ensures
            final(self)@ == old(self)@.unwound(),
    {
        if self.installed == 0 {
            self.phase = BootstrapPhase::Finished;
        } else {
            self.phase = BootstrapPhase::Removing;
        }
    }

    /// The command that is to be run next.
    pub fn command(&self) -> (r: Option<CommandLine>)
        requires
            self@.wf(),
        ensures
            match self@.command() {
                Some(view) => r matches Some(c) && c@ == view,
                None => r is None,
            },
    {
        match self.phase {
            BootstrapPhase::Clearing => Some(
                bootstrap_rule_command(Change::Delete, self.endpoints[self.installed]),
            ),
            BootstrapPhase::Adding => Some(
                bootstrap_rule_command(Change::Add, self.endpoints[self.installed]),
            ),
            BootstrapPhase::Removing => Some(
                bootstrap_rule_command(Change::Delete, self.endpoints[self.installed - 1]),
            ),
            BootstrapPhase::Active | BootstrapPhase::Finished => None,
        }
    }

    /// Takes note of what became of the command.
    pub fn observe(&mut self, event: &CommandEvent)
        requires
            old(self)@.wf(),
        ensures
            final(self)@ == old(self)@.after(*event),
            final(self)@.wf(),
    {
        match self.phase {
            BootstrapPhase::Clearing => {
                match delete_bootstrap_rule_if_present(self.endpoints[self.installed], event) {
                    Removal::Removed => {},
                    Removal::Absent => {
                        self.phase = BootstrapPhase::Adding;
                    },
                    Removal::Failed(f) => {
                        self.failure = Some(f);
                        self.unwind();
                    },
                }
            },
            BootstrapPhase::Adding => {
                let endpoint = self.endpoints[self.installed];
                let command = bootstrap_rule_command(Change::Add, endpoint);
                match run_linux_command(&command, event) {
                    Ok(()) => {
                        assert(self.installed < self.endpoints.len());
                        self.installed += 1;
                        if self.installed >= self.endpoints.len() {
                            self.phase = BootstrapPhase::Active;
                        } else {
                            self.phase = BootstrapPhase::Clearing;
                        }
                    },
                    Err(f) => {
                        let mut text = String::from_str("failed to bypass Clash TUN for ");
                        endpoint.push_text(&mut text);
                        self.failure = Some(f.context(text));
                        self.unwind();
                    },
                }
            },
            BootstrapPhase::Removing => {
                self.installed -= 1;
                self.unwind();
            },
            BootstrapPhase::Active | BootstrapPhase::Finished => {},
        }
    }

    /// Starts to remove the rules. Nothing changes once that has begun.
    pub fn release(&mut self)
        requires
            old(self)@.wf(),
        ensures
            final(self)@ == old(self)@.unwound(),
            final(self)@.wf(),
    {
        self.unwind();
    }
}

/// The rules that are in place when the command of the state `v` has come to `event`. A rule
/// counts as gone once its removal was asked for.
pub open spec fn rules_after(
    rules: Seq<Ipv4Addr>,
    v: BootstrapView,
    event: CommandEvent,
) -> Seq<Ipv4Addr> {
    match v.phase {
        BootstrapPhase::Adding if command_fault(
            bootstrap_rule_view(Change::Add, v.endpoints[v.installed]),
            event,
        ) is None => rules.push(v.endpoints[v.installed]),
        BootstrapPhase::Removing => rules.drop_last(),
        _ => rules,
    }
}

/// What happens to the rules: a command comes to an event, or their removal is asked for.
pub enum BootstrapStep {
    Event(CommandEvent),
    Release,
}

/// The state after a step.
pub open spec fn bootstrap_after(v: BootstrapView, step: BootstrapStep) -> BootstrapView {
    match step {
        BootstrapStep::Event(event) => v.after(event),
        BootstrapStep::Release => v.unwound(),
    }
}

/// The state after some steps.
pub open spec fn bootstrap_run(steps: Seq<BootstrapStep>) -> BootstrapView
    decreases steps.len(),
{
    if steps.len() == 0 {
        bootstrap_start()
    } else {
        bootstrap_after(bootstrap_run(steps.drop_last()), steps.last())
    }
}

/// The rules that are in place after some steps.
pub open spec fn bootstrap_rules(steps: Seq<BootstrapStep>) -> Seq<Ipv4Addr>
    decreases steps.len(),
{
    if steps.len() == 0 {
        Seq::empty()
    } else {
        match steps.last() {
            BootstrapStep::Event(event) => rules_after(
                bootstrap_rules(steps.drop_last()),
                bootstrap_run(steps.drop_last()),
                event,
            ),
            BootstrapStep::Release => bootstrap_rules(steps.drop_last()),
        }
    }
}

/// Whatever the commands come to, and whenever the removal is asked for, the rules in place
/// are those of the endpoints that are counted as installed.
pub proof fn bootstrap_knows_its_rules(steps: Seq<BootstrapStep>)
    ensures
        bootstrap_run(steps).wf(),
        bootstrap_run(steps).endpoints == bootstrap_endpoints(),
        bootstrap_rules(steps) == bootstrap_endpoints().take(bootstrap_run(steps).installed),
    decreases steps.len(),
{
    if steps.len() == 0 {
        assert(bootstrap_endpoints().take(0) =~= Seq::<Ipv4Addr>::empty());
    } else {
        bootstrap_knows_its_rules(steps.drop_last());
        let v = bootstrap_run(steps.drop_last());
        let all = bootstrap_endpoints();
        if v.phase == BootstrapPhase::Adding {
            assert(all.take(v.installed + 1) =~= all.take(v.installed).push(all[v.installed]));
        } else if v.phase == BootstrapPhase::Removing {
            assert(all.take(v.installed).drop_last() =~= all.take(v.installed - 1));
        }
    }
}

/// Once the rules are removed, be it after a failure or on request, none is left behind.
pub proof fn finished_bootstrap_leaves_no_rule(steps: Seq<BootstrapStep>)
    requires
        bootstrap_run(steps).phase == BootstrapPhase::Finished,
    ensures
        bootstrap_rules(steps) == Seq::<Ipv4Addr>::empty(),
{
    bootstrap_knows_its_rules(steps);
    assert(bootstrap_endpoints().take(0) =~= Seq::<Ipv4Addr>::empty());
}

/// While the rules are active, each endpoint has its own.
pub proof fn active_bootstrap_is_complete(steps: Seq<BootstrapStep>)
    requires
        bootstrap_run(steps).phase == BootstrapPhase::Active,
    ensures
        bootstrap_rules(steps) == bootstrap_endpoints(),
{
    bootstrap_knows_its_rules(steps);
    assert(bootstrap_endpoints().take(2) =~= bootstrap_endpoints());
}

/// The removal of the rules was asked for.
pub open spec fn was_released(steps: Seq<BootstrapStep>) -> bool {
    exists|i: int| 0 <= i < steps.len() && #[trigger] steps[i] is Release
}

proof fn lemma_released(steps: Seq<BootstrapStep>)
    requires
        steps.len() > 0,
    ensures
        was_released(steps) <==> was_released(steps.drop_last()) || steps.last() is Release,
{
    let front = steps.drop_last();
    if was_released(front) {
        let i = choose|i: int| 0 <= i < front.len() && #[trigger] front[i] is Release;
        assert(steps[i] is Release);
    }
    if steps.last() is Release {
        assert(steps[steps.len() - 1] is Release);
    }
    if was_released(steps) && !(steps.last() is Release) {
        let i = choose|i: int| 0 <= i < steps.len() && #[trigger] steps[i] is Release;
        assert(front[i] is Release);
    }
}

/// At any time, what is done next goes by the rules that are in place. As long as nothing has
/// failed and nobody has asked for their removal, the first endpoint without a rule has its
/// turn; else the rules in place are removed, the last one first, until none is left.
pub proof fn bootstrap_commands_go_by_what_is_in_place(steps: Seq<BootstrapStep>)
    ensures
        ({
            let v = bootstrap_run(steps);
            let rules = bootstrap_rules(steps);
            let n = rules.len() as int;
            let all = bootstrap_endpoints();
            &&& v.failure is None && !was_released(steps) && n < all.len() ==> v.command() == Some(
                bootstrap_rule_view(Change::Delete, all[n]),
            ) || v.command() == Some(bootstrap_rule_view(Change::Add, all[n]))
            &&& v.failure is None && !was_released(steps) && n == all.len() ==> v.command() is None
            &&& (v.failure is Some || was_released(steps)) && n > 0 ==> v.command() == Some(
                bootstrap_rule_view(Change::Delete, rules.last()),
            )
            &&& (v.failure is Some || was_released(steps)) && n == 0 ==> v.command() is None
        }),
{
    bootstrap_knows_its_rules(steps);
    lemma_bootstrap_phase(steps);
}

proof fn lemma_bootstrap_phase(steps: Seq<BootstrapStep>)
    ensures
        bootstrap_run(steps).phase == BootstrapPhase::Removing || bootstrap_run(steps).phase
            == BootstrapPhase::Finished <==> bootstrap_run(steps).failure is Some || was_released(
            steps,
        ),
    decreases steps.len(),
{
    if steps.len() > 0 {
        lemma_bootstrap_phase(steps.drop_last());
        lemma_released(steps);
        bootstrap_knows_its_rules(steps.drop_last());
    }
}

/// Steps that are the outcomes of commands.
pub open spec fn events_only(events: Seq<CommandEvent>) -> Seq<BootstrapStep> {
    events.map_values(|event: CommandEvent| BootstrapStep::Event(event))
}

/// For each endpoint, the rules that earlier runs left behind are removed, however many there
/// are; when there is none left, the rule for the endpoint is added. When that is done for all of
/// them, each endpoint has its rule.
pub proof fn each_endpoint_has_its_turn(
    before: Seq<BootstrapStep>,
    stale: Seq<CommandEvent>,
    none: CommandEvent,
    added: CommandEvent,
)
    requires
        all_succeeded(stale),
        found_nothing(none),
        succeeded(added),
        bootstrap_run(before).phase == BootstrapPhase::Clearing,
    ensures
        ({
            let n = bootstrap_rules(before).len() as int;
            let endpoint = bootstrap_endpoints()[n];
            let cleared = before + events_only(stale);
            let empty = cleared.push(BootstrapStep::Event(none));
            let done = empty.push(BootstrapStep::Event(added));
            &&& bootstrap_run(cleared).command() == Some(
                bootstrap_rule_view(Change::Delete, endpoint),
            )
            &&& bootstrap_run(empty).command() == Some(bootstrap_rule_view(Change::Add, endpoint))
            &&& bootstrap_rules(done) == bootstrap_rules(before).push(endpoint)
            &&& bootstrap_run(done).failure is None
            &&& bootstrap_run(done).phase == (if n + 1 < bootstrap_endpoints().len() {
                BootstrapPhase::Clearing
            } else {
                BootstrapPhase::Active
            })
        }),
{
    bootstrap_knows_its_rules(before);
    lemma_stale_bootstrap_rules(before, stale);
    let cleared = before + events_only(stale);
    let empty = cleared.push(BootstrapStep::Event(none));
    let done = empty.push(BootstrapStep::Event(added));
    assert(empty.drop_last() =~= cleared);
    assert(done.drop_last() =~= empty);
    bootstrap_knows_its_rules(done);
    bootstrap_knows_its_rules(empty);
}

proof fn lemma_stale_bootstrap_rules(before: Seq<BootstrapStep>, stale: Seq<CommandEvent>)
    requires
        all_succeeded(stale),
        bootstrap_run(before).phase == BootstrapPhase::Clearing,
    ensures
        bootstrap_run(before + events_only(stale)) == bootstrap_run(before),
        bootstrap_rules(before + events_only(stale)) == bootstrap_rules(before),
    decreases stale.len(),
{
    if stale.len() == 0 {
        assert(before + events_only(stale) =~= before);
    } else {
        let front = stale.drop_last();
        assert forall|i: int| 0 <= i < front.len() implies succeeded(#[trigger] front[i]) by {
            assert(front[i] == stale[i]);
        }
        lemma_stale_bootstrap_rules(before, front);
        let steps = before + events_only(stale);
        assert(steps.drop_last() =~= before + events_only(front));
        assert(succeeded(stale[stale.len() - 1]));
        assert(steps.last() == BootstrapStep::Event(stale[stale.len() - 1]));
    }
}

/// The first failure is why the rules could not be put in place, whatever becomes of their
/// removal; there is none unless a command failed while they were put in place. Its first message
/// names the endpoint, and its last is the cause, or has in it what the command wrote.
pub proof fn first_failure_of_a_bootstrap_stays(v: BootstrapView, event: CommandEvent)
    requires
        v.wf(),
    ensures
        v.failure is Some ==> v.after(event).failure == v.failure,
        v.unwound().failure == v.failure,
        v.failure is None && v.after(event).failure is Some ==> !succeeded(event) && {
            let messages = v.after(event).failure->0;
            &&& messages.len() > 0
            &&& match event {
                CommandEvent::NotRun(cause) => messages.last() == cause@,
                CommandEvent::Finished(output) => occurs(
                    lossy_text(output.stderr@),
                    messages.last(),
                ),
            }
            &&& occurs(ipv4_text(v.endpoints[v.installed]), messages[0])
        },
        (v.phase == BootstrapPhase::Adding && !succeeded(event)) || (v.phase
            == BootstrapPhase::Clearing && !succeeded(event) && !found_nothing(event)) ==> v.after(
            event,
        ).failure is Some,
        v.phase == BootstrapPhase::Removing ==> v.after(event).failure == v.failure,
{
    if v.phase == BootstrapPhase::Adding {
        let command = bootstrap_rule_view(Change::Add, v.endpoints[v.installed]);
        failed_commands_are_reported(command, event);
        let text = ipv4_text(v.endpoints[v.installed]);
        lemma_ends_with("failed to bypass Clash TUN for "@, text);
    } else if v.phase == BootstrapPhase::Clearing {
        let text = ipv4_text(v.endpoints[v.installed]);
        let failed = "ip failed while removing bootstrap route for "@ + text + ": "@;
        missing_rule_is_no_failure(event, "failed to remove bootstrap route for "@ + text, failed);
        if let CommandEvent::Finished(output) = event {
            lemma_ends_with(failed, lossy_text(output.stderr@));
            let head = "ip failed while removing bootstrap route for "@;
            let rest = ": "@ + lossy_text(output.stderr@);
            lemma_occurs(head, text, rest);
            assert(failed + lossy_text(output.stderr@) =~= head + text + rest);
        }
        lemma_ends_with("failed to remove bootstrap route for "@, text);
    }
}

} // verus!
