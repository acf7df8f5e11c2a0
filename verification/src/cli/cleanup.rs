//! How a network configuration under Linux is removed.

use vstd::prelude::*;
use crate::cli::command_laws::{
    failed_commands_are_reported, lemma_ends_with, missing_rule_is_no_failure,
};
use crate::cli::commands::{
    cidr_text, command_fault, is_outcome, linux_route_command, linux_route_view, lossy_text,
    policy_rule_command, policy_rule_view, revert_dns_command, revert_dns_view, route_cidr,
    run_linux_command, Change, CommandEvent, CommandLine, CommandView, Removal,
};
use crate::cli::linux::{
    active_setup_is_complete, delete_linux_policy_rule_if_present, found_nothing, gap_message,
    in_place_run, is_config_of, lemma_setup_keeps_plan, nothing, policy_removal_fault,
    route_context, route_context_text, setup_knows_what_is_in_place, setup_of, setup_run, succeeded,
    InPlace, LinuxNetworkConfig, SetupPhase,
};
use crate::cli::plan::LinuxPlan;
use crate::cli::routes::WindowsRoute;
use crate::failure::{maybe_failure, Failure};
use crate::net::Ipv4Addr;
use crate::text::{copy_text, occurs};

verus! {

/// What is being removed.
#[derive(Debug, Clone, Copy, PartialEq, Eq, Structural)]
pub enum CleanupPhase {
    RemovingPolicy,
    /// The last of the routes that are left is removed.
    RemovingRoute,
    RevertingDns,
    Done,
}

/// A network configuration on its way to being removed.
#[derive(Debug)]
pub struct LinuxCleanup {
    pub interface: String,
    pub gateway: Ipv4Addr,
    pub routes: Vec<WindowsRoute>,
    /// The number of routes that are still to be removed, counted from the front.
    pub left: usize,
    pub phase: CleanupPhase,
    /// The first thing that went wrong.
    pub failure: Option<Failure>,
}

/// A [`LinuxCleanup`] in terms of sequences.
#[verifier::ext_equal]
pub struct CleanupView {
    pub interface: Seq<char>,
    pub gateway: Ipv4Addr,
    pub routes: Seq<WindowsRoute>,
    pub left: int,
    pub phase: CleanupPhase,
    pub failure: Option<Seq<Seq<char>>>,
}

impl View for LinuxCleanup {
    type V = CleanupView;

    open spec fn view(&self) -> CleanupView {
        CleanupView {
            interface: self.interface@,
            gateway: self.gateway,
            routes: self.routes@,
            left: self.left as int,
            phase: self.phase,
            failure: maybe_failure(self.failure),
        }
    }
}

impl CleanupView {
    /// Takes note of what went wrong, unless something did before.
    pub open spec fn noted(self, messages: Seq<Seq<char>>) -> CleanupView {
        CleanupView {
            failure: if self.failure is Some {
                self.failure
            } else {
                Some(messages)
            },
            ..self
        }
    }

    /// What follows without a command: routes with a mask that has gaps are passed over, and
    /// behind the last route DNS is next.
    pub open spec fn settled(self) -> CleanupView
        decreases self.left,
    {
        if self.phase != CleanupPhase::RemovingRoute {
            self
        } else if self.left <= 0 {
            CleanupView { phase: CleanupPhase::RevertingDns, ..self }
        } else if cidr_text(self.routes[self.left - 1]) is None {
            (CleanupView { left: self.left - 1, ..self }).noted(
                gap_message(self.routes[self.left - 1]),
            ).settled()
        } else {
            self
        }
    }

    /// The command that is to be run next.
    pub open spec fn command(self) -> Option<CommandView> {
        match self.phase {
            CleanupPhase::RemovingPolicy => Some(policy_rule_view(Change::Delete)),
            CleanupPhase::RemovingRoute => Some(
                linux_route_view(
                    Change::Delete,
                    cidr_text(self.routes[self.left - 1])->0,
                    self.gateway,
                    self.interface,
                ),
            ),
            CleanupPhase::RevertingDns => Some(revert_dns_view(self.interface)),
            CleanupPhase::Done => None,
        }
    }

    /// The state when the command of this state has come to `event`.
    pub open spec fn after(self, event: CommandEvent) -> CleanupView {
        let fault = match self.command() {
            Some(command) => command_fault(command, event),
            None => None,
        };
        match self.phase {
            CleanupPhase::RemovingPolicy => {
                let next = CleanupView { phase: CleanupPhase::RemovingRoute, ..self };
                (match policy_removal_fault(event) {
                    Some(m) => next.noted(m),
                    None => next,
                }).settled()
            },
            CleanupPhase::RemovingRoute => {
                let next = CleanupView { left: self.left - 1, ..self };
                (match fault {
                    Some(m) => next.noted(
                        seq![
                            route_context(
                                Change::Delete,
                                cidr_text(self.routes[self.left - 1])->0,
                                self.gateway,
                            ),
                        ] + m,
                    ),
                    None => next,
                }).settled()
            },
            CleanupPhase::RevertingDns => {
                let next = CleanupView { phase: CleanupPhase::Done, ..self };
                match fault {
                    Some(m) => next.noted(seq!["failed to remove VPN DNS configuration"@] + m),
                    None => next,
                }
            },
            CleanupPhase::Done => self,
        }
    }

    /// What holds in every phase.
    pub open spec fn wf(self) -> bool {
        &&& 0 <= self.left <= self.routes.len()
        &&& self.phase == CleanupPhase::RemovingRoute ==> self.left > 0 && cidr_text(
            self.routes[self.left - 1],
        ) is Some
    }
}

/// The first state of the removal of a configuration.
pub open spec fn cleanup_of(config: LinuxNetworkConfig) -> CleanupView {
    CleanupView {
        interface: config.interface@,
        gateway: config.gateway,
        routes: config.routes@,
        left: config.routes@.len() as int,
        phase: CleanupPhase::RemovingPolicy,
        failure: None,
    }
}

fn copy_routes(routes: &Vec<WindowsRoute>) -> (r: Vec<WindowsRoute>)
    ensures
        r@ == routes@,
{
    let mut out: Vec<WindowsRoute> = Vec::new();
    let mut i: usize = 0;
    while i < routes.len()
        invariant
            i <= routes@.len(),
            out@ == routes@.take(i as int),
        decreases routes.len() - i,
    {
        out.push(routes[i]);
        i += 1;
    }
    proof {
        assert(routes@.take(routes@.len() as int) =~= routes@);
    }
    out
}

/// Starts to remove a configuration; there is nothing to do if that was started before.
pub fn cleanup_linux_network(config: &mut LinuxNetworkConfig) -> (r: Option<LinuxCleanup>)
    ensures
        r is Some <==> old(config).active,
        r matches Some(cleanup) ==> cleanup@ == cleanup_of(*old(config)) && cleanup@.wf(),
        !final(config).active,
        final(config).interface == old(config).interface,
        final(config).gateway == old(config).gateway,
        final(config).routes == old(config).routes,
{
    if !config.active {
        return None;
    }
    config.active = false;
    let routes = copy_routes(&config.routes);
    let left: usize = routes.len();
    Some(
        LinuxCleanup {
            interface: copy_text(&config.interface),
            gateway: config.gateway,
            routes,
            left,
            phase: CleanupPhase::RemovingPolicy,
            failure: None,
        },
    )
}

impl LinuxCleanup {
    fn note(&mut self, failure: Failure)
        ensures
            final(self)@ == old(self)@.noted(failure@),
    {
        if self.failure.is_none() {
            self.failure = Some(failure);
        }
    }

    fn settle(&mut self)
        requires
            0 <= old(self)@.left <= old(self)@.routes.len(),
        ensures
            final(self)@ == old(self)@.settled(),
            final(self)@.wf(),
    {
        if self.phase != CleanupPhase::RemovingRoute {
            return;
        }
        let ghost start = self@;
        while self.left > 0
            invariant
                start == old(self)@,
                self.phase == CleanupPhase::RemovingRoute,
                0 <= self@.left <= self@.routes.len(),
                self@.settled() == start.settled(),
            decreases self.left,
        {
            match route_cidr(self.routes[self.left - 1]) {
                Ok(_) => {
                    return;
                },
                Err(e) => {
                    let failure = Failure::new(e.message());
                    self.left -= 1;
                    self.note(failure);
                },
            }
        }
        self.phase = CleanupPhase::RevertingDns;
    }

    fn route_command(&self) -> (r: (CommandLine, String))
        requires
            0 < self.left <= self.routes@.len(),
            cidr_text(self.routes@[self.left - 1]) is Some,
        ensures
            r.0@ == linux_route_view(
                Change::Delete,
                cidr_text(self.routes@[self.left - 1])->0,
                self.gateway,
                self.interface@,
            ),
            r.1@ == cidr_text(self.routes@[self.left - 1])->0,
    {
        let destination = match route_cidr(self.routes[self.left - 1]) {
            Ok(destination) => destination,
            Err(_) => String::new(),
        };
        (
            linux_route_command(Change::Delete, &destination, self.gateway, &self.interface),
            destination,
        )
    }

    /// The command that is to be run next; none once all is removed.
    pub fn command(&self) -> (r: Option<CommandLine>)
        requires
            self@.wf(),
        ensures
            match self@.command() {
                Some(view) => r matches Some(c) && c@ == view,
                None => r is None,
            },
    {
        match self.phase {
            CleanupPhase::RemovingPolicy => Some(policy_rule_command(Change::Delete)),
            CleanupPhase::RemovingRoute => Some(self.route_command().0),
            CleanupPhase::RevertingDns => Some(revert_dns_command(&self.interface)),
            CleanupPhase::Done => None,
        }
    }

    /// Takes note of what became of the command.
    pub fn observe(&mut self, event: &CommandEvent)
        requires
            old(self)@.wf(),
        ensures
            final(self)@ == old(self)@.after(*event),
            final(self)@.wf(),
    {
        match self.phase {
            CleanupPhase::RemovingPolicy => {
                self.phase = CleanupPhase::RemovingRoute;
                if let Removal::Failed(f) = delete_linux_policy_rule_if_present(event) {
                    self.note(f);
                }
                self.settle();
            },
            CleanupPhase::RemovingRoute => {
                let (command, destination) = self.route_command();
                self.left -= 1;
                if let Err(f) = run_linux_command(&command, event) {
                    let text = route_context_text(Change::Delete, &destination, self.gateway);
                    self.note(f.context(text));
                }
                self.settle();
            },
            CleanupPhase::RevertingDns => {
                let command = revert_dns_command(&self.interface);
                self.phase = CleanupPhase::Done;
                if let Err(f) = run_linux_command(&command, event) {
                    self.note(
                        f.context(String::from_str("failed to remove VPN DNS configuration")),
                    );
                }
            },
            CleanupPhase::Done => {},
        }
    }

    /// Whether the removal went well, and else what went wrong first.
    pub fn finish(self) -> (r: Result<(), Failure>)
        requires
            self@.command() is None,
        ensures
            match self@.failure {
                Some(messages) => r matches Err(f) && f@ == messages,
                None => r is Ok,
            },
            is_outcome(r, self@.failure),
    {
        match self.failure {
            Some(f) => Err(f),
            None => Ok(()),
        }
    }
}

/// The state when the commands have come to `events`, one after the other.
pub open spec fn cleanup_run(start: CleanupView, events: Seq<CommandEvent>) -> CleanupView
    decreases events.len(),
{
    if events.len() == 0 {
        start
    } else {
        cleanup_run(start, events.drop_last()).after(events.last())
    }
}

/// The commands that remove a configuration: first the policy rule, then the routes, the last
/// one first, then DNS.
pub open spec fn cleanup_commands(start: CleanupView) -> Seq<CommandView> {
    let n = start.routes.len() as int;
    Seq::new(
        (n + 2) as nat,
        |i: int|
            if i == 0 {
                policy_rule_view(Change::Delete)
            } else if i <= n {
                linux_route_view(
                    Change::Delete,
                    cidr_text(start.routes[n - i])->0,
                    start.gateway,
                    start.interface,
                )
            } else {
                revert_dns_view(start.interface)
            },
    )
}

/// Whatever the commands come to, all of them are run, in the same order: a failure does not
/// keep anything from being removed.
pub proof fn cleanup_removes_everything(config: LinuxNetworkConfig, events: Seq<CommandEvent>)
    requires
        forall|i: int|
            0 <= i < config.routes@.len() ==> cidr_text(#[trigger] config.routes@[i]) is Some,
    ensures
        ({
            let commands = cleanup_commands(cleanup_of(config));
            cleanup_run(cleanup_of(config), events).command() == (if events.len()
                < commands.len() {
                Some(commands[events.len() as int])
            } else {
                None
            })
        }),
{
    lemma_cleanup_position(config, events);
}

proof fn lemma_cleanup_position(config: LinuxNetworkConfig, events: Seq<CommandEvent>)
    requires
        forall|i: int|
            0 <= i < config.routes@.len() ==> cidr_text(#[trigger] config.routes@[i]) is Some,
    ensures
        ({
            let v = cleanup_run(cleanup_of(config), events);
            let n = config.routes@.len() as int;
            let k = events.len() as int;
            &&& v.interface == config.interface@
            &&& v.gateway == config.gateway
            &&& v.routes == config.routes@
            &&& if k == 0 {
                v.phase == CleanupPhase::RemovingPolicy && v.left == n
            } else if k <= n {
                v.phase == CleanupPhase::RemovingRoute && v.left == n - k + 1
            } else if k == n + 1 {
                v.phase == CleanupPhase::RevertingDns && v.left == 0
            } else {
                v.phase == CleanupPhase::Done
            }
        }),
    decreases events.len(),
{
    if events.len() > 0 {
        lemma_cleanup_position(config, events.drop_last());
        let before = cleanup_run(cleanup_of(config), events.drop_last());
        let n = config.routes@.len() as int;
        let k = events.len() as int;
        if k <= n {
            assert(cidr_text(config.routes@[n - k]) is Some);
        }
    }
}

/// What is in place while a configuration is removed. As for a setup, a thing counts as gone
/// once its removal was asked for.
pub open spec fn left_in_place(config: LinuxNetworkConfig, events: Seq<CommandEvent>) -> InPlace
    decreases events.len(),
{
    if events.len() == 0 {
        InPlace { routes: config.routes@, dns: true, policy: true }
    } else {
        let p = left_in_place(config, events.drop_last());
        match cleanup_run(cleanup_of(config), events.drop_last()).phase {
            CleanupPhase::RemovingPolicy => InPlace { policy: false, ..p },
            CleanupPhase::RemovingRoute => InPlace { routes: p.routes.drop_last(), ..p },
            CleanupPhase::RevertingDns => InPlace { dns: false, ..p },
            CleanupPhase::Done => p,
        }
    }
}

proof fn lemma_cleanup_knows_what_is_left(config: LinuxNetworkConfig, events: Seq<CommandEvent>)
    requires
        forall|i: int|
            0 <= i < config.routes@.len() ==> cidr_text(#[trigger] config.routes@[i]) is Some,
    ensures
        ({
            let v = cleanup_run(cleanup_of(config), events);
            left_in_place(config, events) == (InPlace {
                routes: if v.phase == CleanupPhase::Done {
                    Seq::empty()
                } else {
                    config.routes@.take(v.left)
                },
                dns: v.phase != CleanupPhase::Done,
                policy: v.phase == CleanupPhase::RemovingPolicy,
            })
        }),
    decreases events.len(),
{
    lemma_cleanup_position(config, events);
    let all = config.routes@;
    let v = cleanup_run(cleanup_of(config), events);
    if events.len() == 0 {
        assert(all.take(all.len() as int) =~= all);
    } else {
        lemma_cleanup_position(config, events.drop_last());
        lemma_cleanup_knows_what_is_left(config, events.drop_last());
        let before = cleanup_run(cleanup_of(config), events.drop_last());
        if before.phase == CleanupPhase::RemovingRoute {
            assert(all.take(before.left).drop_last() =~= all.take(v.left));
        } else if before.phase == CleanupPhase::RevertingDns {
            assert(all.take(0) =~= Seq::<WindowsRoute>::empty());
        }
    }
}

/// When the removal of a configuration is done, nothing of it is left in place, whatever the
/// commands came to.
pub proof fn finished_cleanup_leaves_nothing(config: LinuxNetworkConfig, events: Seq<CommandEvent>)
    requires
        forall|i: int|
            0 <= i < config.routes@.len() ==> cidr_text(#[trigger] config.routes@[i]) is Some,
        cleanup_run(cleanup_of(config), events).phase == CleanupPhase::Done,
    ensures
        left_in_place(config, events) == nothing(),
{
    lemma_cleanup_knows_what_is_left(config, events);
}

/// The removal of a configuration goes through all of it, whatever the commands come to: first
/// comes the policy rule, then come the routes, from the last to the first, each through the
/// gateway and the interface of the configuration, and then DNS.
pub proof fn cleanup_goes_through_the_configuration(
    config: LinuxNetworkConfig,
    events: Seq<CommandEvent>,
)
    requires
        forall|i: int|
            0 <= i < config.routes@.len() ==> cidr_text(#[trigger] config.routes@[i]) is Some,
    ensures
        ({
            let n = config.routes@.len() as int;
            let k = events.len() as int;
            let command = cleanup_run(cleanup_of(config), events).command();
            &&& k == 0 ==> command == Some(policy_rule_view(Change::Delete))
            &&& 1 <= k <= n ==> command == Some(
                linux_route_view(
                    Change::Delete,
                    cidr_text(config.routes@[n - k])->0,
                    config.gateway,
                    config.interface@,
                ),
            )
            &&& k == n + 1 ==> command == Some(revert_dns_view(config.interface@))
            &&& k > n + 1 ==> command is None
        }),
{
    lemma_cleanup_position(config, events);
}

/// The removal goes well exactly if every command does; that there was no policy rule to remove
/// is no failure.
pub proof fn cleanup_fails_for_a_reason(config: LinuxNetworkConfig, events: Seq<CommandEvent>)
    requires
        forall|i: int|
            0 <= i < config.routes@.len() ==> cidr_text(#[trigger] config.routes@[i]) is Some,
        events.len() <= config.routes@.len() + 2,
    ensures
        cleanup_run(cleanup_of(config), events).failure is None <==> forall|i: int|
            0 <= i < events.len() ==> succeeded(#[trigger] events[i]) || (i == 0 && found_nothing(
                events[i],
            )),
    decreases events.len(),
{
    if events.len() > 0 {
        let front = events.drop_last();
        let n = config.routes@.len() as int;
        let k = front.len() as int;
        cleanup_fails_for_a_reason(config, front);
        lemma_cleanup_position(config, front);
        let before = cleanup_run(cleanup_of(config), front);
        if 1 <= k + 1 <= n {
            assert(cidr_text(config.routes@[n - (k + 1)]) is Some);
        }
        assert(cleanup_run(cleanup_of(config), events).failure is None <==> before.failure is None
            && (succeeded(events[k]) || (k == 0 && found_nothing(events[k]))));
        assert(forall|i: int| 0 <= i < k ==> front[i] == #[trigger] events[i]);
        if before.failure is None {
            assert forall|i: int| 0 <= i < k implies succeeded(#[trigger] events[i]) || (i == 0
                && found_nothing(events[i])) by {
                assert(succeeded(front[i]) || (i == 0 && found_nothing(front[i])));
            }
        } else {
            let i = choose|i: int|
                0 <= i < k && !(succeeded(#[trigger] front[i]) || (i == 0 && found_nothing(
                    front[i],
                )));
            assert(!(succeeded(events[i]) || (i == 0 && found_nothing(events[i]))));
        }
    }
}

/// What went wrong first is what the removal comes to; what goes wrong later does not change it.
/// Its last message is the cause, or has in it what the command wrote, unless it is about a route
/// with a mask that has gaps.
pub proof fn first_failure_of_a_cleanup_stays(cleanup: CleanupView, event: CommandEvent)
    requires
        cleanup.wf(),
    ensures
        cleanup.failure is Some ==> cleanup.after(event).failure == cleanup.failure,
        cleanup.failure is None && cleanup.after(event).failure is Some ==> {
            let messages = cleanup.after(event).failure->0;
            ||| messages.len() > 0 && (match event {
                CommandEvent::NotRun(cause) => messages.last() == cause@,
                CommandEvent::Finished(output) => !output.success && occurs(
                    lossy_text(output.stderr@),
                    messages.last(),
                ),
            }) && (cleanup.phase == CleanupPhase::RemovingRoute ==> messages[0] == route_context(
                Change::Delete,
                cidr_text(cleanup.routes[cleanup.left - 1])->0,
                cleanup.gateway,
            ))
            ||| exists|i: int|
                0 <= i < cleanup.left && cidr_text(#[trigger] cleanup.routes[i]) is None
                    && messages == gap_message(cleanup.routes[i])
        },
{
    if cleanup.command() is Some {
        failed_commands_are_reported(cleanup.command()->0, event);
        missing_rule_is_no_failure(
            event,
            "failed to inspect/remove the CCZU policy rule"@,
            "ip failed while removing the CCZU policy rule: "@,
        );
        if cleanup.phase == CleanupPhase::RemovingPolicy {
            if let CommandEvent::Finished(output) = event {
                let a = "ip failed while removing the CCZU policy rule: "@;
                lemma_ends_with(a, lossy_text(output.stderr@));
            }
            let next = CleanupView { phase: CleanupPhase::RemovingRoute, ..cleanup };
            let noted = match policy_removal_fault(event) {
                Some(m) => next.noted(m),
                None => next,
            };
            routes_with_gaps_are_passed_over(noted);
        } else if cleanup.phase == CleanupPhase::RemovingRoute {
            let next = CleanupView { left: cleanup.left - 1, ..cleanup };
            let noted = match command_fault(cleanup.command()->0, event) {
                Some(m) => next.noted(
                    seq![
                        route_context(
                            Change::Delete,
                            cidr_text(cleanup.routes[cleanup.left - 1])->0,
                            cleanup.gateway,
                        ),
                    ] + m,
                ),
                None => next,
            };
            routes_with_gaps_are_passed_over(noted);
        }
    }
}

/// Routes with a mask that has gaps are passed over, and only these: they were never in place.
/// The first one that is met is a failure, if nothing failed before.
pub proof fn routes_with_gaps_are_passed_over(cleanup: CleanupView)
    requires
        cleanup.phase == CleanupPhase::RemovingRoute,
        0 <= cleanup.left <= cleanup.routes.len(),
    ensures
        ({
            let settled = cleanup.settled();
            &&& 0 <= settled.left <= cleanup.left
            &&& forall|i: int|
                settled.left <= i < cleanup.left ==> cidr_text(#[trigger] cleanup.routes[i]) is None
            &&& settled.left > 0 ==> settled.phase == CleanupPhase::RemovingRoute && cidr_text(
                cleanup.routes[settled.left - 1],
            ) is Some
            &&& settled.left == 0 ==> settled.phase == CleanupPhase::RevertingDns
            &&& settled.failure == (if cleanup.failure is Some || settled.left == cleanup.left {
                cleanup.failure
            } else {
                Some(gap_message(cleanup.routes[cleanup.left - 1]))
            })
            &&& settled.routes == cleanup.routes
            &&& settled.gateway == cleanup.gateway
            &&& settled.interface == cleanup.interface
        }),
    decreases cleanup.left,
{
    if cleanup.left > 0 && cidr_text(cleanup.routes[cleanup.left - 1]) is None {
        routes_with_gaps_are_passed_over(
            (CleanupView { left: cleanup.left - 1, ..cleanup }).noted(
                gap_message(cleanup.routes[cleanup.left - 1]),
            ),
        );
    }
}

/// What a setup has put in place is what its configuration says, and what is removed with it: once
/// the removal is done nothing of it is left, whatever the commands came to. Routes are removed
/// through the gateway and the interface that they were added through.
pub proof fn what_was_put_in_place_is_removed(
    plan: LinuxPlan,
    events: Seq<CommandEvent>,
    config: LinuxNetworkConfig,
    removals: Seq<CommandEvent>,
)
    requires
        setup_run(setup_of(plan), events).phase == SetupPhase::Active,
        is_config_of(config, setup_run(setup_of(plan), events)),
        removals.len() == plan.routes@.len() + 2,
    ensures
        config.active,
        config.interface@ == plan.interface@,
        config.gateway == plan.gateway,
        left_in_place(config, Seq::empty()) == in_place_run(setup_of(plan), events),
        left_in_place(config, removals) == nothing(),
        cleanup_run(cleanup_of(config), removals).command() is None,
{
    active_setup_is_complete(plan, events);
    setup_knows_what_is_in_place(plan, events);
    lemma_setup_keeps_plan(plan, events);
    let setup = setup_run(setup_of(plan), events);
    assert forall|i: int| 0 <= i < config.routes@.len() implies cidr_text(
        #[trigger] config.routes@[i],
    ) is Some by {
        assert(cidr_text(setup.routes[i]) is Some);
    }
    lemma_cleanup_position(config, removals);
    finished_cleanup_leaves_nothing(config, removals);
}

} // verus!
