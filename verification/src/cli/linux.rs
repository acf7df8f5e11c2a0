//! The network configuration of a tunnel under Linux: how it is put in place, how it is taken
//! back when a step fails, and how it is removed in the end.

use vstd::prelude::*;
use crate::address_laws::ip_text_reads_back;
use crate::cli::command_laws::{failed_commands_are_reported, lemma_ends_with};
use crate::cli::commands::{
    cidr_text, command_fault, did_remove, judge_removal, linux_route_command, linux_route_view,
    lossy_text, policy_rule_command, policy_rule_view, removal_fault, revert_dns_command,
    revert_dns_view, route_cidr, run_linux_command, set_dns_command, set_dns_view,
    set_domain_command, set_domain_view, Change, CommandEvent, CommandLine, CommandView, Removal,
};
use crate::cli::plan::{
    is_planned, is_selection, linux_candidates, linux_fault, plan_linux_network, rule_routes,
    server_local_route, LinuxPlan, PlanError,
};
use crate::cli::routes::{RouteErrorView, WindowsRoute};
use crate::failure::{maybe_failure, Failure};
use crate::net::{
    ip_text, ip_value, ipv4_text, ipv4_value, maybe_address, IpAddr, IpAddrView, Ipv4Addr,
};
use crate::text::occurs;
use crate::types::{ProxyServer, ProxyServerView};

verus! {

/// What is being done to put a network configuration in place, or to take it back.
#[derive(Debug, Clone, Copy, PartialEq, Eq, Structural)]
pub enum SetupPhase {
    /// The next route is added.
    AddingRoute,
    /// The interface is given its DNS server.
    SettingDns,
    /// The interface is given its domain.
    SettingDomain,
    /// Policy rules that an earlier run left behind are removed.
    ClearingPolicy,
    /// The policy rule is added.
    AddingPolicy,
    /// Everything is in place.
    Active,
    /// A step failed: the DNS configuration is taken back.
    RevertingDns,
    /// A step failed: the last route that was added is removed.
    RemovingRoute,
    /// A step failed, and what was done before it is taken back.
    Failed,
}

/// A network configuration on its way to being in place.
#[derive(Debug)]
pub struct LinuxSetup {
    pub plan: LinuxPlan,
    /// The number of routes that are in place, counted from the front.
    pub installed: usize,
    pub phase: SetupPhase,
    pub failure: Option<Failure>,
}

/// A [`LinuxSetup`] in terms of sequences.
#[verifier::ext_equal]
pub struct SetupView {
    pub interface: Seq<char>,
    pub gateway: Ipv4Addr,
    pub routes: Seq<WindowsRoute>,
    pub dns: IpAddrView,
    pub skipped: int,
    pub installed: int,
    pub phase: SetupPhase,
    pub failure: Option<Seq<Seq<char>>>,
}

impl View for LinuxSetup {
    type V = SetupView;

    open spec fn view(&self) -> SetupView {
        SetupView {
            interface: self.plan.interface@,
            gateway: self.plan.gateway,
            routes: self.plan.routes@,
            dns: self.plan.dns@,
            skipped: self.plan.skipped as int,
            installed: self.installed as int,
            phase: self.phase,
            failure: maybe_failure(self.failure),
        }
    }
}

/// What is said when a route with a mask that has gaps is met.
pub open spec fn gap_message(route: WindowsRoute) -> Seq<Seq<char>> {
    seq![RouteErrorView::NonContiguousNetmask(route.netmask).message()]
}

/// What is said when a route cannot be added or removed.
pub open spec fn route_context(
    change: Change,
    destination: Seq<char>,
    gateway: Ipv4Addr,
) -> Seq<char> {
    (match change {
        Change::Add => "failed to add split-tunnel route "@,
        Change::Delete => "failed to delete split-tunnel route "@,
    }) + destination + " via "@ + ipv4_text(gateway)
}

pub(crate) fn route_context_text(
    change: Change,
    destination: &str,
    gateway: Ipv4Addr,
) -> (r: String)
    ensures
        r@ == route_context(change, destination@, gateway),
{
    let mut out = match change {
        Change::Add => String::from_str("failed to add split-tunnel route "),
        Change::Delete => String::from_str("failed to delete split-tunnel route "),
    };
    out.append(destination);
    out.append(" via ");
    gateway.push_text(&mut out);
    out
}

/// What is said when the policy rule cannot be removed.
pub open spec fn policy_removal_fault(event: CommandEvent) -> Option<Seq<Seq<char>>> {
    removal_fault(
        event,
        "failed to inspect/remove the CCZU policy rule"@,
        "ip failed while removing the CCZU policy rule: "@,
    )
}

/// What became of the removal of the policy rule.
pub fn delete_linux_policy_rule_if_present(event: &CommandEvent) -> (r: Removal)
    ensures
        match policy_removal_fault(*event) {
            Some(messages) => r matches Removal::Failed(f) && f@ == messages,
            None => if did_remove(*event) {
                r is Removed
            } else {
                r is Absent
            },
        },
{
    judge_removal(
        event,
        "failed to inspect/remove the CCZU policy rule",
        "ip failed while removing the CCZU policy rule: ",
    )
}

impl SetupView {
    /// A step failed; the routes are next to be removed, as far as there are any.
    pub open spec fn unwound(self) -> SetupView {
        SetupView {
            phase: if self.installed == 0 {
                SetupPhase::Failed
            } else {
                SetupPhase::RemovingRoute
            },
            ..self
        }
    }

    /// What follows without a command: from the last route to DNS, and from a route with a
    /// mask that has gaps to failure.
    pub open spec fn settled(self) -> SetupView {
        if self.phase != SetupPhase::AddingRoute {
            self
        } else if self.installed >= self.routes.len() {
            SetupView { phase: SetupPhase::SettingDns, ..self }
        } else if cidr_text(self.routes[self.installed]) is None {
            (SetupView {
                failure: Some(gap_message(self.routes[self.installed])),
                ..self
            }).unwound()
        } else {
            self
        }
    }

    /// The command that is to be run next.
    pub open spec fn command(self) -> Option<CommandView> {
        match self.phase {
            SetupPhase::AddingRoute => Some(
                linux_route_view(
                    Change::Add,
                    cidr_text(self.routes[self.installed])->0,
                    self.gateway,
                    self.interface,
                ),
            ),
            SetupPhase::SettingDns => Some(set_dns_view(self.interface, ip_text(self.dns))),
            SetupPhase::SettingDomain => Some(set_domain_view(self.interface)),
            SetupPhase::ClearingPolicy => Some(policy_rule_view(Change::Delete)),
            SetupPhase::AddingPolicy => Some(policy_rule_view(Change::Add)),
            SetupPhase::RevertingDns => Some(revert_dns_view(self.interface)),
            SetupPhase::RemovingRoute => Some(
                linux_route_view(
                    Change::Delete,
                    cidr_text(self.routes[self.installed - 1])->0,
                    self.gateway,
                    self.interface,
                ),
            ),
            SetupPhase::Active | SetupPhase::Failed => None,
        }
    }

    /// The state when the command of this state has come to `event`.
    pub open spec fn after(self, event: CommandEvent) -> SetupView {
        let fault = match self.command() {
            Some(command) => command_fault(command, event),
            None => None,
        };
        match self.phase {
            SetupPhase::AddingRoute => match fault {
                None => (SetupView { installed: self.installed + 1, ..self }).settled(),
                Some(m) => (SetupView {
                    failure: Some(
                        seq![
                            route_context(
                                Change::Add,
                                cidr_text(self.routes[self.installed])->0,
                                self.gateway,
                            ),
                        ] + m,
                    ),
                    ..self
                }).unwound(),
            },
            SetupPhase::SettingDns => match fault {
                None => SetupView { phase: SetupPhase::SettingDomain, ..self },
                Some(m) => (SetupView { failure: Some(m), ..self }).unwound(),
            },
            SetupPhase::SettingDomain => match fault {
                None => SetupView { phase: SetupPhase::ClearingPolicy, ..self },
                Some(m) => SetupView {
                    phase: SetupPhase::RevertingDns,
                    failure: Some(
                        seq!["failed to route CCZU DNS queries through the VPN interface"@] + m,
                    ),
                    ..self
                },
            },
            SetupPhase::ClearingPolicy => match policy_removal_fault(event) {
                Some(m) => SetupView {
                    phase: SetupPhase::RevertingDns,
                    failure: Some(m),
                    ..self
                },
                None => if did_remove(event) {
                    self
                } else {
                    SetupView { phase: SetupPhase::AddingPolicy, ..self }
                },
            },
            SetupPhase::AddingPolicy => match fault {
                None => SetupView { phase: SetupPhase::Active, ..self },
                Some(m) => SetupView {
                    phase: SetupPhase::RevertingDns,
                    failure: Some(seq!["failed to install the CCZU VPN policy rule"@] + m),
                    ..self
                },
            },
            SetupPhase::RevertingDns => self.unwound(),
            SetupPhase::RemovingRoute => (SetupView {
                installed: self.installed - 1,
                ..self
            }).unwound(),
            SetupPhase::Active | SetupPhase::Failed => self,
        }
    }

    /// What holds in every phase.
    pub open spec fn wf(self) -> bool {
        &&& 0 <= self.installed <= self.routes.len()
        &&& forall|i: int|
            0 <= i < self.installed ==> cidr_text(#[trigger] self.routes[i]) is Some
        &&& self.failure is Some <==> (self.phase == SetupPhase::RevertingDns || self.phase
            == SetupPhase::RemovingRoute || self.phase == SetupPhase::Failed)
        &&& match self.phase {
            SetupPhase::AddingRoute => self.installed < self.routes.len() && cidr_text(
                self.routes[self.installed],
            ) is Some,
            SetupPhase::RemovingRoute => self.installed > 0,
            SetupPhase::Failed => self.installed == 0,
            _ => self.installed == self.routes.len(),
        }
    }
}

/// The first state of a plan.
pub open spec fn setup_of(plan: LinuxPlan) -> SetupView {
    (SetupView {
        interface: plan.interface@,
        gateway: plan.gateway,
        routes: plan.routes@,
        dns: plan.dns@,
        skipped: plan.skipped as int,
        installed: 0,
        phase: SetupPhase::AddingRoute,
        failure: None,
    }).settled()
}

impl LinuxSetup {
    /// Starts to put a plan in place.
    pub fn new(plan: LinuxPlan) -> (r: Self)
        ensures
            r@ == setup_of(plan),
            r.plan == plan,
            r@.wf(),
    {
        let mut setup = LinuxSetup {
            plan,
            installed: 0,
            phase: SetupPhase::AddingRoute,
            failure: None,
        };
        setup.settle();
        setup
    }

    fn unwind(&mut self)
        ensures
            final(self)@ == old(self)@.unwound(),
            final(self).plan == old(self).plan,
    {
        if self.installed == 0 {
            self.phase = SetupPhase::Failed;
        } else {
            self.phase = SetupPhase::RemovingRoute;
        }
    }

    fn settle(&mut self)
        ensures
            final(self)@ == old(self)@.settled(),
            final(self).plan == old(self).plan,
    {
        if self.phase != SetupPhase::AddingRoute {
            return;
        }
        if self.installed >= self.plan.routes.len() {
            self.phase = SetupPhase::SettingDns;
            return;
        }
        if let Err(e) = route_cidr(self.plan.routes[self.installed]) {
            self.failure = Some(Failure::new(e.message()));
            self.unwind();
        }
    }

    fn route_command(&self, change: Change, index: usize) -> (r: CommandLine)
        requires
            index < self.plan.routes@.len(),
            cidr_text(self.plan.routes@[index as int]) is Some,
        ensures
            r@ == linux_route_view(
                change,
                cidr_text(self.plan.routes@[index as int])->0,
                self.plan.gateway,
                self.plan.interface@,
            ),
    {
        match route_cidr(self.plan.routes[index]) {
            Ok(destination) => linux_route_command(
                change,
                &destination,
                self.plan.gateway,
                &self.plan.interface,
            ),
            Err(_) => linux_route_command(change, "", self.plan.gateway, &self.plan.interface),
        }
    }

    /// The command that is to be run next; none once all is in place or taken back.
    pub fn command(&self) -> (r: Option<CommandLine>)
        requires
            self@.wf(),
        ensures
            match self@.command() {
                Some(view) => r matches Some(c) && c@ == view,
                None => r is None,
            },
    {
        match self.phase {
            SetupPhase::AddingRoute => Some(self.route_command(Change::Add, self.installed)),
            SetupPhase::SettingDns => {
                let dns = self.plan.dns.text();
                Some(set_dns_command(&self.plan.interface, &dns))
            },
            SetupPhase::SettingDomain => Some(set_domain_command(&self.plan.interface)),
            SetupPhase::ClearingPolicy => Some(policy_rule_command(Change::Delete)),
            SetupPhase::AddingPolicy => Some(policy_rule_command(Change::Add)),
            SetupPhase::RevertingDns => Some(revert_dns_command(&self.plan.interface)),
            SetupPhase::RemovingRoute => Some(
                self.route_command(Change::Delete, self.installed - 1),
            ),
            SetupPhase::Active | SetupPhase::Failed => None,
        }
    }

    /// Takes note of what became of the command.
    pub fn observe(&mut self, event: &CommandEvent)
        requires
            old(self)@.wf(),
        ensures
            final(self)@ == old(self)@.after(*event),
            final(self)@.wf(),
    {
        let ghost before = self@;
        match self.phase {
            SetupPhase::AddingRoute => {
                let command = self.route_command(Change::Add, self.installed);
                match run_linux_command(&command, event) {
                    Ok(()) => {
                        assert(self.installed < self.plan.routes.len());
                        self.installed += 1;
                        self.settle();
                    },
                    Err(f) => {
                        if let Ok(destination) = route_cidr(self.plan.routes[self.installed]) {
                            let text = route_context_text(
                                Change::Add,
                                &destination,
                                self.plan.gateway,
                            );
                            self.failure = Some(f.context(text));
                        }
                        self.unwind();
                    },
                }
            },
            SetupPhase::SettingDns => {
                let dns = self.plan.dns.text();
                let command = set_dns_command(&self.plan.interface, &dns);
                match run_linux_command(&command, event) {
                    Ok(()) => {
                        self.phase = SetupPhase::SettingDomain;
                    },
                    Err(f) => {
                        self.failure = Some(f);
                        self.unwind();
                    },
                }
            },
            SetupPhase::SettingDomain => {
                let command = set_domain_command(&self.plan.interface);
                match run_linux_command(&command, event) {
                    Ok(()) => {
                        self.phase = SetupPhase::ClearingPolicy;
                    },
                    Err(f) => {
                        self.failure = Some(
                            f.context(
                                String::from_str(
                                    "failed to route CCZU DNS queries through the VPN interface",
                                ),
                            ),
                        );
                        self.phase = SetupPhase::RevertingDns;
                    },
                }
            },
            SetupPhase::ClearingPolicy => {
                match delete_linux_policy_rule_if_present(event) {
                    Removal::Removed => {},
                    Removal::Absent => {
                        self.phase = SetupPhase::AddingPolicy;
                    },
                    Removal::Failed(f) => {
                        self.failure = Some(f);
                        self.phase = SetupPhase::RevertingDns;
                    },
                }
            },
            SetupPhase::AddingPolicy => {
                let command = policy_rule_command(Change::Add);
                match run_linux_command(&command, event) {
                    Ok(()) => {
                        self.phase = SetupPhase::Active;
                    },
                    Err(f) => {
                        self.failure = Some(
                            f.context(
                                String::from_str("failed to install the CCZU VPN policy rule"),
                            ),
                        );
                        self.phase = SetupPhase::RevertingDns;
                    },
                }
            },
            SetupPhase::RevertingDns => {
                self.unwind();
            },
            SetupPhase::RemovingRoute => {
                self.installed -= 1;
                self.unwind();
            },
            SetupPhase::Active | SetupPhase::Failed => {},
        }
    }
}

/// A network configuration that is in place, or was.
#[derive(Debug)]
pub struct LinuxNetworkConfig {
    pub interface: String,
    pub gateway: Ipv4Addr,
    pub routes: Vec<WindowsRoute>,
    /// It was not removed yet.
    pub active: bool,
}

/// `config` is the configuration that a setup has put in place, and it was not removed yet.
pub open spec fn is_config_of(config: LinuxNetworkConfig, setup: SetupView) -> bool {
    &&& config.interface@ == setup.interface
    &&& config.gateway == setup.gateway
    &&& config.routes@ == setup.routes
    &&& config.active
}

impl LinuxSetup {
    /// The configuration, once it is in place, or why it is not.
    pub fn finish(self) -> (r: Result<LinuxNetworkConfig, Failure>)
        requires
            self@.wf(),
            self@.command() is None,
        ensures
            match self@.failure {
                Some(messages) => r matches Err(f) && f@ == messages,
                None => {
                    &&& r matches Ok(config)
                    &&& config.interface@ == self@.interface
                    &&& config.gateway == self@.gateway
                    &&& config.routes@ == self@.routes
                    &&& config.active
                    &&& is_config_of(config, self@)
                    &&& forall|i: int|
                        0 <= i < config.routes@.len() ==> cidr_text(#[trigger] config.routes@[i])
                            is Some
                },
            },
    {
        match self.failure {
            Some(f) => Err(f),
            None => Ok(
                LinuxNetworkConfig {
                    interface: self.plan.interface,
                    gateway: self.plan.gateway,
                    routes: self.plan.routes,
                    active: true,
                },
            ),
        }
    }
}

/// Starts to put in place the network configuration that `server` asks for.
pub fn configure_linux_network(
    interface: String,
    server: &ProxyServer,
    peer: Option<IpAddr>,
) -> (r: Result<LinuxSetup, PlanError>)
    ensures
        match linux_fault(server@) {
            Some(e) => r matches Err(x) && x@ == e,
            None => {
                &&& r matches Ok(setup)
                &&& setup@ == setup_of(setup.plan)
                &&& setup@.wf()
                &&& setup@.interface == interface@
                &&& setup@.gateway == ipv4_value(server@.gateway)->0
                &&& is_selection(
                    setup@.routes,
                    linux_candidates(server@),
                    server_local_route(server@),
                    maybe_address(peer),
                )
                &&& forall|route: WindowsRoute| #[trigger]
                    setup@.routes.contains(route) <==> is_planned(
                        route,
                        server@,
                        maybe_address(peer),
                        true,
                    )
                &&& Some(setup@.dns) == ip_value(server@.dns)
                &&& setup.plan.skipped == server@.split_tunnel_routes.len() - rule_routes(
                    server@.split_tunnel_routes,
                )->Ok_0.len()
            },
        },
{
    match plan_linux_network(interface, server, peer) {
        Ok(plan) => Ok(LinuxSetup::new(plan)),
        Err(e) => Err(e),
    }
}

/// What the client has in place in the system. A route or a DNS configuration counts as gone
/// once its removal was asked for.
#[verifier::ext_equal]
pub struct InPlace {
    pub routes: Seq<WindowsRoute>,
    pub dns: bool,
    pub policy: bool,
}

/// Nothing is in place.
pub open spec fn nothing() -> InPlace {
    InPlace { routes: Seq::empty(), dns: false, policy: false }
}

/// What the command of the state `setup` does to the system, if it comes to `event`.
pub open spec fn in_place_after(p: InPlace, setup: SetupView, event: CommandEvent) -> InPlace {
    let done = setup.command() matches Some(c) && command_fault(c, event) is None;
    match setup.phase {
        SetupPhase::AddingRoute if done => InPlace {
            routes: p.routes.push(setup.routes[setup.installed]),
            ..p
        },
        SetupPhase::RemovingRoute => InPlace { routes: p.routes.drop_last(), ..p },
        SetupPhase::SettingDns if done => InPlace { dns: true, ..p },
        SetupPhase::RevertingDns => InPlace { dns: false, ..p },
        SetupPhase::AddingPolicy if done => InPlace { policy: true, ..p },
        _ => p,
    }
}

/// The state when the commands have come to `events`, one after the other.
pub open spec fn setup_run(start: SetupView, events: Seq<CommandEvent>) -> SetupView
    decreases events.len(),
{
    if events.len() == 0 {
        start
    } else {
        setup_run(start, events.drop_last()).after(events.last())
    }
}

/// What is in place then, if nothing was before.
pub open spec fn in_place_run(start: SetupView, events: Seq<CommandEvent>) -> InPlace
    decreases events.len(),
{
    if events.len() == 0 {
        nothing()
    } else {
        in_place_after(
            in_place_run(start, events.drop_last()),
            setup_run(start, events.drop_last()),
            events.last(),
        )
    }
}

/// The phases in which the interface has a DNS configuration.
pub open spec fn has_dns(phase: SetupPhase) -> bool {
    phase == SetupPhase::SettingDomain || phase == SetupPhase::ClearingPolicy || phase
        == SetupPhase::AddingPolicy || phase == SetupPhase::Active || phase
        == SetupPhase::RevertingDns
}

/// What a setup takes to be in place.
pub open spec fn recorded(setup: SetupView) -> InPlace {
    InPlace {
        routes: setup.routes.take(setup.installed),
        dns: has_dns(setup.phase),
        policy: setup.phase == SetupPhase::Active,
    }
}

proof fn lemma_step_is_recorded(setup: SetupView, event: CommandEvent)
    requires
        setup.wf(),
    ensures
        setup.after(event).wf(),
        setup.after(event).routes == setup.routes,
        in_place_after(recorded(setup), setup, event) == recorded(setup.after(event)),
{
    let after = setup.after(event);
    if setup.phase == SetupPhase::AddingRoute {
        assert(setup.routes.take(setup.installed + 1) =~= setup.routes.take(setup.installed).push(
            setup.routes[setup.installed],
        ));
    } else if setup.phase == SetupPhase::RemovingRoute {
        assert(setup.routes.take(setup.installed).drop_last() =~= setup.routes.take(
            setup.installed - 1,
        ));
    }
    assert(in_place_after(recorded(setup), setup, event).routes =~= recorded(after).routes);
}

/// Whatever the commands come to, the setup knows what is in place.
pub proof fn setup_knows_what_is_in_place(plan: LinuxPlan, events: Seq<CommandEvent>)
    ensures
        setup_run(setup_of(plan), events).wf(),
        setup_run(setup_of(plan), events).routes == plan.routes@,
        in_place_run(setup_of(plan), events) == recorded(setup_run(setup_of(plan), events)),
    decreases events.len(),
{
    let start = setup_of(plan);
    if events.len() == 0 {
        assert(start.routes.take(0) =~= Seq::<WindowsRoute>::empty());
    } else {
        setup_knows_what_is_in_place(plan, events.drop_last());
        lemma_step_is_recorded(setup_run(start, events.drop_last()), events.last());
    }
}

/// A setup that fails has taken back everything that it had put in place.
pub proof fn failed_setup_leaves_nothing(plan: LinuxPlan, events: Seq<CommandEvent>)
    requires
        setup_run(setup_of(plan), events).phase == SetupPhase::Failed,
    ensures
        in_place_run(setup_of(plan), events) == nothing(),
{
    setup_knows_what_is_in_place(plan, events);
    assert(in_place_run(setup_of(plan), events).routes =~= Seq::<WindowsRoute>::empty());
}

/// A setup that succeeds has put in place every route of the plan, DNS and the policy rule.
pub proof fn active_setup_is_complete(plan: LinuxPlan, events: Seq<CommandEvent>)
    requires
        setup_run(setup_of(plan), events).phase == SetupPhase::Active,
    ensures
        in_place_run(setup_of(plan), events) == (InPlace {
            routes: plan.routes@,
            dns: true,
            policy: true,
        }),
{
    setup_knows_what_is_in_place(plan, events);
    assert(plan.routes@.take(plan.routes@.len() as int) =~= plan.routes@);
}

/// An upper bound for the number of commands that are still to come, apart from those that
/// find and remove a policy rule of an earlier run.
pub open spec fn commands_left(setup: SetupView) -> int {
    let n = setup.routes.len() as int;
    match setup.phase {
        SetupPhase::AddingRoute => (n - setup.installed) + n + 5,
        SetupPhase::SettingDns => n + 5,
        SetupPhase::SettingDomain => n + 4,
        SetupPhase::ClearingPolicy => n + 3,
        SetupPhase::AddingPolicy => n + 2,
        SetupPhase::RevertingDns => n + 1,
        SetupPhase::RemovingRoute => setup.installed,
        SetupPhase::Active | SetupPhase::Failed => 0,
    }
}

/// Every command brings a setup nearer to its end, unless it removed a policy rule of an
/// earlier run.
pub proof fn setup_makes_progress(setup: SetupView, event: CommandEvent)
    requires
        setup.wf(),
        setup.command() is Some,
        !(setup.phase == SetupPhase::ClearingPolicy && did_remove(event)),
    ensures
        0 <= commands_left(setup.after(event)) < commands_left(setup),
{
}

/// The interface is given the DNS server that the portal named: the argument of the command
/// spells the same address, in its canonical form.
pub proof fn dns_command_names_the_server(server: ProxyServerView, setup: SetupView)
    requires
        Some(setup.dns) == ip_value(server.dns),
        setup.phase == SetupPhase::SettingDns,
    ensures
        setup.command() matches Some(c) && c.args.len() == 3 && ip_value(c.args[2]) == ip_value(
            server.dns,
        ),
{
    ip_text_reads_back(setup.dns);
}

/// The command of a setup went well: it did not fail, or it was to remove a policy rule and
/// there is none.
pub open spec fn went_well(setup: SetupView, event: CommandEvent) -> bool {
    match setup.command() {
        None => true,
        Some(command) => if setup.phase == SetupPhase::ClearingPolicy {
            policy_removal_fault(event) is None
        } else {
            command_fault(command, event) is None
        },
    }
}

/// All commands of a setup went well.
pub open spec fn all_went_well(start: SetupView, events: Seq<CommandEvent>) -> bool
    decreases events.len(),
{
    events.len() == 0 || (all_went_well(start, events.drop_last()) && went_well(
        setup_run(start, events.drop_last()),
        events.last(),
    ))
}

/// A setup does not fail without a reason: if no mask has gaps, and as long as no command
/// fails, nothing is taken back.
pub proof fn setup_fails_for_a_reason(plan: LinuxPlan, events: Seq<CommandEvent>)
    requires
        forall|i: int|
            0 <= i < plan.routes@.len() ==> cidr_text(#[trigger] plan.routes@[i]) is Some,
        all_went_well(setup_of(plan), events),
    ensures
        setup_run(setup_of(plan), events).failure is None,
    decreases events.len(),
{
    if events.len() > 0 {
        setup_fails_for_a_reason(plan, events.drop_last());
        setup_knows_what_is_in_place(plan, events.drop_last());
        let before = setup_run(setup_of(plan), events.drop_last());
        if before.phase == SetupPhase::AddingRoute && before.installed + 1 < before.routes.len() {
            assert(cidr_text(plan.routes@[before.installed + 1]) is Some);
        }
    }
}

/// The command has ended with success.
pub open spec fn succeeded(event: CommandEvent) -> bool {
    event matches CommandEvent::Finished(output) && output.success
}

/// All of the commands have ended with success.
pub open spec fn all_succeeded(events: Seq<CommandEvent>) -> bool {
    forall|i: int| 0 <= i < events.len() ==> succeeded(#[trigger] events[i])
}

/// The command has ended without success, and says that what it was to remove is not there.
pub open spec fn found_nothing(event: CommandEvent) -> bool {
    event matches CommandEvent::Finished(output) && !output.success && occurs(
        "No such file"@,
        lossy_text(output.stderr@),
    )
}

/// No route of the plan has a mask with gaps.
pub open spec fn has_no_gaps(plan: LinuxPlan) -> bool {
    forall|i: int| 0 <= i < plan.routes@.len() ==> cidr_text(#[trigger] plan.routes@[i]) is Some
}

/// As long as all goes well, the routes of the plan are added one by one, in order, through the
/// gateway and the interface of the plan, and behind the last one comes the DNS server.
pub proof fn routes_are_added_in_order(plan: LinuxPlan, events: Seq<CommandEvent>)
    requires
        has_no_gaps(plan),
        all_succeeded(events),
        events.len() <= plan.routes@.len(),
    ensures
        ({
            let n = events.len() as int;
            let setup = setup_run(setup_of(plan), events);
            &&& setup.failure is None
            &&& setup.command() == Some(
                if n < plan.routes@.len() {
                    linux_route_view(
                        Change::Add,
                        cidr_text(plan.routes@[n])->0,
                        plan.gateway,
                        plan.interface@,
                    )
                } else {
                    set_dns_view(plan.interface@, ip_text(plan.dns@))
                },
            )
        }),
{
    lemma_routes_are_added(plan, events);
}

proof fn lemma_routes_are_added(plan: LinuxPlan, events: Seq<CommandEvent>)
    requires
        has_no_gaps(plan),
        all_succeeded(events),
        events.len() <= plan.routes@.len(),
    ensures
        setup_run(setup_of(plan), events) == (SetupView {
            interface: plan.interface@,
            gateway: plan.gateway,
            routes: plan.routes@,
            dns: plan.dns@,
            skipped: plan.skipped as int,
            installed: events.len() as int,
            phase: if events.len() < plan.routes@.len() {
                SetupPhase::AddingRoute
            } else {
                SetupPhase::SettingDns
            },
            failure: None,
        }),
    decreases events.len(),
{
    let n = events.len() as int;
    if n < plan.routes@.len() {
        assert(cidr_text(plan.routes@[n]) is Some);
    }
    if n > 0 {
        let front = events.drop_last();
        assert forall|i: int| 0 <= i < front.len() implies succeeded(#[trigger] front[i]) by {
            assert(front[i] == events[i]);
        }
        lemma_routes_are_added(plan, front);
        assert(succeeded(events[n - 1]));
        assert(cidr_text(plan.routes@[n - 1]) is Some);
    }
}

/// Behind the routes come the DNS server and the domain; then the policy rules that earlier runs
/// left behind are removed, however many there are, until there is none; then the policy rule is
/// added, and all is in place.
pub proof fn dns_and_policy_follow_the_routes(
    plan: LinuxPlan,
    routes: Seq<CommandEvent>,
    dns: CommandEvent,
    domain: CommandEvent,
    stale: Seq<CommandEvent>,
    none: CommandEvent,
    policy: CommandEvent,
)
    requires
        has_no_gaps(plan),
        all_succeeded(routes),
        routes.len() == plan.routes@.len(),
        succeeded(dns),
        succeeded(domain),
        all_succeeded(stale),
        found_nothing(none),
        succeeded(policy),
    ensures
        ({
            let start = setup_of(plan);
            let named = routes.push(dns).push(domain);
            let last = (named + stale).push(none).push(policy);
            &&& setup_run(start, routes.push(dns)).command() == Some(
                set_domain_view(plan.interface@),
            )
            &&& setup_run(start, named + stale).command() == Some(policy_rule_view(Change::Delete))
            &&& setup_run(start, (named + stale).push(none)).command() == Some(
                policy_rule_view(Change::Add),
            )
            &&& setup_run(start, last).command() is None
            &&& setup_run(start, last).phase == SetupPhase::Active
            &&& setup_run(start, last).failure is None
        }),
{
    let start = setup_of(plan);
    lemma_routes_are_added(plan, routes);
    lemma_setup_step(start, routes, dns);
    lemma_setup_step(start, routes.push(dns), domain);
    let named = routes.push(dns).push(domain);
    lemma_stale_rules(start, named, stale);
    lemma_setup_step(start, named + stale, none);
    lemma_setup_step(start, (named + stale).push(none), policy);
}

proof fn lemma_setup_step(start: SetupView, events: Seq<CommandEvent>, event: CommandEvent)
    ensures
        setup_run(start, events.push(event)) == setup_run(start, events).after(event),
{
    assert(events.push(event).drop_last() =~= events);
}

proof fn lemma_stale_rules(start: SetupView, before: Seq<CommandEvent>, stale: Seq<CommandEvent>)
    requires
        setup_run(start, before).phase == SetupPhase::ClearingPolicy,
        all_succeeded(stale),
    ensures
        setup_run(start, before + stale) == setup_run(start, before),
    decreases stale.len(),
{
    if stale.len() == 0 {
        assert(before + stale =~= before);
    } else {
        let front = stale.drop_last();
        assert forall|i: int| 0 <= i < front.len() implies succeeded(#[trigger] front[i]) by {
            assert(front[i] == stale[i]);
        }
        lemma_stale_rules(start, before, front);
        assert((before + stale).drop_last() =~= before + front);
        assert((before + stale).last() == stale[stale.len() - 1]);
    }
}

/// At any time, what is done next goes by what is in place. As long as nothing has failed, the
/// first route that is not in place is added, and the DNS server is set when all of them are.
/// After a failure, the DNS configuration is taken back, if there is one, and then the routes in
/// place are removed, the last one first; and nothing is done any more once nothing is in place.
pub proof fn commands_go_by_what_is_in_place(plan: LinuxPlan, events: Seq<CommandEvent>)
    ensures
        ({
            let setup = setup_run(setup_of(plan), events);
            let p = in_place_run(setup_of(plan), events);
            let n = p.routes.len() as int;
            &&& p.routes == plan.routes@.take(n)
            &&& setup.failure is None && n < plan.routes@.len() ==> setup.command() == Some(
                linux_route_view(
                    Change::Add,
                    cidr_text(plan.routes@[n])->0,
                    plan.gateway,
                    plan.interface@,
                ),
            )
            &&& setup.failure is None && n == plan.routes@.len() && !p.dns ==> setup.command()
                == Some(set_dns_view(plan.interface@, ip_text(plan.dns@)))
            &&& setup.failure is None && p.dns && !p.policy ==> setup.command() == Some(
                set_domain_view(plan.interface@),
            ) || setup.command() == Some(policy_rule_view(Change::Delete)) || setup.command()
                == Some(policy_rule_view(Change::Add))
            &&& setup.failure is None && p.policy ==> setup.command() is None
            &&& setup.failure is Some && p.dns ==> setup.command() == Some(
                revert_dns_view(plan.interface@),
            )
            &&& setup.failure is Some && !p.dns && n > 0 ==> setup.command() == Some(
                linux_route_view(
                    Change::Delete,
                    cidr_text(p.routes.last())->0,
                    plan.gateway,
                    plan.interface@,
                ),
            )
            &&& setup.failure is Some && !p.dns && n == 0 ==> setup.command() is None
        }),
{
    setup_knows_what_is_in_place(plan, events);
    lemma_setup_keeps_plan(plan, events);
    let setup = setup_run(setup_of(plan), events);
    assert(plan.routes@.take(setup.installed).len() == setup.installed);
}

/// A setup keeps to its plan.
pub proof fn lemma_setup_keeps_plan(plan: LinuxPlan, events: Seq<CommandEvent>)
    ensures
        setup_run(setup_of(plan), events).interface == plan.interface@,
        setup_run(setup_of(plan), events).gateway == plan.gateway,
        setup_run(setup_of(plan), events).dns == plan.dns@,
        setup_run(setup_of(plan), events).skipped == plan.skipped,
    decreases events.len(),
{
    if events.len() > 0 {
        lemma_setup_keeps_plan(plan, events.drop_last());
    }
}

/// The first failure of a setup is what it comes to, whatever becomes of taking back what was
/// done. It is there because a route has a mask with gaps, or because of a command: then its last
/// message is the cause, or has in it what the command wrote; and in front of what is said of the
/// command stands which route could not be added, or what else could not be done.
pub proof fn first_failure_of_a_setup_stays(setup: SetupView, event: CommandEvent)
    requires
        setup.wf(),
    ensures
        setup.failure is Some ==> setup.after(event).failure == setup.failure,
        setup.failure is None && setup.after(event).failure is Some ==> {
            let messages = setup.after(event).failure->0;
            &&& messages.len() > 0
            &&& match event {
                CommandEvent::NotRun(cause) => messages.last() == cause@,
                CommandEvent::Finished(output) => if output.success {
                    setup.phase == SetupPhase::AddingRoute && setup.installed + 1
                        < setup.routes.len() && cidr_text(setup.routes[setup.installed + 1]) is None
                        && messages == gap_message(setup.routes[setup.installed + 1])
                } else {
                    occurs(lossy_text(output.stderr@), messages.last())
                },
            }
            &&& !succeeded(event) && setup.phase != SetupPhase::ClearingPolicy ==> {
                let fault = command_fault(setup.command()->0, event)->0;
                let extra = messages.len() - fault.len();
                &&& extra == (if setup.phase == SetupPhase::SettingDns {
                    0int
                } else {
                    1int
                })
                &&& messages.skip(extra) == fault
            }
            &&& !succeeded(event) && setup.phase == SetupPhase::AddingRoute ==> messages[0]
                == route_context(
                Change::Add,
                cidr_text(setup.routes[setup.installed])->0,
                setup.gateway,
            )
        },
{
    if setup.failure is None && setup.after(event).failure is Some && !succeeded(event) {
        let command = setup.command()->0;
        failed_commands_are_reported(command, event);
        let messages = setup.after(event).failure->0;
        if setup.phase != SetupPhase::ClearingPolicy {
            let fault = command_fault(command, event)->0;
            assert(messages.skip(messages.len() - fault.len()) =~= fault);
        }
        if setup.phase == SetupPhase::ClearingPolicy {
            if let CommandEvent::Finished(output) = event {
                let a = "ip failed while removing the CCZU policy rule: "@;
                lemma_ends_with(a, lossy_text(output.stderr@));
            }
        }
    }
}

} // verus!
