//! The routes of a tunnel under Windows: how they are put in place, and how they are removed.

use vstd::prelude::*;
use crate::cli::command_laws::{failed_route_commands_are_reported, lemma_occurs};
use crate::cli::commands::{
    is_outcome, lossy_text, route_command_fault, run_route_command, windows_route_command,
    windows_route_view, Change, CommandEvent, CommandLine, CommandView,
};
use crate::cli::linux::{all_succeeded, succeeded};
use crate::cli::plan::{
    is_planned, is_selection, plan_routes, rule_routes, server_fault, server_local_route, PlanError,
    PlanErrorView, RoutePlan,
};
use crate::cli::routes::WindowsRoute;
use crate::failure::{maybe_failure, Failure};
use crate::net::{
    ip_value, ipv4_text, ipv4_value, maybe_address, parse_ip, parse_ipv4, IpAddr, Ipv4Addr,
    NO_ADDRESS,
};
use crate::numeral::{numeral, push_number};
use crate::text::{copy_text, occurs};
use crate::types::{ProxyServer, ProxyServerView};

verus! {

/// What is being done to the routes.
#[derive(Debug, Clone, Copy, PartialEq, Eq, Structural)]
pub enum InstallPhase {
    /// The next route is added.
    Adding,
    /// Every route is in place.
    Active,
    /// A route could not be added: the last one that was is removed.
    Unwinding,
    /// A route could not be added, and none is left.
    Failed,
}

/// The routes, on their way to being in place.
#[derive(Debug)]
pub struct RouteInstaller {
    pub plan: RoutePlan,
    pub if_index: u32,
    /// The number of routes that are in place, counted from the front.
    pub installed: usize,
    pub phase: InstallPhase,
    pub failure: Option<Failure>,
}

/// A [`RouteInstaller`] in terms of sequences.
#[verifier::ext_equal]
pub struct InstallView {
    pub gateway: Ipv4Addr,
    pub routes: Seq<WindowsRoute>,
    pub if_index: u32,
    pub skipped: int,
    pub installed: int,
    pub phase: InstallPhase,
    pub failure: Option<Seq<Seq<char>>>,
}

impl View for RouteInstaller {
    type V = InstallView;

    open spec fn view(&self) -> InstallView {
        InstallView {
            gateway: self.plan.gateway,
            routes: self.plan.routes@,
            if_index: self.if_index,
            skipped: self.plan.skipped as int,
            installed: self.installed as int,
            phase: self.phase,
            failure: maybe_failure(self.failure),
        }
    }
}

/// What is said when a route cannot be added or removed.
pub open spec fn windows_context(
    change: Change,
    route: WindowsRoute,
    gateway: Ipv4Addr,
    if_index: u32,
) -> Seq<char> {
    (match change {
        Change::Add => "failed to add split-tunnel route "@,
        Change::Delete => "failed to delete split-tunnel route "@,
    }) + ipv4_text(route.destination) + "/"@ + ipv4_text(route.netmask) + " via "@ + ipv4_text(
        gateway,
    ) + " on interface "@ + numeral(if_index as nat, 10)
}

/// Why a change of a route is held to have failed, if it is.
pub open spec fn windows_fault(
    change: Change,
    route: WindowsRoute,
    gateway: Ipv4Addr,
    if_index: u32,
    event: CommandEvent,
) -> Option<Seq<Seq<char>>> {
    match route_command_fault(windows_route_view(change, route, gateway, if_index).args, event) {
        Some(m) => Some(seq![windows_context(change, route, gateway, if_index)] + m),
        None => None,
    }
}

/// What became of a change of a route.
pub fn judge_route_change(
    change: Change,
    route: WindowsRoute,
    gateway: Ipv4Addr,
    if_index: u32,
    event: &CommandEvent,
) -> (r: Result<(), Failure>)
    ensures
        match windows_fault(change, route, gateway, if_index, *event) {
            Some(messages) => r matches Err(f) && f@ == messages,
            None => r is Ok,
        },
{
    let command = windows_route_command(change, route, gateway, if_index);
    match run_route_command(&command.args, event) {
        Ok(()) => Ok(()),
        Err(f) => {
            let mut out = match change {
                Change::Add => String::from_str("failed to add split-tunnel route "),
                Change::Delete => String::from_str("failed to delete split-tunnel route "),
            };
            route.destination.push_text(&mut out);
            out.append("/");
            route.netmask.push_text(&mut out);
            out.append(" via ");
            gateway.push_text(&mut out);
            out.append(" on interface ");
            push_number(&mut out, if_index, 10);
            Err(f.context(out))
        },
    }
}

impl InstallView {
    /// A route could not be added; the others are next to be removed, if there are any.
    pub open spec fn unwound(self) -> InstallView {
        InstallView {
            phase: if self.installed == 0 {
                InstallPhase::Failed
            } else {
                InstallPhase::Unwinding
            },
            ..self
        }
    }

    /// The next route has its turn, if there is one.
    pub open spec fn turned(self) -> InstallView {
        InstallView {
            phase: if self.installed >= self.routes.len() {
                InstallPhase::Active
            } else {
                InstallPhase::Adding
            },
            ..self
        }
    }

    /// The command that is to be run next.
    pub open spec fn command(self) -> Option<CommandView> {
        match self.phase {
            InstallPhase::Adding => Some(
                windows_route_view(
                    Change::Add,
                    self.routes[self.installed],
                    self.gateway,
                    self.if_index,
                ),
            ),
            InstallPhase::Unwinding => Some(
                windows_route_view(
                    Change::Delete,
                    self.routes[self.installed - 1],
                    self.gateway,
                    self.if_index,
                ),
            ),
            InstallPhase::Active | InstallPhase::Failed => None,
        }
    }

    /// The state when the command of this state has come to `event`.
    pub open spec fn after(self, event: CommandEvent) -> InstallView {
        match self.phase {
            InstallPhase::Adding => match windows_fault(
                Change::Add,
                self.routes[self.installed],
                self.gateway,
                self.if_index,
                event,
            ) {
                None => (InstallView { installed: self.installed + 1, ..self }).turned(),
                Some(m) => (InstallView { failure: Some(m), ..self }).unwound(),
            },
            InstallPhase::Unwinding => (InstallView {
                installed: self.installed - 1,
                ..self
            }).unwound(),
            InstallPhase::Active | InstallPhase::Failed => self,
        }
    }

    /// What holds in every phase.
    pub open spec fn wf(self) -> bool {
        &&& 0 <= self.installed <= self.routes.len()
        &&& self.failure is Some <==> (self.phase == InstallPhase::Unwinding || self.phase
            == InstallPhase::Failed)
        &&& match self.phase {
            InstallPhase::Adding => self.installed < self.routes.len(),
            InstallPhase::Active => self.installed == self.routes.len(),
            InstallPhase::Unwinding => self.installed > 0,
            InstallPhase::Failed => self.installed == 0,
        }
    }
}

/// The first state of a plan.
pub open spec fn install_of(plan: RoutePlan, if_index: u32) -> InstallView {
    (InstallView {
        gateway: plan.gateway,
        routes: plan.routes@,
        if_index,
        skipped: plan.skipped as int,
        installed: 0,
        phase: InstallPhase::Adding,
        failure: None,
    }).turned()
}

/// `routes` are those that an installer has put in place.
pub open spec fn are_routes_of(routes: Seq<WindowsRoute>, v: InstallView) -> bool {
    routes == v.routes
}

impl RouteInstaller {
    /// Starts to put the routes of a plan in place.
    pub fn new(plan: RoutePlan, if_index: u32) -> (r: Self)
        ensures
            r@ == install_of(plan, if_index),
            r.plan == plan,
            r@.wf(),
    {
        let phase = if plan.routes.len() == 0 {
            InstallPhase::Active
        } else {
            InstallPhase::Adding
        };
        RouteInstaller { plan, if_index, installed: 0, phase, failure: None }
    }

    fn unwind(&mut self)
        ensures
            final(self)@ == old(self)@.unwound(),
    {
        if self.installed == 0 {
            self.phase = InstallPhase::Failed;
        } else {
            self.phase = InstallPhase::Unwinding;
        }
    }

    /// The command that is to be run next.
    pub fn command(&self) -> (r: Option<CommandLine>)
        requires
            self@.wf(),
        ensures
            match self@.command() {
                Some(view) => r matches Some(c) && c@ == view,
                None => r is None,
            },
    {
        match self.phase {
            InstallPhase::Adding => Some(
                windows_route_command(
                    Change::Add,
                    self.plan.routes[self.installed],
                    self.plan.gateway,
                    self.if_index,
                ),
            ),
            InstallPhase::Unwinding => Some(
                windows_route_command(
                    Change::Delete,
                    self.plan.routes[self.installed - 1],
                    self.plan.gateway,
                    self.if_index,
                ),
            ),
            InstallPhase::Active | InstallPhase::Failed => None,
        }
    }

    /// Takes note of what became of the command.
    pub fn observe(&mut self, event: &CommandEvent)
        requires
            old(self)@.wf(),
        ensures
            final(self)@ == old(self)@.after(*event),
            final(self)@.wf(),
    {
        match self.phase {
            InstallPhase::Adding => {
                let route = self.plan.routes[self.installed];
                match judge_route_change(
                    Change::Add,
                    route,
                    self.plan.gateway,
                    self.if_index,
                    event,
                ) {
                    Ok(()) => {
                        assert(self.installed < self.plan.routes.len());
                        self.installed += 1;
                        if self.installed >= self.plan.routes.len() {
                            self.phase = InstallPhase::Active;
                        }
                    },
                    Err(f) => {
                        self.failure = Some(f);
                        self.unwind();
                    },
                }
            },
            InstallPhase::Unwinding => {
                self.installed -= 1;
                self.unwind();
            },
            InstallPhase::Active | InstallPhase::Failed => {},
        }
    }

    /// The routes, once they are in place, or why they are not.
    pub fn finish(self) -> (r: Result<Vec<WindowsRoute>, Failure>)
        requires
            self@.wf(),
            self@.command() is None,
        ensures
            match self@.failure {
                Some(messages) => r matches Err(f) && f@ == messages,
                None => r matches Ok(routes) && routes@ == self@.routes,
            },
            r matches Ok(routes) ==> are_routes_of(routes@, self@),
    {
        match self.failure {
            Some(f) => Err(f),
            None => Ok(self.plan.routes),
        }
    }
}

/// The DNS server that the interface is given.
pub fn windows_dns(server: &ProxyServer) -> (r: Result<IpAddr, Failure>)
    ensures
        match ip_value(server@.dns) {
            Some(address) => r matches Ok(a) && a@ == address,
            None => r matches Err(f) && f@ == seq![NO_ADDRESS@],
        },
{
    match parse_ip(&server.dns) {
        Some(address) => Ok(address),
        None => Err(Failure::new(String::from_str(NO_ADDRESS))),
    }
}

/// What keeps the routes that `server` asks for from being put in place. A wrong gateway comes
/// before the number of the interface, and that before everything else.
pub open spec fn install_fault(
    if_index: Result<u32, String>,
    server: ProxyServerView,
) -> Option<PlanErrorView> {
    if ipv4_value(server.gateway) is None {
        Some(PlanErrorView::InvalidGateway(server.gateway))
    } else {
        match if_index {
            Err(cause) => Some(PlanErrorView::NoInterfaceIndex(cause@)),
            Ok(_) => server_fault(server),
        }
    }
}

/// Starts to put in place the routes that `server` asks for. `if_index` is the number of the
/// interface, or why the system does not tell it.
pub fn configure_split_tunnel_routes(
    if_index: Result<u32, String>,
    server: &ProxyServer,
    peer: Option<IpAddr>,
) -> (r: Result<RouteInstaller, PlanError>)
    ensures
        match install_fault(if_index, server@) {
            Some(e) => r matches Err(x) && x@ == e,
            None => {
                &&& r matches Ok(installer)
                &&& installer@ == install_of(installer.plan, if_index->Ok_0)
                &&& installer@.wf()
                &&& installer@.gateway == ipv4_value(server@.gateway)->0
                &&& is_selection(
                    installer@.routes,
                    rule_routes(server@.split_tunnel_routes)->Ok_0,
                    server_local_route(server@),
                    maybe_address(peer),
                )
                &&& forall|route: WindowsRoute| #[trigger]
                    installer@.routes.contains(route) <==> is_planned(
                        route,
                        server@,
                        maybe_address(peer),
                        false,
                    )
                &&& installer.plan.skipped == server@.split_tunnel_routes.len() - rule_routes(
                    server@.split_tunnel_routes,
                )->Ok_0.len()
            },
        },
{
    if parse_ipv4(&server.gateway).is_none() {
        return Err(PlanError::InvalidGateway(copy_text(&server.gateway)));
    }
    let if_index: u32 = match if_index {
        Ok(if_index) => if_index,
        Err(cause) => {
            return Err(PlanError::NoInterfaceIndex(cause));
        },
    };
    match plan_routes(server, peer) {
        Ok(plan) => Ok(RouteInstaller::new(plan, if_index)),
        Err(e) => Err(e),
    }
}

/// The routes, on their way to being removed, the first one first. The first failure ends
/// the removal.
#[derive(Debug)]
pub struct RouteRemover {
    pub gateway: Ipv4Addr,
    pub if_index: u32,
    pub routes: Vec<WindowsRoute>,
    /// The number of routes that are gone, counted from the front.
    pub removed: usize,
    pub failure: Option<Failure>,
}

/// A [`RouteRemover`] in terms of sequences.
#[verifier::ext_equal]
pub struct RemoverView {
    pub gateway: Ipv4Addr,
    pub if_index: u32,
    pub routes: Seq<WindowsRoute>,
    pub removed: int,
    pub failure: Option<Seq<Seq<char>>>,
}

impl View for RouteRemover {
    type V = RemoverView;

    open spec fn view(&self) -> RemoverView {
        RemoverView {
            gateway: self.gateway,
            if_index: self.if_index,
            routes: self.routes@,
            removed: self.removed as int,
            failure: maybe_failure(self.failure),
        }
    }
}

impl RemoverView {
    /// What holds in every state.
    pub open spec fn wf(self) -> bool {
        0 <= self.removed <= self.routes.len()
    }

    /// The command that is to be run next; none once no route is left, or one could not be
    /// removed.
    pub open spec fn command(self) -> Option<CommandView> {
        if self.removed >= self.routes.len() || self.failure is Some {
            None
        } else {
            Some(
                windows_route_view(
                    Change::Delete,
                    self.routes[self.removed],
                    self.gateway,
                    self.if_index,
                ),
            )
        }
    }

    /// The state when the command of this state has come to `event`.
    pub open spec fn after(self, event: CommandEvent) -> RemoverView {
        if self.command() is None {
            self
        } else {
            match windows_fault(
                Change::Delete,
                self.routes[self.removed],
                self.gateway,
                self.if_index,
                event,
            ) {
                Some(m) => RemoverView { failure: Some(m), ..self },
                None => RemoverView { removed: self.removed + 1, ..self },
            }
        }
    }
}

/// The first state of the removal of some routes.
pub open spec fn removal_of(
    routes: Seq<WindowsRoute>,
    gateway: Ipv4Addr,
    if_index: u32,
) -> RemoverView {
    RemoverView { gateway, if_index, routes, removed: 0, failure: None }
}

impl RouteRemover {
    /// The command that is to be run next.
    pub fn command(&self) -> (r: Option<CommandLine>)
        requires
            self@.wf(),
        ensures
            match self@.command() {
                Some(view) => r matches Some(c) && c@ == view,
                None => r is None,
            },
    {
        if self.removed >= self.routes.len() || self.failure.is_some() {
            return None;
        }
        Some(
            windows_route_command(
                Change::Delete,
                self.routes[self.removed],
                self.gateway,
                self.if_index,
            ),
        )
    }

    /// Takes note of what became of the command.
    pub fn observe(&mut self, event: &CommandEvent)
        requires
            old(self)@.wf(),
        ensures
            final(self)@ == old(self)@.after(*event),
            final(self)@.wf(),
    {
        if self.removed >= self.routes.len() || self.failure.is_some() {
            return;
        }
        let route = self.routes[self.removed];
        match judge_route_change(Change::Delete, route, self.gateway, self.if_index, event) {
            Ok(()) => {
                assert(self.removed < self.routes.len());
                self.removed += 1;
            },
            Err(f) => {
                self.failure = Some(f);
            },
        }
    }

    /// Whether the removal went well, and else what went wrong.
    pub fn finish(self) -> (r: Result<(), Failure>)
        requires
            self@.command() is None,
        ensures
            match self@.failure {
                Some(messages) => r matches Err(f) && f@ == messages,
                None => r is Ok,
            },
            is_outcome(r, self@.failure),
    {
        match self.failure {
            Some(f) => Err(f),
            None => Ok(()),
        }
    }
}

/// Starts to remove `routes`, which were put in place for `server`. `if_index` is the number of
/// the interface, or why the system does not tell it.
pub fn cleanup_split_tunnel_routes(
    if_index: Result<u32, String>,
    server: &ProxyServer,
    routes: Vec<WindowsRoute>,
) -> (r: Result<RouteRemover, PlanError>)
    ensures
        match (ipv4_value(server@.gateway), if_index) {
            (None, _) => r matches Err(e) && e@ == PlanErrorView::InvalidGateway(server@.gateway),
            (Some(_), Err(cause)) => r matches Err(e) && e@ == PlanErrorView::NoInterfaceIndex(
                cause@,
            ),
            (Some(gateway), Ok(index)) => {
                &&& r matches Ok(remover)
                &&& remover@ == removal_of(routes@, gateway, index)
            },
        },
{
    let gateway = match parse_ipv4(&server.gateway) {
        Some(gateway) => gateway,
        None => {
            return Err(PlanError::InvalidGateway(copy_text(&server.gateway)));
        },
    };
    match if_index {
        Ok(if_index) => Ok(
            RouteRemover { gateway, if_index, routes, removed: 0, failure: None },
        ),
        Err(cause) => Err(PlanError::NoInterfaceIndex(cause)),
    }
}

/// The state when the commands have come to `events`, one after the other.
pub open spec fn install_run(start: InstallView, events: Seq<CommandEvent>) -> InstallView
    decreases events.len(),
{
    if events.len() == 0 {
        start
    } else {
        install_run(start, events.drop_last()).after(events.last())
    }
}

/// The routes that are in place then. A route counts as gone once its removal was asked for.
pub open spec fn routes_run(start: InstallView, events: Seq<CommandEvent>) -> Seq<WindowsRoute>
    decreases events.len(),
{
    if events.len() == 0 {
        Seq::empty()
    } else {
        let v = install_run(start, events.drop_last());
        let routes = routes_run(start, events.drop_last());
        if v.phase == InstallPhase::Adding && windows_fault(
            Change::Add,
            v.routes[v.installed],
            v.gateway,
            v.if_index,
            events.last(),
        ) is None {
            routes.push(v.routes[v.installed])
        } else if v.phase == InstallPhase::Unwinding {
            routes.drop_last()
        } else {
            routes
        }
    }
}

/// Whatever the commands come to, the routes in place are those that are counted.
pub proof fn installer_knows_its_routes(plan: RoutePlan, if_index: u32, events: Seq<CommandEvent>)
    ensures
        install_run(install_of(plan, if_index), events).wf(),
        install_run(install_of(plan, if_index), events).routes == plan.routes@,
        routes_run(install_of(plan, if_index), events) == plan.routes@.take(
            install_run(install_of(plan, if_index), events).installed,
        ),
    decreases events.len(),
{
    let start = install_of(plan, if_index);
    let all = plan.routes@;
    if events.len() == 0 {
        assert(all.take(0) =~= Seq::<WindowsRoute>::empty());
    } else {
        installer_knows_its_routes(plan, if_index, events.drop_last());
        let v = install_run(start, events.drop_last());
        if v.phase == InstallPhase::Adding {
            assert(all.take(v.installed + 1) =~= all.take(v.installed).push(all[v.installed]));
        } else if v.phase == InstallPhase::Unwinding {
            assert(all.take(v.installed).drop_last() =~= all.take(v.installed - 1));
        }
    }
}

/// If a route cannot be added, those that were added before are removed again.
pub proof fn failed_install_leaves_no_route(
    plan: RoutePlan,
    if_index: u32,
    events: Seq<CommandEvent>,
)
    requires
        install_run(install_of(plan, if_index), events).phase == InstallPhase::Failed,
    ensures
        routes_run(install_of(plan, if_index), events) == Seq::<WindowsRoute>::empty(),
{
    installer_knows_its_routes(plan, if_index, events);
    assert(plan.routes@.take(0) =~= Seq::<WindowsRoute>::empty());
}

/// The state when the commands have come to `events`, one after the other.
pub open spec fn removal_run(start: RemoverView, events: Seq<CommandEvent>) -> RemoverView
    decreases events.len(),
{
    if events.len() == 0 {
        start
    } else {
        removal_run(start, events.drop_last()).after(events.last())
    }
}

/// Unless a command fails, every route is removed, the first one first: the command behind
/// some events is the one for the route at that place, until there is none.
pub proof fn removal_goes_through_the_routes(
    routes: Seq<WindowsRoute>,
    gateway: Ipv4Addr,
    if_index: u32,
    events: Seq<CommandEvent>,
)
    requires
        events.len() <= routes.len(),
        removal_run(removal_of(routes, gateway, if_index), events).failure is None,
    ensures
        removal_run(removal_of(routes, gateway, if_index), events).removed == events.len(),
        removal_run(removal_of(routes, gateway, if_index), events).command() == (if events.len()
            < routes.len() {
            Some(
                windows_route_view(Change::Delete, routes[events.len() as int], gateway, if_index),
            )
        } else {
            None
        }),
    decreases events.len(),
{
    lemma_removal_keeps_routes(removal_of(routes, gateway, if_index), events);
    if events.len() > 0 {
        let front = events.drop_last();
        lemma_removal_keeps_routes(removal_of(routes, gateway, if_index), front);
        removal_goes_through_the_routes(routes, gateway, if_index, front);
    }
}

proof fn lemma_removal_keeps_routes(start: RemoverView, events: Seq<CommandEvent>)
    ensures
        removal_run(start, events).routes == start.routes,
        removal_run(start, events).gateway == start.gateway,
        removal_run(start, events).if_index == start.if_index,
    decreases events.len(),
{
    if events.len() > 0 {
        lemma_removal_keeps_routes(start, events.drop_last());
    }
}

/// A route that was to be added could not be.
pub open spec fn add_failed(v: InstallView, event: CommandEvent) -> bool {
    v.phase == InstallPhase::Adding && windows_fault(
        Change::Add,
        v.routes[v.installed],
        v.gateway,
        v.if_index,
        event,
    ) is Some
}

/// As long as every route could be added, none is taken back: the routes are added one after
/// the other until all are in place.
pub proof fn installer_fails_for_a_reason(
    plan: RoutePlan,
    if_index: u32,
    events: Seq<CommandEvent>,
)
    requires
        events.len() <= plan.routes@.len(),
        forall|i: int|
            0 <= i < events.len() ==> !add_failed(
                install_run(install_of(plan, if_index), events.take(i)),
                #[trigger] events[i],
            ),
    ensures
        install_run(install_of(plan, if_index), events).failure is None,
        install_run(install_of(plan, if_index), events).installed == events.len(),
        events.len() == plan.routes@.len() <==> install_run(
            install_of(plan, if_index),
            events,
        ).phase == InstallPhase::Active,
    decreases events.len(),
{
    let start = install_of(plan, if_index);
    if events.len() > 0 {
        let front = events.drop_last();
        assert forall|i: int| 0 <= i < front.len() implies !add_failed(
            install_run(start, front.take(i)),
            #[trigger] front[i],
        ) by {
            assert(front.take(i) =~= events.take(i));
            assert(front[i] == events[i]);
        }
        installer_fails_for_a_reason(plan, if_index, front);
        installer_knows_its_routes(plan, if_index, front);
        let last = events.len() - 1;
        assert(events.take(last) =~= front);
        assert(!add_failed(install_run(start, events.take(last)), events[last]));
    }
}

/// A change of a route has failed exactly if its command did not end with success. What is said
/// of it names the route, the gateway and the interface, and its last message is the cause, or
/// has in it what the command wrote.
pub proof fn route_changes_fail_for_a_reason(
    change: Change,
    route: WindowsRoute,
    gateway: Ipv4Addr,
    if_index: u32,
    event: CommandEvent,
)
    ensures
        windows_fault(change, route, gateway, if_index, event) is None <==> succeeded(event),
        windows_context(Change::Add, route, gateway, if_index) != windows_context(
            Change::Delete,
            route,
            gateway,
            if_index,
        ),
        windows_fault(change, route, gateway, if_index, event) matches Some(messages) ==> {
            &&& messages.len() >= 2
            &&& occurs(
                ipv4_text(route.destination) + seq!['/'] + ipv4_text(route.netmask),
                messages[0],
            )
            &&& occurs(ipv4_text(gateway), messages[0])
            &&& occurs(numeral(if_index as nat, 10), messages[0])
            &&& match event {
                CommandEvent::NotRun(cause) => messages.last() == cause@,
                CommandEvent::Finished(output) => occurs(
                    lossy_text(output.stderr@),
                    messages.last(),
                ),
            }
        },
{
    let args = windows_route_view(change, route, gateway, if_index).args;
    failed_route_commands_are_reported(args, event);
    reveal_strlit("failed to add split-tunnel route ");
    reveal_strlit("failed to delete split-tunnel route ");
    assert(windows_context(Change::Add, route, gateway, if_index)[10] == 'a');
    assert(windows_context(Change::Delete, route, gateway, if_index)[10] == 'd');
    if windows_fault(change, route, gateway, if_index, event) is Some {
        let nothing = Seq::<char>::empty();
        let context = windows_context(change, route, gateway, if_index);
        reveal_strlit("/");
        assert("/"@ =~= seq!['/']);
        let a = match change {
            Change::Add => "failed to add split-tunnel route "@,
            Change::Delete => "failed to delete split-tunnel route "@,
        };
        let b = ipv4_text(route.destination) + seq!['/'] + ipv4_text(route.netmask);
        let c = ipv4_text(gateway);
        let d = numeral(if_index as nat, 10);
        lemma_occurs(a, b, " via "@ + c + " on interface "@ + d);
        assert(context =~= a + b + (" via "@ + c + " on interface "@ + d));
        lemma_occurs(a + b + " via "@, c, " on interface "@ + d);
        assert(context =~= a + b + " via "@ + c + (" on interface "@ + d));
        lemma_occurs(a + b + " via "@ + c + " on interface "@, d, nothing);
        assert(context =~= a + b + " via "@ + c + " on interface "@ + d + nothing);
    }
}

/// At any time, what is done next goes by the routes that are in place. As long as nothing has
/// failed, the first route that is not in place is added; after a failure, the routes in place are
/// removed, the last one first, until none is left.
pub proof fn install_commands_go_by_what_is_in_place(
    plan: RoutePlan,
    if_index: u32,
    events: Seq<CommandEvent>,
)
    ensures
        ({
            let v = install_run(install_of(plan, if_index), events);
            let routes = routes_run(install_of(plan, if_index), events);
            let n = routes.len() as int;
            &&& v.failure is None && n < plan.routes@.len() ==> v.command() == Some(
                windows_route_view(Change::Add, plan.routes@[n], plan.gateway, if_index),
            )
            &&& v.failure is None && n == plan.routes@.len() ==> v.command() is None
            &&& v.failure is Some && n > 0 ==> v.command() == Some(
                windows_route_view(Change::Delete, routes.last(), plan.gateway, if_index),
            )
            &&& v.failure is Some && n == 0 ==> v.command() is None
        }),
{
    installer_knows_its_routes(plan, if_index, events);
    lemma_install_keeps_plan(plan, if_index, events);
    let v = install_run(install_of(plan, if_index), events);
    assert(plan.routes@.take(v.installed).len() == v.installed);
}

proof fn lemma_install_keeps_plan(plan: RoutePlan, if_index: u32, events: Seq<CommandEvent>)
    ensures
        install_run(install_of(plan, if_index), events).gateway == plan.gateway,
        install_run(install_of(plan, if_index), events).if_index == if_index,
        install_run(install_of(plan, if_index), events).skipped == plan.skipped,
    decreases events.len(),
{
    if events.len() > 0 {
        lemma_install_keeps_plan(plan, if_index, events.drop_last());
    }
}

/// If every command succeeds, all routes of the plan are put in place, in order.
pub proof fn routes_are_installed_in_order(
    plan: RoutePlan,
    if_index: u32,
    events: Seq<CommandEvent>,
)
    requires
        events.len() <= plan.routes@.len(),
        all_succeeded(events),
    ensures
        install_run(install_of(plan, if_index), events).failure is None,
        routes_run(install_of(plan, if_index), events) == plan.routes@.take(events.len() as int),
    decreases events.len(),
{
    installer_knows_its_routes(plan, if_index, events);
    if events.len() > 0 {
        let front = events.drop_last();
        assert forall|i: int| 0 <= i < front.len() implies succeeded(#[trigger] front[i]) by {
            assert(front[i] == events[i]);
        }
        routes_are_installed_in_order(plan, if_index, front);
        installer_knows_its_routes(plan, if_index, front);
        let v = install_run(install_of(plan, if_index), front);
        assert(plan.routes@.take(v.installed).len() == v.installed);
        assert(plan.routes@.take(front.len() as int).len() == front.len());
        assert(succeeded(events[events.len() - 1]));
        route_changes_fail_for_a_reason(
            Change::Add,
            v.routes[v.installed],
            v.gateway,
            v.if_index,
            events.last(),
        );
    }
}

/// A route that cannot be added is why the routes could not be put in place, whatever becomes of
/// the removal of the others.
pub proof fn first_failure_of_an_install_stays(v: InstallView, event: CommandEvent)
    requires
        v.wf(),
    ensures
        v.failure is Some ==> v.after(event).failure == v.failure,
        v.failure is None && v.command() is Some ==> (v.after(event).failure is None <==> succeeded(
            event,
        )),
        v.failure is None && v.after(event).failure is Some ==> v.after(event).failure
            == windows_fault(
            Change::Add,
            v.routes[v.installed],
            v.gateway,
            v.if_index,
            event,
        ),
{
    if v.phase == InstallPhase::Adding {
        route_changes_fail_for_a_reason(
            Change::Add,
            v.routes[v.installed],
            v.gateway,
            v.if_index,
            event,
        );
    }
}

/// The removal of routes goes on as long as every command succeeds, and it has failed and is at
/// its end as soon as one does not.
pub proof fn removal_stops_at_the_first_failure(v: RemoverView, event: CommandEvent)
    requires
        v.wf(),
        v.command() is Some,
    ensures
        succeeded(event) ==> v.after(event) == (RemoverView { removed: v.removed + 1, ..v }),
        !succeeded(event) ==> v.after(event).failure is Some && v.after(event).command() is None
            && v.after(event).removed == v.removed,
{
    route_changes_fail_for_a_reason(
        Change::Delete,
        v.routes[v.removed],
        v.gateway,
        v.if_index,
        event,
    );
}

/// The routes can be put in place exactly if the gateway is an IPv4 address, the system tells
/// the number of the interface, and the tunnel has a plan. What is wrong with the gateway is
/// said first, and that the system does not tell the number next.
pub proof fn install_fails_for_a_reason(if_index: Result<u32, String>, server: ProxyServerView)
    ensures
        install_fault(if_index, server) is None <==> if_index is Ok && server_fault(server) is None,
        ipv4_value(server.gateway) is None ==> install_fault(if_index, server) == server_fault(
            server,
        ),
        ipv4_value(server.gateway) is Some && if_index is Err ==> install_fault(if_index, server)
            == Some(PlanErrorView::NoInterfaceIndex(if_index->Err_0@)),
        if_index is Ok ==> install_fault(if_index, server) == server_fault(server),
{
}

/// The routes that an installer hands over are those that are in place, and to remove them takes
/// one command for each: if all of these succeed, the removal has gone through all of them.
pub proof fn what_was_installed_is_removed(
    plan: RoutePlan,
    if_index: u32,
    events: Seq<CommandEvent>,
    routes: Seq<WindowsRoute>,
    removals: Seq<CommandEvent>,
)
    requires
        install_run(install_of(plan, if_index), events).phase == InstallPhase::Active,
        are_routes_of(routes, install_run(install_of(plan, if_index), events)),
        removals.len() == routes.len(),
        all_succeeded(removals),
    ensures
        routes == routes_run(install_of(plan, if_index), events),
        routes == plan.routes@,
        ({
            let end = removal_run(removal_of(routes, plan.gateway, if_index), removals);
            &&& end.failure is None
            &&& end.removed == routes.len()
            &&& end.command() is None
        }),
{
    installer_knows_its_routes(plan, if_index, events);
    assert(plan.routes@.take(plan.routes@.len() as int) =~= plan.routes@);
    lemma_removal_succeeds(routes, plan.gateway, if_index, removals);
}

proof fn lemma_removal_succeeds(
    routes: Seq<WindowsRoute>,
    gateway: Ipv4Addr,
    if_index: u32,
    events: Seq<CommandEvent>,
)
    requires
        events.len() <= routes.len(),
        all_succeeded(events),
    ensures
        removal_run(removal_of(routes, gateway, if_index), events) == (RemoverView {
            removed: events.len() as int,
            ..removal_of(routes, gateway, if_index)
        }),
    decreases events.len(),
{
    if events.len() > 0 {
        let front = events.drop_last();
        assert forall|i: int| 0 <= i < front.len() implies succeeded(#[trigger] front[i]) by {
            assert(front[i] == events[i]);
        }
        lemma_removal_succeeds(routes, gateway, if_index, front);
        let before = removal_run(removal_of(routes, gateway, if_index), front);
        assert(succeeded(events[events.len() - 1]));
        removal_stops_at_the_first_failure(before, events.last());
    }
}

} // verus!
