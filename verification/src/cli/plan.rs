//! Which routes a tunnel gets, out of what the proxy hands out.

use vstd::prelude::*;
use crate::cli::routes::{
    covers, netmask, network, normalize_network, parse_split_tunnel_route, route_contains,
    rule_route, RouteError, RouteErrorView, WindowsRoute,
};
use crate::failure::{caused, Failure};
use crate::net::{
    ip_value, ipv4_value, maybe_address, parse_ip, parse_ipv4, IpAddr, IpAddrView, Ipv4Addr,
    NO_ADDRESS, NO_IPV4_ADDRESS,
};
use crate::sorted::{ascending, ascending_is_unique, insert_sorted, keys, Ranked};
use crate::text::{copy_text, lemma_push_contains, texts};
use crate::types::{ProxyServer, ProxyServerView};

verus! {

impl Ranked for WindowsRoute {
    type Key = WindowsRoute;

    open spec fn key(&self) -> WindowsRoute {
        *self
    }

    /// By destination, then by mask.
    open spec fn before(a: WindowsRoute, b: WindowsRoute) -> bool {
        a.destination.bits < b.destination.bits || (a.destination == b.destination && a.netmask.bits
            < b.netmask.bits)
    }

    proof fn irreflexive(a: WindowsRoute) {
    }

    proof fn transitive(a: WindowsRoute, b: WindowsRoute, c: WindowsRoute) {
    }

    proof fn connected(a: WindowsRoute, b: WindowsRoute) {
    }

    fn comes_before(&self, other: &Self) -> (r: bool) {
        self.destination.bits < other.destination.bits || (self.destination.bits
            == other.destination.bits && self.netmask.bits < other.netmask.bits)
    }
}

/// Why a tunnel gets no network configuration.
#[derive(Debug)]
pub enum PlanError {
    /// The gateway is no IPv4 address.
    InvalidGateway(String),
    /// The address of the tunnel is no IPv4 address.
    InvalidAddress(String),
    /// The mask of the tunnel is no IPv4 address.
    InvalidMask(String),
    /// A rule stands for no route.
    Route(RouteError),
    /// The DNS server is no address.
    InvalidDns(String),
    /// The system does not tell the number of the interface; the text is the cause.
    NoInterfaceIndex(String),
}

/// A [`PlanError`] with its text as characters.
pub enum PlanErrorView {
    InvalidGateway(Seq<char>),
    InvalidAddress(Seq<char>),
    InvalidMask(Seq<char>),
    Route(RouteErrorView),
    InvalidDns(Seq<char>),
    NoInterfaceIndex(Seq<char>),
}

impl View for PlanError {
    type V = PlanErrorView;

    open spec fn view(&self) -> PlanErrorView {
        match *self {
            PlanError::InvalidGateway(s) => PlanErrorView::InvalidGateway(s@),
            PlanError::InvalidAddress(s) => PlanErrorView::InvalidAddress(s@),
            PlanError::InvalidMask(s) => PlanErrorView::InvalidMask(s@),
            PlanError::Route(e) => PlanErrorView::Route(e@),
            PlanError::InvalidDns(s) => PlanErrorView::InvalidDns(s@),
            PlanError::NoInterfaceIndex(s) => PlanErrorView::NoInterfaceIndex(s@),
        }
    }
}

impl PlanErrorView {
    /// What the user is told.
    pub open spec fn message(self) -> Seq<char> {
        match self {
            PlanErrorView::InvalidGateway(s) => "invalid VPN gateway address: "@ + s,
            PlanErrorView::InvalidAddress(s) => "invalid VPN address: "@ + s,
            PlanErrorView::InvalidMask(s) => "invalid VPN mask: "@ + s,
            PlanErrorView::Route(e) => e.message(),
            PlanErrorView::InvalidDns(s) => "invalid VPN DNS address: "@ + s,
            PlanErrorView::NoInterfaceIndex(_) => "failed to query TUN interface index"@,
        }
    }

    /// What the user is told, and the cause behind it, if there is one.
    pub open spec fn messages(self) -> Seq<Seq<char>> {
        match self {
            PlanErrorView::Route(e) => e.messages(),
            PlanErrorView::InvalidDns(_) => seq![self.message(), NO_ADDRESS@],
            PlanErrorView::NoInterfaceIndex(cause) => seq![self.message(), cause],
            _ => seq![self.message(), NO_IPV4_ADDRESS@],
        }
    }
}

impl PlanError {
    /// What the user is told, and the cause behind it, if there is one.
    pub fn failure(&self) -> (r: Failure)
        ensures
            r@ == self@.messages(),
    {
        let message = self.message();
        match self {
            PlanError::Route(e) => e.failure(),
            PlanError::InvalidDns(_) => caused(String::from_str(NO_ADDRESS), &message),
            PlanError::NoInterfaceIndex(cause) => caused(copy_text(cause), &message),
            _ => caused(String::from_str(NO_IPV4_ADDRESS), &message),
        }
    }

    /// What the user is told.
    pub fn message(&self) -> (r: String)
        ensures
            r@ == self@.message(),
    {
        let mut out = String::new();
        match self {
            PlanError::InvalidGateway(s) => {
                out.append("invalid VPN gateway address: ");
                out.append(s);
            },
            PlanError::InvalidAddress(s) => {
                out.append("invalid VPN address: ");
                out.append(s);
            },
            PlanError::InvalidMask(s) => {
                out.append("invalid VPN mask: ");
                out.append(s);
            },
            PlanError::Route(e) => {
                return e.message();
            },
            PlanError::InvalidDns(s) => {
                out.append("invalid VPN DNS address: ");
                out.append(s);
            },
            PlanError::NoInterfaceIndex(_) => {
                out.append("failed to query TUN interface index");
            },
        }
        proof {
            assert(out@ =~= self@.message());
        }
        out
    }
}

/// The routes of a list of rules, in order; the rules about IPv6 networks have none. The
/// first rule that is in error decides the error.
pub open spec fn rule_routes(rules: Seq<Seq<char>>) -> Result<Seq<WindowsRoute>, RouteErrorView>
    decreases rules.len(),
{
    if rules.len() == 0 {
        Ok(Seq::empty())
    } else {
        match rule_routes(rules.drop_last()) {
            Ok(front) => match rule_route(rules.last()) {
                Ok(Some(route)) => Ok(front.push(route)),
                Ok(None) => Ok(front),
                Err(e) => Err(e),
            },
            Err(e) => Err(e),
        }
    }
}

/// The number of rules that have no route, being about IPv6 networks.
pub open spec fn skipped_rules(rules: Seq<Seq<char>>) -> int {
    rules.len() - rule_routes(rules)->Ok_0.len()
}

/// `peer` does not lie in the network of `route`.
pub open spec fn spares(route: WindowsRoute, peer: Option<IpAddrView>) -> bool {
    match peer {
        Some(IpAddrView::V4(address)) => !covers(route, address),
        _ => true,
    }
}

/// `routes` is the plan made from the candidates: each route once, in order, without the
/// network of the tunnel itself and without the networks that the proxy lies in.
pub open spec fn is_selection(
    routes: Seq<WindowsRoute>,
    candidates: Seq<WindowsRoute>,
    local: WindowsRoute,
    peer: Option<IpAddrView>,
) -> bool {
    &&& ascending::<WindowsRoute>(routes)
    &&& forall|route: WindowsRoute| #[trigger]
        routes.contains(route) <==> candidates.contains(route) && route != local && spares(
            route,
            peer,
        )
}

/// Candidates and what is left out determine the selection.
pub proof fn selection_is_unique(
    a: Seq<WindowsRoute>,
    b: Seq<WindowsRoute>,
    candidates: Seq<WindowsRoute>,
    local: WindowsRoute,
    peer: Option<IpAddrView>,
)
    requires
        is_selection(a, candidates, local, peer),
        is_selection(b, candidates, local, peer),
    ensures
        a == b,
{
    assert forall|k: WindowsRoute| #[trigger] a.contains(k) <==> b.contains(k) by {}
    ascending_is_unique::<WindowsRoute>(a, b);
}

/// The routes of a list of rules and the number of the rules that have none.
fn parse_rules(rules: &Vec<String>) -> (r: Result<(Vec<WindowsRoute>, usize), RouteError>)
    ensures
        match rule_routes(texts(rules@)) {
            Ok(routes) => r matches Ok(p) && p.0@ == routes && p.1 == rules@.len() - routes.len(),
            Err(e) => r matches Err(x) && x@ == e,
        },
{
    let ghost all = texts(rules@);
    let mut out: Vec<WindowsRoute> = Vec::new();
    let mut skipped: usize = 0;
    let mut i: usize = 0;
    proof {
        assert(all.take(0) =~= Seq::<Seq<char>>::empty());
    }
    while i < rules.len()
        invariant
            i <= rules@.len(),
            all == texts(rules@),
            rule_routes(all.take(i as int)) == Ok::<Seq<WindowsRoute>, RouteErrorView>(out@),
            skipped + out@.len() == i,
        decreases rules.len() - i,
    {
        proof {
            assert(all.take(i + 1).drop_last() =~= all.take(i as int));
            assert(all.take(i + 1).last() == rules@[i as int]@);
        }
        match parse_split_tunnel_route(&rules[i]) {
            Ok(Some(route)) => {
                out.push(route);
            },
            Ok(None) => {
                skipped += 1;
            },
            Err(e) => {
                proof {
                    lemma_rule_error_stays(all, i + 1);
                }
                return Err(e);
            },
        }
        i += 1;
    }
    proof {
        assert(all.take(all.len() as int) =~= all);
    }
    Ok((out, skipped))
}

proof fn lemma_rule_error_stays(rules: Seq<Seq<char>>, i: int)
    requires
        0 <= i <= rules.len(),
        rule_routes(rules.take(i)) is Err,
    ensures
        rule_routes(rules) == rule_routes(rules.take(i)),
    decreases rules.len() - i,
{
    if i == rules.len() {
        assert(rules.take(i) =~= rules);
    } else {
        assert(rules.take(i + 1).drop_last() =~= rules.take(i));
        lemma_rule_error_stays(rules, i + 1);
    }
}

/// Leaves out the routes to networks that the proxy lies in.
pub fn exclude_proxy_peer(routes: &mut Vec<WindowsRoute>, peer: Option<IpAddr>)
    ensures
        final(routes)@ == old(routes)@.filter(
            |route: WindowsRoute| spares(route, maybe_address(peer)),
        ),
{
    let ghost keep = |route: WindowsRoute| spares(route, maybe_address(peer));
    let ghost all = routes@;
    let mut out: Vec<WindowsRoute> = Vec::new();
    let mut i: usize = 0;
    proof {
        reveal(Seq::filter);
        assert(all.take(0).filter(keep) =~= Seq::<WindowsRoute>::empty());
    }
    while i < routes.len()
        invariant
            i <= routes@.len(),
            routes@ == all,
            keep == (|route: WindowsRoute| spares(route, maybe_address(peer))),
            out@ == all.take(i as int).filter(keep),
        decreases routes.len() - i,
    {
        let route = routes[i];
        let kept = match peer {
            Some(IpAddr::V4(address)) => !route_contains(route, address),
            _ => true,
        };
        proof {
            reveal(Seq::filter);
            assert(all.take(i + 1).drop_last() =~= all.take(i as int));
            assert(all.take(i + 1).last() == route);
            assert(kept == keep(route));
        }
        if kept {
            out.push(route);
        }
        i += 1;
    }
    proof {
        assert(all.take(all.len() as int) =~= all);
    }
    *routes = out;
}

/// Picks the routes of a plan out of the candidates.
fn select_routes(candidates: Vec<WindowsRoute>, local: WindowsRoute, peer: Option<IpAddr>) -> (r:
    Vec<WindowsRoute>)
    ensures
        is_selection(r@, candidates@, local, maybe_address(peer)),
{
    let ghost all = candidates@;
    let ghost keep = |route: WindowsRoute| spares(route, maybe_address(peer));
    let mut kept = candidates;
    exclude_proxy_peer(&mut kept, peer);
    proof {
        assert forall|route: WindowsRoute| #[trigger]
            kept@.contains(route) <==> all.contains(route) && keep(route) by {
            lemma_filter_contains(all, keep, route);
        }
    }
    let mut out: Vec<WindowsRoute> = Vec::new();
    let mut i: usize = 0;
    while i < kept.len()
        invariant
            i <= kept@.len(),
            keys(out@) == out@,
            ascending::<WindowsRoute>(out@),
            forall|route: WindowsRoute| #[trigger]
                out@.contains(route) <==> kept@.take(i as int).contains(route) && route != local,
        decreases kept.len() - i,
    {
        let route = kept[i];
        let ghost before = out@;
        if route != local {
            insert_sorted(&mut out, route);
        }
        proof {
            assert(keys(out@) =~= out@);
            assert(keys(before) =~= before);
            assert forall|x: WindowsRoute| #[trigger]
                out@.contains(x) <==> kept@.take(i + 1).contains(x) && x != local by {
                assert(kept@.take(i + 1) =~= kept@.take(i as int).push(route));
                assert(keys(out@).contains(x) <==> out@.contains(x));
                assert(before.contains(x) <==> kept@.take(i as int).contains(x) && x != local);
                lemma_push_contains(kept@.take(i as int), route, x);
            }
        }
        i += 1;
    }
    proof {
        assert(kept@.take(kept@.len() as int) =~= kept@);
        assert forall|route: WindowsRoute| #[trigger]
            out@.contains(route) <==> all.contains(route) && route != local && spares(
                route,
                maybe_address(peer),
            ) by {
            assert(kept@.contains(route) <==> all.contains(route) && keep(route));
        }
    }
    out
}

proof fn lemma_filter_contains(
    s: Seq<WindowsRoute>,
    keep: spec_fn(WindowsRoute) -> bool,
    x: WindowsRoute,
)
    ensures
        s.filter(keep).contains(x) <==> s.contains(x) && keep(x),
    decreases s.len(),
{
    reveal(Seq::filter);
    if s.len() > 0 {
        let front = s.drop_last();
        lemma_filter_contains(front, keep, x);
        lemma_push_contains(front.filter(keep), s.last(), x);
        lemma_push_contains(front, s.last(), x);
        assert(front.push(s.last()) =~= s);
    }
}

/// The network of the tunnel itself.
pub open spec fn local_route(address: Ipv4Addr, mask: Ipv4Addr) -> WindowsRoute {
    WindowsRoute { destination: network(address, mask), netmask: mask }
}

/// The route to a single host.
pub open spec fn host_route(address: Ipv4Addr) -> WindowsRoute {
    WindowsRoute { destination: address, netmask: netmask(32) }
}

/// The routes of a tunnel without a policy for DNS.
#[derive(Debug)]
pub struct RoutePlan {
    pub gateway: Ipv4Addr,
    pub routes: Vec<WindowsRoute>,
    /// The number of rules that were left out, being about IPv6 networks.
    pub skipped: usize,
}

/// The network configuration of a tunnel under Linux.
#[derive(Debug)]
pub struct LinuxPlan {
    pub interface: String,
    pub gateway: Ipv4Addr,
    pub routes: Vec<WindowsRoute>,
    pub dns: IpAddr,
    /// The number of rules that were left out, being about IPv6 networks.
    pub skipped: usize,
}

/// What is wrong with the addresses of a tunnel and with its rules; the first thing that is
/// wrong decides. Checked are gateway, address, mask and rules, in this order.
pub open spec fn server_fault(server: ProxyServerView) -> Option<PlanErrorView> {
    if ipv4_value(server.gateway) is None {
        Some(PlanErrorView::InvalidGateway(server.gateway))
    } else if ipv4_value(server.address) is None {
        Some(PlanErrorView::InvalidAddress(server.address))
    } else if ipv4_value(server.mask) is None {
        Some(PlanErrorView::InvalidMask(server.mask))
    } else {
        match rule_routes(server.split_tunnel_routes) {
            Ok(_) => None,
            Err(e) => Some(PlanErrorView::Route(e)),
        }
    }
}

/// As [`server_fault`], and then the DNS server.
pub open spec fn linux_fault(server: ProxyServerView) -> Option<PlanErrorView> {
    if server_fault(server) is Some {
        server_fault(server)
    } else if ip_value(server.dns) is None {
        Some(PlanErrorView::InvalidDns(server.dns))
    } else {
        None
    }
}

/// The network of the tunnel that `server` describes.
pub open spec fn server_local_route(server: ProxyServerView) -> WindowsRoute {
    local_route(ipv4_value(server.address)->0, ipv4_value(server.mask)->0)
}

/// The candidates for the routes under Linux: those of the rules, and the DNS server.
pub open spec fn linux_candidates(server: ProxyServerView) -> Seq<WindowsRoute> {
    let ruled = rule_routes(server.split_tunnel_routes)->Ok_0;
    match ip_value(server.dns) {
        Some(IpAddrView::V4(dns)) => ruled.push(host_route(dns)),
        _ => ruled,
    }
}

/// A route belongs into a plan: a rule stands for it, or, where `with_dns` says so, it leads to the
/// IPv4 DNS server and to no other host; and it is not the network of the tunnel itself and does
/// not cover the proxy.
pub open spec fn is_planned(
    route: WindowsRoute,
    server: ProxyServerView,
    peer: Option<IpAddrView>,
    with_dns: bool,
) -> bool {
    &&& asked_for(server.split_tunnel_routes, route) || (with_dns && ip_value(server.dns) == Some(
        IpAddrView::V4(route.destination),
    ) && route.netmask.bits == 0xffff_ffff)
    &&& !(ipv4_value(server.mask) == Some(route.netmask) && route.destination.bits == ipv4_value(
        server.address,
    )->0.bits & route.netmask.bits)
    &&& !(peer matches Some(IpAddrView::V4(proxy)) && proxy.bits & route.netmask.bits
        == route.destination.bits)
}

/// The gateway, the network of the tunnel, and the routes of the rules.
fn read_server(server: &ProxyServer) -> (r: Result<
    (Ipv4Addr, WindowsRoute, Vec<WindowsRoute>, usize),
    PlanError,
>)
    ensures
        match server_fault(server@) {
            Some(e) => r matches Err(x) && x@ == e,
            None => {
                let ruled = rule_routes(server@.split_tunnel_routes)->Ok_0;
                &&& r matches Ok(p)
                &&& p.0 == ipv4_value(server@.gateway)->0
                &&& p.1 == server_local_route(server@)
                &&& p.2@ == ruled
                &&& p.3 == server@.split_tunnel_routes.len() - ruled.len()
            },
        },
{
    let gateway = match parse_ipv4(&server.gateway) {
        Some(a) => a,
        None => {
            return Err(PlanError::InvalidGateway(copy_text(&server.gateway)));
        },
    };
    let address = match parse_ipv4(&server.address) {
        Some(a) => a,
        None => {
            return Err(PlanError::InvalidAddress(copy_text(&server.address)));
        },
    };
    let mask = match parse_ipv4(&server.mask) {
        Some(a) => a,
        None => {
            return Err(PlanError::InvalidMask(copy_text(&server.mask)));
        },
    };
    let local = WindowsRoute { destination: normalize_network(address, mask), netmask: mask };
    match parse_rules(&server.split_tunnel_routes) {
        Ok((routes, skipped)) => Ok((gateway, local, routes, skipped)),
        Err(e) => Err(PlanError::Route(e)),
    }
}

/// The routes that the rules of `server` ask for.
pub fn plan_routes(server: &ProxyServer, peer: Option<IpAddr>) -> (r: Result<RoutePlan, PlanError>)
    ensures
        match server_fault(server@) {
            Some(e) => r matches Err(x) && x@ == e,
            None => {
                let ruled = rule_routes(server@.split_tunnel_routes)->Ok_0;
                &&& r matches Ok(plan)
                &&& plan.gateway == ipv4_value(server@.gateway)->0
                &&& is_selection(
                    plan.routes@,
                    ruled,
                    server_local_route(server@),
                    maybe_address(peer),
                )
                &&& forall|route: WindowsRoute| #[trigger]
                    plan.routes@.contains(route) <==> is_planned(
                        route,
                        server@,
                        maybe_address(peer),
                        false,
                    )
                &&& plan.skipped == server@.split_tunnel_routes.len() - ruled.len()
                &&& plan.skipped == skipped_rules(server@.split_tunnel_routes)
            },
        },
{
    match read_server(server) {
        Ok((gateway, local, candidates, skipped)) => {
            let routes = select_routes(candidates, local, peer);
            proof {
                assert forall|route: WindowsRoute| #[trigger]
                    routes@.contains(route) <==> is_planned(
                        route,
                        server@,
                        maybe_address(peer),
                        false,
                    ) by {
                    plan_holds_what_is_asked_for(routes@, server@, maybe_address(peer), route);
                }
            }
            Ok(RoutePlan { gateway, routes, skipped })
        },
        Err(e) => Err(e),
    }
}

/// The network configuration under Linux that `server` asks for.
pub fn plan_linux_network(
    interface: String,
    server: &ProxyServer,
    peer: Option<IpAddr>,
) -> (r: Result<LinuxPlan, PlanError>)
    ensures
        match linux_fault(server@) {
            Some(e) => r matches Err(x) && x@ == e,
            None => {
                let ruled = rule_routes(server@.split_tunnel_routes)->Ok_0;
                &&& r matches Ok(plan)
                &&& plan.interface@ == interface@
                &&& plan.gateway == ipv4_value(server@.gateway)->0
                &&& is_selection(
                    plan.routes@,
                    linux_candidates(server@),
                    server_local_route(server@),
                    maybe_address(peer),
                )
                &&& forall|route: WindowsRoute| #[trigger]
                    plan.routes@.contains(route) <==> is_planned(
                        route,
                        server@,
                        maybe_address(peer),
                        true,
                    )
                &&& Some(plan.dns@) == ip_value(server@.dns)
                &&& plan.skipped == server@.split_tunnel_routes.len() - ruled.len()
                &&& plan.skipped == skipped_rules(server@.split_tunnel_routes)
            },
        },
{
    match read_server(server) {
        Ok((gateway, local, ruled, skipped)) => {
            let mut candidates = ruled;
            let dns = match parse_ip(&server.dns) {
                Some(dns) => dns,
                None => {
                    return Err(PlanError::InvalidDns(copy_text(&server.dns)));
                },
            };
            if let IpAddr::V4(address) = dns {
                proof {
                    assert(0xffff_ffffu32 << 0u32 == 0xffff_ffffu32) by (bit_vector);
                }
                candidates.push(
                    WindowsRoute { destination: address, netmask: Ipv4Addr { bits: 0xffff_ffff } },
                );
            }
            let routes = select_routes(candidates, local, peer);
            proof {
                assert forall|route: WindowsRoute| #[trigger]
                    routes@.contains(route) <==> is_planned(
                        route,
                        server@,
                        maybe_address(peer),
                        true,
                    ) by {
                    linux_plan_holds_what_is_asked_for(
                        routes@,
                        server@,
                        maybe_address(peer),
                        route,
                    );
                }
            }
            Ok(LinuxPlan { interface, gateway, routes, dns, skipped })
        },
        Err(e) => Err(e),
    }
}

/// The route that a rule stands for, if there is one.
pub open spec fn stands_for(rule: Seq<char>, route: WindowsRoute) -> bool {
    rule_route(rule) == Ok::<Option<WindowsRoute>, RouteErrorView>(Some(route))
}

/// One of the rules stands for the route.
pub open spec fn asked_for(rules: Seq<Seq<char>>, route: WindowsRoute) -> bool {
    exists|i: int| 0 <= i < rules.len() && #[trigger] stands_for(rules[i], route)
}

proof fn lemma_asked_for_last(rules: Seq<Seq<char>>, route: WindowsRoute)
    requires
        rules.len() > 0,
    ensures
        asked_for(rules, route) <==> asked_for(rules.drop_last(), route) || stands_for(
            rules.last(),
            route,
        ),
{
    let front = rules.drop_last();
    if asked_for(front, route) {
        let i = choose|i: int| 0 <= i < front.len() && #[trigger] stands_for(front[i], route);
        assert(stands_for(rules[i], route));
    }
    if stands_for(rules.last(), route) {
        assert(stands_for(rules[rules.len() - 1], route));
    }
    if asked_for(rules, route) && !stands_for(rules.last(), route) {
        let i = choose|i: int| 0 <= i < rules.len() && #[trigger] stands_for(rules[i], route);
        assert(i < front.len());
        assert(stands_for(front[i], route));
    }
}

proof fn lemma_rule_routes(rules: Seq<Seq<char>>, route: WindowsRoute)
    requires
        rule_routes(rules) is Ok,
    ensures
        rule_routes(rules)->Ok_0.contains(route) <==> asked_for(rules, route),
    decreases rules.len(),
{
    if rules.len() > 0 {
        let front = rules.drop_last();
        let routes = rule_routes(front)->Ok_0;
        lemma_rule_routes(front, route);
        lemma_asked_for_last(rules, route);
        if let Ok(Some(last)) = rule_route(rules.last()) {
            lemma_push_contains(routes, last, route);
        }
    }
}

/// The routes of a plan are those that the rules stand for, but for the network of the tunnel
/// itself and the networks that the proxy lies in.
pub proof fn planned_routes_are_those_of_the_rules(
    routes: Seq<WindowsRoute>,
    rules: Seq<Seq<char>>,
    local: WindowsRoute,
    peer: Option<IpAddrView>,
)
    requires
        rule_routes(rules) is Ok,
        is_selection(routes, rule_routes(rules)->Ok_0, local, peer),
    ensures
        forall|route: WindowsRoute| #[trigger]
            routes.contains(route) <==> route != local && spares(route, peer) && asked_for(
                rules,
                route,
            ),
{
    assert forall|route: WindowsRoute| #[trigger]
        routes.contains(route) <==> route != local && spares(route, peer) && asked_for(
            rules,
            route,
        ) by {
        lemma_rule_routes(rules, route);
    }
}

/// A plan does not depend on the order of the rules, nor on how often one is given.
pub proof fn plan_ignores_the_order_of_rules(
    a: Seq<WindowsRoute>,
    b: Seq<WindowsRoute>,
    rules: Seq<Seq<char>>,
    others: Seq<Seq<char>>,
    local: WindowsRoute,
    peer: Option<IpAddrView>,
)
    requires
        rule_routes(rules) is Ok,
        rule_routes(others) is Ok,
        is_selection(a, rule_routes(rules)->Ok_0, local, peer),
        is_selection(b, rule_routes(others)->Ok_0, local, peer),
        forall|rule: Seq<char>| #[trigger] rules.contains(rule) <==> others.contains(rule),
    ensures
        a == b,
{
    assert forall|route: WindowsRoute| #[trigger] a.contains(route) <==> b.contains(route) by {
        lemma_same_rules(rules, others, route);
        lemma_same_rules(others, rules, route);
    }
    ascending_is_unique::<WindowsRoute>(a, b);
}

proof fn lemma_same_rules(rules: Seq<Seq<char>>, others: Seq<Seq<char>>, route: WindowsRoute)
    requires
        rule_routes(rules) is Ok,
        rule_routes(others) is Ok,
        forall|rule: Seq<char>| #[trigger] rules.contains(rule) ==> others.contains(rule),
    ensures
        rule_routes(rules)->Ok_0.contains(route) ==> rule_routes(others)->Ok_0.contains(route),
{
    lemma_rule_routes(rules, route);
    lemma_rule_routes(others, route);
    if rule_routes(rules)->Ok_0.contains(route) {
        let i = choose|i: int| 0 <= i < rules.len() && #[trigger] stands_for(rules[i], route);
        assert(rules.contains(rules[i]));
        assert(others.contains(rules[i]));
        let j = choose|j: int| 0 <= j < others.len() && others[j] == rules[i];
        assert(stands_for(others[j], route));
    }
}

/// No planned route covers the proxy: the packets of the tunnel itself do not go into it.
pub proof fn planned_routes_spare_the_proxy(
    routes: Seq<WindowsRoute>,
    candidates: Seq<WindowsRoute>,
    local: WindowsRoute,
    proxy: Ipv4Addr,
)
    requires
        is_selection(routes, candidates, local, Some(IpAddrView::V4(proxy))),
    ensures
        forall|i: int| 0 <= i < routes.len() ==> !covers(#[trigger] routes[i], proxy),
{
    assert forall|i: int| 0 <= i < routes.len() implies !covers(#[trigger] routes[i], proxy) by {
        assert(routes.contains(routes[i]));
        assert(spares(routes[i], Some(IpAddrView::V4(proxy))));
    }
}

/// Under Linux, an IPv4 DNS server has a route of its own into the tunnel, unless it is the
/// proxy, or the whole network of the tunnel.
pub proof fn dns_server_is_reached_through_the_tunnel(
    routes: Seq<WindowsRoute>,
    server: ProxyServerView,
    peer: Option<IpAddrView>,
    dns: Ipv4Addr,
)
    requires
        linux_fault(server) is None,
        is_selection(routes, linux_candidates(server), server_local_route(server), peer),
        ip_value(server.dns) == Some(IpAddrView::V4(dns)),
        peer != Some(IpAddrView::V4(dns)),
        server_local_route(server) != host_route(dns),
    ensures
        routes.contains(host_route(dns)),
        covers(host_route(dns), dns),
        forall|other: Ipv4Addr| #[trigger] covers(host_route(dns), other) ==> other == dns,
{
    assert(0xffff_ffffu32 << 0u32 == 0xffff_ffffu32) by (bit_vector);
    assert forall|other: Ipv4Addr| #[trigger] covers(host_route(dns), other) <==> other == dns by {
        let bits = other.bits;
        assert(bits & 0xffff_ffffu32 == bits) by (bit_vector);
    }
    let ruled = rule_routes(server.split_tunnel_routes)->Ok_0;
    lemma_push_contains(ruled, host_route(dns), host_route(dns));
    assert(linux_candidates(server).contains(host_route(dns)));
}

/// A route is planned under Linux exactly if one of the rules stands for it, or it leads to the
/// IPv4 DNS server and to no other host, and it is not the network of the tunnel itself and does
/// not cover the proxy.
pub proof fn linux_plan_holds_what_is_asked_for(
    routes: Seq<WindowsRoute>,
    server: ProxyServerView,
    peer: Option<IpAddrView>,
    route: WindowsRoute,
)
    requires
        linux_fault(server) is None,
        is_selection(routes, linux_candidates(server), server_local_route(server), peer),
    ensures
        routes.contains(route) <==> {
            &&& asked_for(server.split_tunnel_routes, route) || (ip_value(server.dns) == Some(
                IpAddrView::V4(route.destination),
            ) && route.netmask.bits == 0xffff_ffff)
            &&& !(ipv4_value(server.mask) == Some(route.netmask) && route.destination.bits
                == ipv4_value(server.address)->0.bits & route.netmask.bits)
            &&& !(peer matches Some(IpAddrView::V4(proxy)) && proxy.bits & route.netmask.bits
                == route.destination.bits)
        },
{
    assert(0xffff_ffffu32 << 0u32 == 0xffff_ffffu32) by (bit_vector);
    let rules = server.split_tunnel_routes;
    let ruled = rule_routes(rules)->Ok_0;
    lemma_rule_routes(rules, route);
    if let Some(IpAddrView::V4(dns)) = ip_value(server.dns) {
        lemma_push_contains(ruled, host_route(dns), route);
    }
    assert(linux_candidates(server).contains(route) <==> asked_for(rules, route) || (ip_value(
        server.dns,
    ) == Some(IpAddrView::V4(route.destination)) && route.netmask.bits == 0xffff_ffff));
    assert(routes.contains(route) <==> linux_candidates(server).contains(route) && route
        != server_local_route(server) && spares(route, peer));
}

/// A route is planned without a policy for DNS exactly if one of the rules stands for it, and it
/// is not the network of the tunnel itself and does not cover the proxy.
pub proof fn plan_holds_what_is_asked_for(
    routes: Seq<WindowsRoute>,
    server: ProxyServerView,
    peer: Option<IpAddrView>,
    route: WindowsRoute,
)
    requires
        server_fault(server) is None,
        is_selection(
            routes,
            rule_routes(server.split_tunnel_routes)->Ok_0,
            server_local_route(server),
            peer,
        ),
    ensures
        routes.contains(route) <==> {
            &&& asked_for(server.split_tunnel_routes, route)
            &&& !(ipv4_value(server.mask) == Some(route.netmask) && route.destination.bits
                == ipv4_value(server.address)->0.bits & route.netmask.bits)
            &&& !(peer matches Some(IpAddrView::V4(proxy)) && proxy.bits & route.netmask.bits
                == route.destination.bits)
        },
{
    lemma_rule_routes(server.split_tunnel_routes, route);
    assert(routes.contains(route) <==> rule_routes(server.split_tunnel_routes)->Ok_0.contains(route)
        && route != server_local_route(server) && spares(route, peer));
}

/// The routes of a plan come by ascending destination, and those to one destination by
/// ascending mask: so none comes twice.
pub proof fn planned_routes_are_in_order(
    routes: Seq<WindowsRoute>,
    candidates: Seq<WindowsRoute>,
    local: WindowsRoute,
    peer: Option<IpAddrView>,
    i: int,
    j: int,
)
    requires
        is_selection(routes, candidates, local, peer),
        0 <= i < j < routes.len(),
    ensures
        routes[i].destination.bits < routes[j].destination.bits || (routes[i].destination.bits
            == routes[j].destination.bits && routes[i].netmask.bits < routes[j].netmask.bits),
{
}

/// Rules are read one by one: the routes of two lists of rules, one behind the other, are the
/// routes of the first and behind them those of the second, and an error in the first list
/// decides.
pub proof fn rules_are_read_one_by_one(
    rules: Seq<Seq<char>>,
    others: Seq<Seq<char>>,
    rule: Seq<char>,
)
    ensures
        rule_routes(seq![rule]) == (match rule_route(rule) {
            Ok(Some(route)) => Ok(seq![route]),
            Ok(None) => Ok(Seq::empty()),
            Err(e) => Err(e),
        }),
        rule_routes(rules) is Err ==> rule_routes(rules + others) == rule_routes(rules),
        rule_routes(rules) is Ok && rule_routes(others) is Err ==> rule_routes(rules + others)
            == rule_routes(others),
        rule_routes(rules) is Ok && rule_routes(others) is Ok ==> rule_routes(rules + others)
            == Ok::<Seq<WindowsRoute>, RouteErrorView>(
            rule_routes(rules)->Ok_0 + rule_routes(others)->Ok_0,
        ),
    decreases others.len(),
{
    let one = seq![rule];
    assert(one.drop_last() =~= Seq::<Seq<char>>::empty());
    assert(rule_routes(one.drop_last()) == Ok::<Seq<WindowsRoute>, RouteErrorView>(Seq::empty()));
    if let Ok(Some(route)) = rule_route(rule) {
        assert(Seq::<WindowsRoute>::empty().push(route) =~= seq![route]);
    }
    if others.len() == 0 {
        assert(rules + others =~= rules);
        if let Ok(routes) = rule_routes(rules) {
            assert(routes + Seq::<WindowsRoute>::empty() =~= routes);
        }
    } else {
        let front = others.drop_last();
        rules_are_read_one_by_one(rules, front, rule);
        assert((rules + others).drop_last() =~= rules + front);
        assert((rules + others).last() == others.last());
        if rule_routes(rules) is Ok && rule_routes(others) is Ok {
            let a = rule_routes(rules)->Ok_0;
            let b = rule_routes(front)->Ok_0;
            if let Ok(Some(route)) = rule_route(others.last()) {
                assert((a + b).push(route) =~= a + b.push(route));
            }
        }
    }
}

/// There is a plan exactly if gateway, address and mask of the tunnel are IPv4 addresses and
/// each rule can be read; under Linux, the DNS server has to be an address too. What comes first
/// in this order is told.
pub proof fn plan_fails_for_what_cannot_be_read(server: ProxyServerView)
    ensures
        server_fault(server) is None <==> ipv4_value(server.gateway) is Some && ipv4_value(
            server.address,
        ) is Some && ipv4_value(server.mask) is Some && (forall|i: int|
            0 <= i < server.split_tunnel_routes.len() ==> rule_route(
                #[trigger] server.split_tunnel_routes[i],
            ) is Ok),
        linux_fault(server) is None <==> server_fault(server) is None && ip_value(server.dns)
            is Some,
        server_fault(server) is Some ==> linux_fault(server) == server_fault(server),
        linux_fault(server) matches Some(PlanErrorView::InvalidGateway(s)) ==> s == server.gateway
            && ipv4_value(s) is None,
        linux_fault(server) matches Some(PlanErrorView::InvalidAddress(s)) ==> s == server.address
            && ipv4_value(s) is None,
        linux_fault(server) matches Some(PlanErrorView::InvalidMask(s)) ==> s == server.mask
            && ipv4_value(s) is None,
        linux_fault(server) matches Some(PlanErrorView::InvalidDns(s)) ==> s == server.dns
            && ip_value(s) is None,
        linux_fault(server) matches Some(PlanErrorView::Route(e)) ==> exists|i: int|
            0 <= i < server.split_tunnel_routes.len() && rule_route(
                #[trigger] server.split_tunnel_routes[i],
            ) == Err::<Option<WindowsRoute>, RouteErrorView>(e),
        !(linux_fault(server) matches Some(PlanErrorView::NoInterfaceIndex(_))),
        linux_fault(server) matches Some(e) ==> {
            &&& !(e is InvalidGateway) ==> ipv4_value(server.gateway) is Some
            &&& e is InvalidMask || e is Route || e is InvalidDns ==> ipv4_value(server.address)
                is Some
            &&& e is Route || e is InvalidDns ==> ipv4_value(server.mask) is Some
            &&& e is InvalidDns ==> rule_routes(server.split_tunnel_routes) is Ok
        },
{
    lemma_rules_in_error(server.split_tunnel_routes);
}

proof fn lemma_rules_in_error(rules: Seq<Seq<char>>)
    ensures
        rule_routes(rules) is Ok <==> forall|i: int|
            0 <= i < rules.len() ==> rule_route(#[trigger] rules[i]) is Ok,
        rule_routes(rules) matches Err(e) ==> exists|i: int|
            0 <= i < rules.len() && rule_route(#[trigger] rules[i]) == Err::<
                Option<WindowsRoute>,
                RouteErrorView,
            >(e),
    decreases rules.len(),
{
    if rules.len() > 0 {
        let front = rules.drop_last();
        let n = rules.len() - 1;
        lemma_rules_in_error(front);
        assert(forall|i: int| 0 <= i < front.len() ==> front[i] == #[trigger] rules[i]);
        assert(rules[n] == rules.last());
        if rule_routes(front) is Ok {
            assert forall|i: int| 0 <= i < n implies rule_route(#[trigger] rules[i]) is Ok by {
                assert(rule_route(front[i]) is Ok);
            }
        } else {
            let e = rule_routes(front)->Err_0;
            let i = choose|i: int|
                0 <= i < front.len() && rule_route(#[trigger] front[i]) == Err::<
                    Option<WindowsRoute>,
                    RouteErrorView,
                >(e);
            assert(rule_route(rules[i]) is Err);
        }
    }
}

/// Every rule has one route or none, and those that have none are counted.
pub proof fn rules_without_a_route_are_counted(rules: Seq<Seq<char>>, rule: Seq<char>)
    requires
        rule_routes(rules) is Ok,
        rule_route(rule) is Ok,
    ensures
        skipped_rules(Seq::empty()) == 0,
        rule_route(rule)->Ok_0 is Some ==> skipped_rules(rules.push(rule)) == skipped_rules(rules),
        rule_route(rule)->Ok_0 is None ==> skipped_rules(rules.push(rule)) == skipped_rules(rules)
            + 1,
        0 <= skipped_rules(rules) <= rules.len(),
    decreases rules.len(),
{
    assert(rules.push(rule).drop_last() =~= rules);
    if rules.len() > 0 {
        rules_without_a_route_are_counted(rules.drop_last(), rules.last());
        assert(rules.drop_last().push(rules.last()) =~= rules);
    }
}

} // verus!
