//! What the user is told names what is wrong, and tells one thing from another.

use vstd::prelude::*;
use crate::cli::commands::{quoted_text, Change};
use crate::cli::credentials::{shown_credentials, CredentialsView};
use crate::cli::linux::{gap_message, route_context};
use crate::cli::plan::PlanErrorView;
use crate::cli::routes::{RouteErrorView, WindowsRoute};
use crate::net::{ipv4_text, ipv4_text_reads_back, Ipv4Addr};
use crate::numeral::{lemma_numeral, numeral};
use crate::text::occurs;
use crate::text_laws::pattern_occurs_where_it_stands;
use crate::vpn::actor::{write_context, WriteTrouble};
use crate::vpn::service::{wait_messages, PollerWait, ServiceError};
use crate::vpn::start::{trouble_messages, Trouble, PROXY_ADDRESS, PROXY_NAME};

verus! {

/// `s` ends with `end`.
pub open spec fn ends_with(s: Seq<char>, end: Seq<char>) -> bool {
    s.len() >= end.len() && s.skip(s.len() - end.len()) == end
}

proof fn lemma_ends(a: Seq<char>, b: Seq<char>)
    ensures
        ends_with(a + b, b),
{
    let s = a + b;
    assert(s.skip(s.len() - b.len()) =~= b);
}

/// What is said of a rule that cannot be read ends with what is wrong: the prefix length, the mask
/// or the text. It comes first; only what is behind a slash has a cause behind it.
pub proof fn route_errors_name_what_is_wrong(e: RouteErrorView)
    ensures
        e.messages().len() >= 1,
        e.messages()[0] == e.message(),
        e.messages().len() == 2 <==> e is InvalidNetmaskSuffix,
        e.messages().len() <= 2,
        match e {
            RouteErrorView::InvalidPrefix(p) => ends_with(e.message(), numeral(p as nat, 10)),
            RouteErrorView::NonContiguousNetmask(m) => ends_with(e.message(), ipv4_text(m)),
            RouteErrorView::EmptyRoute => true,
            RouteErrorView::InvalidRuleFormat(s) => ends_with(e.message(), s),
            RouteErrorView::InvalidAddress(s) => ends_with(e.message(), s),
            RouteErrorView::InvalidNetmaskSuffix(s) => ends_with(e.message(), s),
            RouteErrorView::InvalidHostRoute(s) => ends_with(e.message(), s),
        },
{
    match e {
        RouteErrorView::InvalidPrefix(p) => {
            lemma_ends("invalid IPv4 prefix length: "@, numeral(p as nat, 10));
        },
        RouteErrorView::NonContiguousNetmask(m) => {
            lemma_ends("non-contiguous IPv4 netmask: "@, ipv4_text(m));
        },
        RouteErrorView::EmptyRoute => {},
        RouteErrorView::InvalidRuleFormat(s) => {
            lemma_ends("invalid split-tunnel rule format: "@, s);
        },
        RouteErrorView::InvalidAddress(s) => {
            lemma_ends("invalid split-tunnel IP address: "@, s);
        },
        RouteErrorView::InvalidNetmaskSuffix(s) => {
            lemma_ends("invalid split-tunnel IPv4 netmask suffix: "@, s);
        },
        RouteErrorView::InvalidHostRoute(s) => {
            lemma_ends("invalid split-tunnel IP host route: "@, s);
        },
    }
}

/// The number of characters in front of what a message names.
spec fn head_length(e: RouteErrorView) -> int {
    match e {
        RouteErrorView::InvalidPrefix(_) => 28,
        RouteErrorView::NonContiguousNetmask(_) => 29,
        RouteErrorView::EmptyRoute => 36,
        RouteErrorView::InvalidRuleFormat(_) => 34,
        RouteErrorView::InvalidAddress(_) => 33,
        RouteErrorView::InvalidNetmaskSuffix(_) => 42,
        RouteErrorView::InvalidHostRoute(_) => 36,
    }
}

/// A character by which the message of an error differs from those of the errors before it.
proof fn lemma_heads(e: RouteErrorView)
    ensures
        ({
            let m = e.message();
            &&& m.len() >= head_length(e)
            &&& m.len() > 24
            &&& e is NonContiguousNetmask ==> m[0] == 'n'
            &&& e is EmptyRoute ==> m[0] == 'r'
            &&& e is InvalidPrefix ==> m[0] == 'i' && m[8] == 'I'
            &&& e is InvalidRuleFormat ==> m[0] == 'i' && m[8] == 's' && m[21] == 'r'
            &&& e is InvalidAddress ==> m[0] == 'i' && m[8] == 's' && m[21] == 'I' && m[23] == ' '
                && m[24] == 'a'
            &&& e is InvalidHostRoute ==> m[0] == 'i' && m[8] == 's' && m[21] == 'I' && m[23] == ' '
                && m[24] == 'h'
            &&& e is InvalidNetmaskSuffix ==> m[0] == 'i' && m[8] == 's' && m[21] == 'I' && m[23]
                == 'v'
        }),
{
    match e {
        RouteErrorView::InvalidPrefix(_) => {
            reveal_strlit("invalid IPv4 prefix length: ");
        },
        RouteErrorView::NonContiguousNetmask(_) => {
            reveal_strlit("non-contiguous IPv4 netmask: ");
        },
        RouteErrorView::EmptyRoute => {
            reveal_strlit("received an empty split-tunnel route");
        },
        RouteErrorView::InvalidRuleFormat(_) => {
            reveal_strlit("invalid split-tunnel rule format: ");
        },
        RouteErrorView::InvalidAddress(_) => {
            reveal_strlit("invalid split-tunnel IP address: ");
        },
        RouteErrorView::InvalidNetmaskSuffix(_) => {
            reveal_strlit("invalid split-tunnel IPv4 netmask suffix: ");
        },
        RouteErrorView::InvalidHostRoute(_) => {
            reveal_strlit("invalid split-tunnel IP host route: ");
        },
    }
}

/// Two errors about rules are never reported alike: neither two of different kinds, nor two about
/// different texts, masks or prefix lengths.
pub proof fn route_errors_are_told_apart(a: RouteErrorView, b: RouteErrorView)
    requires
        a.message() == b.message(),
    ensures
        a == b,
{
    lemma_heads(a);
    lemma_heads(b);
    route_errors_name_what_is_wrong(a);
    route_errors_name_what_is_wrong(b);
    match (a, b) {
        (RouteErrorView::InvalidPrefix(p), RouteErrorView::InvalidPrefix(q)) => {
            let head = "invalid IPv4 prefix length: "@;
            lemma_same_rest(head, numeral(p as nat, 10), numeral(q as nat, 10));
            lemma_numeral(p as nat, 10);
            lemma_numeral(q as nat, 10);
        },
        (RouteErrorView::NonContiguousNetmask(m), RouteErrorView::NonContiguousNetmask(n)) => {
            lemma_same_rest("non-contiguous IPv4 netmask: "@, ipv4_text(m), ipv4_text(n));
            ipv4_text_reads_back(m);
            ipv4_text_reads_back(n);
        },
        (RouteErrorView::InvalidRuleFormat(s), RouteErrorView::InvalidRuleFormat(t)) => {
            lemma_same_rest("invalid split-tunnel rule format: "@, s, t);
        },
        (RouteErrorView::InvalidAddress(s), RouteErrorView::InvalidAddress(t)) => {
            lemma_same_rest("invalid split-tunnel IP address: "@, s, t);
        },
        (RouteErrorView::InvalidNetmaskSuffix(s), RouteErrorView::InvalidNetmaskSuffix(t)) => {
            lemma_same_rest("invalid split-tunnel IPv4 netmask suffix: "@, s, t);
        },
        (RouteErrorView::InvalidHostRoute(s), RouteErrorView::InvalidHostRoute(t)) => {
            lemma_same_rest("invalid split-tunnel IP host route: "@, s, t);
        },
        _ => {},
    }
}

proof fn lemma_same_rest(head: Seq<char>, a: Seq<char>, b: Seq<char>)
    requires
        head + a == head + b,
    ensures
        a == b,
{
    assert((head + a).skip(head.len() as int) =~= a);
    assert((head + b).skip(head.len() as int) =~= b);
}

/// What is said of a tunnel without a plan ends with what is wrong, and has a cause behind it; what
/// is wrong with a rule is said as it is of the rule alone. Why the system does not tell the number
/// of an interface is the cause.
pub proof fn plan_errors_name_what_is_wrong(e: PlanErrorView)
    ensures
        match e {
            PlanErrorView::InvalidGateway(s) => ends_with(e.message(), s),
            PlanErrorView::InvalidAddress(s) => ends_with(e.message(), s),
            PlanErrorView::InvalidMask(s) => ends_with(e.message(), s),
            PlanErrorView::InvalidDns(s) => ends_with(e.message(), s),
            PlanErrorView::Route(route) => e.message() == route.message() && e.messages()
                == route.messages(),
            PlanErrorView::NoInterfaceIndex(cause) => e.messages().len() == 2 && e.messages()[1]
                == cause,
        },
        !(e is Route) ==> e.messages().len() == 2,
        e.messages()[0] == e.message(),
{
    match e {
        PlanErrorView::InvalidGateway(s) => {
            lemma_ends("invalid VPN gateway address: "@, s);
        },
        PlanErrorView::InvalidAddress(s) => {
            lemma_ends("invalid VPN address: "@, s);
        },
        PlanErrorView::InvalidMask(s) => {
            lemma_ends("invalid VPN mask: "@, s);
        },
        PlanErrorView::InvalidDns(s) => {
            lemma_ends("invalid VPN DNS address: "@, s);
        },
        PlanErrorView::Route(route) => {
            route_errors_name_what_is_wrong(route);
        },
        PlanErrorView::NoInterfaceIndex(_) => {},
    }
}

/// Texts, masks and addresses that are wrong are not taken for one another.
pub proof fn plan_errors_are_told_apart(a: Seq<char>, b: Seq<char>)
    ensures
        PlanErrorView::InvalidGateway(a).message() != PlanErrorView::InvalidAddress(b).message(),
        PlanErrorView::InvalidGateway(a).message() != PlanErrorView::InvalidMask(b).message(),
        PlanErrorView::InvalidGateway(a).message() != PlanErrorView::InvalidDns(b).message(),
        PlanErrorView::InvalidAddress(a).message() != PlanErrorView::InvalidMask(b).message(),
        PlanErrorView::InvalidAddress(a).message() != PlanErrorView::InvalidDns(b).message(),
        PlanErrorView::InvalidMask(a).message() != PlanErrorView::InvalidDns(b).message(),
{
    reveal_strlit("invalid VPN gateway address: ");
    reveal_strlit("invalid VPN address: ");
    reveal_strlit("invalid VPN mask: ");
    reveal_strlit("invalid VPN DNS address: ");
    assert(PlanErrorView::InvalidGateway(a).message()[12] == 'g');
    assert(PlanErrorView::InvalidAddress(a).message()[12] == 'a');
    assert(PlanErrorView::InvalidAddress(b).message()[12] == 'a');
    assert(PlanErrorView::InvalidMask(a).message()[12] == 'm');
    assert(PlanErrorView::InvalidMask(b).message()[12] == 'm');
    assert(PlanErrorView::InvalidDns(b).message()[12] == 'D');
}

/// What is said of a route that cannot be changed names its network and its gateway, and whether it
/// was to be added or removed.
pub proof fn route_contexts_name_the_route(destination: Seq<char>, gateway: Ipv4Addr)
    ensures
        forall|change: Change| occurs(
            destination,
            #[trigger] route_context(change, destination, gateway),
        ),
        forall|change: Change| ends_with(
            #[trigger] route_context(change, destination, gateway),
            ipv4_text(gateway),
        ),
        route_context(Change::Add, destination, gateway) != route_context(
            Change::Delete,
            destination,
            gateway,
        ),
{
    assert forall|change: Change| occurs(
        destination,
        #[trigger] route_context(change, destination, gateway),
    ) && ends_with(route_context(change, destination, gateway), ipv4_text(gateway)) by {
        let head = match change {
            Change::Add => "failed to add split-tunnel route "@,
            Change::Delete => "failed to delete split-tunnel route "@,
        };
        let rest = " via "@ + ipv4_text(gateway);
        pattern_occurs_where_it_stands(head, destination, rest, head);
        assert(route_context(change, destination, gateway) =~= head + destination + rest);
        lemma_ends(head + destination + " via "@, ipv4_text(gateway));
    }
    reveal_strlit("failed to add split-tunnel route ");
    reveal_strlit("failed to delete split-tunnel route ");
    assert(route_context(Change::Add, destination, gateway)[10] == 'a');
    assert(route_context(Change::Delete, destination, gateway)[10] == 'd');
}

/// Diagnostics show the user of an account.
pub proof fn shown_credentials_show_the_user(c: CredentialsView)
    ensures
        occurs(quoted_text(c.user), shown_credentials(c)),
{
    let head = "SavedCredentials { user: "@;
    let rest = ", password: "@ + quoted_text("[REDACTED]"@) + " }"@;
    pattern_occurs_where_it_stands(head, quoted_text(c.user), rest, head);
    assert(shown_credentials(c) =~= head + quoted_text(c.user) + rest);
}

/// No two reasons why the service does not do something are told alike.
pub proof fn service_errors_are_told_apart(a: ServiceError, b: ServiceError)
    requires
        a.text() == b.text(),
    ensures
        a == b,
{
    lemma_service_text(a);
    lemma_service_text(b);
}

/// The length of a text, its first character and its ninth.
proof fn lemma_service_text(e: ServiceError)
    ensures
        ({
            let t = e.text();
            match e {
                ServiceError::AlreadyRunning => t.len() == 26 && t[0] == 's',
                ServiceError::StillStarting => t.len() == 25,
                ServiceError::NotRunning => t.len() == 22 && t[0] == 's',
                ServiceError::StartCancelled => t.len() == 55,
                ServiceError::PollerPanicked => t.len() == 22 && t[0] == 'p',
                ServiceError::QueueClosed => t.len() == 27 && t[8] == 'p',
                ServiceError::CommandNotSent => t.len() == 39,
                ServiceError::CommandNotAnswered => t.len() == 38,
                ServiceError::SessionLockPoisoned => t.len() == 27 && t[8] == 's',
                ServiceError::PollerLockPoisoned => t.len() == 26 && t[0] == 'p',
            }
        }),
{
    match e {
        ServiceError::AlreadyRunning => {
            reveal_strlit("service is already running");
        },
        ServiceError::StillStarting => {
            reveal_strlit("service is still starting");
        },
        ServiceError::NotRunning => {
            reveal_strlit("service is not running");
        },
        ServiceError::StartCancelled => {
            reveal_strlit("service start cancelled before initialization completed");
        },
        ServiceError::PollerPanicked => {
            reveal_strlit("poller thread panicked");
        },
        ServiceError::QueueClosed => {
            reveal_strlit("session packet queue closed");
        },
        ServiceError::CommandNotSent => {
            reveal_strlit("failed to send command to session actor");
        },
        ServiceError::CommandNotAnswered => {
            reveal_strlit("session actor dropped command response");
        },
        ServiceError::SessionLockPoisoned => {
            reveal_strlit("session state lock poisoned");
        },
        ServiceError::PollerLockPoisoned => {
            reveal_strlit("poller state lock poisoned");
        },
    }
}

/// Whatever could not be written is told apart, and so is what a poller was waited for; the cause
/// of the latter comes last.
pub proof fn troubles_are_told_apart(a: WriteTrouble, b: WriteTrouble, fault: ServiceError)
    ensures
        write_context(a) == write_context(b) ==> a == b,
        wait_messages(PollerWait::Stopping, fault)[0] != wait_messages(
            PollerWait::Restarting,
            fault,
        )[0],
        wait_messages(PollerWait::Stopping, fault).len() == 2,
        wait_messages(PollerWait::Restarting, fault).len() == 2,
        wait_messages(PollerWait::Stopping, fault)[1] == fault.text(),
        wait_messages(PollerWait::Restarting, fault)[1] == fault.text(),
{
    reveal_strlit("failed to write raw packet to proxy");
    reveal_strlit("failed to build TCP packet");
    reveal_strlit("failed to write TCP packet to proxy");
    reveal_strlit("failed to write heartbeat to proxy");
    assert(write_context(WriteTrouble::RawWrite)[16] == 'r');
    assert(write_context(WriteTrouble::TcpWrite)[16] == 'T');
    assert(write_context(WriteTrouble::HeartbeatWrite)[16] == 'h');
    assert(write_context(WriteTrouble::TcpBuild)[10] == 'b');
    assert(write_context(WriteTrouble::RawWrite)[10] == 'w');
    assert(write_context(WriteTrouble::TcpWrite)[10] == 'w');
    assert(write_context(WriteTrouble::HeartbeatWrite)[10] == 'w');
    reveal_strlit("poller thread panicked while stopping");
    reveal_strlit("poller thread panicked while restarting");
    assert(wait_messages(PollerWait::Stopping, fault)[0].len() == 37);
    assert(wait_messages(PollerWait::Restarting, fault)[0].len() == 39);
}

/// The trouble that has words of its own, in front of its cause: all but a bad name of the proxy,
/// which is one message with its cause, and a bad answer, which speaks for itself.
pub open spec fn has_context(trouble: Trouble) -> bool {
    trouble != Trouble::ServerName && trouble != Trouble::Answer
}

/// Different troubles of a start are told apart by their first message.
pub proof fn start_troubles_are_told_apart(a: Trouble, b: Trouble, cause: Seq<Seq<char>>)
    requires
        has_context(a),
        has_context(b),
        trouble_messages(a, cause)[0] == trouble_messages(b, cause)[0],
    ensures
        a == b,
{
    lemma_trouble_text(a, cause);
    lemma_trouble_text(b, cause);
}

proof fn lemma_trouble_text(trouble: Trouble, cause: Seq<Seq<char>>)
    requires
        has_context(trouble),
    ensures
        trouble_messages(trouble, cause)[0].len() == (match trouble {
            Trouble::Authorization => 34int,
            Trouble::Connection => 58,
            Trouble::PeerAddress => 34,
            Trouble::LocalAddress => 35,
            Trouble::Tls => 41,
            Trouble::Packet => 36,
            Trouble::Sending => 35,
            _ => 0,
        }),
        trouble == Trouble::Authorization ==> trouble_messages(trouble, cause)[0][10] == 'a',
        trouble == Trouble::PeerAddress ==> trouble_messages(trouble, cause)[0][10] == 'q',
        trouble == Trouble::LocalAddress ==> trouble_messages(trouble, cause)[0][10] == 'q',
        trouble == Trouble::Sending ==> trouble_messages(trouble, cause)[0][10] == 's',
{
    match trouble {
        Trouble::Authorization => {
            reveal_strlit("failed to authorize against webvpn");
        },
        Trouble::Connection => {
            reveal_strlit("failed to connect to proxy server at zmvpn.cczu.edu.cn:443");
        },
        Trouble::PeerAddress => {
            reveal_strlit("failed to query proxy peer address");
        },
        Trouble::LocalAddress => {
            reveal_strlit("failed to query proxy local address");
        },
        Trouble::Tls => {
            reveal_strlit("failed to establish TLS with proxy server");
        },
        Trouble::Packet => {
            reveal_strlit("failed to build authorization packet");
        },
        Trouble::Sending => {
            reveal_strlit("failed to send authorization packet");
        },
        _ => {},
    }
}

/// What is said of a route with a mask that has gaps is one message, and ends with the mask.
pub proof fn gap_messages_name_the_mask(route: WindowsRoute)
    ensures
        gap_message(route).len() == 1,
        ends_with(gap_message(route)[0], ipv4_text(route.netmask)),
{
    route_errors_name_what_is_wrong(RouteErrorView::NonContiguousNetmask(route.netmask));
}

/// The proxy is reached by its name, and at the port of HTTPS; that it cannot be reached is said
/// with both, and that its name is bad with the name.
pub proof fn proxy_is_named(cause: Seq<Seq<char>>)
    ensures
        PROXY_ADDRESS@ == PROXY_NAME@ + ":443"@,
        ends_with(trouble_messages(Trouble::Connection, cause)[0], PROXY_ADDRESS@),
        occurs(PROXY_NAME@, trouble_messages(Trouble::ServerName, cause)[0]),
{
    reveal_strlit("zmvpn.cczu.edu.cn:443");
    reveal_strlit("zmvpn.cczu.edu.cn");
    reveal_strlit(":443");
    assert(PROXY_ADDRESS@ =~= PROXY_NAME@ + ":443"@);
    reveal_strlit("failed to connect to proxy server at zmvpn.cczu.edu.cn:443");
    let said = trouble_messages(Trouble::Connection, cause)[0];
    assert(said.skip(said.len() - PROXY_ADDRESS@.len()) =~= PROXY_ADDRESS@);
    reveal_strlit("invalid proxy server name zmvpn.cczu.edu.cn: ");
    let whole = trouble_messages(Trouble::ServerName, cause)[0];
    let head = whole.take(26);
    let rest = whole.skip(43);
    pattern_occurs_where_it_stands(head, PROXY_NAME@, rest, whole);
    assert(whole =~= head + PROXY_NAME@ + rest);
}

} // verus!
