//! Split-tunnel routes: the rules that the portal hands out, and what they stand for.

use vstd::prelude::*;
use crate::failure::{caused, Failure};
use crate::net::{
    ip_value, ipv4_text, ipv4_value, parse_ip_chars, parse_ipv4_chars, IpAddr, IpAddrView, Ipv4Addr,
    NO_IPV4_ADDRESS,
};
use crate::numeral::{all_digits, number, numeral, parse_number, push_number};
use crate::text::{
    contents, first_index, lemma_first_index, part, pieces, position, split, to_chars, to_text,
    trim, trimmed,
};

verus! {

/// An IPv4 network that traffic is routed to: its address and its mask.
#[derive(Debug, Clone, Copy, PartialEq, Eq, PartialOrd, Ord, Structural)]
pub struct WindowsRoute {
    pub destination: Ipv4Addr,
    pub netmask: Ipv4Addr,
}

/// Why a rule stands for no route.
#[derive(Debug)]
pub enum RouteError {
    /// The prefix length is above 32.
    InvalidPrefix(u8),
    /// The set bits of the mask are not its leading bits.
    NonContiguousNetmask(Ipv4Addr),
    /// The rule is blank.
    EmptyRoute,
    /// The rule has semicolons, but not two of them.
    InvalidRuleFormat(String),
    /// What stands before the slash is no address.
    InvalidAddress(String),
    /// What stands behind the slash is neither a prefix length nor a mask.
    InvalidNetmaskSuffix(String),
    /// The target has no slash and is no address.
    InvalidHostRoute(String),
}

/// A [`RouteError`] with its text as characters.
pub enum RouteErrorView {
    InvalidPrefix(u8),
    NonContiguousNetmask(Ipv4Addr),
    EmptyRoute,
    InvalidRuleFormat(Seq<char>),
    InvalidAddress(Seq<char>),
    InvalidNetmaskSuffix(Seq<char>),
    InvalidHostRoute(Seq<char>),
}

impl View for RouteError {
    type V = RouteErrorView;

    open spec fn view(&self) -> RouteErrorView {
        match *self {
            RouteError::InvalidPrefix(p) => RouteErrorView::InvalidPrefix(p),
            RouteError::NonContiguousNetmask(m) => RouteErrorView::NonContiguousNetmask(m),
            RouteError::EmptyRoute => RouteErrorView::EmptyRoute,
            RouteError::InvalidRuleFormat(s) => RouteErrorView::InvalidRuleFormat(s@),
            RouteError::InvalidAddress(s) => RouteErrorView::InvalidAddress(s@),
            RouteError::InvalidNetmaskSuffix(s) => RouteErrorView::InvalidNetmaskSuffix(s@),
            RouteError::InvalidHostRoute(s) => RouteErrorView::InvalidHostRoute(s@),
        }
    }
}

impl RouteErrorView {
    /// What the user is told.
    pub open spec fn message(self) -> Seq<char> {
        match self {
            RouteErrorView::InvalidPrefix(p) => "invalid IPv4 prefix length: "@ + numeral(
                p as nat,
                10,
            ),
            RouteErrorView::NonContiguousNetmask(m) => "non-contiguous IPv4 netmask: "@ + ipv4_text(
                m,
            ),
            RouteErrorView::EmptyRoute => "received an empty split-tunnel route"@,
            RouteErrorView::InvalidRuleFormat(s) => "invalid split-tunnel rule format: "@ + s,
            RouteErrorView::InvalidAddress(s) => "invalid split-tunnel IP address: "@ + s,
            RouteErrorView::InvalidNetmaskSuffix(s) =>
                "invalid split-tunnel IPv4 netmask suffix: "@ + s,
            RouteErrorView::InvalidHostRoute(s) => "invalid split-tunnel IP host route: "@ + s,
        }
    }
}

impl RouteErrorView {
    /// What the user is told, and the cause behind it, if there is one.
    pub open spec fn messages(self) -> Seq<Seq<char>> {
        match self {
            RouteErrorView::InvalidNetmaskSuffix(_) => seq![self.message(), NO_IPV4_ADDRESS@],
            _ => seq![self.message()],
        }
    }
}

impl RouteError {
    /// What the user is told, and the cause behind it, if there is one.
    pub fn failure(&self) -> (r: Failure)
        ensures
            r@ == self@.messages(),
    {
        let message = self.message();
        match self {
            RouteError::InvalidNetmaskSuffix(_) => caused(
                String::from_str(NO_IPV4_ADDRESS),
                &message,
            ),
            _ => Failure::new(message),
        }
    }

    /// What the user is told.
    pub fn message(&self) -> (r: String)
        ensures
            r@ == self@.message(),
    {
        let mut out = String::new();
        match self {
            RouteError::InvalidPrefix(p) => {
                out.append("invalid IPv4 prefix length: ");
                push_number(&mut out, *p as u32, 10);
            },
            RouteError::NonContiguousNetmask(m) => {
                out.append("non-contiguous IPv4 netmask: ");
                m.push_text(&mut out);
            },
            RouteError::EmptyRoute => {
                out.append("received an empty split-tunnel route");
            },
            RouteError::InvalidRuleFormat(s) => {
                out.append("invalid split-tunnel rule format: ");
                out.append(s);
            },
            RouteError::InvalidAddress(s) => {
                out.append("invalid split-tunnel IP address: ");
                out.append(s);
            },
            RouteError::InvalidNetmaskSuffix(s) => {
                out.append("invalid split-tunnel IPv4 netmask suffix: ");
                out.append(s);
            },
            RouteError::InvalidHostRoute(s) => {
                out.append("invalid split-tunnel IP host route: ");
                out.append(s);
            },
        }
        proof {
            assert(out@ =~= self@.message());
        }
        out
    }
}

/// The mask whose `prefix` leading bits are set.
pub open spec fn netmask(prefix: u8) -> Ipv4Addr {
    Ipv4Addr {
        bits: if prefix == 0 {
            0
        } else {
            0xffff_ffffu32 << ((32 - prefix) as u32)
        },
    }
}

/// The prefix length that a mask stands for, if its set bits are its leading bits.
pub open spec fn mask_prefix(mask: Ipv4Addr) -> Option<u8> {
    if exists|p: u8| p <= 32 && mask == #[trigger] netmask(p) {
        Some(choose|p: u8| p <= 32 && mask == #[trigger] netmask(p))
    } else {
        None
    }
}

/// The address with the bits outside the mask cleared.
pub open spec fn network(address: Ipv4Addr, mask: Ipv4Addr) -> Ipv4Addr {
    Ipv4Addr { bits: address.bits & mask.bits }
}

/// `address` lies in the network of `route`.
pub open spec fn covers(route: WindowsRoute, address: Ipv4Addr) -> bool {
    network(address, route.netmask) == route.destination
}

/// A prefix length stands for the mask with that many leading ones: bit `i`, counted from
/// the least significant one, is set exactly if it is among them.
pub proof fn netmask_has_leading_ones(prefix: u8, i: u32)
    requires
        prefix <= 32,
        i < 32,
    ensures
        (netmask(prefix).bits >> i) & 1 == 1 <==> i >= 32 - prefix,
{
    if prefix > 0 {
        let s = (32 - prefix) as u32;
        assert(s < 32 && i < 32 ==> (((0xffff_ffffu32 << s) >> i) & 1 == 1 <==> i >= s))
            by (bit_vector);
    } else {
        assert(i < 32 ==> (0u32 >> i) & 1 == 0) by (bit_vector);
    }
}

/// Different prefix lengths stand for different masks.
pub proof fn netmask_tells_prefix(p: u8, q: u8)
    requires
        p <= 32,
        q <= 32,
        netmask(p) == netmask(q),
    ensures
        p == q,
{
    if p < q {
        netmask_has_leading_ones(p, (32 - q) as u32);
        netmask_has_leading_ones(q, (32 - q) as u32);
    } else if q < p {
        netmask_has_leading_ones(p, (32 - p) as u32);
        netmask_has_leading_ones(q, (32 - p) as u32);
    }
}

/// A prefix length is read back from its mask, and no other mask gives it.
pub proof fn prefix_reads_back(mask: Ipv4Addr, p: u8)
    requires
        p <= 32,
    ensures
        mask_prefix(mask) == Some(p) <==> mask == netmask(p),
        mask_prefix(mask) matches Some(q) ==> q <= 32,
{
    if mask == netmask(p) {
        let q = choose|q: u8| q <= 32 && mask == #[trigger] netmask(q);
        netmask_tells_prefix(p, q);
    }
}

/// Clearing the bits outside a mask a second time changes nothing.
pub proof fn network_is_idempotent(address: Ipv4Addr, mask: Ipv4Addr)
    ensures
        network(network(address, mask), mask) == network(address, mask),
{
    let a = address.bits;
    let m = mask.bits;
    assert((a & m) & m == a & m) by (bit_vector);
}

/// A network contains the addresses that it was made from.
pub proof fn network_covers_its_address(address: Ipv4Addr, mask: Ipv4Addr)
    ensures
        covers(WindowsRoute { destination: network(address, mask), netmask: mask }, address),
{
}

/// The mask of a prefix length.
pub fn prefix_to_netmask(prefix: u8) -> (r: Result<Ipv4Addr, RouteError>)
    ensures
        prefix <= 32 ==> r == Ok::<Ipv4Addr, RouteError>(netmask(prefix)),
        prefix > 32 ==> (r matches Err(e) && e@ == RouteErrorView::InvalidPrefix(prefix)),
{
    if prefix > 32 {
        return Err(RouteError::InvalidPrefix(prefix));
    }
    let bits: u32 = if prefix == 0 {
        0
    } else {
        0xffff_ffffu32 << (32 - prefix as u32)
    };
    Ok(Ipv4Addr { bits })
}

/// The address with the bits outside the mask cleared.
pub fn normalize_network(address: Ipv4Addr, mask: Ipv4Addr) -> (r: Ipv4Addr)
    ensures
        r == network(address, mask),
{
    Ipv4Addr { bits: address.bits & mask.bits }
}

/// The prefix length that a mask stands for.
pub fn netmask_to_prefix(mask: Ipv4Addr) -> (r: Result<u8, RouteError>)
    ensures
        match mask_prefix(mask) {
            Some(p) => r == Ok::<u8, RouteError>(p) && p <= 32,
            None => r matches Err(e) && e@ == RouteErrorView::NonContiguousNetmask(mask),
        },
{
    let mut p: u8 = 0;
    while p <= 32
        invariant
            p <= 33,
            forall|q: u8| q < p ==> mask != #[trigger] netmask(q),
        decreases 33 - p,
    {
        if let Ok(candidate) = prefix_to_netmask(p) {
            if candidate.bits == mask.bits {
                proof {
                    prefix_reads_back(mask, p);
                }
                return Ok(p);
            }
        }
        p += 1;
    }
    Err(RouteError::NonContiguousNetmask(mask))
}

/// Whether `address` lies in the network of `route`.
pub fn route_contains(route: WindowsRoute, address: Ipv4Addr) -> (r: bool)
    ensures
        r == covers(route, address),
{
    normalize_network(address, route.netmask) == route.destination
}

/// The number up to 255 that `s` spells in decimal, behind an optional plus sign.
pub open spec fn byte_value(s: Seq<char>) -> Option<u8> {
    let digits = if s.len() > 0 && s[0] == '+' {
        s.drop_first()
    } else {
        s
    };
    if digits.len() >= 1 && all_digits(digits, 10) && number(digits, 10) <= 255 {
        Some(number(digits, 10) as u8)
    } else {
        None
    }
}

fn parse_byte(s: &[char]) -> (r: Option<u8>)
    ensures
        r == byte_value(s@),
{
    let from: usize = if s.len() > 0 && s[0] == '+' {
        1
    } else {
        0
    };
    let digits = part(s, from, s.len());
    proof {
        assert(from == 1 ==> digits@ =~= s@.drop_first());
        assert(from == 0 ==> digits@ =~= s@);
    }
    match parse_number(&digits, 10, 255) {
        Some(n) => Some(n as u8),
        None => None,
    }
}

/// The part of a trimmed rule that names the network: the middle one of three, where the
/// rule has semicolons, and else all of it.
pub open spec fn rule_target(rule: Seq<char>) -> Option<Seq<char>> {
    if !rule.contains(';') {
        Some(rule)
    } else if pieces(rule, ';').len() == 3 {
        Some(trimmed(pieces(rule, ';')[1]))
    } else {
        None
    }
}

/// The mask that the part of a target behind the slash stands for.
pub open spec fn suffix_netmask(suffix: Seq<char>, target: Seq<char>) -> Result<
    Ipv4Addr,
    RouteErrorView,
> {
    match byte_value(suffix) {
        Some(prefix) => if prefix <= 32 {
            Ok(netmask(prefix))
        } else {
            Err(RouteErrorView::InvalidPrefix(prefix))
        },
        None => match ipv4_value(suffix) {
            Some(mask) => Ok(mask),
            None => Err(RouteErrorView::InvalidNetmaskSuffix(target)),
        },
    }
}

/// The route of a target: an address and a mask with a slash between them, or the address
/// of a single host. A target with an IPv6 address has none.
pub open spec fn target_route(target: Seq<char>) -> Result<Option<WindowsRoute>, RouteErrorView> {
    let k = first_index(target, '/');
    if k < target.len() {
        match ip_value(target.take(k)) {
            Some(IpAddrView::V4(address)) => match suffix_netmask(target.skip(k + 1), target) {
                Ok(mask) => Ok(
                    Some(WindowsRoute { destination: network(address, mask), netmask: mask }),
                ),
                Err(e) => Err(e),
            },
            Some(IpAddrView::V6(_)) => Ok(None),
            None => Err(RouteErrorView::InvalidAddress(target)),
        }
    } else {
        match ip_value(target) {
            Some(IpAddrView::V4(address)) => Ok(
                Some(
                    WindowsRoute {
                        destination: network(address, netmask(32)),
                        netmask: netmask(32),
                    },
                ),
            ),
            Some(IpAddrView::V6(_)) => Ok(None),
            None => Err(RouteErrorView::InvalidHostRoute(target)),
        }
    }
}

/// The route that a rule stands for.
pub open spec fn rule_route(rule: Seq<char>) -> Result<Option<WindowsRoute>, RouteErrorView> {
    let t = trimmed(rule);
    if t.len() == 0 {
        Err(RouteErrorView::EmptyRoute)
    } else {
        match rule_target(t) {
            Some(target) => target_route(target),
            None => Err(RouteErrorView::InvalidRuleFormat(t)),
        }
    }
}

/// A result with the view of its error.
pub open spec fn route_result(r: Result<Option<WindowsRoute>, RouteError>) -> Result<
    Option<WindowsRoute>,
    RouteErrorView,
> {
    match r {
        Ok(route) => Ok(route),
        Err(e) => Err(e@),
    }
}

fn parse_target(target: &[char]) -> (r: Result<Option<WindowsRoute>, RouteError>)
    ensures
        route_result(r) == target_route(target@),
{
    let k: usize = position(target, 0, '/');
    proof {
        assert(target@.skip(0) == target@);
        assert(0xffff_ffffu32 << 0u32 == 0xffff_ffffu32) by (bit_vector);
    }
    if k < target.len() {
        let front = part(target, 0, k);
        let suffix = part(target, k + 1, target.len());
        proof {
            assert(front@ =~= target@.take(k as int));
            assert(suffix@ =~= target@.skip(k + 1));
        }
        let address = match parse_ip_chars(&front) {
            Some(IpAddr::V4(address)) => address,
            Some(IpAddr::V6(_)) => {
                return Ok(None);
            },
            None => {
                return Err(RouteError::InvalidAddress(to_text(target)));
            },
        };
        let mask = match parse_byte(&suffix) {
            Some(prefix) => match prefix_to_netmask(prefix) {
                Ok(mask) => mask,
                Err(e) => {
                    return Err(e);
                },
            },
            None => match parse_ipv4_chars(&suffix) {
                Some(mask) => mask,
                None => {
                    return Err(RouteError::InvalidNetmaskSuffix(to_text(target)));
                },
            },
        };
        Ok(Some(WindowsRoute { destination: normalize_network(address, mask), netmask: mask }))
    } else {
        match parse_ip_chars(target) {
            Some(IpAddr::V4(address)) => {
                let mask = Ipv4Addr { bits: 0xffff_ffff };
                let destination = normalize_network(address, mask);
                Ok(Some(WindowsRoute { destination, netmask: mask }))
            },
            Some(IpAddr::V6(_)) => Ok(None),
            None => Err(RouteError::InvalidHostRoute(to_text(target))),
        }
    }
}

/// The route that a rule stands for; none if the rule is about an IPv6 network.
pub fn parse_split_tunnel_route(route: &str) -> (r: Result<Option<WindowsRoute>, RouteError>)
    ensures
        route_result(r) == rule_route(route@),
{
    let chars = to_chars(route);
    let t = trim(&chars);
    if t.len() == 0 {
        return Err(RouteError::EmptyRoute);
    }
    let k: usize = position(&t, 0, ';');
    proof {
        assert(t@.skip(0) == t@);
        lemma_first_index(t@, ';');
        if t@.contains(';') {
            let i = choose|i: int| 0 <= i < t@.len() && t@[i] == ';';
            assert(k < t@.len());
        }
    }
    if k < t.len() {
        proof {
            assert(t@[k as int] == ';');
            assert(t@.contains(';'));
        }
        let p = split(&t, ';');
        proof {
            assert(pieces(t@, ';').len() == p@.len());
        }
        if p.len() != 3 {
            return Err(RouteError::InvalidRuleFormat(to_text(&t)));
        }
        proof {
            assert(contents(p@)[1] == p@[1]@);
        }
        let target = trim(&p[1]);
        parse_target(&target)
    } else {
        parse_target(&t)
    }
}

} // verus!
