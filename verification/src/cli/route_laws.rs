//! The text of a route is a rule that stands for that route.

use vstd::prelude::*;
use crate::address_laws::{ip_text_reads_back, lemma_ip_text_chars, no_ip_text_is_empty};
use crate::cli::commands::cidr_text;
use crate::cli::routes::{
    byte_value, mask_prefix, netmask, network, network_is_idempotent, prefix_reads_back, rule_route,
    rule_target, suffix_netmask, target_route, RouteErrorView, WindowsRoute,
};
use crate::net::{
    ip_text, ip_value, ipv4_text, ipv4_text_reads_back, ipv4_value, IpAddrView, Ipv4Addr,
};
use crate::numeral::{all_digits, is_digit, lemma_numeral, number, numeral};
use crate::text::{
    first_index, is_white_space, lemma_first_index_is, lemma_pieces_whole, pieces, trimmed,
    trimmed_end, trimmed_start,
};
use crate::text_laws::{lemma_pieces_step, lemma_trimmed_around, trimmed_text_stays};

verus! {

/// `c` is a decimal digit or a dot.
spec fn digit_or_dot(c: char) -> bool {
    is_digit(c, 10) || c == '.'
}

proof fn lemma_numeral_chars(n: nat)
    ensures
        numeral(n, 10).len() >= 1,
        forall|i: int| 0 <= i < numeral(n, 10).len() ==> #[trigger] is_digit(numeral(n, 10)[i], 10),
{
    lemma_numeral(n, 10);
}

proof fn lemma_ipv4_chars(a: Ipv4Addr)
    ensures
        ipv4_text(a).len() >= 1,
        forall|i: int| 0 <= i < ipv4_text(a).len() ==> digit_or_dot(#[trigger] ipv4_text(a)[i]),
{
    let s = ipv4_text(a);
    let w = numeral(a.octet(0) as nat, 10);
    let x = numeral(a.octet(1) as nat, 10);
    let y = numeral(a.octet(2) as nat, 10);
    let z = numeral(a.octet(3) as nat, 10);
    lemma_numeral_chars(a.octet(0) as nat);
    lemma_numeral_chars(a.octet(1) as nat);
    lemma_numeral_chars(a.octet(2) as nat);
    lemma_numeral_chars(a.octet(3) as nat);
    let i1 = w.len() as int;
    let i2 = i1 + 1 + x.len();
    let i3 = i2 + 1 + y.len();
    assert forall|i: int| 0 <= i < s.len() implies digit_or_dot(#[trigger] s[i]) by {
        if i < i1 {
            assert(s[i] == w[i]);
            assert(is_digit(w[i], 10));
        } else if i == i1 {
            assert(s[i] == '.');
        } else if i < i2 {
            assert(s[i] == x[i - i1 - 1]);
            assert(is_digit(x[i - i1 - 1], 10));
        } else if i == i2 {
            assert(s[i] == '.');
        } else if i < i3 {
            assert(s[i] == y[i - i2 - 1]);
            assert(is_digit(y[i - i2 - 1], 10));
        } else if i == i3 {
            assert(s[i] == '.');
        } else {
            assert(s[i] == z[i - i3 - 1]);
            assert(is_digit(z[i - i3 - 1], 10));
        }
    }
}

proof fn lemma_byte_text(n: u8)
    ensures
        byte_value(numeral(n as nat, 10)) == Some(n),
{
    let s = numeral(n as nat, 10);
    lemma_numeral(n as nat, 10);
    assert(is_digit(s[0], 10));
    assert(s[0] != '+');
}

/// The text of a network with its prefix length, read as a rule, stands for that network.
pub proof fn route_text_reads_back(route: WindowsRoute)
    requires
        cidr_text(route) is Some,
        network(route.destination, route.netmask) == route.destination,
    ensures
        rule_route(cidr_text(route)->0) == Ok::<Option<WindowsRoute>, RouteErrorView>(Some(route)),
{
    let p = mask_prefix(route.netmask)->0;
    assert(exists|q: u8| q <= 32 && route.netmask == #[trigger] netmask(q));
    assert(p <= 32 && route.netmask == netmask(p));
    let a = ipv4_text(route.destination);
    let b = numeral(p as nat, 10);
    let s = cidr_text(route)->0;
    reveal_strlit("/");
    assert("/"@ =~= seq!['/']);
    assert(s == a + "/"@ + b);
    lemma_ipv4_chars(route.destination);
    lemma_numeral_chars(p as nat);
    let k = a.len() as int;
    assert forall|i: int| 0 <= i < s.len() implies (s[i] == '/' <==> i == k) && !is_white_space(
        #[trigger] s[i],
    ) && s[i] != ';' by {
        if i < k {
            assert(s[i] == a[i]);
            assert(digit_or_dot(a[i]));
        } else if i > k {
            assert(s[i] == b[i - k - 1]);
            assert(is_digit(b[i - k - 1], 10));
        }
    }
    assert(!is_white_space(s[0]));
    assert(!is_white_space(s[s.len() - 1]));
    assert(trimmed(s) == s);
    assert(!s.contains(';'));
    assert(rule_target(s) == Some(s));
    lemma_first_index_is(s, '/', k);
    assert(s.take(k) =~= a);
    assert(s.skip(k + 1) =~= b);
    ipv4_text_reads_back(route.destination);
    assert(ip_value(a) == Some(IpAddrView::V4(route.destination)));
    lemma_byte_text(p);
    assert(suffix_netmask(b, s) == Ok::<Ipv4Addr, RouteErrorView>(route.netmask));
}

/// A rule stands for a network: no bit of its address lies outside its mask.
pub proof fn rules_stand_for_networks(rule: Seq<char>, route: WindowsRoute)
    requires
        rule_route(rule) == Ok::<Option<WindowsRoute>, RouteErrorView>(Some(route)),
    ensures
        network(route.destination, route.netmask) == route.destination,
{
    let target = rule_target(trimmed(rule))->0;
    let k = first_index(target, '/');
    if k < target.len() {
        network_is_idempotent(ip_value(target.take(k))->0->V4_0, route.netmask);
    } else {
        network_is_idempotent(ip_value(target)->0->V4_0, route.netmask);
    }
    assert(target_route(target) == rule_route(rule));
}

/// White space around a rule does not matter.
pub proof fn rule_is_read_trimmed(rule: Seq<char>)
    ensures
        rule_route(rule) == rule_route(trimmed(rule)),
        trimmed(rule).len() == 0 ==> rule_route(rule) == Err::<
            Option<WindowsRoute>,
            RouteErrorView,
        >(RouteErrorView::EmptyRoute),
{
    trimmed_text_stays(rule);
}

/// A rule of three parts stands for what its middle part stands for on its own.
pub proof fn rule_of_three_parts_stands_for_its_middle(
    protocol: Seq<char>,
    target: Seq<char>,
    port: Seq<char>,
)
    requires
        !protocol.contains(';'),
        !target.contains(';'),
        !port.contains(';'),
        trimmed(target).len() > 0,
    ensures
        rule_route(protocol + seq![';'] + target + seq![';'] + port) == rule_route(target),
{
    let whole = protocol + seq![';'] + target + seq![';'] + port;
    let core = seq![';'] + target + seq![';'];
    assert(whole =~= protocol + core + port);
    lemma_trimmed_around(protocol, core, port);
    let a = trimmed_start(protocol);
    let b = trimmed_end(port);
    let t = trimmed(whole);
    assert(t == a + core + b);
    assert(t =~= a + seq![';'] + (target + seq![';'] + b));
    lemma_trimmed_part(protocol, ';');
    lemma_trimmed_part(port, ';');
    lemma_trimmed_part(target, ';');
    lemma_pieces_step(a, target + seq![';'] + b, ';');
    lemma_pieces_step(target, b, ';');
    assert forall|j: int| 0 <= j < b.len() implies b[j] != ';' by {
        assert(b.contains(b[j]));
    }
    lemma_pieces_whole(b, ';');
    assert(pieces(t, ';') =~= seq![a, target, b]);
    assert(t[a.len() as int] == ';');
    assert(t.contains(';'));
}

/// What trimming leaves holds no character that the text does not hold.
proof fn lemma_trimmed_part(s: Seq<char>, c: char)
    requires
        !s.contains(c),
    ensures
        !trimmed(s).contains(c),
        !trimmed_start(s).contains(c),
        !trimmed_end(s).contains(c),
    decreases s.len(),
{
    lemma_trimmed_start_part(s, c);
    lemma_trimmed_end_part(s, c);
    lemma_trimmed_end_part(trimmed_start(s), c);
}

proof fn lemma_trimmed_start_part(s: Seq<char>, c: char)
    requires
        !s.contains(c),
    ensures
        !trimmed_start(s).contains(c),
    decreases s.len(),
{
    if s.len() > 0 && is_white_space(s[0]) {
        let rest = s.drop_first();
        assert(!rest.contains(c)) by {
            if rest.contains(c) {
                let i = choose|i: int| 0 <= i < rest.len() && rest[i] == c;
                assert(s[i + 1] == c);
            }
        }
        lemma_trimmed_start_part(rest, c);
    }
}

proof fn lemma_trimmed_end_part(s: Seq<char>, c: char)
    requires
        !s.contains(c),
    ensures
        !trimmed_end(s).contains(c),
    decreases s.len(),
{
    if s.len() > 0 && is_white_space(s.last()) {
        let rest = s.drop_last();
        assert(!rest.contains(c)) by {
            if rest.contains(c) {
                let i = choose|i: int| 0 <= i < rest.len() && rest[i] == c;
                assert(s[i] == c);
            }
        }
        lemma_trimmed_end_part(rest, c);
    }
}

/// A rule with semicolons has three parts: one with two parts, or with more than three, is
/// refused, and the refusal names it.
pub proof fn rule_with_semicolons_has_three_parts(
    a: Seq<char>,
    b: Seq<char>,
    c: Seq<char>,
    rest: Seq<char>,
)
    requires
        !a.contains(';'),
        !b.contains(';'),
        !c.contains(';'),
    ensures
        rule_route(a + seq![';'] + b) == Err::<Option<WindowsRoute>, RouteErrorView>(
            RouteErrorView::InvalidRuleFormat(trimmed(a + seq![';'] + b)),
        ),
        rule_route(a + seq![';'] + b + seq![';'] + c + seq![';'] + rest) == Err::<
            Option<WindowsRoute>,
            RouteErrorView,
        >(
            RouteErrorView::InvalidRuleFormat(
                trimmed(a + seq![';'] + b + seq![';'] + c + seq![';'] + rest),
            ),
        ),
{
    let x = trimmed_start(a);
    lemma_trimmed_part(a, ';');
    lemma_trimmed_part(b, ';');
    let two = a + seq![';'] + b;
    lemma_trimmed_around(a, seq![';'], b);
    let y = trimmed_end(b);
    lemma_pieces_step(x, y, ';');
    assert forall|j: int| 0 <= j < y.len() implies y[j] != ';' by {
        assert(y.contains(y[j]));
    }
    lemma_pieces_whole(y, ';');
    assert(trimmed(two)[x.len() as int] == ';');
    assert(trimmed(two).contains(';'));
    assert(pieces(trimmed(two), ';') =~= seq![x, y]);
    let core = seq![';'] + b + seq![';'] + c + seq![';'];
    let more = a + seq![';'] + b + seq![';'] + c + seq![';'] + rest;
    assert(more =~= a + core + rest);
    lemma_trimmed_around(a, core, rest);
    let z = trimmed_end(rest);
    let t = trimmed(more);
    assert(t =~= x + seq![';'] + (b + seq![';'] + (c + seq![';'] + z)));
    lemma_pieces_step(x, b + seq![';'] + (c + seq![';'] + z), ';');
    lemma_pieces_step(b, c + seq![';'] + z, ';');
    lemma_pieces_step(c, z, ';');
    assert(pieces(z, ';').len() >= 1);
    assert(t[x.len() as int] == ';');
    assert(t.contains(';'));
    assert(pieces(t, ';').len() >= 4);
}

/// The text of an address: neither blank, nor with white space, semicolons or slashes.
proof fn lemma_ipv4_text_is_a_rule(a: Ipv4Addr)
    ensures
        ipv4_text(a).len() >= 1,
        forall|i: int|
            0 <= i < ipv4_text(a).len() ==> !is_white_space(#[trigger] ipv4_text(a)[i])
                && ipv4_text(a)[i] != ';' && ipv4_text(a)[i] != '/' && ipv4_text(a)[i] != '+',
{
    lemma_ipv4_chars(a);
    assert forall|i: int| 0 <= i < ipv4_text(a).len() implies !is_white_space(
        #[trigger] ipv4_text(a)[i],
    ) && ipv4_text(a)[i] != ';' && ipv4_text(a)[i] != '/' && ipv4_text(a)[i] != '+' by {
        assert(digit_or_dot(ipv4_text(a)[i]));
    }
}

/// The rule that is an address alone stands for that host: all bits of the mask are set.
pub proof fn address_stands_for_its_host(a: Ipv4Addr)
    ensures
        rule_route(ipv4_text(a)) == Ok::<Option<WindowsRoute>, RouteErrorView>(
            Some(WindowsRoute { destination: a, netmask: Ipv4Addr { bits: 0xffff_ffff } }),
        ),
{
    let s = ipv4_text(a);
    lemma_ipv4_text_is_a_rule(a);
    trimmed_text_stays(s);
    assert(!s.contains(';'));
    lemma_first_index_is(s, '/', s.len() as int);
    ipv4_text_reads_back(a);
    let bits = a.bits;
    assert(bits & 0xffff_ffffu32 == bits) by (bit_vector);
    assert(0xffff_ffffu32 << 0u32 == 0xffff_ffffu32) by (bit_vector);
}

/// A text that can stand at the end of a trimmed rule without semicolons.
pub open spec fn is_ending(suffix: Seq<char>) -> bool {
    &&& suffix.len() > 0 ==> !is_white_space(suffix.last())
    &&& forall|i: int| 0 <= i < suffix.len() ==> #[trigger] suffix[i] != ';'
}

/// An address, a slash and some more text without semicolons: how it is read.
proof fn lemma_address_and_suffix(a: Ipv4Addr, suffix: Seq<char>)
    requires
        is_ending(suffix),
    ensures
        ({
            let s = ipv4_text(a) + seq!['/'] + suffix;
            rule_route(s) == (match suffix_netmask(suffix, s) {
                Ok(mask) => Ok(
                    Some(
                        WindowsRoute {
                            destination: Ipv4Addr { bits: a.bits & mask.bits },
                            netmask: mask,
                        },
                    ),
                ),
                Err(e) => Err(e),
            })
        }),
{
    let t = ipv4_text(a);
    let s = t + seq!['/'] + suffix;
    let k = t.len() as int;
    lemma_ipv4_text_is_a_rule(a);
    assert forall|i: int| 0 <= i < s.len() implies #[trigger] s[i] != ';' by {
        if i < k {
            assert(s[i] == t[i]);
        } else if i > k {
            assert(s[i] == suffix[i - k - 1]);
        }
    }
    assert(s[0] == t[0]);
    assert(!is_white_space(s[0]));
    assert(s.last() == (if suffix.len() > 0 {
        suffix.last()
    } else {
        '/'
    }));
    trimmed_text_stays(s);
    assert(!s.contains(';'));
    assert forall|j: int| 0 <= j < k implies s[j] != '/' by {
        assert(s[j] == t[j]);
    }
    lemma_first_index_is(s, '/', k);
    assert(s.take(k) =~= t);
    assert(s.skip(k + 1) =~= suffix);
    ipv4_text_reads_back(a);
}

/// Two suffixes that stand for the same mask make the same rule.
proof fn lemma_same_suffix(a: Ipv4Addr, x: Seq<char>, y: Seq<char>)
    requires
        is_ending(x),
        is_ending(y),
        suffix_netmask(x, ipv4_text(a) + seq!['/'] + x) == suffix_netmask(
            y,
            ipv4_text(a) + seq!['/'] + y,
        ),
    ensures
        rule_route(ipv4_text(a) + seq!['/'] + x) == rule_route(ipv4_text(a) + seq!['/'] + y),
{
    lemma_address_and_suffix(a, x);
    lemma_address_and_suffix(a, y);
}

/// An address with a prefix length stands for the network of the address with that many leading
/// bits; a prefix length above 32 is refused.
pub proof fn address_with_prefix_stands_for_its_network(a: Ipv4Addr, p: u8)
    ensures
        p <= 32 ==> (rule_route(ipv4_text(a) + seq!['/'] + numeral(p as nat, 10)) matches Ok(
            Some(route),
        ) && mask_prefix(route.netmask) == Some(p) && route.destination.bits == a.bits
            & route.netmask.bits),
        p > 32 ==> rule_route(ipv4_text(a) + seq!['/'] + numeral(p as nat, 10)) == Err::<
            Option<WindowsRoute>,
            RouteErrorView,
        >(RouteErrorView::InvalidPrefix(p)),
{
    let suffix = numeral(p as nat, 10);
    lemma_numeral_chars(p as nat);
    assert forall|i: int| 0 <= i < suffix.len() implies !is_white_space(#[trigger] suffix[i])
        && suffix[i] != ';' by {
        assert(is_digit(suffix[i], 10));
    }
    lemma_address_and_suffix(a, suffix);
    lemma_byte_text(p);
    if p <= 32 {
        prefix_reads_back(netmask(p), p);
    }
}

/// An address with a mask stands for the network of the address under that mask.
pub proof fn address_with_mask_stands_for_its_network(a: Ipv4Addr, mask: Ipv4Addr)
    ensures
        rule_route(ipv4_text(a) + seq!['/'] + ipv4_text(mask)) == Ok::<
            Option<WindowsRoute>,
            RouteErrorView,
        >(
            Some(
                WindowsRoute {
                    destination: Ipv4Addr { bits: a.bits & mask.bits },
                    netmask: mask,
                },
            ),
        ),
{
    let suffix = ipv4_text(mask);
    lemma_ipv4_text_is_a_rule(mask);
    lemma_address_and_suffix(a, suffix);
    ipv4_text_reads_back(mask);
    let w = numeral(mask.octet(0) as nat, 10);
    lemma_numeral_chars(mask.octet(0) as nat);
    let k = w.len() as int;
    assert(suffix[k] == '.');
    assert(suffix[0] != '+');
    assert(!is_digit(suffix[k], 10));
    assert(!all_digits(suffix, 10));
}

/// A prefix length is read as a number: leading zeros do not matter.
pub proof fn prefix_is_read_as_a_number(a: Ipv4Addr, digits: Seq<char>, p: u8)
    requires
        digits.len() >= 1,
        all_digits(digits, 10),
        number(digits, 10) == p,
    ensures
        rule_route(ipv4_text(a) + seq!['/'] + digits) == rule_route(
            ipv4_text(a) + seq!['/'] + numeral(p as nat, 10),
        ),
{
    let plain = numeral(p as nat, 10);
    lemma_numeral_chars(p as nat);
    assert forall|i: int| 0 <= i < plain.len() implies !is_white_space(#[trigger] plain[i])
        && plain[i] != ';' by {
        assert(is_digit(plain[i], 10));
    }
    assert forall|i: int| 0 <= i < digits.len() implies !is_white_space(#[trigger] digits[i])
        && digits[i] != ';' && digits[i] != '+' by {
        assert(is_digit(digits[i], 10));
    }
    let s = ipv4_text(a) + seq!['/'] + digits;
    let u = ipv4_text(a) + seq!['/'] + plain;
    assert(suffix_netmask(digits, s) == suffix_netmask(plain, u)) by {
        lemma_byte_text(p);
    }
    lemma_same_suffix(a, digits, plain);
}

/// A rule about an IPv6 address has no route, however the address is written, and whatever stands
/// behind a slash.
pub proof fn ipv6_rule_has_no_route(t: Seq<char>, g: Seq<u16>, suffix: Seq<char>)
    requires
        ip_value(t) == Some(IpAddrView::V6(g)),
        t.len() > 0,
        forall|i: int|
            0 <= i < t.len() ==> !is_white_space(#[trigger] t[i]) && t[i] != ';' && t[i] != '/',
        is_ending(suffix),
    ensures
        rule_route(t) == Ok::<Option<WindowsRoute>, RouteErrorView>(None),
        rule_route(t + seq!['/'] + suffix) == Ok::<Option<WindowsRoute>, RouteErrorView>(None),
{
    trimmed_text_stays(t);
    assert(!t.contains(';'));
    lemma_first_index_is(t, '/', t.len() as int);
    let s = t + seq!['/'] + suffix;
    let k = t.len() as int;
    assert forall|i: int| 0 <= i < s.len() implies #[trigger] s[i] != ';' by {
        if i < k {
            assert(s[i] == t[i]);
        } else if i > k {
            assert(s[i] == suffix[i - k - 1]);
        }
    }
    assert(s[0] == t[0]);
    assert(!is_white_space(s[0]));
    assert(s.last() == (if suffix.len() > 0 {
        suffix.last()
    } else {
        '/'
    }));
    trimmed_text_stays(s);
    assert(!s.contains(';'));
    assert forall|j: int| 0 <= j < k implies s[j] != '/' by {
        assert(s[j] == t[j]);
    }
    lemma_first_index_is(s, '/', k);
    assert(s.take(k) =~= t);
}

/// The text of every IPv6 address is such a rule.
pub proof fn ipv6_address_has_no_route(g: Seq<u16>, suffix: Seq<char>)
    requires
        g.len() == 8,
        is_ending(suffix),
    ensures
        rule_route(ip_text(IpAddrView::V6(g))) == Ok::<Option<WindowsRoute>, RouteErrorView>(None),
        rule_route(ip_text(IpAddrView::V6(g)) + seq!['/'] + suffix) == Ok::<
            Option<WindowsRoute>,
            RouteErrorView,
        >(None),
{
    lemma_ip_text_chars(IpAddrView::V6(g));
    ip_text_reads_back(IpAddrView::V6(g));
    ipv6_rule_has_no_route(ip_text(IpAddrView::V6(g)), g, suffix);
}

/// A rule of three parts has to name something in the middle.
pub proof fn rule_with_blank_middle_is_refused(
    protocol: Seq<char>,
    target: Seq<char>,
    port: Seq<char>,
)
    requires
        !protocol.contains(';'),
        !target.contains(';'),
        !port.contains(';'),
        trimmed(target).len() == 0,
    ensures
        rule_route(protocol + seq![';'] + target + seq![';'] + port) == Err::<
            Option<WindowsRoute>,
            RouteErrorView,
        >(RouteErrorView::InvalidHostRoute(Seq::empty())),
{
    let whole = protocol + seq![';'] + target + seq![';'] + port;
    let core = seq![';'] + target + seq![';'];
    assert(whole =~= protocol + core + port);
    lemma_trimmed_around(protocol, core, port);
    let a = trimmed_start(protocol);
    let b = trimmed_end(port);
    let t = trimmed(whole);
    assert(t =~= a + seq![';'] + (target + seq![';'] + b));
    lemma_trimmed_part(protocol, ';');
    lemma_trimmed_part(port, ';');
    lemma_pieces_step(a, target + seq![';'] + b, ';');
    lemma_pieces_step(target, b, ';');
    assert forall|j: int| 0 <= j < b.len() implies b[j] != ';' by {
        assert(b.contains(b[j]));
    }
    lemma_pieces_whole(b, ';');
    assert(pieces(t, ';') =~= seq![a, target, b]);
    assert(t[a.len() as int] == ';');
    assert(t.contains(';'));
    let nothing = Seq::<char>::empty();
    assert(trimmed(target) =~= nothing);
    lemma_first_index_is(nothing, '/', 0);
    no_ip_text_is_empty();
}

/// A text that names no address stands for no route; neither does one with such a text in front
/// of its first slash. The refusal names all of it.
pub proof fn rule_without_an_address_is_refused(rule: Seq<char>, k: int)
    requires
        rule.len() > 0,
        trimmed(rule) == rule,
        !rule.contains(';'),
    ensures
        !rule.contains('/') && ip_value(rule) is None ==> rule_route(rule) == Err::<
            Option<WindowsRoute>,
            RouteErrorView,
        >(RouteErrorView::InvalidHostRoute(rule)),
        0 <= k < rule.len() && rule[k] == '/' && (forall|j: int| 0 <= j < k ==> rule[j] != '/')
            && ip_value(rule.take(k)) is None ==> rule_route(rule) == Err::<
            Option<WindowsRoute>,
            RouteErrorView,
        >(RouteErrorView::InvalidAddress(rule)),
{
    if !rule.contains('/') {
        lemma_first_index_is(rule, '/', rule.len() as int);
    }
    if 0 <= k < rule.len() && rule[k] == '/' && (forall|j: int| 0 <= j < k ==> rule[j] != '/') {
        lemma_first_index_is(rule, '/', k);
    }
}

/// A plus sign in front of a prefix length does not matter.
pub proof fn prefix_may_have_a_plus_sign(a: Ipv4Addr, p: u8)
    ensures
        rule_route(ipv4_text(a) + seq!['/', '+'] + numeral(p as nat, 10)) == rule_route(
            ipv4_text(a) + seq!['/'] + numeral(p as nat, 10),
        ),
{
    let digits = numeral(p as nat, 10);
    let signed = seq!['+'] + digits;
    lemma_numeral_chars(p as nat);
    assert forall|i: int| 0 <= i < digits.len() implies !is_white_space(#[trigger] digits[i])
        && digits[i] != ';' && digits[i] != '+' by {
        assert(is_digit(digits[i], 10));
    }
    assert forall|i: int| 0 <= i < signed.len() implies !is_white_space(#[trigger] signed[i])
        && signed[i] != ';' by {
        if i > 0 {
            assert(signed[i] == digits[i - 1]);
        }
    }
    lemma_signed_byte(digits);
    let s = ipv4_text(a) + seq!['/'] + signed;
    let u = ipv4_text(a) + seq!['/'] + digits;
    assert(ipv4_text(a) + seq!['/', '+'] + digits =~= s);
    assert(suffix_netmask(signed, s) == suffix_netmask(digits, u)) by {
        lemma_byte_text(p);
    }
    lemma_same_suffix(a, signed, digits);
}

proof fn lemma_signed_byte(digits: Seq<char>)
    requires
        digits.len() > 0,
        digits[0] != '+',
    ensures
        byte_value(seq!['+'] + digits) == byte_value(digits),
{
    assert((seq!['+'] + digits).drop_first() =~= digits);
}

/// What is neither a number up to 255 nor an IPv4 address is refused behind the slash, and the
/// refusal names the whole rule.
pub proof fn other_suffix_is_refused(a: Ipv4Addr, suffix: Seq<char>)
    requires
        is_ending(suffix),
        ipv4_value(suffix) is None,
        ({
            let digits = if suffix.len() > 0 && suffix[0] == '+' {
                suffix.skip(1)
            } else {
                suffix
            };
            digits.len() == 0 || !all_digits(digits, 10) || number(digits, 10) > 255
        }),
    ensures
        rule_route(ipv4_text(a) + seq!['/'] + suffix) == Err::<
            Option<WindowsRoute>,
            RouteErrorView,
        >(RouteErrorView::InvalidNetmaskSuffix(ipv4_text(a) + seq!['/'] + suffix)),
{
    lemma_address_and_suffix(a, suffix);
    if suffix.len() > 0 {
        assert(suffix.skip(1) =~= suffix.drop_first());
    }
}

/// Every network with a prefix length has a text, which is its address, a slash and the prefix
/// length; a mask with gaps has none.
pub proof fn every_prefix_has_a_text(address: Ipv4Addr, p: u8, gaps: Ipv4Addr)
    requires
        p <= 32,
        forall|q: u8| q <= 32 ==> gaps != #[trigger] netmask(q),
    ensures
        cidr_text(WindowsRoute { destination: address, netmask: netmask(p) }) == Some(
            ipv4_text(address) + seq!['/'] + numeral(p as nat, 10),
        ),
        cidr_text(WindowsRoute { destination: address, netmask: gaps }) is None,
{
    reveal_strlit("/");
    assert("/"@ =~= seq!['/']);
    prefix_reads_back(netmask(p), p);
}

} // verus!
