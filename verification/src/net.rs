//! Internet addresses: values, their textual forms, and the way back from text.

use vstd::prelude::*;
use crate::numeral::{
    all_digits, is_digit, lemma_number_bound, lemma_numeral, lemma_numeral_length,
    lemma_power_grows, number, numeral, parse_number, power, push_number,
};
use crate::text::{contents, lemma_pieces_front, lemma_pieces_whole, part, pieces, split, to_chars};

verus! {

/// What is said of a text that is no IPv4 address.
pub const NO_IPV4_ADDRESS: &'static str = "invalid IPv4 address syntax";

/// What is said of a text that is no address of either family.
pub const NO_ADDRESS: &'static str = "invalid IP address syntax";

/// An IPv4 address, held as the number that its four octets spell.
#[derive(Debug, Clone, Copy, PartialEq, Eq, PartialOrd, Ord, Structural)]
pub struct Ipv4Addr {
    pub bits: u32,
}

/// An IPv6 address, held as its eight groups.
#[derive(Debug, Clone, Copy, PartialEq, Eq)]
pub struct Ipv6Addr {
    pub groups: [u16; 8],
}

/// An address of either family.
#[derive(Debug, Clone, Copy, PartialEq, Eq)]
pub enum IpAddr {
    V4(Ipv4Addr),
    V6(Ipv6Addr),
}

/// What an address is: an IPv4 address, or a sequence of eight groups.
pub enum IpAddrView {
    V4(Ipv4Addr),
    V6(Seq<u16>),
}

impl View for IpAddr {
    type V = IpAddrView;

    open spec fn view(&self) -> IpAddrView {
        match *self {
            IpAddr::V4(a) => IpAddrView::V4(a),
            IpAddr::V6(a) => IpAddrView::V6(a.groups@),
        }
    }
}

/// The view of an address that may be missing.
pub open spec fn maybe_address(a: Option<IpAddr>) -> Option<IpAddrView> {
    match a {
        Some(a) => Some(a@),
        None => None,
    }
}

proof fn lemma_octets_of(n: u32, a: u8, b: u8, c: u8, d: u8)
    by (bit_vector)
    requires
        n == a * 0x100_0000 + b * 0x1_0000 + c * 0x100 + d,
    ensures
        n / 0x100_0000 == a,
        n / 0x1_0000 % 0x100 == b,
        n / 0x100 % 0x100 == c,
        n % 0x100 == d,
{
}

proof fn lemma_sum_of_octets(n: u32)
    by (bit_vector)
    ensures
        n == (n / 0x100_0000) * 0x100_0000 + (n / 0x1_0000 % 0x100) * 0x1_0000 + (n / 0x100 % 0x100)
            * 0x100 + n % 0x100,
        n / 0x100_0000 < 0x100,
{
}

impl Ipv4Addr {
    /// Octet number `i`, counted from the most significant one.
    pub open spec fn octet(self, i: int) -> u8 {
        if i == 0 {
            (self.bits / 0x100_0000) as u8
        } else if i == 1 {
            (self.bits / 0x1_0000 % 0x100) as u8
        } else if i == 2 {
            (self.bits / 0x100 % 0x100) as u8
        } else {
            (self.bits % 0x100) as u8
        }
    }

    /// The address with the four given octets, most significant first.
    pub open spec fn of(a: u8, b: u8, c: u8, d: u8) -> Ipv4Addr {
        Ipv4Addr { bits: (a * 0x100_0000 + b * 0x1_0000 + c * 0x100 + d) as u32 }
    }

    /// The address with the four given octets, most significant first.
    pub fn new(a: u8, b: u8, c: u8, d: u8) -> (r: Self)
        ensures
            r == Self::of(a, b, c, d),
            r.octet(0) == a,
            r.octet(1) == b,
            r.octet(2) == c,
            r.octet(3) == d,
    {
        let bits: u32 = a as u32 * 0x100_0000 + b as u32 * 0x1_0000 + c as u32 * 0x100 + d as u32;
        proof {
            lemma_octets_of(bits, a, b, c, d);
        }
        Ipv4Addr { bits }
    }

    /// The four octets, most significant first.
    pub fn octets(&self) -> (r: [u8; 4])
        ensures
            forall|i: int| 0 <= i < 4 ==> #[trigger] r@[i] == self.octet(i),
            *self == Self::of(r@[0], r@[1], r@[2], r@[3]),
    {
        proof {
            lemma_sum_of_octets(self.bits);
        }
        let a: u8 = (self.bits / 0x100_0000) as u8;
        let b: u8 = (self.bits / 0x1_0000 % 0x100) as u8;
        let c: u8 = (self.bits / 0x100 % 0x100) as u8;
        let d: u8 = (self.bits % 0x100) as u8;
        [a, b, c, d]
    }
}

/// An address is made up of its octets, the most significant one first.
pub proof fn octets_read_back(a: u8, b: u8, c: u8, d: u8)
    ensures
        Ipv4Addr::of(a, b, c, d).octet(0) == a,
        Ipv4Addr::of(a, b, c, d).octet(1) == b,
        Ipv4Addr::of(a, b, c, d).octet(2) == c,
        Ipv4Addr::of(a, b, c, d).octet(3) == d,
        Ipv4Addr::of(a, b, c, d).bits == a * 0x100_0000 + b * 0x1_0000 + c * 0x100 + d,
{
    lemma_octets_of(Ipv4Addr::of(a, b, c, d).bits, a, b, c, d);
}

/// The octet that `s` spells in decimal: one to three digits, no leading zero.
pub open spec fn octet_value(s: Seq<char>) -> Option<u8> {
    if 1 <= s.len() <= 3 && all_digits(s, 10) && (s.len() == 1 || s[0] != '0') && number(s, 10)
        <= 255 {
        Some(number(s, 10) as u8)
    } else {
        None
    }
}

/// The IPv4 address that `s` spells: four octets with dots between them.
pub open spec fn ipv4_value(s: Seq<char>) -> Option<Ipv4Addr> {
    let p = pieces(s, '.');
    if p.len() == 4 && octet_value(p[0]) is Some && octet_value(p[1]) is Some && octet_value(p[2])
        is Some && octet_value(p[3]) is Some {
        Some(
            Ipv4Addr::of(
                octet_value(p[0])->0,
                octet_value(p[1])->0,
                octet_value(p[2])->0,
                octet_value(p[3])->0,
            ),
        )
    } else {
        None
    }
}

/// The group that `s` spells: one to four hexadecimal digits.
pub open spec fn group_value(s: Seq<char>) -> Option<u16> {
    if 1 <= s.len() <= 4 && all_digits(s, 16) {
        Some(number(s, 16) as u16)
    } else {
        None
    }
}

/// The upper and the lower half of an IPv4 address.
pub open spec fn ipv4_groups(a: Ipv4Addr) -> Seq<u16> {
    seq![(a.bits / 0x1_0000) as u16, (a.bits % 0x1_0000) as u16]
}

/// The groups that a list of pieces spells. Each piece is a group; where `dotted` says so,
/// the last piece may instead be an IPv4 address, which stands for two groups.
pub open spec fn group_list(p: Seq<Seq<char>>, dotted: bool) -> Option<Seq<u16>>
    decreases p.len(),
{
    if p.len() == 0 {
        Some(Seq::empty())
    } else if p.len() == 1 && dotted && ipv4_value(p[0]) is Some {
        Some(ipv4_groups(ipv4_value(p[0])->0))
    } else {
        match (group_value(p[0]), group_list(p.drop_first(), dotted)) {
            (Some(g), Some(rest)) => Some(seq![g] + rest),
            _ => None,
        }
    }
}

/// The groups that a text without `::` spells, colons between them.
pub open spec fn groups_value(s: Seq<char>, dotted: bool) -> Option<Seq<u16>> {
    if s.len() == 0 {
        Some(Seq::empty())
    } else {
        group_list(pieces(s, ':'), dotted)
    }
}

/// The index of the first `::` in `s`, or the length of `s` if there is none.
pub open spec fn double_colon(s: Seq<char>) -> int
    decreases s.len(),
{
    if s.len() < 2 {
        s.len() as int
    } else if s[0] == ':' && s[1] == ':' {
        0
    } else {
        1 + double_colon(s.drop_first())
    }
}

/// `n` groups that are zero.
pub open spec fn zero_groups(n: int) -> Seq<u16> {
    Seq::new(n as nat, |i: int| 0u16)
}

/// The eight groups of the IPv6 address that `s` spells. Either `s` spells all eight, the
/// last two possibly as an IPv4 address, or a `::` stands for one or more zero groups.
pub open spec fn ipv6_value(s: Seq<char>) -> Option<Seq<u16>> {
    let k = double_colon(s);
    if k >= s.len() {
        match groups_value(s, true) {
            Some(g) => if g.len() == 8 {
                Some(g)
            } else {
                None
            },
            None => None,
        }
    } else {
        match (groups_value(s.take(k), false), groups_value(s.skip(k + 2), true)) {
            (Some(head), Some(tail)) => if head.len() + tail.len() <= 7 {
                Some(head + zero_groups(8 - head.len() - tail.len()) + tail)
            } else {
                None
            },
            _ => None,
        }
    }
}

/// The address of either family that `s` spells.
pub open spec fn ip_value(s: Seq<char>) -> Option<IpAddrView> {
    if ipv4_value(s) is Some {
        Some(IpAddrView::V4(ipv4_value(s)->0))
    } else {
        match ipv6_value(s) {
            Some(g) => Some(IpAddrView::V6(g)),
            None => None,
        }
    }
}

fn parse_octet(s: &[char]) -> (r: Option<u8>)
    ensures
        r == octet_value(s@),
{
    if s.len() < 1 || s.len() > 3 || (s.len() > 1 && s[0] == '0') {
        return None;
    }
    match parse_number(s, 10, 255) {
        Some(n) => Some(n as u8),
        None => None,
    }
}

fn parse_group(s: &[char]) -> (r: Option<u16>)
    ensures
        r == group_value(s@),
{
    if s.len() < 1 || s.len() > 4 {
        return None;
    }
    proof {
        if all_digits(s@, 16) {
            lemma_number_bound(s@, 16);
            assert(power(16, 4) == 0x1_0000) by {
                reveal_with_fuel(power, 5);
            }
            lemma_power_grows(16, s@.len(), 4);
        }
    }
    match parse_number(s, 16, 0xffff) {
        Some(n) => Some(n as u16),
        None => None,
    }
}

/// The IPv4 address that the characters `s` spell.
pub fn parse_ipv4_chars(s: &[char]) -> (r: Option<Ipv4Addr>)
    ensures
        r == ipv4_value(s@),
{
    let p = split(s, '.');
    proof {
        assert(pieces(s@, '.').len() == p@.len());
    }
    if p.len() != 4 {
        return None;
    }
    proof {
        assert forall|i: int| 0 <= i < 4 implies #[trigger] pieces(s@, '.')[i] == p@[i]@ by {
            assert(contents(p@)[i] == p@[i]@);
        }
    }
    match (parse_octet(&p[0]), parse_octet(&p[1]), parse_octet(&p[2]), parse_octet(&p[3])) {
        (Some(a), Some(b), Some(c), Some(d)) => Some(Ipv4Addr::new(a, b, c, d)),
        _ => None,
    }
}

fn parse_group_list(p: &Vec<Vec<char>>, dotted: bool) -> (r: Option<Vec<u16>>)
    ensures
        r is Some <==> group_list(contents(p@), dotted) is Some,
        r matches Some(v) ==> v@ == group_list(contents(p@), dotted)->0,
{
    let ghost all = contents(p@);
    let mut out: Vec<u16> = Vec::new();
    let mut i: usize = 0;
    proof {
        assert(all.skip(0) == all);
        if group_list(all, dotted) is Some {
            assert(out@ + group_list(all, dotted)->0 == group_list(all, dotted)->0);
        }
    }
    while i < p.len()
        invariant
            i <= p@.len(),
            all == contents(p@),
            group_list(all.skip(i as int), dotted) is Some <==> group_list(all, dotted) is Some,
            group_list(all, dotted) is Some ==> group_list(all, dotted)->0 == out@ + group_list(
                all.skip(i as int),
                dotted,
            )->0,
        decreases p.len() - i,
    {
        let ghost rest = all.skip(i as int);
        proof {
            assert(rest[0] == p@[i as int]@);
            assert(rest.drop_first() == all.skip(i + 1));
        }
        if dotted && i + 1 == p.len() {
            if let Some(a) = parse_ipv4_chars(&p[i]) {
                let high: u16 = (a.bits / 0x1_0000) as u16;
                let low: u16 = (a.bits % 0x1_0000) as u16;
                let ghost before = out@;
                out.push(high);
                out.push(low);
                proof {
                    assert(out@ == before + ipv4_groups(a));
                }
                return Some(out);
            }
        }
        match parse_group(&p[i]) {
            None => {
                return None;
            },
            Some(g) => {
                let ghost before = out@;
                out.push(g);
                proof {
                    if group_list(rest.drop_first(), dotted) is Some {
                        let tail = group_list(rest.drop_first(), dotted)->0;
                        assert(before + (seq![g] + tail) == out@ + tail);
                    }
                }
            },
        }
        i += 1;
    }
    proof {
        assert(all.skip(i as int) == Seq::<Seq<char>>::empty());
        assert(out@ + Seq::<u16>::empty() == out@);
    }
    Some(out)
}

fn parse_groups(s: &[char], dotted: bool) -> (r: Option<Vec<u16>>)
    ensures
        r is Some <==> groups_value(s@, dotted) is Some,
        r matches Some(v) ==> v@ == groups_value(s@, dotted)->0,
{
    if s.len() == 0 {
        let v: Vec<u16> = Vec::new();
        return Some(v);
    }
    let p = split(s, ':');
    parse_group_list(&p, dotted)
}

fn find_double_colon(s: &[char]) -> (r: usize)
    ensures
        r == double_colon(s@),
        r <= s@.len(),
        r < s@.len() ==> r + 2 <= s@.len(),
{
    let mut i: usize = 0;
    proof {
        assert(s@.skip(0) == s@);
    }
    while s.len() - i >= 2
        invariant
            i <= s@.len(),
            double_colon(s@) == i + double_colon(s@.skip(i as int)),
        decreases s.len() - i,
    {
        if s[i] == ':' && s[i + 1] == ':' {
            return i;
        }
        proof {
            assert(s@.skip(i as int).drop_first() == s@.skip(i + 1));
        }
        i += 1;
    }
    s.len()
}

fn address_of_groups(g: &Vec<u16>) -> (r: Ipv6Addr)
    requires
        g@.len() == 8,
    ensures
        r.groups@ == g@,
{
    let groups: [u16; 8] = [g[0], g[1], g[2], g[3], g[4], g[5], g[6], g[7]];
    proof {
        assert(groups@ == g@);
    }
    Ipv6Addr { groups }
}

fn parse_ipv6_chars(s: &[char]) -> (r: Option<Ipv6Addr>)
    ensures
        r is Some <==> ipv6_value(s@) is Some,
        r matches Some(a) ==> a.groups@ == ipv6_value(s@)->0,
{
    let k: usize = find_double_colon(s);
    if k >= s.len() {
        return match parse_groups(s, true) {
            Some(g) => if g.len() == 8 {
                Some(address_of_groups(&g))
            } else {
                None
            },
            None => None,
        };
    }
    let before = part(s, 0, k);
    let behind = part(s, k + 2, s.len());
    proof {
        assert(before@ == s@.take(k as int));
        assert(behind@ == s@.skip(k + 2));
    }
    match (parse_groups(&before, false), parse_groups(&behind, true)) {
        (Some(head), Some(tail)) => {
            if head.len() > 7 || tail.len() > 7 - head.len() {
                return None;
            }
            let mut all: Vec<u16> = Vec::new();
            let mut i: usize = 0;
            while i < 8
                invariant
                    i <= 8,
                    head@.len() + tail@.len() <= 7,
                    all@ == (head@ + zero_groups(8 - head@.len() - tail@.len()) + tail@).take(
                        i as int,
                    ),
                decreases 8 - i,
            {
                if i < head.len() {
                    all.push(head[i]);
                } else if i < 8 - tail.len() {
                    all.push(0);
                } else {
                    all.push(tail[i - (8 - tail.len())]);
                }
                i += 1;
            }
            Some(address_of_groups(&all))
        },
        _ => None,
    }
}

/// The IPv4 address that `s` spells.
pub fn parse_ipv4(s: &str) -> (r: Option<Ipv4Addr>)
    ensures
        r == ipv4_value(s@),
{
    let chars = to_chars(s);
    parse_ipv4_chars(&chars)
}

/// The address of either family that the characters `s` spell.
pub fn parse_ip_chars(s: &[char]) -> (r: Option<IpAddr>)
    ensures
        maybe_address(r) == ip_value(s@),
{
    if let Some(a) = parse_ipv4_chars(s) {
        return Some(IpAddr::V4(a));
    }
    match parse_ipv6_chars(s) {
        Some(a) => Some(IpAddr::V6(a)),
        None => None,
    }
}

/// The address of either family that `s` spells.
pub fn parse_ip(s: &str) -> (r: Option<IpAddr>)
    ensures
        maybe_address(r) == ip_value(s@),
{
    let chars = to_chars(s);
    parse_ip_chars(&chars)
}

/// The four octets of `a` in decimal, with dots between them.
pub open spec fn ipv4_text(a: Ipv4Addr) -> Seq<char> {
    numeral(a.octet(0) as nat, 10) + seq!['.'] + numeral(a.octet(1) as nat, 10) + seq!['.']
        + numeral(a.octet(2) as nat, 10) + seq!['.'] + numeral(a.octet(3) as nat, 10)
}

/// The groups `g` in hexadecimal, with colons between them.
pub open spec fn groups_text(g: Seq<u16>) -> Seq<char>
    decreases g.len(),
{
    if g.len() == 0 {
        Seq::empty()
    } else if g.len() == 1 {
        numeral(g[0] as nat, 16)
    } else {
        groups_text(g.drop_last()) + seq![':'] + numeral(g.last() as nat, 16)
    }
}

/// The `len` groups from index `start` on are zero.
pub open spec fn zero_run(g: Seq<u16>, start: int, len: int) -> bool {
    &&& 0 <= start
    &&& 0 <= len
    &&& start + len <= g.len()
    &&& forall|i: int| start <= i < start + len ==> g[i] == 0
}

/// No run of zero groups is longer, and none of the same length starts earlier.
pub open spec fn longest_zero_run(g: Seq<u16>, start: int, len: int) -> bool {
    &&& zero_run(g, start, len)
    &&& forall|s: int, n: int| #[trigger]
        zero_run(g, s, n) ==> n <= len && (n == len && n > 0 ==> start <= s)
}

/// The first five groups are zero and the sixth is all ones: the address of an IPv4 node.
pub open spec fn is_mapped(g: Seq<u16>) -> bool {
    zero_run(g, 0, 5) && g[5] == 0xffff
}

/// The IPv4 address in the last two groups.
pub open spec fn mapped_ipv4(g: Seq<u16>) -> Ipv4Addr {
    Ipv4Addr { bits: (g[6] * 0x1_0000 + g[7]) as u32 }
}

/// `g` written with a `::` for the `len` groups from `start` on, if these are two or more.
pub open spec fn compressed_text(g: Seq<u16>, start: int, len: int) -> Seq<char> {
    if len > 1 {
        groups_text(g.take(start)) + seq![':', ':'] + groups_text(g.skip(start + len))
    } else {
        groups_text(g)
    }
}

/// The canonical text of the IPv6 address with the groups `g`.
pub open spec fn ipv6_text(g: Seq<u16>) -> Seq<char> {
    if is_mapped(g) {
        seq![':', ':', 'f', 'f', 'f', 'f', ':'] + ipv4_text(mapped_ipv4(g))
    } else {
        let (start, len) = choose|start: int, len: int| longest_zero_run(g, start, len);
        compressed_text(g, start, len)
    }
}

/// The canonical text of an address.
pub open spec fn ip_text(a: IpAddrView) -> Seq<char> {
    match a {
        IpAddrView::V4(a) => ipv4_text(a),
        IpAddrView::V6(g) => ipv6_text(g),
    }
}

/// Whichever longest run of zero groups is taken, the text is the same.
pub proof fn lemma_ipv6_text(g: Seq<u16>, start: int, len: int)
    requires
        !is_mapped(g),
        longest_zero_run(g, start, len),
    ensures
        ipv6_text(g) == compressed_text(g, start, len),
{
    let (s, n) = choose|s: int, n: int| longest_zero_run(g, s, n);
    assert(zero_run(g, s, n));
    assert(zero_run(g, start, len));
}

impl Ipv4Addr {
    /// The address as text.
    pub fn text(&self) -> (r: String)
        ensures
            r@ == ipv4_text(*self),
    {
        let mut out = String::new();
        self.push_text(&mut out);
        proof {
            assert(Seq::<char>::empty() + ipv4_text(*self) == ipv4_text(*self));
        }
        out
    }

    /// Appends the address as text.
    pub fn push_text(&self, out: &mut String)
        ensures
            final(out)@ == old(out)@ + ipv4_text(*self),
    {
        let o = self.octets();
        push_number(out, o[0] as u32, 10);
        out.push('.');
        push_number(out, o[1] as u32, 10);
        out.push('.');
        push_number(out, o[2] as u32, 10);
        out.push('.');
        push_number(out, o[3] as u32, 10);
        proof {
            assert(out@ =~= old(out)@ + ipv4_text(*self));
        }
    }
}

fn push_groups(out: &mut String, g: &[u16; 8], from: usize, to: usize)
    requires
        from <= to <= 8,
    ensures
        final(out)@ == old(out)@ + groups_text(g@.subrange(from as int, to as int)),
{
    let mut i: usize = from;
    while i < to
        invariant
            from <= i <= to <= 8,
            out@ == old(out)@ + groups_text(g@.subrange(from as int, i as int)),
        decreases to - i,
    {
        if i > from {
            out.push(':');
        }
        push_number(out, g[i] as u32, 16);
        proof {
            let longer = g@.subrange(from as int, i + 1);
            assert(longer.drop_last() == g@.subrange(from as int, i as int));
            assert(longer.last() == g@[i as int]);
            assert(out@ =~= old(out)@ + groups_text(longer));
        }
        i += 1;
    }
}

fn find_longest_zero_run(g: &[u16; 8]) -> (r: (usize, usize))
    ensures
        longest_zero_run(g@, r.0 as int, r.1 as int),
{
    let mut start: usize = 0;
    let mut len: usize = 0;
    let mut s: usize = 0;
    while s < 8
        invariant
            start <= s <= 8,
            zero_run(g@, start as int, len as int),
            forall|a: int, n: int| #[trigger]
                zero_run(g@, a, n) && a < s ==> n <= len && (n == len && n > 0 ==> start <= a),
        decreases 8 - s,
    {
        let mut n: usize = 0;
        while s + n < 8 && g[s + n] == 0
            invariant
                s + n <= 8,
                zero_run(g@, s as int, n as int),
            decreases 8 - n,
        {
            n += 1;
        }
        proof {
            assert forall|m: int| #[trigger] zero_run(g@, s as int, m) implies m <= n by {
                if m > n {
                    assert(g@[s + n] == 0);
                }
            }
        }
        if n > len {
            start = s;
            len = n;
        }
        s += 1;
    }
    (start, len)
}

impl Ipv6Addr {
    /// The address as canonical text.
    pub fn text(&self) -> (r: String)
        ensures
            r@ == ipv6_text(self.groups@),
    {
        let g = &self.groups;
        let mut out = String::new();
        if g[0] == 0 && g[1] == 0 && g[2] == 0 && g[3] == 0 && g[4] == 0 && g[5] == 0xffff {
            out.append("::ffff:");
            proof {
                reveal_strlit("::ffff:");
                assert("::ffff:"@ =~= seq![':', ':', 'f', 'f', 'f', 'f', ':']);
            }
            let a = Ipv4Addr { bits: g[6] as u32 * 0x1_0000 + g[7] as u32 };
            a.push_text(&mut out);
            proof {
                assert(is_mapped(g@));
                assert(out@ =~= seq![':', ':', 'f', 'f', 'f', 'f', ':'] + ipv4_text(a));
            }
            return out;
        }
        let (start, len) = find_longest_zero_run(g);
        if len > 1 {
            push_groups(&mut out, g, 0, start);
            out.push(':');
            out.push(':');
            push_groups(&mut out, g, start + len, 8);
            proof {
                assert(g@.subrange(0, start as int) == g@.take(start as int));
                assert(g@.subrange(start + len, 8) == g@.skip(start + len));
                assert(out@ =~= compressed_text(g@, start as int, len as int));
            }
        } else {
            push_groups(&mut out, g, 0, 8);
            proof {
                assert(g@.subrange(0, 8) == g@);
                assert(out@ =~= compressed_text(g@, start as int, len as int));
            }
        }
        proof {
            assert(!is_mapped(g@)) by {
                if is_mapped(g@) {
                    assert(g@[0] == 0 && g@[1] == 0 && g@[2] == 0 && g@[3] == 0 && g@[4] == 0);
                }
            }
            lemma_ipv6_text(g@, start as int, len as int);
        }
        out
    }
}

impl IpAddr {
    /// The address as canonical text.
    pub fn text(&self) -> (r: String)
        ensures
            r@ == ip_text(self@),
    {
        match self {
            IpAddr::V4(a) => a.text(),
            IpAddr::V6(a) => a.text(),
        }
    }
}

proof fn lemma_octet_text(n: u8)
    ensures
        octet_value(numeral(n as nat, 10)) == Some(n),
        forall|j: int| 0 <= j < numeral(n as nat, 10).len() ==> numeral(n as nat, 10)[j] != '.',
{
    let s = numeral(n as nat, 10);
    lemma_numeral(n as nat, 10);
    assert(power(10, 3) == 1000) by {
        reveal_with_fuel(power, 4);
    }
    lemma_numeral_length(n as nat, 10, 3);
    assert forall|j: int| 0 <= j < s.len() implies s[j] != '.' by {
        assert(is_digit(s[j], 10));
    }
}

/// The text of an IPv4 address spells that address.
pub proof fn ipv4_text_reads_back(a: Ipv4Addr)
    ensures
        ipv4_value(ipv4_text(a)) == Some(a),
{
    let w = numeral(a.octet(0) as nat, 10);
    let x = numeral(a.octet(1) as nat, 10);
    let y = numeral(a.octet(2) as nat, 10);
    let z = numeral(a.octet(3) as nat, 10);
    lemma_octet_text(a.octet(0));
    lemma_octet_text(a.octet(1));
    lemma_octet_text(a.octet(2));
    lemma_octet_text(a.octet(3));
    lemma_sum_of_octets(a.bits);
    let dot = seq!['.'];
    assert(ipv4_text(a) =~= w + dot + (x + dot + (y + dot + z)));
    lemma_pieces_front(w, x + dot + (y + dot + z), '.');
    lemma_pieces_front(x, y + dot + z, '.');
    lemma_pieces_front(y, z, '.');
    lemma_pieces_whole(z, '.');
    assert(pieces(ipv4_text(a), '.') =~= seq![w, x, y, z]);
}

} // verus!
