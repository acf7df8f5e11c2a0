//! The text of an address spells that address.

use vstd::prelude::*;
use crate::net::{
    compressed_text, double_colon, group_list, group_value, groups_text, groups_value, ip_value,
    ipv4_groups, ipv4_text, ipv4_text_reads_back, ipv4_value, ipv6_value, ip_text, is_mapped,
    longest_zero_run, mapped_ipv4, octet_value, octets_read_back, zero_groups, zero_run, IpAddrView,
    Ipv4Addr,
};
use crate::numeral::{
    all_digits, digit_char, digit_value, is_digit, lemma_numeral, lemma_numeral_length, number,
    numeral, power,
};
use crate::text::{
    first_index, is_white_space, lemma_first_index, lemma_pieces_front, lemma_pieces_whole, pieces,
};
use crate::text_laws::{joined, pieces_make_up_the_text};

verus! {

/// The groups `g` in hexadecimal, one text for each.
spec fn group_texts(g: Seq<u16>) -> Seq<Seq<char>> {
    g.map_values(|n: u16| numeral(n as nat, 16))
}

/// Every character of `s` is a hexadecimal digit or a colon.
spec fn hex_or_colon(s: Seq<char>) -> bool {
    forall|i: int| 0 <= i < s.len() ==> #[trigger] is_digit(s[i], 16) || s[i] == ':'
}

/// Two neighbours in `s` are not both colons.
spec fn single_colons(s: Seq<char>) -> bool {
    forall|i: int| 0 <= i < s.len() - 1 ==> !(#[trigger] s[i] == ':' && s[i + 1] == ':')
}

proof fn lemma_group_text(n: u16)
    ensures
        numeral(n as nat, 16).len() >= 1,
        all_digits(numeral(n as nat, 16), 16),
        group_value(numeral(n as nat, 16)) == Some(n),
        ipv4_value(numeral(n as nat, 16)) is None,
        forall|j: int| 0 <= j < numeral(n as nat, 16).len() ==> numeral(n as nat, 16)[j] != ':',
{
    let s = numeral(n as nat, 16);
    lemma_numeral(n as nat, 16);
    assert(power(16, 4) == 0x1_0000) by {
        reveal_with_fuel(power, 5);
    }
    lemma_numeral_length(n as nat, 16, 4);
    assert forall|j: int| 0 <= j < s.len() implies s[j] != ':' && s[j] != '.' by {
        assert(is_digit(s[j], 16));
    }
    lemma_pieces_whole(s, '.');
}

/// The first group is written first.
pub proof fn lemma_groups_text_front(g: Seq<u16>)
    requires
        g.len() >= 2,
    ensures
        groups_text(g) == numeral(g[0] as nat, 16) + seq![':'] + groups_text(g.drop_first()),
    decreases g.len(),
{
    if g.len() == 2 {
        assert(g.drop_last() =~= seq![g[0]]);
        assert(g.drop_first() =~= seq![g[1]]);
        assert(groups_text(g.drop_last()) == numeral(g[0] as nat, 16));
        assert(groups_text(g.drop_first()) == numeral(g[1] as nat, 16));
    } else {
        let front = g.drop_last();
        lemma_groups_text_front(front);
        assert(front.drop_first() =~= g.drop_first().drop_last());
        assert(g.drop_first().last() == g.last());
        assert(groups_text(g.drop_first()) == groups_text(g.drop_first().drop_last()) + seq![':']
            + numeral(g.last() as nat, 16));
        assert(groups_text(g) =~= numeral(g[0] as nat, 16) + seq![':'] + groups_text(
            g.drop_first(),
        ));
    }
}

/// What the text of some groups looks like, and that it spells them.
proof fn lemma_groups_text(g: Seq<u16>)
    requires
        g.len() >= 1,
    ensures
        groups_text(g).len() >= 1,
        hex_or_colon(groups_text(g)),
        single_colons(groups_text(g)),
        groups_text(g)[0] != ':',
        groups_text(g).last() != ':',
        pieces(groups_text(g), ':') == group_texts(g),
        forall|dotted: bool| #[trigger] group_list(group_texts(g), dotted) == Some(g),
    decreases g.len(),
{
    let first = numeral(g[0] as nat, 16);
    lemma_group_text(g[0]);
    assert forall|j: int| 0 <= j < first.len() implies is_digit(#[trigger] first[j], 16) by {
        assert(is_digit(first[j], 16));
    }
    let t = groups_text(g);
    let texts = group_texts(g);
    assert(texts[0] == first);
    if g.len() == 1 {
        lemma_pieces_whole(first, ':');
        assert(texts =~= seq![first]);
        assert(texts.drop_first() =~= Seq::<Seq<char>>::empty());
        assert(seq![g[0]] + Seq::<u16>::empty() =~= g);
        assert forall|dotted: bool| #[trigger] group_list(texts, dotted) == Some(g) by {
            assert(group_list(texts.drop_first(), dotted) == Some(Seq::<u16>::empty()));
        }
    } else {
        let rest = g.drop_first();
        lemma_groups_text_front(g);
        lemma_groups_text(rest);
        lemma_pieces_front(first, groups_text(rest), ':');
        assert(texts =~= seq![first] + group_texts(rest));
        assert(texts.drop_first() =~= group_texts(rest));
        assert(seq![g[0]] + rest =~= g);
        assert forall|dotted: bool| #[trigger] group_list(texts, dotted) == Some(g) by {
            assert(group_list(group_texts(rest), dotted) == Some(rest));
        }
        let k = first.len();
        let r = groups_text(rest);
        assert forall|i: int| 0 <= i < t.len() implies #[trigger] is_digit(t[i], 16) || t[i]
            == ':' by {
            if i < k {
                assert(t[i] == first[i]);
            } else if i > k {
                assert(t[i] == r[i - k - 1]);
                assert(is_digit(r[i - k - 1], 16) || r[i - k - 1] == ':');
            }
        }
        assert forall|i: int| 0 <= i < t.len() - 1 implies !(#[trigger] t[i] == ':' && t[i + 1]
            == ':') by {
            if i < k {
                assert(t[i] == first[i]);
            } else if i == k {
                assert(t[i + 1] == r[0]);
            } else {
                assert(t[i] == r[i - k - 1]);
                assert(t[i + 1] == r[i - k]);
                assert(!(r[i - k - 1] == ':' && r[i - k - 1 + 1] == ':'));
            }
        }
        assert(t[0] == first[0]);
        assert(t.last() == r.last());
    }
}

proof fn lemma_groups_value(g: Seq<u16>, dotted: bool)
    ensures
        groups_value(groups_text(g), dotted) == Some(g),
{
    if g.len() == 0 {
        assert(g =~= Seq::<u16>::empty());
    } else {
        lemma_groups_text(g);
        assert(group_list(group_texts(g), dotted) == Some(g));
    }
}

/// The first two colons that stand side by side.
pub proof fn lemma_double_colon(s: Seq<char>, k: int)
    requires
        0 <= k <= s.len(),
        k < s.len() ==> k + 1 < s.len() && s[k] == ':' && s[k + 1] == ':',
        forall|i: int|
            0 <= i < k && i + 1 < s.len() ==> !(#[trigger] s[i] == ':' && s[i + 1] == ':'),
    ensures
        double_colon(s) == k,
    decreases s.len(),
{
    if s.len() >= 2 && k > 0 {
        assert(!(s[0] == ':' && s[1] == ':'));
        let t = s.drop_first();
        assert forall|i: int| 0 <= i < k - 1 && i + 1 < t.len() implies !(#[trigger] t[i] == ':'
            && t[i + 1] == ':') by {
            assert(t[i] == s[i + 1]);
            assert(t[i + 1] == s[i + 1 + 1]);
            assert(!(s[i + 1] == ':' && s[i + 1 + 1] == ':'));
        }
        lemma_double_colon(t, k - 1);
    }
}

/// Every character of a text is the separator or stands in one of the pieces.
proof fn lemma_pieces_cover(s: Seq<char>, separator: char, i: int) -> (j: int)
    requires
        0 <= i < s.len(),
        s[i] != separator,
    ensures
        0 <= j < pieces(s, separator).len(),
        pieces(s, separator)[j].contains(s[i]),
    decreases s.len(),
{
    let k = first_index(s, separator);
    lemma_first_index(s, separator);
    if k >= s.len() {
        assert(pieces(s, separator)[0] == s);
        0
    } else if i < k {
        assert(pieces(s, separator)[0] == s.take(k));
        assert(s.take(k)[i] == s[i]);
        0
    } else {
        let rest = s.skip(k + 1);
        assert(rest[i - k - 1] == s[i]);
        let j = lemma_pieces_cover(rest, separator, i - k - 1);
        assert(pieces(s, separator)[j + 1] == pieces(rest, separator)[j]);
        j + 1
    }
}

/// A text with a colon in it is no IPv4 address.
proof fn lemma_colon_is_not_ipv4(s: Seq<char>, i: int)
    requires
        0 <= i < s.len(),
        s[i] == ':',
    ensures
        ipv4_value(s) is None,
{
    let j = lemma_pieces_cover(s, '.', i);
    let p = pieces(s, '.')[j];
    let m = choose|m: int| 0 <= m < p.len() && p[m] == s[i];
    assert(!is_digit(p[m], 10));
    assert(octet_value(p) is None);
}

proof fn lemma_ipv4_text_chars(a: Ipv4Addr)
    ensures
        forall|j: int| 0 <= j < ipv4_text(a).len() ==> ipv4_text(a)[j] != ':',
{
    let s = ipv4_text(a);
    ipv4_text_reads_back(a);
    assert forall|j: int| 0 <= j < s.len() implies s[j] != ':' by {
        if s[j] == ':' {
            lemma_colon_is_not_ipv4(s, j);
        }
    }
}

proof fn lemma_mapped_reads_back(g: Seq<u16>)
    requires
        g.len() == 8,
        is_mapped(g),
    ensures
        ipv6_value(seq![':', ':', 'f', 'f', 'f', 'f', ':'] + ipv4_text(mapped_ipv4(g))) == Some(g),
{
    let a = mapped_ipv4(g);
    let s = seq![':', ':', 'f', 'f', 'f', 'f', ':'] + ipv4_text(a);
    lemma_double_colon(s, 0);
    assert(s.take(0) =~= Seq::<char>::empty());
    let ones = seq!['f', 'f', 'f', 'f'];
    let tail = s.skip(2);
    assert(tail =~= ones + seq![':'] + ipv4_text(a));
    lemma_ipv4_text_chars(a);
    lemma_pieces_front(ones, ipv4_text(a), ':');
    lemma_pieces_whole(ipv4_text(a), ':');
    let p = pieces(tail, ':');
    assert(p =~= seq![ones, ipv4_text(a)]);
    assert(number(ones, 16) == 0xffff) by {
        assert(ones.drop_last() =~= seq!['f', 'f', 'f']);
        assert(ones.drop_last().drop_last() =~= seq!['f', 'f']);
        assert(ones.drop_last().drop_last().drop_last() =~= seq!['f']);
        assert(ones.drop_last().drop_last().drop_last().drop_last() =~= Seq::<char>::empty());
        reveal_with_fuel(number, 5);
    }
    assert(all_digits(ones, 16));
    assert(group_value(ones) == Some(0xffffu16));
    ipv4_text_reads_back(a);
    assert(p.drop_first() =~= seq![ipv4_text(a)]);
    assert(group_list(p.drop_first(), true) == Some(ipv4_groups(a)));
    let hi = (a.bits / 0x1_0000) as u16;
    let lo = (a.bits % 0x1_0000) as u16;
    assert(hi == g[6] && lo == g[7]);
    let groups = seq![0xffffu16] + ipv4_groups(a);
    assert(groups_value(tail, true) == Some(groups));
    assert(Seq::<u16>::empty() + zero_groups(5) + groups =~= g);
}

proof fn lemma_compressed_reads_back(g: Seq<u16>, start: int, len: int)
    requires
        g.len() == 8,
        longest_zero_run(g, start, len),
    ensures
        ipv6_value(compressed_text(g, start, len)) == Some(g),
{
    if len > 1 {
        let head = g.take(start);
        let tail = g.skip(start + len);
        let a = groups_text(head);
        let b = groups_text(tail);
        let s = a + seq![':', ':'] + b;
        lemma_groups_value(head, false);
        lemma_groups_value(tail, true);
        if head.len() > 0 {
            lemma_groups_text(head);
        }
        assert forall|i: int| 0 <= i < a.len() && i + 1 < s.len() implies !(#[trigger] s[i] == ':'
            && s[i + 1] == ':') by {
            assert(s[i] == a[i]);
            if i + 1 < a.len() {
                assert(s[i + 1] == a[i + 1]);
            } else {
                assert(a[i] == a.last());
            }
        }
        lemma_double_colon(s, a.len() as int);
        assert(s.take(a.len() as int) =~= a);
        assert(s.skip(a.len() as int + 2) =~= b);
        assert(head + zero_groups(len) + tail =~= g);
    } else {
        lemma_groups_value(g, true);
        lemma_groups_text(g);
        lemma_double_colon(groups_text(g), groups_text(g).len() as int);
    }
}

/// The length of the run of zero groups that starts at `s`.
spec fn run_from(g: Seq<u16>, s: int) -> int
    decreases g.len() - s,
{
    if 0 <= s < g.len() && g[s] == 0 {
        1 + run_from(g, s + 1)
    } else {
        0
    }
}

proof fn lemma_run_from(g: Seq<u16>, s: int)
    requires
        0 <= s <= g.len(),
    ensures
        zero_run(g, s, run_from(g, s)),
        forall|n: int| #[trigger] zero_run(g, s, n) ==> n <= run_from(g, s),
    decreases g.len() - s,
{
    if s < g.len() && g[s] == 0 {
        lemma_run_from(g, s + 1);
        assert forall|n: int| #[trigger] zero_run(g, s, n) implies n <= run_from(g, s) by {
            if n > 0 {
                assert(zero_run(g, s + 1, n - 1));
            }
        }
    } else {
        assert forall|n: int| #[trigger] zero_run(g, s, n) implies n <= 0 by {
            if n > 0 {
                assert(g[s] == 0);
            }
        }
    }
}

/// The longest run among those that start before `s`.
proof fn lemma_longest_before(g: Seq<u16>, s: int) -> (r: (int, int))
    requires
        0 <= s <= g.len(),
    ensures
        r.0 <= s,
        zero_run(g, r.0, r.1),
        forall|a: int, n: int| #[trigger]
            zero_run(g, a, n) && a < s ==> n <= r.1 && (n == r.1 && n > 0 ==> r.0 <= a),
    decreases s,
{
    if s == 0 {
        (0, 0)
    } else {
        let best = lemma_longest_before(g, s - 1);
        lemma_run_from(g, s - 1);
        let n = run_from(g, s - 1);
        if n > best.1 {
            (s - 1, n)
        } else {
            best
        }
    }
}

/// There is a longest run of zero groups.
proof fn lemma_longest_zero_run(g: Seq<u16>)
    ensures
        exists|start: int, len: int| longest_zero_run(g, start, len),
{
    let (start, len) = lemma_longest_before(g, g.len() as int);
    assert forall|a: int, n: int| #[trigger] zero_run(g, a, n) implies n <= len && (n == len && n
        > 0 ==> start <= a) by {
        if a >= g.len() {
            assert(n <= 0);
        }
    }
    assert(longest_zero_run(g, start, len));
}

/// The canonical text of an address of either family spells that address.
pub proof fn ip_text_reads_back(a: IpAddrView)
    requires
        a matches IpAddrView::V6(g) ==> g.len() == 8,
    ensures
        ip_value(ip_text(a)) == Some(a),
{
    let s = ip_text(a);
    match a {
        IpAddrView::V4(a) => {
            ipv4_text_reads_back(a);
        },
        IpAddrView::V6(g) => {
            if is_mapped(g) {
                lemma_mapped_reads_back(g);
                lemma_colon_is_not_ipv4(s, 0);
            } else {
                lemma_longest_zero_run(g);
                let (start, len) = choose|start: int, len: int| longest_zero_run(g, start, len);
                lemma_compressed_reads_back(g, start, len);
                if len > 1 {
                    let k = groups_text(g.take(start)).len();
                    assert(s[k as int] == ':');
                    lemma_colon_is_not_ipv4(s, k as int);
                } else {
                    lemma_groups_text_front(g);
                    let k = numeral(g[0] as nat, 16).len();
                    assert(s[k as int] == ':');
                    lemma_colon_is_not_ipv4(s, k as int);
                }
            }
        },
    }
}

proof fn lemma_number_is_positive(s: Seq<char>)
    requires
        s.len() >= 1,
        all_digits(s, 10),
        s[0] != '0',
    ensures
        number(s, 10) >= 1,
    decreases s.len(),
{
    assert(is_digit(s[0], 10));
    if s.len() > 1 {
        let front = s.drop_last();
        assert forall|i: int| 0 <= i < front.len() implies #[trigger] is_digit(front[i], 10) by {
            assert(is_digit(s[i], 10));
        }
        lemma_number_is_positive(front);
    } else {
        assert(s.drop_last() =~= Seq::<char>::empty());
        assert(number(s.drop_last(), 10) == 0);
    }
}

/// Digits without leading zeros are the numeral of the number that they spell.
pub proof fn lemma_numeral_of_number(s: Seq<char>)
    requires
        s.len() >= 1,
        all_digits(s, 10),
        s.len() == 1 || s[0] != '0',
    ensures
        numeral(number(s, 10), 10) == s,
    decreases s.len(),
{
    let front = s.drop_last();
    let c = s.last();
    assert(is_digit(s[s.len() - 1], 10));
    let d = digit_value(c);
    assert(digit_char(d) == c);
    if s.len() == 1 {
        assert(front =~= Seq::<char>::empty());
        assert(number(front, 10) == 0);
        assert(number(s, 10) == d);
        assert(seq![c] =~= s);
    } else {
        assert forall|i: int| 0 <= i < front.len() implies #[trigger] is_digit(front[i], 10) by {
            assert(is_digit(s[i], 10));
        }
        lemma_number_is_positive(front);
        lemma_numeral_of_number(front);
        let n = number(s, 10);
        assert(n == number(front, 10) * 10 + d);
        assert(n / 10 == number(front, 10));
        assert(n % 10 == d);
        assert(front.push(c) =~= s);
    }
}

/// An IPv4 address is spelled in one way only: a text spells it exactly if it is its text.
pub proof fn ipv4_address_has_one_text(s: Seq<char>, a: Ipv4Addr)
    ensures
        ipv4_value(s) == Some(a) <==> s == ipv4_text(a),
{
    ipv4_text_reads_back(a);
    if ipv4_value(s) == Some(a) {
        let p = pieces(s, '.');
        pieces_make_up_the_text(s, '.');
        lemma_numeral_of_number(p[0]);
        lemma_numeral_of_number(p[1]);
        lemma_numeral_of_number(p[2]);
        lemma_numeral_of_number(p[3]);
        let q = p.drop_first();
        let r = q.drop_first();
        let t = r.drop_first();
        assert(joined(t, '.') == p[3]);
        assert(joined(r, '.') == p[2] + seq!['.'] + joined(t, '.'));
        assert(joined(q, '.') == p[1] + seq!['.'] + joined(r, '.'));
        assert(joined(p, '.') == p[0] + seq!['.'] + joined(q, '.'));
        octets_read_back(
            octet_value(p[0])->0,
            octet_value(p[1])->0,
            octet_value(p[2])->0,
            octet_value(p[3])->0,
        );
        assert(s =~= ipv4_text(a));
    }
}

/// `c` may stand in the text of an address.
spec fn address_char(c: char) -> bool {
    is_digit(c, 16) || c == ':' || c == '.'
}

proof fn lemma_ipv4_text_digits(a: Ipv4Addr)
    ensures
        ipv4_text(a).len() >= 1,
        forall|i: int| 0 <= i < ipv4_text(a).len() ==> address_char(#[trigger] ipv4_text(a)[i]),
{
    let s = ipv4_text(a);
    let w = numeral(a.octet(0) as nat, 10);
    let x = numeral(a.octet(1) as nat, 10);
    let y = numeral(a.octet(2) as nat, 10);
    let z = numeral(a.octet(3) as nat, 10);
    lemma_numeral(a.octet(0) as nat, 10);
    lemma_numeral(a.octet(1) as nat, 10);
    lemma_numeral(a.octet(2) as nat, 10);
    lemma_numeral(a.octet(3) as nat, 10);
    let i1 = w.len() as int;
    let i2 = i1 + 1 + x.len();
    let i3 = i2 + 1 + y.len();
    assert forall|i: int| 0 <= i < s.len() implies address_char(#[trigger] s[i]) by {
        if i < i1 {
            assert(s[i] == w[i]);
            assert(is_digit(w[i], 10));
        } else if i == i1 || i == i2 || i == i3 {
            assert(s[i] == '.');
        } else if i < i2 {
            assert(s[i] == x[i - i1 - 1]);
            assert(is_digit(x[i - i1 - 1], 10));
        } else if i < i3 {
            assert(s[i] == y[i - i2 - 1]);
            assert(is_digit(y[i - i2 - 1], 10));
        } else {
            assert(s[i] == z[i - i3 - 1]);
            assert(is_digit(z[i - i3 - 1], 10));
        }
    }
}

/// The text of an address is not blank, and has no white space, semicolon or slash.
pub proof fn lemma_ip_text_chars(a: IpAddrView)
    requires
        a matches IpAddrView::V6(g) ==> g.len() == 8,
    ensures
        ip_text(a).len() >= 1,
        forall|i: int|
            0 <= i < ip_text(a).len() ==> !is_white_space(#[trigger] ip_text(a)[i]) && ip_text(a)[i]
                != ';' && ip_text(a)[i] != '/',
{
    let s = ip_text(a);
    match a {
        IpAddrView::V4(a) => {
            lemma_ipv4_text_digits(a);
        },
        IpAddrView::V6(g) => {
            if is_mapped(g) {
                let head = seq![':', ':', 'f', 'f', 'f', 'f', ':'];
                let tail = ipv4_text(mapped_ipv4(g));
                lemma_ipv4_text_digits(mapped_ipv4(g));
                assert forall|i: int| 0 <= i < s.len() implies address_char(#[trigger] s[i]) by {
                    if i >= 7 {
                        assert(s[i] == tail[i - 7]);
                    }
                }
            } else {
                lemma_longest_zero_run(g);
                let (start, len) = choose|start: int, len: int| longest_zero_run(g, start, len);
                if len > 1 {
                    let head = groups_text(g.take(start));
                    let tail = groups_text(g.skip(start + len));
                    if start > 0 {
                        lemma_groups_text(g.take(start));
                    }
                    if start + len < 8 {
                        lemma_groups_text(g.skip(start + len));
                    }
                    let k = head.len() as int;
                    assert forall|i: int| 0 <= i < s.len() implies address_char(
                        #[trigger] s[i],
                    ) by {
                        if i < k {
                            assert(s[i] == head[i]);
                            assert(is_digit(head[i], 16) || head[i] == ':');
                        } else if i >= k + 2 {
                            assert(s[i] == tail[i - k - 2]);
                            assert(is_digit(tail[i - k - 2], 16) || tail[i - k - 2] == ':');
                        }
                    }
                } else {
                    lemma_groups_text(g);
                    assert forall|i: int| 0 <= i < s.len() implies address_char(
                        #[trigger] s[i],
                    ) by {
                        assert(is_digit(s[i], 16) || s[i] == ':');
                    }
                }
            }
        },
    }
    assert forall|i: int| 0 <= i < s.len() implies !is_white_space(#[trigger] s[i]) && s[i] != ';'
        && s[i] != '/' by {
        assert(address_char(s[i]));
    }
}

/// The empty text is no address.
pub proof fn no_ip_text_is_empty()
    ensures
        ip_value(Seq::empty()) is None,
        ipv4_value(Seq::empty()) is None,
{
}

/// The text of an IPv4 address is not empty, and has no colon in it.
pub proof fn lemma_ipv4_text_is_field(a: Ipv4Addr)
    ensures
        ipv4_text(a).len() >= 1,
        forall|j: int| 0 <= j < ipv4_text(a).len() ==> #[trigger] ipv4_text(a)[j] != ':',
{
    lemma_ipv4_text_digits(a);
    lemma_ipv4_text_chars(a);
}

} // verus!
