//! How the text of an IPv6 address is read and written, group by group.

use vstd::prelude::*;
use crate::address_laws::{
    lemma_double_colon, lemma_groups_text_front, lemma_ipv4_text_is_field, no_ip_text_is_empty,
};
use crate::net::{
    group_list, group_value, groups_text, groups_value, ip_text, ipv4_text, ipv4_text_reads_back,
    ipv4_value, ipv6_value, is_mapped, lemma_ipv6_text, longest_zero_run, zero_run, IpAddrView,
    Ipv4Addr,
};
use crate::numeral::{is_digit, number, numeral};
use crate::text::{first_index, lemma_first_index, lemma_pieces_whole, pieces};
use crate::text_laws::{joined, lemma_pieces_step};

verus! {

/// A text that spells a group: one to four hexadecimal digits, in either case.
pub open spec fn is_group(t: Seq<char>) -> bool {
    1 <= t.len() <= 4 && forall|i: int| 0 <= i < t.len() ==> #[trigger] is_digit(t[i], 16)
}

/// Each of the texts spells a group.
pub open spec fn are_groups(texts: Seq<Seq<char>>) -> bool {
    forall|i: int| 0 <= i < texts.len() ==> is_group(#[trigger] texts[i])
}

/// The numbers that some texts spell in hexadecimal.
pub open spec fn group_numbers(texts: Seq<Seq<char>>) -> Seq<u16> {
    Seq::new(texts.len(), |i: int| number(texts[i], 16) as u16)
}

/// A text between colons: it is not empty, and there is no colon in it.
spec fn is_field(t: Seq<char>) -> bool {
    t.len() >= 1 && forall|j: int| 0 <= j < t.len() ==> #[trigger] t[j] != ':'
}

spec fn are_fields(texts: Seq<Seq<char>>) -> bool {
    forall|i: int| 0 <= i < texts.len() ==> is_field(#[trigger] texts[i])
}

proof fn lemma_groups_are_fields(texts: Seq<Seq<char>>)
    requires
        are_groups(texts),
    ensures
        are_fields(texts),
{
    assert forall|i: int| 0 <= i < texts.len() implies is_field(#[trigger] texts[i]) by {
        let t = texts[i];
        assert(is_group(t));
        assert forall|j: int| 0 <= j < t.len() implies #[trigger] t[j] != ':' by {
            assert(is_digit(t[j], 16));
        }
    }
}

/// Fields with colons between them: what the text looks like, and that it falls into them again.
proof fn lemma_joined_fields(texts: Seq<Seq<char>>)
    requires
        texts.len() >= 1,
        are_fields(texts),
    ensures
        ({
            let s = joined(texts, ':');
            &&& s.len() >= 1
            &&& s[0] != ':'
            &&& s.last() != ':'
            &&& pieces(s, ':') == texts
            &&& forall|i: int| 0 <= i < s.len() - 1 ==> !(#[trigger] s[i] == ':' && s[i + 1] == ':')
        }),
    decreases texts.len(),
{
    let s = joined(texts, ':');
    let first = texts[0];
    assert(is_field(first));
    assert(!first.contains(':')) by {
        if first.contains(':') {
            let j = choose|j: int| 0 <= j < first.len() && first[j] == ':';
            assert(first[j] != ':');
        }
    }
    if texts.len() == 1 {
        assert forall|j: int| 0 <= j < first.len() implies first[j] != ':' by {}
        lemma_pieces_whole(first, ':');
        assert(texts =~= seq![first]);
        assert forall|i: int| 0 <= i < s.len() - 1 implies !(#[trigger] s[i] == ':' && s[i + 1]
            == ':') by {
            assert(s[i] == first[i]);
        }
    } else {
        let rest = texts.drop_first();
        assert forall|i: int| 0 <= i < rest.len() implies is_field(#[trigger] rest[i]) by {
            assert(rest[i] == texts[i + 1]);
        }
        lemma_joined_fields(rest);
        let r = joined(rest, ':');
        lemma_pieces_step(first, r, ':');
        assert(seq![first] + rest =~= texts);
        let k = first.len() as int;
        assert(s[0] == first[0]);
        assert(s.last() == r.last());
        assert forall|i: int| 0 <= i < s.len() - 1 implies !(#[trigger] s[i] == ':' && s[i + 1]
            == ':') by {
            if i < k {
                assert(s[i] == first[i]);
            } else if i == k {
                assert(s[i + 1] == r[0]);
            } else {
                assert(s[i] == r[i - k - 1]);
                assert(s[i + 1] == r[i - k - 1 + 1]);
                assert(!(r[i - k - 1] == ':' && r[i - k - 1 + 1] == ':'));
            }
        }
    }
}

proof fn lemma_group_is_not_ipv4(t: Seq<char>)
    requires
        is_group(t),
    ensures
        ipv4_value(t) is None,
        group_value(t) == Some(number(t, 16) as u16),
{
    assert forall|j: int| 0 <= j < t.len() implies t[j] != '.' by {
        assert(is_digit(t[j], 16));
    }
    lemma_pieces_whole(t, '.');
}

/// What stands last in a list of groups: another group, or an IPv4 address for two of them.
spec fn last_groups(last: Option<Ipv4Addr>) -> Seq<u16> {
    match last {
        Some(a) => seq![(a.bits / 0x1_0000) as u16, (a.bits % 0x1_0000) as u16],
        None => Seq::empty(),
    }
}

spec fn with_last(texts: Seq<Seq<char>>, last: Option<Ipv4Addr>) -> Seq<Seq<char>> {
    match last {
        Some(a) => texts.push(ipv4_text(a)),
        None => texts,
    }
}

proof fn lemma_group_list(texts: Seq<Seq<char>>, last: Option<Ipv4Addr>, dotted: bool)
    requires
        are_groups(texts),
        last is Some ==> dotted,
    ensures
        group_list(with_last(texts, last), dotted) == Some(
            group_numbers(texts) + last_groups(last),
        ),
    decreases texts.len(),
{
    let all = with_last(texts, last);
    if texts.len() == 0 {
        assert(texts =~= Seq::<Seq<char>>::empty());
        if let Some(a) = last {
            ipv4_text_reads_back(a);
            assert(all.len() == 1 && all[0] == ipv4_text(a));
            assert(group_numbers(texts) + last_groups(last) =~= last_groups(last));
        } else {
            assert(group_numbers(texts) + last_groups(last) =~= Seq::<u16>::empty());
        }
    } else {
        let rest = texts.drop_first();
        assert forall|i: int| 0 <= i < rest.len() implies is_group(#[trigger] rest[i]) by {
            assert(rest[i] == texts[i + 1]);
        }
        lemma_group_list(rest, last, dotted);
        assert(is_group(texts[0]));
        lemma_group_is_not_ipv4(texts[0]);
        assert(all[0] == texts[0]);
        assert(all.drop_first() =~= with_last(rest, last));
        assert(seq![number(texts[0], 16) as u16] + (group_numbers(rest) + last_groups(last))
            =~= group_numbers(texts) + last_groups(last));
    }
}

proof fn lemma_with_last_fields(texts: Seq<Seq<char>>, last: Option<Ipv4Addr>)
    requires
        are_groups(texts),
    ensures
        are_fields(with_last(texts, last)),
{
    lemma_groups_are_fields(texts);
    let all = with_last(texts, last);
    assert forall|i: int| 0 <= i < all.len() implies is_field(#[trigger] all[i]) by {
        if i < texts.len() {
            assert(all[i] == texts[i]);
        } else {
            lemma_ipv4_text_is_field(last->0);
        }
    }
}

proof fn lemma_groups_value_of(texts: Seq<Seq<char>>, last: Option<Ipv4Addr>, dotted: bool)
    requires
        are_groups(texts),
        last is Some ==> dotted,
    ensures
        groups_value(joined(with_last(texts, last), ':'), dotted) == Some(
            group_numbers(texts) + last_groups(last),
        ),
{
    let all = with_last(texts, last);
    lemma_group_list(texts, last, dotted);
    if all.len() == 0 {
        assert(group_numbers(texts) + last_groups(last) =~= Seq::<u16>::empty());
    } else {
        lemma_with_last_fields(texts, last);
        lemma_joined_fields(all);
    }
}

proof fn lemma_full(texts: Seq<Seq<char>>, last: Option<Ipv4Addr>)
    requires
        are_groups(texts),
        with_last(texts, last).len() >= 1,
    ensures
        ({
            let groups = group_numbers(texts) + last_groups(last);
            ipv6_value(joined(with_last(texts, last), ':')) == (if groups.len() == 8 {
                Some(groups)
            } else {
                None
            })
        }),
{
    let all = with_last(texts, last);
    let s = joined(all, ':');
    lemma_groups_value_of(texts, last, true);
    lemma_with_last_fields(texts, last);
    lemma_joined_fields(all);
    assert forall|i: int| 0 <= i < s.len() && i + 1 < s.len() implies !(#[trigger] s[i] == ':'
        && s[i + 1] == ':') by {
        assert(0 <= i < s.len() - 1);
    }
    lemma_double_colon(s, s.len() as int);
}

/// Eight groups with colons between them are an IPv6 address, and each group is the number that
/// its one to four hexadecimal digits spell. Fewer groups, or more, are none.
pub proof fn eight_groups_are_an_address(texts: Seq<Seq<char>>)
    requires
        are_groups(texts),
        texts.len() >= 1,
    ensures
        texts.len() == 8 ==> ipv6_value(joined(texts, ':')) == Some(group_numbers(texts)),
        texts.len() != 8 ==> ipv6_value(joined(texts, ':')) is None,
{
    lemma_full(texts, None);
    assert(group_numbers(texts) + last_groups(None) =~= group_numbers(texts));
}

/// The last two of the eight groups may be written as an IPv4 address.
pub proof fn last_groups_may_be_an_ipv4_address(texts: Seq<Seq<char>>, a: Ipv4Addr)
    requires
        are_groups(texts),
    ensures
        ({
            let s = joined(texts.push(ipv4_text(a)), ':');
            &&& texts.len() == 6 ==> (ipv6_value(s) matches Some(g) && g.len() == 8 && g.take(6)
                == group_numbers(texts) && g[6] * 0x1_0000 + g[7] == a.bits)
            &&& texts.len() != 6 ==> ipv6_value(s) is None
        }),
{
    lemma_full(texts, Some(a));
    let groups = group_numbers(texts) + last_groups(Some(a));
    if texts.len() == 6 {
        assert(groups.take(6) =~= group_numbers(texts));
        assert(groups[6] == (a.bits / 0x1_0000) as u16);
        assert(groups[7] == (a.bits % 0x1_0000) as u16);
    }
}

proof fn lemma_short(head: Seq<Seq<char>>, tail: Seq<Seq<char>>, last: Option<Ipv4Addr>)
    requires
        are_groups(head),
        are_groups(tail),
    ensures
        ({
            let front = group_numbers(head);
            let back = group_numbers(tail) + last_groups(last);
            let zeros = Seq::new((8 - front.len() - back.len()) as nat, |i: int| 0u16);
            ipv6_value(joined(head, ':') + seq![':', ':'] + joined(with_last(tail, last), ':')) == (
            if front.len() + back.len() <= 7 {
                Some(front + zeros + back)
            } else {
                None
            })
        }),
{
    let a = joined(head, ':');
    let b = joined(with_last(tail, last), ':');
    let s = a + seq![':', ':'] + b;
    let k = a.len() as int;
    lemma_groups_value_of(head, None, false);
    lemma_groups_value_of(tail, last, true);
    assert(group_numbers(head) + last_groups(None) =~= group_numbers(head));
    if head.len() > 0 {
        lemma_groups_are_fields(head);
        lemma_joined_fields(head);
    }
    assert forall|i: int| 0 <= i < k && i + 1 < s.len() implies !(#[trigger] s[i] == ':' && s[i + 1]
        == ':') by {
        assert(s[i] == a[i]);
        if i + 1 < k {
            assert(s[i + 1] == a[i + 1]);
            assert(!(a[i] == ':' && a[i + 1] == ':'));
        } else {
            assert(a[i] == a.last());
        }
    }
    lemma_double_colon(s, k);
    assert(s.take(k) =~= a);
    assert(s.skip(k + 2) =~= b);
}

/// Two colons stand for as many zero groups as are missing, one at least: with up to seven groups
/// around them the text is an address, and with eight or more it is none. The groups in front stay
/// in front, and those behind come last.
pub proof fn double_colon_stands_for_zeros(head: Seq<Seq<char>>, tail: Seq<Seq<char>>)
    requires
        are_groups(head),
        are_groups(tail),
    ensures
        ({
            let s = joined(head, ':') + seq![':', ':'] + joined(tail, ':');
            let m = head.len() as int;
            let n = tail.len() as int;
            &&& m + n > 7 ==> ipv6_value(s) is None
            &&& m + n <= 7 ==> (ipv6_value(s) matches Some(g) && g.len() == 8 && g.take(m)
                == group_numbers(head) && g.skip(8 - n) == group_numbers(tail) && (forall|i: int|
                m <= i < 8 - n ==> #[trigger] g[i] == 0))
        }),
{
    lemma_short(head, tail, None);
    let m = head.len() as int;
    let n = tail.len() as int;
    let front = group_numbers(head);
    let back = group_numbers(tail) + last_groups(None);
    assert(back =~= group_numbers(tail));
    if m + n <= 7 {
        let zeros = Seq::new((8 - m - n) as nat, |i: int| 0u16);
        let g = front + zeros + back;
        assert(g.take(m) =~= front);
        assert(g.skip(8 - n) =~= back);
    }
}

/// Behind two colons, too, the last two groups may be written as an IPv4 address.
pub proof fn double_colon_and_ipv4_address(
    head: Seq<Seq<char>>,
    tail: Seq<Seq<char>>,
    a: Ipv4Addr,
)
    requires
        are_groups(head),
        are_groups(tail),
    ensures
        ({
            let s = joined(head, ':') + seq![':', ':'] + joined(tail.push(ipv4_text(a)), ':');
            let m = head.len() as int;
            let n = tail.len() as int;
            &&& m + n > 5 ==> ipv6_value(s) is None
            &&& m + n <= 5 ==> (ipv6_value(s) matches Some(g) && g.len() == 8 && g.take(m)
                == group_numbers(head) && g.subrange(6 - n, 6) == group_numbers(tail) && (forall|
                i: int,
            |
                m <= i < 6 - n ==> #[trigger] g[i] == 0) && g[6] * 0x1_0000 + g[7] == a.bits)
        }),
{
    lemma_short(head, tail, Some(a));
    let m = head.len() as int;
    let n = tail.len() as int;
    let front = group_numbers(head);
    let back = group_numbers(tail) + last_groups(Some(a));
    if m + n <= 5 {
        let zeros = Seq::new((8 - m - (n + 2)) as nat, |i: int| 0u16);
        let g = front + zeros + back;
        assert(back.len() == n + 2);
        assert(g.take(m) =~= front);
        assert(g.subrange(6 - n, 6) =~= group_numbers(tail));
        assert(g[6] == (a.bits / 0x1_0000) as u16);
        assert(g[7] == (a.bits % 0x1_0000) as u16);
    }
}

/// The groups of an IPv6 address are written in hexadecimal, in lower case and without leading
/// zeros, with colons between them.
pub proof fn groups_are_written_in_hexadecimal(g: Seq<u16>)
    ensures
        groups_text(g) == joined(Seq::new(g.len(), |i: int| numeral(g[i] as nat, 16)), ':'),
    decreases g.len(),
{
    let texts = Seq::new(g.len(), |i: int| numeral(g[i] as nat, 16));
    if g.len() == 1 {
        assert(texts[0] == numeral(g[0] as nat, 16));
    } else if g.len() >= 2 {
        let rest = g.drop_first();
        lemma_groups_text_front(g);
        groups_are_written_in_hexadecimal(rest);
        assert(texts.drop_first() =~= Seq::new(rest.len(), |i: int| numeral(rest[i] as nat, 16)));
    }
}

/// In the text of an IPv6 address two colons stand for the longest run of zero groups, and of two
/// that are equally long for the first, if that run has two groups or more; else all groups are
/// written. The address of an IPv4 node ends with that IPv4 address.
pub proof fn longest_run_of_zeros_is_left_out(g: Seq<u16>, start: int, len: int)
    requires
        g.len() == 8,
        0 <= start,
        0 <= len,
        start + len <= 8,
        forall|i: int| start <= i < start + len ==> #[trigger] g[i] == 0,
        forall|s: int, n: int| #[trigger]
            zero_run(g, s, n) ==> n <= len && (n == len && n > 0 ==> start <= s),
    ensures
        ({
            let node = (forall|i: int| 0 <= i < 5 ==> #[trigger] g[i] == 0) && g[5] == 0xffff;
            let text = ip_text(IpAddrView::V6(g));
            &&& !node && len >= 2 ==> text == groups_text(g.take(start)) + seq![':', ':']
                + groups_text(g.skip(start + len))
            &&& !node && len < 2 ==> text == groups_text(g)
            &&& node ==> text == seq![':', ':', 'f', 'f', 'f', 'f', ':'] + ipv4_text(
                Ipv4Addr { bits: (g[6] * 0x1_0000 + g[7]) as u32 },
            )
        }),
{
    assert(zero_run(g, start, len));
    assert(longest_zero_run(g, start, len));
    let node = (forall|i: int| 0 <= i < 5 ==> #[trigger] g[i] == 0) && g[5] == 0xffff;
    assert(is_mapped(g) <==> node);
    if !node {
        lemma_ipv6_text(g, start, len);
    }
}

/// A text between the colons of an address: a group, or, where it stands last and may be one, an
/// IPv4 address.
proof fn lemma_listed_fields(p: Seq<Seq<char>>, dotted: bool)
    requires
        group_list(p, dotted) is Some,
    ensures
        forall|i: int|
            0 <= i < p.len() ==> is_group(#[trigger] p[i]) || (i == p.len() - 1 && dotted
                && ipv4_value(p[i]) is Some),
    decreases p.len(),
{
    if p.len() > 0 && !(p.len() == 1 && dotted && ipv4_value(p[0]) is Some) {
        let rest = p.drop_first();
        lemma_listed_fields(rest, dotted);
        assert forall|i: int| 0 <= i < p.len() implies is_group(#[trigger] p[i]) || (i == p.len()
            - 1 && dotted && ipv4_value(p[i]) is Some) by {
            if i > 0 {
                assert(p[i] == rest[i - 1]);
            }
        }
    }
}

/// Without two colons side by side, an address has no other parts than groups between its colons,
/// and an IPv4 address at its end; and there are eight groups.
pub proof fn address_is_made_of_groups(s: Seq<char>)
    requires
        ipv6_value(s) is Some,
        forall|i: int| 0 <= i < s.len() - 1 ==> !(#[trigger] s[i] == ':' && s[i + 1] == ':'),
    ensures
        ({
            let p = pieces(s, ':');
            let n = p.len() as int;
            &&& n == 8 && are_groups(p) || n == 7 && are_groups(p.drop_last()) && ipv4_value(
                p.last(),
            ) is Some
        }),
{
    assert forall|i: int| 0 <= i < s.len() && i + 1 < s.len() implies !(#[trigger] s[i] == ':'
        && s[i + 1] == ':') by {
        assert(0 <= i < s.len() - 1);
    }
    lemma_double_colon(s, s.len() as int);
    let p = pieces(s, ':');
    lemma_listed_fields(p, true);
    let n = p.len() as int;
    lemma_listed_count(p);
    if ipv4_value(p[n - 1]) is Some {
        let front = p.drop_last();
        assert forall|i: int| 0 <= i < front.len() implies is_group(#[trigger] front[i]) by {
            assert(front[i] == p[i]);
        }
    }
}

proof fn lemma_listed_count(p: Seq<Seq<char>>)
    requires
        p.len() >= 1,
        group_list(p, true) is Some,
    ensures
        group_list(p, true)->0.len() == p.len() + (if ipv4_value(p.last()) is Some {
            1int
        } else {
            0int
        }),
    decreases p.len(),
{
    if p.len() > 1 {
        lemma_listed_count(p.drop_first());
        assert(p.drop_first().last() == p.last());
    } else {
        assert(p[0] == p.last());
        assert(p.drop_first() =~= Seq::<Seq<char>>::empty());
        assert(group_list(p.drop_first(), true) == Some(Seq::<u16>::empty()));
    }
}

/// Where two colons stand side by side, one of the pieces between colons is empty.
proof fn lemma_empty_piece(s: Seq<char>, m: int) -> (j: int)
    requires
        0 <= m < s.len() - 1,
        s[m] == ':',
        s[m + 1] == ':',
    ensures
        0 <= j < pieces(s, ':').len(),
        pieces(s, ':')[j].len() == 0,
    decreases s.len(),
{
    let k = first_index(s, ':');
    lemma_first_index(s, ':');
    assert(k <= m) by {
        if k > m {
            assert(s[m] != ':');
        }
    }
    let rest = s.skip(k + 1);
    assert(pieces(s, ':') == seq![s.take(k)] + pieces(rest, ':'));
    if k == m {
        assert(rest[0] == ':');
        assert(first_index(rest, ':') == 0);
        assert(pieces(rest, ':')[0] == rest.take(0));
        assert(pieces(s, ':')[1] == rest.take(0));
        1
    } else {
        assert(rest[m - k - 1] == ':');
        assert(rest[m - k] == ':');
        let j = lemma_empty_piece(rest, m - k - 1);
        assert(pieces(s, ':')[j + 1] == pieces(rest, ':')[j]);
        j + 1
    }
}

/// Two colons may stand side by side in one place only: with a third colon next to them, or with
/// two more elsewhere, the text is no address.
pub proof fn address_has_one_double_colon(s: Seq<char>, k: int, m: int)
    requires
        0 <= k < m < s.len() - 1,
        s[k] == ':',
        s[k + 1] == ':',
        s[m] == ':',
        s[m + 1] == ':',
        forall|i: int| 0 <= i < k ==> !(#[trigger] s[i] == ':' && s[i + 1] == ':'),
    ensures
        ipv6_value(s) is None,
{
    lemma_double_colon(s, k);
    let rest = s.skip(k + 2);
    if groups_value(rest, true) is Some {
        let p = pieces(rest, ':');
        lemma_listed_fields(p, true);
        let j = if m == k + 1 {
            assert(rest[0] == s[k + 2]);
            lemma_first_index(rest, ':');
            assert(first_index(rest, ':') == 0);
            assert(p[0] == rest.take(0));
            0
        } else {
            assert(rest[m - k - 2] == s[m]);
            assert(rest[m - k - 1] == s[m + 1]);
            lemma_empty_piece(rest, m - k - 2)
        };
        assert(is_group(p[j]) || ipv4_value(p[j]) is Some);
        assert(p[j] =~= Seq::<char>::empty());
        no_ip_text_is_empty();
    }
}

/// Around two colons side by side, too, an address has no other parts than groups, and an IPv4
/// address at its end.
pub proof fn address_around_double_colon_is_made_of_groups(s: Seq<char>, k: int)
    requires
        ipv6_value(s) is Some,
        0 <= k < s.len() - 1,
        s[k] == ':',
        s[k + 1] == ':',
        forall|i: int| 0 <= i < k ==> !(#[trigger] s[i] == ':' && s[i + 1] == ':'),
    ensures
        k > 0 ==> are_groups(pieces(s.take(k), ':')),
        k + 2 < s.len() ==> ({
            let p = pieces(s.skip(k + 2), ':');
            are_groups(p) || are_groups(p.drop_last()) && ipv4_value(p.last()) is Some
        }),
{
    lemma_double_colon(s, k);
    if k > 0 {
        lemma_listed_fields(pieces(s.take(k), ':'), false);
    }
    if k + 2 < s.len() {
        let p = pieces(s.skip(k + 2), ':');
        lemma_listed_fields(p, true);
        lemma_first_index(s.skip(k + 2), ':');
        if !are_groups(p) {
            let front = p.drop_last();
            assert forall|i: int| 0 <= i < front.len() implies is_group(#[trigger] front[i]) by {
                assert(front[i] == p[i]);
            }
        }
    }
}

} // verus!
