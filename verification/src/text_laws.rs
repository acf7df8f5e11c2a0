//! What trimming, splitting and ordering mean for every text.

use vstd::prelude::*;
use crate::text::{
    first_index, is_white_space, lemma_first_index, lemma_first_index_is, occurs, occurs_at, pieces,
    text_less, trimmed, trimmed_end, trimmed_start,
};

verus! {

/// The number of characters that trimming takes from the front.
proof fn lemma_trimmed_start(s: Seq<char>) -> (k: int)
    ensures
        0 <= k <= s.len(),
        trimmed_start(s) == s.skip(k),
        forall|i: int| 0 <= i < k ==> is_white_space(#[trigger] s[i]),
        k < s.len() ==> !is_white_space(s[k]),
    decreases s.len(),
{
    if s.len() > 0 && is_white_space(s[0]) {
        let k = lemma_trimmed_start(s.drop_first());
        assert(s.drop_first().skip(k) =~= s.skip(k + 1));
        assert forall|i: int| 0 <= i < k + 1 implies is_white_space(#[trigger] s[i]) by {
            if i > 0 {
                assert(s.drop_first()[i - 1] == s[i]);
            }
        }
        if k < s.drop_first().len() {
            assert(s.drop_first()[k] == s[k + 1]);
        }
        k + 1
    } else {
        assert(s.skip(0) =~= s);
        0
    }
}

/// The number of characters that trimming at the end leaves.
proof fn lemma_trimmed_end(s: Seq<char>) -> (k: int)
    ensures
        0 <= k <= s.len(),
        trimmed_end(s) == s.take(k),
        forall|i: int| k <= i < s.len() ==> is_white_space(#[trigger] s[i]),
        k > 0 ==> !is_white_space(s[k - 1]),
    decreases s.len(),
{
    if s.len() > 0 && is_white_space(s.last()) {
        let k = lemma_trimmed_end(s.drop_last());
        assert(s.drop_last().take(k) =~= s.take(k));
        assert forall|i: int| k <= i < s.len() implies is_white_space(#[trigger] s[i]) by {
            if i < s.len() - 1 {
                assert(s.drop_last()[i] == s[i]);
            }
        }
        k
    } else {
        assert(s.take(s.len() as int) =~= s);
        s.len() as int
    }
}

/// Trimming takes white space from both ends, all of it, and nothing else: what is left is a
/// part of the text, only white space stands around it, and it neither starts nor ends with
/// any.
pub proof fn trimming_takes_white_space_from_the_ends(s: Seq<char>)
    ensures
        exists|i: int, j: int|
            {
                &&& 0 <= i <= j <= s.len()
                &&& trimmed(s) == #[trigger] s.subrange(i, j)
                &&& forall|k: int| 0 <= k < i ==> is_white_space(#[trigger] s[k])
                &&& forall|k: int| j <= k < s.len() ==> is_white_space(#[trigger] s[k])
            },
        trimmed(s).len() > 0 ==> !is_white_space(trimmed(s)[0]) && !is_white_space(
            trimmed(s).last(),
        ),
{
    let i = lemma_trimmed_start(s);
    let rest = s.skip(i);
    let n = lemma_trimmed_end(rest);
    let j = i + n;
    assert(rest.take(n) =~= s.subrange(i, j));
    assert forall|k: int| j <= k < s.len() implies is_white_space(#[trigger] s[k]) by {
        assert(rest[k - i] == s[k]);
    }
    if n > 0 {
        assert(rest[n - 1] == s[i + n - 1]);
        assert(trimmed(s)[0] == s[i]);
        assert(trimmed(s).last() == rest[n - 1]);
    }
    assert(trimmed(s) == s.subrange(i, j));
}

/// A text that neither starts nor ends with white space is not changed by trimming; so a second
/// trimming changes nothing.
pub proof fn trimmed_text_stays(s: Seq<char>)
    ensures
        s.len() == 0 || (!is_white_space(s[0]) && !is_white_space(s.last())) ==> trimmed(s) == s,
        trimmed(trimmed(s)) == trimmed(s),
{
    trimming_takes_white_space_from_the_ends(s);
}

/// Trimming goes from both ends up to a part of the text that neither starts nor ends with white
/// space.
pub proof fn lemma_trimmed_around(a: Seq<char>, b: Seq<char>, c: Seq<char>)
    requires
        b.len() > 0,
        !is_white_space(b[0]),
        !is_white_space(b.last()),
    ensures
        trimmed(a + b + c) == trimmed_start(a) + b + trimmed_end(c),
{
    lemma_start_before(a, b + c);
    let front = trimmed_start(a) + b;
    assert(a + b + c =~= a + (b + c));
    assert(trimmed_start(a) + (b + c) =~= front + c);
    lemma_end_behind(front, c);
}

proof fn lemma_start_before(a: Seq<char>, b: Seq<char>)
    requires
        b.len() > 0,
        !is_white_space(b[0]),
    ensures
        trimmed_start(a + b) == trimmed_start(a) + b,
    decreases a.len(),
{
    if a.len() == 0 {
        assert(a + b =~= b);
        assert(trimmed_start(a) + b =~= b);
    } else {
        assert((a + b)[0] == a[0]);
        if is_white_space(a[0]) {
            assert((a + b).drop_first() =~= a.drop_first() + b);
            lemma_start_before(a.drop_first(), b);
        }
    }
}

proof fn lemma_end_behind(a: Seq<char>, b: Seq<char>)
    requires
        a.len() > 0,
        !is_white_space(a.last()),
    ensures
        trimmed_end(a + b) == a + trimmed_end(b),
    decreases b.len(),
{
    if b.len() == 0 {
        assert(a + b =~= a);
        assert(a + trimmed_end(b) =~= a);
    } else {
        assert((a + b).last() == b.last());
        if is_white_space(b.last()) {
            assert((a + b).drop_last() =~= a + b.drop_last());
            lemma_end_behind(a, b.drop_last());
        }
    }
}

/// Some texts with a separator between them.
pub open spec fn joined(p: Seq<Seq<char>>, separator: char) -> Seq<char>
    decreases p.len(),
{
    if p.len() == 0 {
        Seq::empty()
    } else if p.len() == 1 {
        p[0]
    } else {
        p[0] + seq![separator] + joined(p.drop_first(), separator)
    }
}

/// The pieces of a text, put together again with the separator, are the text; none of them
/// holds the separator.
pub proof fn pieces_make_up_the_text(s: Seq<char>, separator: char)
    ensures
        joined(pieces(s, separator), separator) == s,
        forall|i: int|
            0 <= i < pieces(s, separator).len() ==> !(#[trigger] pieces(s, separator)[i]).contains(
                separator,
            ),
    decreases s.len(),
{
    let k = first_index(s, separator);
    let p = pieces(s, separator);
    lemma_first_index(s, separator);
    if k < s.len() {
        let rest = s.skip(k + 1);
        pieces_make_up_the_text(rest, separator);
        assert(p.drop_first() =~= pieces(rest, separator));
        lemma_some_piece(rest, separator);
        assert(s.take(k) + seq![separator] + rest =~= s);
        assert forall|i: int| 0 <= i < p.len() implies !(#[trigger] p[i]).contains(separator) by {
            if i == 0 {
                assert(p[0] == s.take(k));
            } else {
                assert(p[i] == pieces(rest, separator)[i - 1]);
            }
        }
    } else {
        assert(p[0] == s);
    }
}

proof fn lemma_some_piece(s: Seq<char>, separator: char)
    ensures
        pieces(s, separator).len() >= 1,
{
    lemma_first_index(s, separator);
}

/// A text without the separator, the separator and more text: the pieces are the first part and
/// those of the rest.
pub proof fn lemma_pieces_step(a: Seq<char>, rest: Seq<char>, separator: char)
    requires
        !a.contains(separator),
    ensures
        pieces(a + seq![separator] + rest, separator) == seq![a] + pieces(rest, separator),
{
    let s = a + seq![separator] + rest;
    assert forall|j: int| 0 <= j < a.len() implies s[j] != separator by {
        assert(a.contains(a[j]));
    }
    lemma_first_index_is(s, separator, a.len() as int);
    assert(s.take(a.len() as int) =~= a);
    assert(s.skip(a.len() as int + 1) =~= rest);
}

/// Texts are ordered by the first character in which they differ; if there is none, the shorter
/// one comes first.
pub proof fn texts_are_ordered_by_their_first_difference(a: Seq<char>, b: Seq<char>)
    ensures
        text_less(a, b) <==> exists|k: int|
            0 <= k <= a.len() && k < b.len() && a.take(k) == #[trigger] b.take(k) && (k == a.len()
                || a[k] < b[k]),
    decreases a.len(),
{
    if a.len() > 0 && b.len() > 0 && a[0] == b[0] {
        let x = a.drop_first();
        let y = b.drop_first();
        texts_are_ordered_by_their_first_difference(x, y);
        if text_less(x, y) {
            let k = choose|k: int|
                0 <= k <= x.len() && k < y.len() && x.take(k) == #[trigger] y.take(k) && (k
                    == x.len() || x[k] < y[k]);
            assert(a.take(k + 1) =~= seq![a[0]] + x.take(k));
            assert(b.take(k + 1) =~= seq![b[0]] + y.take(k));
        }
        if exists|k: int|
            0 <= k <= a.len() && k < b.len() && a.take(k) == #[trigger] b.take(k) && (k == a.len()
                || a[k] < b[k]) {
            let k = choose|k: int|
                0 <= k <= a.len() && k < b.len() && a.take(k) == #[trigger] b.take(k) && (k
                    == a.len() || a[k] < b[k]);
            assert(k > 0);
            assert(x.take(k - 1) =~= a.take(k).drop_first());
            assert(y.take(k - 1) =~= b.take(k).drop_first());
        }
    } else if a.len() == 0 && b.len() > 0 {
        assert(a.take(0) =~= b.take(0));
    } else if a.len() > 0 && b.len() > 0 {
        assert(a.take(0) =~= b.take(0));
        assert forall|k: int|
            0 < k <= a.len() && k < b.len() implies a.take(k) != #[trigger] b.take(k) by {
            assert(a.take(k)[0] != b.take(k)[0]);
        }
    }
}

/// Nothing is left of a text of white space.
pub proof fn blank_text_is_trimmed_away(s: Seq<char>)
    ensures
        (forall|i: int| 0 <= i < s.len() ==> is_white_space(#[trigger] s[i])) <==> trimmed(s).len()
            == 0,
{
    trimming_takes_white_space_from_the_ends(s);
    let (i, j) = choose|i: int, j: int|
        {
            &&& 0 <= i <= j <= s.len()
            &&& trimmed(s) == #[trigger] s.subrange(i, j)
            &&& forall|k: int| 0 <= k < i ==> is_white_space(#[trigger] s[k])
            &&& forall|k: int| j <= k < s.len() ==> is_white_space(#[trigger] s[k])
        };
    if trimmed(s).len() > 0 {
        assert(s[i] == trimmed(s)[0]);
    } else {
        assert forall|k: int| 0 <= k < s.len() implies is_white_space(#[trigger] s[k]) by {
            assert(k < i || j <= k);
        }
    }
}

/// White space is 25 code points: in ASCII the blank and the control characters from the tab to
/// the carriage return, and outside it eighteen more; none of them is a letter or a digit.
pub proof fn white_space_is_that_of_unicode(c: char)
    ensures
        is_white_space(c) <==> set![
            9int, 10, 11, 12, 13, 32, 133, 160, 5760, 8192, 8193, 8194, 8195, 8196, 8197, 8198,
            8199, 8200, 8201, 8202, 8232, 8233, 8239, 8287, 12288,
        ].contains(c as int),
        is_white_space(c) ==> !('a' <= c <= 'z') && !('A' <= c <= 'Z') && !('0' <= c <= '9'),
{
}

/// A pattern occurs in a text exactly if the text is the pattern with some text in front of it and
/// some behind it.
pub proof fn pattern_occurs_where_it_stands(
    before: Seq<char>,
    pattern: Seq<char>,
    behind: Seq<char>,
    s: Seq<char>,
)
    ensures
        occurs(pattern, before + pattern + behind),
        occurs(pattern, s) ==> exists|i: int|
            0 <= i <= s.len() - pattern.len() && s == #[trigger] s.take(i) + pattern + s.skip(
                i + pattern.len(),
            ),
{
    let whole = before + pattern + behind;
    assert(whole.subrange(before.len() as int, before.len() as int + pattern.len()) =~= pattern);
    assert(occurs_at(pattern, whole, before.len() as int));
    if occurs(pattern, s) {
        let i = choose|i: int| #[trigger] occurs_at(pattern, s, i);
        assert(s =~= s.take(i) + pattern + s.skip(i + pattern.len())) by {
            assert(s.subrange(i, i + pattern.len()) == pattern);
            assert forall|j: int| i <= j < i + pattern.len() implies s[j] == pattern[j - i] by {
                assert(s.subrange(i, i + pattern.len())[j - i] == s[j]);
            }
        }
    }
}

} // verus!
