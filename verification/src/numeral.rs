//! Numbers and the digits that spell them.

use vstd::prelude::*;

verus! {

/// `c` is a digit of a number in base `radix`, which is at most 16.
pub open spec fn is_digit(c: char, radix: nat) -> bool {
    ('0' <= c <= '9' || 'a' <= c <= 'f' || 'A' <= c <= 'F') && digit_value(c) < radix
}

/// What the digit `c` stands for.
pub open spec fn digit_value(c: char) -> nat {
    if '0' <= c <= '9' {
        (c as int - '0' as int) as nat
    } else if 'a' <= c <= 'f' {
        (c as int - 'a' as int + 10) as nat
    } else if 'A' <= c <= 'F' {
        (c as int - 'A' as int + 10) as nat
    } else {
        0
    }
}

/// Every character of `s` is a digit in base `radix`.
pub open spec fn all_digits(s: Seq<char>, radix: nat) -> bool {
    forall|i: int| 0 <= i < s.len() ==> #[trigger] is_digit(s[i], radix)
}

/// The number that the digits `s` spell in base `radix`.
pub open spec fn number(s: Seq<char>, radix: nat) -> nat
    decreases s.len(),
{
    if s.len() == 0 {
        0
    } else {
        number(s.drop_last(), radix) * radix + digit_value(s.last())
    }
}

/// The digit, in lower case, that stands for `d`.
pub open spec fn digit_char(d: nat) -> char {
    if d < 10 {
        ('0' as int + d) as char
    } else {
        ('a' as int + (d - 10)) as char
    }
}

/// The digits of `n` in base `radix`, without leading zeros.
pub open spec fn numeral(n: nat, radix: nat) -> Seq<char>
    decreases n,
    when 2 <= radix
    via numeral_decreases
{
    if n < radix {
        seq![digit_char(n)]
    } else {
        numeral(n / radix, radix).push(digit_char(n % radix))
    }
}

#[via_fn]
proof fn numeral_decreases(n: nat, radix: nat) {
    if n >= radix {
        lemma_quotient(n, radix);
    }
}

proof fn lemma_quotient(n: nat, radix: nat)
    requires
        2 <= radix,
        n > 0,
    ensures
        0 <= n / radix < n,
        0 <= n % radix < radix,
        n == (n / radix) * radix + n % radix,
{
    assert(0 <= n / radix < n && 0 <= n % radix < radix && n == (n / radix) * radix + n % radix)
        by (nonlinear_arith)
        requires
            2 <= radix,
            n > 0,
    ;
}

/// A prefix of some digits spells no larger number than all of them.
pub proof fn lemma_number_prefix(s: Seq<char>, i: int, radix: nat)
    requires
        0 <= i <= s.len(),
        1 <= radix,
    ensures
        number(s.take(i), radix) <= number(s, radix),
    decreases s.len() - i,
{
    if i == s.len() {
        assert(s.take(i) == s);
    } else {
        assert(s.take(i + 1).drop_last() == s.take(i));
        let n = number(s.take(i), radix);
        assert(n <= n * radix) by (nonlinear_arith)
            requires
                1 <= radix,
                0 <= n,
        ;
        lemma_number_prefix(s, i + 1, radix);
    }
}

/// The digits of a number are digits, spell that number, and start with a zero only for
/// zero itself.
pub proof fn lemma_numeral(n: nat, radix: nat)
    requires
        2 <= radix <= 16,
    ensures
        numeral(n, radix).len() >= 1,
        all_digits(numeral(n, radix), radix),
        number(numeral(n, radix), radix) == n,
        numeral(n, radix).len() > 1 ==> numeral(n, radix)[0] != '0',
        n > 0 ==> numeral(n, radix)[0] != '0',
    decreases n,
{
    let s = numeral(n, radix);
    if n < radix {
        assert(s.drop_last() == Seq::<char>::empty());
        assert(number(s.drop_last(), radix) == 0);
        assert(0 * radix == 0);
    } else {
        lemma_quotient(n, radix);
        let q = n / radix;
        assert(q > 0) by (nonlinear_arith)
            requires
                n >= radix,
                radix >= 2,
                q == n / radix,
        ;
        lemma_numeral(q, radix);
        assert(s.drop_last() == numeral(q, radix));
        assert(s.last() == digit_char(n % radix));
        assert forall|i: int| 0 <= i < s.len() implies #[trigger] is_digit(s[i], radix) by {
            if i < s.len() - 1 {
                assert(s[i] == numeral(q, radix)[i]);
            }
        }
        assert(s[0] == numeral(q, radix)[0]);
    }
}

/// A number below `radix` to the power `k` has at most `k` digits.
pub proof fn lemma_numeral_length(n: nat, radix: nat, k: nat)
    requires
        2 <= radix,
        1 <= k,
        n < power(radix, k),
    ensures
        numeral(n, radix).len() <= k,
    decreases k,
{
    if n >= radix {
        lemma_quotient(n, radix);
        if k == 1 {
            assert(power(radix, 1) == radix * power(radix, 0));
            assert(radix * 1 == radix);
        } else {
            let q = n / radix;
            let p = power(radix, (k - 1) as nat);
            assert(power(radix, k) == radix * p);
            assert(q < p) by (nonlinear_arith)
                requires
                    n < radix * p,
                    q == n / radix,
                    radix >= 2,
            ;
            lemma_numeral_length(q, radix, (k - 1) as nat);
        }
    }
}

/// `k` digits spell a number below `radix` to the power `k`.
pub proof fn lemma_number_bound(s: Seq<char>, radix: nat)
    requires
        1 <= radix,
        all_digits(s, radix),
    ensures
        number(s, radix) < power(radix, s.len()),
    decreases s.len(),
{
    if s.len() > 0 {
        let front = s.drop_last();
        assert forall|i: int| 0 <= i < front.len() implies #[trigger] is_digit(front[i], radix) by {
            assert(is_digit(s[i], radix));
        }
        lemma_number_bound(front, radix);
        assert(is_digit(s[s.len() - 1], radix));
        let n = number(front, radix);
        let d = digit_value(s.last());
        let p = power(radix, front.len());
        assert(n * radix + d < radix * p) by (nonlinear_arith)
            requires
                n < p,
                d < radix,
        ;
    }
}

/// A larger power of the same base is at least as large.
pub proof fn lemma_power_grows(radix: nat, j: nat, k: nat)
    requires
        1 <= radix,
        j <= k,
    ensures
        power(radix, j) <= power(radix, k),
    decreases k - j,
{
    if j < k {
        lemma_power_grows(radix, j, (k - 1) as nat);
        let p = power(radix, (k - 1) as nat);
        assert(p <= radix * p) by (nonlinear_arith)
            requires
                1 <= radix,
        ;
    }
}

/// `radix` to the power `k`.
pub open spec fn power(radix: nat, k: nat) -> nat
    decreases k,
{
    if k == 0 {
        1
    } else {
        radix * power(radix, (k - 1) as nat)
    }
}

/// What the digit `c` stands for, if it is one in base `radix`.
pub fn digit(c: char, radix: u32) -> (r: Option<u32>)
    requires
        radix <= 16,
    ensures
        r is Some <==> is_digit(c, radix as nat),
        r matches Some(d) ==> d == digit_value(c),
{
    let value: u32 = if '0' <= c && c <= '9' {
        c as u32 - '0' as u32
    } else if 'a' <= c && c <= 'f' {
        c as u32 - 'a' as u32 + 10
    } else if 'A' <= c && c <= 'F' {
        c as u32 - 'A' as u32 + 10
    } else {
        return None;
    };
    if value < radix {
        Some(value)
    } else {
        None
    }
}

/// The number that `s` spells in base `radix`, if `s` holds digits only, at least one,
/// and the number is at most `max`.
pub fn parse_number(s: &[char], radix: u32, max: u32) -> (r: Option<u32>)
    requires
        1 <= radix <= 16,
    ensures
        r is Some <==> s@.len() >= 1 && all_digits(s@, radix as nat) && number(s@, radix as nat)
            <= max,
        r matches Some(n) ==> n == number(s@, radix as nat),
{
    if s.len() == 0 {
        return None;
    }
    let mut n: u32 = 0;
    let mut i: usize = 0;
    while i < s.len()
        invariant
            1 <= radix <= 16,
            i <= s@.len(),
            forall|j: int| 0 <= j < i ==> #[trigger] is_digit(s@[j], radix as nat),
            n == number(s@.take(i as int), radix as nat),
            n <= max,
        decreases s.len() - i,
    {
        match digit(s[i], radix) {
            None => {
                proof {
                    assert(!is_digit(s@[i as int], radix as nat));
                }
                return None;
            },
            Some(d) => {
                proof {
                    assert(n * radix <= 0xffff_ffff * 16) by (nonlinear_arith)
                        requires
                            n <= 0xffff_ffff,
                            radix <= 16,
                    ;
                    assert(s@.take(i + 1).drop_last() == s@.take(i as int));
                }
                let next: u64 = n as u64 * radix as u64 + d as u64;
                if next > max as u64 {
                    proof {
                        lemma_number_prefix(s@, i + 1, radix as nat);
                    }
                    return None;
                }
                n = next as u32;
            },
        }
        i += 1;
    }
    proof {
        assert(s@.take(s@.len() as int) == s@);
    }
    Some(n)
}

/// Appends the digits of `n` in base `radix` to `out`.
pub fn push_number(out: &mut String, n: u32, radix: u32)
    requires
        2 <= radix <= 16,
    ensures
        final(out)@ == old(out)@ + numeral(n as nat, radix as nat),
    decreases n,
{
    if n >= radix {
        proof {
            lemma_quotient(n as nat, radix as nat);
        }
        push_number(out, n / radix, radix);
    }
    let d: u32 = n % radix;
    let c: char = if d < 10 {
        ('0' as u8 + d as u8) as char
    } else {
        ('a' as u8 + (d as u8 - 10)) as char
    };
    out.push(c);
    proof {
        assert(n < radix ==> n % radix == n) by (nonlinear_arith)
            requires
                radix >= 2,
                n >= 0,
        ;
        assert(out@ == old(out)@ + numeral(n as nat, radix as nat));
    }
}

/// The decimal digits of `n`.
pub fn decimal(n: u32) -> (r: String)
    ensures
        r@ == numeral(n as nat, 10),
{
    let mut out = String::new();
    push_number(&mut out, n, 10);
    proof {
        assert(Seq::<char>::empty() + numeral(n as nat, 10) == numeral(n as nat, 10));
    }
    out
}

/// Digits are those of ASCII, and above nine they are letters, of which the lower case is
/// written and both cases are read. A number is written digit by digit, the least significant
/// one last.
pub proof fn numbers_are_written_digit_by_digit(n: nat, d: nat, radix: nat)
    requires
        2 <= radix <= 16,
        d < radix,
    ensures
        d < 10 ==> numeral(d, radix) == seq![(48 + d) as char],
        d < 10 ==> digit_value((48 + d) as char) == d,
        d >= 10 ==> numeral(d, radix) == seq![(87 + d) as char],
        d >= 10 ==> digit_value((87 + d) as char) == d && digit_value((55 + d) as char) == d,
        n > 0 ==> numeral(n * radix + d, radix) == numeral(n, radix) + numeral(d, radix),
{
    if n > 0 {
        let m = n * radix + d;
        assert(m >= radix && m / radix == n && m % radix == d) by (nonlinear_arith)
            requires
                n > 0,
                d < radix,
                m == n * radix + d,
        ;
        assert(numeral(m, radix) =~= numeral(n, radix) + numeral(d, radix));
    }
}

/// Nothing but the digits of ASCII, and the letters for ten and more, is a digit.
pub proof fn digits_are_ascii(c: char, radix: nat)
    requires
        radix <= 16,
    ensures
        is_digit(c, radix) <==> ({
            ||| 48 <= c as int && c as int <= 57 && c as int - 48 < radix
            ||| 97 <= c as int && c as int <= 102 && c as int - 87 < radix
            ||| 65 <= c as int && c as int <= 70 && c as int - 55 < radix
        }),
{
}

/// Digits are read by their place: one more digit at the end makes the number `radix` times as
/// large, and adds what the digit stands for. So leading zeros do not matter.
pub proof fn digits_are_read_by_their_place(s: Seq<char>, c: char, radix: nat)
    ensures
        number(Seq::empty(), radix) == 0,
        number(s.push(c), radix) == number(s, radix) * radix + digit_value(c),
        number(seq!['0'] + s, radix) == number(s, radix),
    decreases s.len(),
{
    assert(s.push(c).drop_last() =~= s);
    let t = seq!['0'] + s;
    if s.len() == 0 {
        assert(t.drop_last() =~= Seq::<char>::empty());
        assert(number(t.drop_last(), radix) == 0);
        assert(0 * radix == 0) by (nonlinear_arith);
        assert(t.last() == '0');
    } else {
        digits_are_read_by_their_place(s.drop_last(), c, radix);
        assert(t.drop_last() =~= seq!['0'] + s.drop_last());
        assert(t.last() == s.last());
    }
}

} // verus!
