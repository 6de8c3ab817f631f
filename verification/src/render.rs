//! Decimal digits: what the digits of a whole number and of a binary
//! fraction are, and how they are written to a string.

use vstd::arithmetic::power::{lemma_pow0, pow};
use vstd::arithmetic::power2::{lemma2_to64, lemma_pow2_pos, lemma_pow2_unfold, pow2};
use vstd::prelude::*;

verus! {

/// The character for a single decimal digit.
pub open spec fn digit_char(d: nat) -> char {
    if d == 0 {
        '0'
    } else if d == 1 {
        '1'
    } else if d == 2 {
        '2'
    } else if d == 3 {
        '3'
    } else if d == 4 {
        '4'
    } else if d == 5 {
        '5'
    } else if d == 6 {
        '6'
    } else if d == 7 {
        '7'
    } else if d == 8 {
        '8'
    } else {
        '9'
    }
}

/// The decimal digits of `n`, most significant first, without leading
/// zeros; zero is the single digit `0`.
pub open spec fn nat_digits(n: nat) -> Seq<char>
    decreases n,
{
    if n < 10 {
        seq![digit_char(n)]
    } else {
        nat_digits(n / 10).push(digit_char(n % 10))
    }
}

/// The digits after the decimal point of `num / 2^bits`, for `num` below
/// `2^bits`: the expansion ends after at most `bits` digits, and it is
/// written out in full, without trailing zeros.
///
/// Ten times `num / 2^bits` is `5 * num / 2^(bits - 1)`, whose whole part is
/// the first digit and whose fractional part yields the remaining ones.
pub open spec fn fraction_digits(num: nat, bits: nat) -> Seq<char>
    decreases bits,
{
    if num == 0 || bits == 0 {
        Seq::empty()
    } else {
        let half = pow2((bits - 1) as nat);
        seq![digit_char(5 * num / half)] + fraction_digits(5 * num % half, (bits - 1) as nat)
    }
}

/// The digit that a character stands for; zero for a character that is no
/// decimal digit.
pub open spec fn digit_value(c: char) -> nat {
    if c == '1' {
        1
    } else if c == '2' {
        2
    } else if c == '3' {
        3
    } else if c == '4' {
        4
    } else if c == '5' {
        5
    } else if c == '6' {
        6
    } else if c == '7' {
        7
    } else if c == '8' {
        8
    } else if c == '9' {
        9
    } else {
        0
    }
}

/// Whether `c` is one of the ten decimal digits.
pub open spec fn is_digit(c: char) -> bool {
    c == '0' || 1 <= digit_value(c) <= 9
}

/// Whether `s` holds decimal digits only.
pub open spec fn all_digits(s: Seq<char>) -> bool {
    forall|i: int| 0 <= i < s.len() ==> is_digit(#[trigger] s[i])
}

/// The number that a string of decimal digits denotes when it is read as a
/// whole number, most significant digit first.
pub open spec fn digits_value(s: Seq<char>) -> nat
    decreases s.len(),
{
    if s.len() == 0 {
        0
    } else {
        10 * digits_value(s.drop_last()) + digit_value(s.last())
    }
}

/// A digit in front of a string adds the digit times the matching power
/// of ten to what the string denotes.
pub proof fn lemma_digits_value_front(c: char, s: Seq<char>)
    ensures
        digits_value(seq![c] + s) == digit_value(c) * pow(10, s.len()) + digits_value(s),
    decreases s.len(),
{
    let whole = seq![c] + s;
    if s.len() == 0 {
        assert(whole.drop_last() =~= Seq::<char>::empty());
        assert(digits_value(whole.drop_last()) == 0);
        lemma_pow0(10);
    } else {
        assert(whole.drop_last() =~= seq![c] + s.drop_last());
        assert(whole.last() == s.last());
        lemma_digits_value_front(c, s.drop_last());
        let e = (s.len() - 1) as nat;
        assert(pow(10, s.len()) == 10 * pow(10, e)) by {
            reveal(pow);
        }
        let dv = digit_value(c) as int;
        let pe = pow(10, e);
        assert(10 * (dv * pe) == dv * (10 * pe)) by (nonlinear_arith);
    }
}

/// The digits of a whole number denote that number, and they are written
/// without a leading zero unless the number is below ten.
pub proof fn lemma_nat_digits_value(n: nat)
    ensures
        digits_value(nat_digits(n)) == n,
        all_digits(nat_digits(n)),
        nat_digits(n).len() >= 1,
        nat_digits(n)[0] == '0' <==> n == 0,
    decreases n,
{
    let s = nat_digits(n);
    if n < 10 {
        assert(s.drop_last() =~= Seq::<char>::empty());
        assert(digits_value(s.drop_last()) == 0);
    } else {
        lemma_nat_digits_value(n / 10);
        let front = nat_digits(n / 10);
        assert(s.drop_last() =~= front);
        assert(s.last() == digit_char(n % 10));
        assert(s[0] == front[0]);
        assert forall|i: int| 0 <= i < s.len() implies is_digit(#[trigger] s[i]) by {
            if i < front.len() {
                assert(s[i] == front[i]);
            }
        }
    }
}

/// The digits of a binary fraction denote that fraction exactly: read as a
/// whole number and divided by ten to the power of their count, they give
/// `num / 2^bits`.  There are at most `bits` of them, none at all only for
/// zero, and the last one is never `0`.
pub proof fn lemma_fraction_digits_value(num: nat, bits: nat)
    requires
        num < pow2(bits),
    ensures
        fraction_digits(num, bits).len() <= bits,
        all_digits(fraction_digits(num, bits)),
        digits_value(fraction_digits(num, bits)) * pow2(bits) == num * pow(
            10,
            fraction_digits(num, bits).len(),
        ),
        fraction_digits(num, bits).len() == 0 <==> num == 0,
        fraction_digits(num, bits).len() > 0 ==> fraction_digits(num, bits).last() != '0',
    decreases bits,
{
    let s = fraction_digits(num, bits);
    if num == 0 || bits == 0 {
        lemma2_to64();
        assert(digits_value(s) * pow2(bits) == num * pow(10, s.len())) by (nonlinear_arith)
            requires
                num == 0,
                digits_value(s) == 0,
        ;
    } else {
        let lower = (bits - 1) as nat;
        let half = pow2(lower);
        lemma_pow2_unfold(bits);
        lemma_pow2_pos(lower);
        let d = 5 * num / half;
        let r = 5 * num % half;
        assert(d < 10 && r < half && d * half + r == 5 * num) by (nonlinear_arith)
            requires
                0 < half,
                num < 2 * half,
                d == 5 * num / half,
                r == 5 * num % half,
        ;
        let tail = fraction_digits(r, lower);
        lemma_fraction_digits_value(r, lower);
        assert(s == seq![digit_char(d)] + tail);
        lemma_digits_value_front(digit_char(d), tail);
        assert(digit_value(digit_char(d)) == d);
        assert forall|i: int| 0 <= i < s.len() implies is_digit(#[trigger] s[i]) by {
            if i > 0 {
                assert(s[i] == tail[i - 1]);
            }
        }
        if tail.len() > 0 {
            assert(s.last() == tail.last());
        } else {
            assert(r == 0);
            assert(d != 0) by (nonlinear_arith)
                requires
                    d * half + r == 5 * num,
                    r == 0,
                    num > 0,
            ;
            assert(s.last() == digit_char(d));
        }
        let k = tail.len();
        let pk = pow(10, k);
        let dt = digits_value(tail) as int;
        assert(pow(10, s.len()) == 10 * pk) by {
            reveal(pow);
        }
        assert((d * pk + dt) * (2 * half) == num * (10 * pk)) by (nonlinear_arith)
            requires
                dt * half == r * pk,
                d * half + r == 5 * num,
        ;
    }
}

/// The one-character string for a decimal digit.
fn digit_str(d: u8) -> (s: &'static str)
    requires
        d < 10,
    ensures
        s@ == seq![digit_char(d as nat)],
{
    proof {
        reveal_strlit("0");
        reveal_strlit("1");
        reveal_strlit("2");
        reveal_strlit("3");
        reveal_strlit("4");
        reveal_strlit("5");
        reveal_strlit("6");
        reveal_strlit("7");
        reveal_strlit("8");
        reveal_strlit("9");
    }
    let s = if d == 0 {
        "0"
    } else if d == 1 {
        "1"
    } else if d == 2 {
        "2"
    } else if d == 3 {
        "3"
    } else if d == 4 {
        "4"
    } else if d == 5 {
        "5"
    } else if d == 6 {
        "6"
    } else if d == 7 {
        "7"
    } else if d == 8 {
        "8"
    } else {
        "9"
    };
    assert(s@ =~= seq![digit_char(d as nat)]);
    s
}

/// Appends the decimal digits of `n` to `out`.
pub(crate) fn append_nat(out: &mut String, n: u64)
    ensures
        final(out)@ == old(out)@ + nat_digits(n as nat),
    decreases n,
{
    if n >= 10 {
        append_nat(out, n / 10);
    }
    out.append(digit_str((n % 10) as u8));
    proof {
        if n >= 10 {
            assert(out@ =~= old(out)@ + nat_digits((n / 10) as nat).push(
                digit_char((n % 10) as nat),
            ));
        } else {
            assert(out@ =~= old(out)@ + seq![digit_char(n as nat)]);
        }
    }
}

/// Appends to `out` the digits after the decimal point of `part / 2^64`.
pub(crate) fn append_fraction(out: &mut String, part: u64)
    ensures
        final(out)@ == old(out)@ + fraction_digits(part as nat, 64),
{
    let ghost goal = out@ + fraction_digits(part as nat, 64);
    let mut num: u128 = part as u128;
    let mut denom: u128 = 0x1_0000_0000_0000_0000;
    let ghost mut bits: nat = 64;
    proof {
        lemma2_to64();
    }
    while num != 0
        invariant
            bits <= 64,
            denom == pow2(bits),
            num < denom,
            denom <= 0x1_0000_0000_0000_0000,
            goal == out@ + fraction_digits(num as nat, bits),
        decreases bits,
    {
        proof {
            lemma2_to64();
            if bits > 0 {
                lemma_pow2_unfold(bits);
                lemma_pow2_pos((bits - 1) as nat);
            }
        }
        let half: u128 = denom / 2;
        let scaled: u128 = 5 * num;
        assert(scaled / half < 10) by (nonlinear_arith)
            requires
                0 < half,
                scaled < 10 * half,
        ;
        assert(scaled % half < half) by (nonlinear_arith)
            requires
                0 < half,
        ;
        let digit: u8 = (scaled / half) as u8;
        let rest: u128 = scaled % half;
        let ghost before = out@;
        out.append(digit_str(digit));
        proof {
            let tail = fraction_digits(rest as nat, (bits - 1) as nat);
            assert(fraction_digits(num as nat, bits) == seq![digit_char(digit as nat)] + tail);
            assert(before + (seq![digit_char(digit as nat)] + tail) =~= out@ + tail);
            bits = (bits - 1) as nat;
        }
        num = rest;
        denom = half;
    }
    proof {
        assert(out@ + fraction_digits(0, bits) =~= out@);
    }
}

} // verus!
