//! What holds of every `Decimal`: how its predicates relate to its bits and
//! to each other, and what its decimal rendering denotes.

use vstd::arithmetic::power::pow;
use vstd::arithmetic::power2::{
    lemma2_to64, lemma_pow2_adds, lemma_pow2_pos, lemma_pow2_strictly_increases, pow2,
};
use vstd::prelude::*;

use crate::decimal::Decimal;
use crate::render::{
    all_digits, digits_value, fraction_digits, lemma_fraction_digits_value,
    lemma_nat_digits_value, nat_digits,
};

verus! {

/// The exact predicates look at the three words only: two values with the
/// same words agree on them, whatever their precisions.
pub proof fn lemma_exact_predicates_ignore_precision(a: Decimal, b: Decimal)
    requires
        a@.high == b@.high,
        a@.med == b@.med,
        a@.low == b@.low,
    ensures
        a@.is_zero() == b@.is_zero(),
        a@.is_positive() == b@.is_positive(),
        a@.is_negative() == b@.is_negative(),
{
}

/// A value of all zero bits is not positive; any other value is positive
/// exactly when its sign bit is clear.
pub proof fn lemma_positive_excludes_zero(d: Decimal)
    ensures
        d@.is_zero() ==> !d@.is_positive(),
        !d@.is_zero() ==> (d@.is_positive() <==> !d@.sign_bit()),
{
}

/// A value is negative exactly when its sign bit is set.  That includes the
/// value whose sign bit is set over a magnitude of zero: it is negative,
/// and it is not zero.
pub proof fn lemma_negative_is_sign_bit(d: Decimal)
    ensures
        d@.is_negative() <==> d@.sign_bit(),
        d@.sign_bit() && d@.magnitude() == 0 ==> d@.is_negative() && !d@.is_zero(),
{
}

/// No value is both positive and negative, and a value with the sign bit
/// clear is positive or zero.
pub proof fn lemma_signs_exclusive(d: Decimal)
    ensures
        !(d@.is_positive() && d@.is_negative()),
        !d@.sign_bit() ==> d@.is_positive() || d@.is_zero(),
{
}

/// Clearing the sign bit keeps the magnitude and the precision, and leaves a
/// value that is not negative.
pub proof fn lemma_unsign_keeps_magnitude(d: Decimal)
    requires
        d@.wf(),
    ensures
        d@.unsign().wf(),
        !d@.unsign().sign_bit(),
        d@.unsign().magnitude() == d@.magnitude(),
        d@.unsign().prec == d@.prec,
        d@.unsign().unsign() == d@.unsign(),
        d@.unsign().is_approx_zero() == d@.is_approx_zero(),
{
}

/// At full precision a value is approximately zero exactly when it is zero
/// once its sign bit is cleared.
pub proof fn lemma_approx_zero_at_full_precision(d: Decimal)
    requires
        d@.wf(),
        d@.prec == 95,
    ensures
        d@.is_approx_zero() == d@.unsign().is_zero(),
        d@.is_approx_zero() <==> d@.magnitude() == 0,
{
}

/// At precision 1 only `high` is looked at, and of it neither the sign bit
/// nor the lowest bit: a value whose top magnitude bit is clear is
/// approximately zero when the magnitude bits of `high` between the top one
/// and the lowest are clear too, whatever `med` and `low` hold.
pub proof fn lemma_approx_zero_at_precision_one(d: Decimal)
    requires
        d@.wf(),
        d@.prec == 1,
        d@.high_magnitude() < 0x4000_0000,
        d@.high_magnitude() < 2,
    ensures
        d@.is_approx_zero(),
{
    lemma2_to64();
}

/// At precision 1 a value is approximately zero only if the magnitude
/// bits of `high` above the lowest are all clear.
pub proof fn lemma_approx_zero_at_precision_one_converse(d: Decimal)
    requires
        d@.wf(),
        d@.prec == 1,
        d@.is_approx_zero(),
    ensures
        d@.high_magnitude() < 2,
{
    lemma2_to64();
}

/// The exponent of the bound that the precision sets on the magnitude of an
/// approximately zero value.
pub open spec fn approx_zero_exponent(prec: nat) -> nat {
    if prec < 31 {
        prec + 64
    } else if prec < 63 {
        (prec - 31 + 32) as nat
    } else if prec < 95 {
        (prec - 63) as nat
    } else {
        0
    }
}

/// A value is approximately zero exactly when its magnitude, read as one
/// 95-bit number, is below two to the power that its precision selects.
pub proof fn lemma_approx_zero_is_magnitude_bound(d: Decimal)
    requires
        d@.wf(),
    ensures
        d@.is_approx_zero() <==> d@.magnitude() < pow2(approx_zero_exponent(d@.prec)),
{
    let v = d@;
    let p = v.prec;
    lemma2_to64();
    if p < 31 {
        lemma_pow2_adds(p, 64);
        lemma_pow2_pos(p);
    } else if p < 63 {
        let k = (p - 31) as nat;
        lemma_pow2_adds(k, 32);
        lemma_pow2_pos(k);
        lemma_pow2_strictly_increases(k + 32, 64);
    } else if p < 95 {
        let k = (p - 63) as nat;
        lemma_pow2_pos(k);
        lemma_pow2_strictly_increases(k, 32);
    }
}

/// A value of all zero bits is approximately zero at every precision.
pub proof fn lemma_zero_is_approx_zero(d: Decimal)
    requires
        d@.is_zero(),
    ensures
        d@.is_approx_zero(),
{
    lemma_pow2_pos(d@.prec);
    if d@.prec >= 31 {
        lemma_pow2_pos((d@.prec - 31) as nat);
    }
    if d@.prec >= 63 {
        lemma_pow2_pos((d@.prec - 63) as nat);
    }
}

/// Approximately positive and approximately negative exclude each other,
/// and neither holds of a value that is approximately zero.
pub proof fn lemma_approx_signs_exclusive(d: Decimal)
    ensures
        !(d@.is_approx_positive() && d@.is_approx_negative()),
        d@.is_approx_zero() ==> !d@.is_approx_positive() && !d@.is_approx_negative(),
        d@.is_approx_positive() ==> d@.is_positive(),
        d@.is_approx_negative() ==> d@.is_negative(),
{
}

/// The represented number lies in the range of a 96-bit two's complement
/// number with 64 fractional bits, and its sign is what the exact
/// predicates say.
pub proof fn lemma_scaled_value_range(d: Decimal)
    requires
        d@.wf(),
    ensures
        -0x8000_0000_0000_0000_0000_0000 <= d@.scaled_value() < 0x8000_0000_0000_0000_0000_0000,
        d@.scaled_value() < 0 <==> d@.is_negative(),
        d@.scaled_value() > 0 <==> d@.is_positive(),
        d@.scaled_value() == 0 <==> d@.is_zero(),
        d@.is_negative() ==> d@.scaled_value() == d@.magnitude() - 0x8000_0000_0000_0000_0000_0000,
        !d@.is_negative() ==> d@.scaled_value() == d@.magnitude(),
{
}

/// The rendering denotes the represented number exactly.  It is a minus
/// sign for a number below zero, then a whole part, then, if there is a
/// fractional part, a point and that part.  Both parts hold decimal digits
/// only; the whole part has no leading zero unless it is the single digit
/// `0`, the fractional part has at most 64 digits and no trailing zero; and
/// the two, read as one whole number and divided by ten to the power of the
/// number of fractional digits, give the absolute value of the number.
pub proof fn lemma_rendering_denotes_value(d: Decimal)
    requires
        d@.wf(),
    ensures
        ({
            let whole = nat_digits(d@.scaled_magnitude() / 0x1_0000_0000_0000_0000);
            let fraction = fraction_digits(d@.scaled_magnitude() % 0x1_0000_0000_0000_0000, 64);
            let sign = if d@.scaled_value() < 0 {
                seq!['-']
            } else {
                Seq::empty()
            };
            let tail = if fraction.len() == 0 {
                Seq::empty()
            } else {
                seq!['.'] + fraction
            };
            &&& d@.rendering() == sign + whole + tail
            &&& all_digits(whole)
            &&& all_digits(fraction)
            &&& whole.len() >= 1
            &&& whole.len() > 1 ==> whole[0] != '0'
            &&& fraction.len() <= 64
            &&& fraction.len() > 0 ==> fraction.last() != '0'
            &&& (digits_value(whole) * pow(10, fraction.len()) + digits_value(fraction))
                * 0x1_0000_0000_0000_0000 == d@.scaled_magnitude() * pow(10, fraction.len())
        }),
{
    let a = d@.scaled_magnitude();
    let w = a / 0x1_0000_0000_0000_0000;
    let p = a % 0x1_0000_0000_0000_0000;
    let whole = nat_digits(w);
    let fraction = fraction_digits(p, 64);
    lemma2_to64();
    lemma_nat_digits_value(w);
    lemma_fraction_digits_value(p, 64);
    let pk = pow(10, fraction.len());
    let dw = digits_value(whole) as int;
    let df = digits_value(fraction) as int;
    let two64 = 0x1_0000_0000_0000_0000int;
    assert((dw * pk + df) * two64 == a * pk) by (nonlinear_arith)
        requires
            dw == w,
            df * two64 == p * pk,
            a == w * two64 + p,
    ;
    if whole.len() > 1 {
        if w < 10 {
            assert(whole.len() == 1);
        }
    }
}

} // verus!
