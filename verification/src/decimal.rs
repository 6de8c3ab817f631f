//! The `Decimal` value type: its bit layout, its constructor and its
//! sign and zero predicates.

use vstd::arithmetic::power2::{lemma_pow2_pos, pow2};
use vstd::bits::lemma_u32_shr_is_div;
use vstd::prelude::*;

use crate::render::{append_fraction, append_nat, fraction_digits, nat_digits};

verus! {

/// Largest admissible precision: the number of magnitude bits of a `Decimal`.
pub const MAX_PREC: u8 = 95;

/// Why a `Decimal` could not be built.
#[derive(Copy, Clone, Debug, PartialEq, Eq, Structural)]
pub enum ConstructionError {
    /// The precision was zero or larger than the number of magnitude bits.
    InvalidPrecision,
}

/// The mathematical content of a [`Decimal`]: its three words and its
/// precision, as natural numbers.
pub struct DecimalView {
    pub high: nat,
    pub med: nat,
    pub low: nat,
    pub prec: nat,
}

impl DecimalView {
    /// Every word fits in 32 bits and the precision lies in 1..=95.
    pub open spec fn wf(self) -> bool {
        &&& self.high < 0x1_0000_0000
        &&& self.med < 0x1_0000_0000
        &&& self.low < 0x1_0000_0000
        &&& 1 <= self.prec <= 95
    }

    /// The top bit of `high`.
    pub open spec fn sign_bit(self) -> bool {
        self.high >= 0x8000_0000
    }

    /// The 31 bits of `high` below the sign bit.
    pub open spec fn high_magnitude(self) -> nat {
        self.high % 0x8000_0000
    }

    /// The 95 bits below the sign bit, read as one natural number.
    pub open spec fn magnitude(self) -> nat {
        self.high_magnitude() * 0x1_0000_0000_0000_0000 + self.med * 0x1_0000_0000 + self.low
    }

    /// All 96 bits, read as one natural number.
    pub open spec fn bits(self) -> nat {
        self.high * 0x1_0000_0000_0000_0000 + self.med * 0x1_0000_0000 + self.low
    }

    /// The represented number multiplied by 2^64.
    ///
    /// With the sign bit clear the number is `high + med / 2^32 + low / 2^64`;
    /// with the sign bit set it is that sum minus 2^32.  Either way the
    /// 96 bits are read in two's complement, with 64 fractional bits.
    pub open spec fn scaled_value(self) -> int {
        if self.sign_bit() {
            self.bits() - 0x1_0000_0000_0000_0000_0000_0000
        } else {
            self.bits() as int
        }
    }

    /// The same words with the sign bit cleared.
    pub open spec fn unsign(self) -> DecimalView {
        DecimalView { high: self.high_magnitude(), ..self }
    }

    /// All 96 bits are zero.
    pub open spec fn is_zero(self) -> bool {
        self.high == 0 && self.med == 0 && self.low == 0
    }

    /// The sign bit is clear and some bit is set.
    pub open spec fn is_positive(self) -> bool {
        !self.sign_bit() && !self.is_zero()
    }

    /// The sign bit is set.
    pub open spec fn is_negative(self) -> bool {
        self.sign_bit()
    }

    /// Zero as far as the precision looks.
    ///
    /// Below precision 31 the magnitude bits of `high` must be below
    /// `2^prec`.  From 31 to 62 they must be zero and `med` must be below
    /// `2^(prec - 31)`.  From 63 to 94 `med` must be zero as well and `low`
    /// must be below `2^(prec - 63)`.  At 95 the whole magnitude must be
    /// zero.  The sign bit is never looked at.
    pub open spec fn is_approx_zero(self) -> bool {
        if self.prec < 31 {
            self.high_magnitude() < pow2(self.prec)
        } else if self.prec < 63 {
            self.high_magnitude() == 0 && self.med < pow2((self.prec - 31) as nat)
        } else if self.prec < 95 {
            self.high_magnitude() == 0 && self.med == 0 && self.low < pow2(
                (self.prec - 63) as nat,
            )
        } else {
            self.high_magnitude() == 0 && self.med == 0 && self.low == 0
        }
    }

    /// The absolute value of the represented number, multiplied by 2^64.
    pub open spec fn scaled_magnitude(self) -> nat {
        if self.scaled_value() < 0 {
            (-self.scaled_value()) as nat
        } else {
            self.scaled_value() as nat
        }
    }

    /// The represented number in decimal notation, exactly: a minus sign if
    /// it is negative, the digits of its whole part, and, unless it is a
    /// whole number, a point and the digits of its fractional part.
    pub open spec fn rendering(self) -> Seq<char> {
        let whole = self.scaled_magnitude() / 0x1_0000_0000_0000_0000;
        let part = self.scaled_magnitude() % 0x1_0000_0000_0000_0000;
        let sign = if self.scaled_value() < 0 {
            seq!['-']
        } else {
            Seq::empty()
        };
        let fraction = if part == 0 {
            Seq::empty()
        } else {
            seq!['.'] + fraction_digits(part, 64)
        };
        sign + nat_digits(whole) + fraction
    }

    /// Positive, and not zero as far as the precision looks.
    pub open spec fn is_approx_positive(self) -> bool {
        self.is_positive() && !self.is_approx_zero()
    }

    /// Negative, and not zero as far as the precision looks.
    pub open spec fn is_approx_negative(self) -> bool {
        self.is_negative() && !self.is_approx_zero()
    }
}

/// A signed fixed-point number in a 96-bit layout.
///
/// The top bit of `high` is the sign bit; the remaining 95 bits of `high`,
/// `med` and `low` are the magnitude bits.  `prec` says how many magnitude
/// bits are significant.  A value never changes after it is built.
#[derive(Copy, Clone, Debug)]
pub struct Decimal {
    high: u32,
    med: u32,
    low: u32,
    prec: u8,
}

impl View for Decimal {
    type V = DecimalView;

    closed spec fn view(&self) -> DecimalView {
        DecimalView {
            high: self.high as nat,
            med: self.med as nat,
            low: self.low as nat,
            prec: self.prec as nat,
        }
    }
}

/// Shifting the sign bit out of `h` and then shifting right by `p + 1`
/// leaves zero exactly when the 31 lower bits of `h` are below 2^p.
proof fn lemma_high_window(h: u32, p: u8)
    requires
        p < 31,
    ensures
        (((h << 1u32) >> ((p + 1) as u8)) == 0) <==> ((h % 0x8000_0000) as nat) < pow2(p as nat),
{
    let m: u32 = h % 0x8000_0000;
    let q: u32 = p as u32;
    assert((h << 1u32) >> ((p + 1) as u8) == (h % 0x8000_0000) >> (p as u32)) by (bit_vector)
        requires
            p < 31,
    ;
    lemma_word_window(m, q);
}

/// Shifting `w` right by `k` leaves zero exactly when `w` is below 2^k.
proof fn lemma_word_window(w: u32, k: u32)
    requires
        k < 32,
    ensures
        ((w >> k) == 0) <==> (w as nat) < pow2(k as nat),
{
    lemma_u32_shr_is_div(w, k);
    lemma_pow2_pos(k as nat);
    let d = pow2(k as nat) as int;
    let x = w as int;
    assert((x / d == 0) <==> x < d) by (nonlinear_arith)
        requires
            0 <= x,
            0 < d,
    ;
}

/// Shifting the sign bit out of `h` leaves zero exactly when the 31 lower
/// bits of `h` are zero.
proof fn lemma_high_stripped(h: u32)
    ensures
        ((h << 1u32) == 0) <==> (h % 0x8000_0000 == 0),
        ((h << 1u32) >> 1u32) == h % 0x8000_0000,
        ((h >> 31u32) == 0) <==> h < 0x8000_0000,
        ((h >> 31u32) == 1) <==> h >= 0x8000_0000,
{
    assert(((h << 1u32) == 0) <==> (h % 0x8000_0000 == 0)) by (bit_vector);
    assert(((h << 1u32) >> 1u32) == h % 0x8000_0000) by (bit_vector);
    assert(((h >> 31u32) == 0) <==> h < 0x8000_0000) by (bit_vector);
    assert(((h >> 31u32) == 1) <==> h >= 0x8000_0000) by (bit_vector);
}

impl Decimal {
    #[verifier::type_invariant]
    spec fn valid_precision(self) -> bool {
        1 <= self.prec <= 95
    }

    /// Builds a value from its three words and its precision, storing all
    /// four as given.  Fails exactly when `prec` is outside 1..=95.
    pub fn new(high: u32, med: u32, low: u32, prec: u8) -> (r: Result<Decimal, ConstructionError>)
        ensures
            match r {
                Ok(d) => 1 <= prec <= 95 && d@ == (DecimalView {
                    high: high as nat,
                    med: med as nat,
                    low: low as nat,
                    prec: prec as nat,
                }),
                Err(e) => (prec == 0 || prec > 95) && e == ConstructionError::InvalidPrecision,
            },
    {
        if prec == 0 || prec > MAX_PREC {
            Err(ConstructionError::InvalidPrecision)
        } else {
            Ok(Decimal { high, med, low, prec })
        }
    }

    /// The largest value at full precision: sign bit clear, every magnitude
    /// bit set.
    pub fn max_value() -> (d: Decimal)
        ensures
            d@ == (DecimalView { high: 0x7fff_ffff, med: 0xffff_ffff, low: 0xffff_ffff, prec: 95 }),
    {
        Decimal { high: 2_147_483_647, med: 4_294_967_295, low: 4_294_967_295, prec: 95 }
    }

    /// Sign bit set and every magnitude bit set, at full precision.
    pub fn min_value() -> (d: Decimal)
        ensures
            d@ == (DecimalView { high: 0xffff_ffff, med: 0xffff_ffff, low: 0xffff_ffff, prec: 95 }),
    {
        Decimal { high: 4_294_967_295, med: 4_294_967_295, low: 4_294_967_295, prec: 95 }
    }

    /// Zero at full precision.
    pub fn zero() -> (d: Decimal)
        ensures
            d@ == (DecimalView { high: 0, med: 0, low: 0, prec: 95 }),
    {
        Decimal { high: 0, med: 0, low: 0, prec: 95 }
    }

    /// The first word, sign bit included.
    pub fn high(&self) -> (w: u32)
        ensures
            w == self@.high,
    {
        self.high
    }

    /// The second word.
    pub fn med(&self) -> (w: u32)
        ensures
            w == self@.med,
    {
        self.med
    }

    /// The third word.
    pub fn low(&self) -> (w: u32)
        ensures
            w == self@.low,
    {
        self.low
    }

    /// The number of significant magnitude bits; always in 1..=95.
    pub fn prec(&self) -> (p: u8)
        ensures
            p == self@.prec,
            self@.wf(),
    {
        proof {
            use_type_invariant(self);
        }
        self.prec
    }

    /// A copy with the sign bit cleared and everything else unchanged.
    pub fn unsign(&self) -> (r: Decimal)
        ensures
            r@ == self@.unsign(),
            r@.wf(),
    {
        proof {
            use_type_invariant(self);
            lemma_high_stripped(self.high);
        }
        Decimal { high: (self.high << 1) >> 1, med: self.med, low: self.low, prec: self.prec }
    }

    /// Whether all 96 bits are zero.  The precision plays no part.
    pub fn is_zero(&self) -> (r: bool)
        ensures
            r == self@.is_zero(),
    {
        (self.high == 0) && (self.med == 0) && (self.low == 0)
    }

    /// Whether the sign bit is clear and the value is not all zero bits.
    /// The precision plays no part.
    pub fn is_positive(&self) -> (r: bool)
        ensures
            r == self@.is_positive(),
    {
        proof {
            lemma_high_stripped(self.high);
        }
        ((self.high >> 31) == 0) && !self.is_zero()
    }

    /// Whether the sign bit is set.  A set sign bit over a zero magnitude
    /// counts as negative.  The precision plays no part.
    pub fn is_negative(&self) -> (r: bool)
        ensures
            r == self@.is_negative(),
    {
        proof {
            lemma_high_stripped(self.high);
        }
        (self.high >> 31) == 1
    }

    /// Whether the value is zero as far as its precision looks.
    pub fn is_approx_zero(&self) -> (r: bool)
        ensures
            r == self@.is_approx_zero(),
    {
        proof {
            lemma_high_stripped(self.high);
        }
        let stripped: u32 = self.high << 1;
        if self.prec < 31 {
            proof {
                lemma_high_window(self.high, self.prec);
            }
            (stripped >> (self.prec + 1)) == 0
        } else if self.prec < 63 {
            proof {
                lemma_word_window(self.med, (self.prec - 31) as u32);
            }
            (stripped == 0) && ((self.med >> (self.prec - 31)) == 0)
        } else if self.prec < 95 {
            proof {
                lemma_word_window(self.low, (self.prec - 63) as u32);
            }
            (stripped == 0) && (self.med == 0) && ((self.low >> (self.prec - 63)) == 0)
        } else {
            (stripped == 0) && (self.med == 0) && (self.low == 0)
        }
    }

    /// Whether the value is positive and not zero as far as its precision
    /// looks.
    pub fn is_approx_positive(&self) -> (r: bool)
        ensures
            r == self@.is_approx_positive(),
    {
        self.is_positive() && !self.is_approx_zero()
    }

    /// Whether the value is negative and not zero as far as its precision
    /// looks.
    pub fn is_approx_negative(&self) -> (r: bool)
        ensures
            r == self@.is_approx_negative(),
    {
        self.is_negative() && !self.is_approx_zero()
    }

    /// Whether the represented number is below zero, and the whole and the
    /// fractional part of its absolute value, the latter in units of 2^-64.
    fn sign_and_parts(&self) -> (r: (bool, u64, u64))
        ensures
            r.0 == (self@.scaled_value() < 0),
            r.1 == self@.scaled_magnitude() / 0x1_0000_0000_0000_0000,
            r.2 == self@.scaled_magnitude() % 0x1_0000_0000_0000_0000,
    {
        let negative = self.high >= 0x8000_0000;
        let bits: u128 = (self.high as u128) * 0x1_0000_0000_0000_0000 + (self.med as u128)
            * 0x1_0000_0000 + (self.low as u128);
        assert(bits == self@.bits());
        let absolute: u128 = if negative {
            0x1_0000_0000_0000_0000_0000_0000 - bits
        } else {
            bits
        };
        assert(absolute == self@.scaled_magnitude());
        assert(absolute <= 0x8000_0000_0000_0000_0000_0000);
        let whole: u128 = absolute / 0x1_0000_0000_0000_0000;
        let part: u128 = absolute % 0x1_0000_0000_0000_0000;
        (negative, whole as u64, part as u64)
    }

    /// The represented number in decimal notation.  All 96 bits are
    /// rendered, exactly; the precision plays no part.
    pub fn to_string(&self) -> (s: String)
        ensures
            s@ == self@.rendering(),
    {
        let (negative, whole, part) = self.sign_and_parts();
        let mut out = String::new();
        if negative {
            proof {
                reveal_strlit("-");
            }
            out.append("-");
        }
        let ghost sign = out@;
        assert(sign =~= if negative {
            seq!['-']
        } else {
            Seq::empty()
        });
        append_nat(&mut out, whole);
        let ghost number = out@;
        if part != 0 {
            proof {
                reveal_strlit(".");
            }
            out.append(".");
            append_fraction(&mut out, part);
            assert(out@ =~= number + (seq!['.'] + fraction_digits(part as nat, 64)));
        } else {
            assert(out@ =~= number + Seq::<char>::empty());
        }
        out
    }
}

} // verus!
