//! Binary64 numbers in the sense of IEEE 754, held by their bits.
//!
//! Nothing here does arithmetic on such numbers. They are compared, one of two
//! is picked, and they are rounded to colour channels: that is all the ray
//! tracer's decisions need, and all of it is integer work on the bits.

use crate::color::{clamp_channel, round_div};
use vstd::arithmetic::power2::{lemma2_to64, lemma2_to64_rest, lemma_pow2_strictly_increases, pow2};
use vstd::prelude::*;

verus! {

/// The bit that holds the sign.
pub const SIGN_BIT: u64 = 0x8000_0000_0000_0000;

/// The bits of positive infinity. A magnitude above it stands for no number.
pub const INFINITY_BITS: u64 = 0x7ff0_0000_0000_0000;

/// Two to the 52nd: the bits below it hold the fraction, those from it on the
/// exponent.
pub const FRACTION_END: u64 = 0x0010_0000_0000_0000;

/// A binary64 number, given by its 64 bits: the sign, eleven bits of exponent
/// and 52 bits of fraction.
///
/// `==` compares the bits. To compare what the bits stand for, use
/// [`Number::less_than`].
#[derive(Copy, Clone, Debug, PartialEq, Eq, Structural)]
pub struct Number {
    pub bits: u64,
}

impl Number {
    /// The bits without the sign.
    pub open spec fn magnitude(self) -> int {
        if self.bits >= SIGN_BIT {
            self.bits - SIGN_BIT
        } else {
            self.bits as int
        }
    }

    /// Whether the sign bit is set. It is set for negative zero too.
    pub open spec fn negative(self) -> bool {
        self.bits >= SIGN_BIT
    }

    /// Whether the bits stand for no number at all.
    pub open spec fn spec_is_nan(self) -> bool {
        self.magnitude() > INFINITY_BITS
    }

    /// The absolute value: the same bits with the sign bit clear.
    pub open spec fn absolute(self) -> Number {
        Number { bits: self.magnitude() as u64 }
    }

    /// Zero, with the sign bit clear.
    pub open spec fn nought() -> Number {
        Number { bits: 0 }
    }

    /// Whether the number is greater than zero.
    pub open spec fn positive(self) -> bool {
        Number::nought().less(self)
    }

    /// An integer that is ordered as the numbers are: of two numbers the
    /// smaller has the smaller key, and both zeros have the key 0.
    ///
    /// The magnitude grows with the absolute value, from zero over the
    /// subnormal and the normal numbers to infinity, so the key is the
    /// magnitude, taken negative where the sign bit is set.
    pub open spec fn key(self) -> int {
        if self.negative() {
            -self.magnitude()
        } else {
            self.magnitude()
        }
    }

    /// `self < other` as numbers: false whenever one of the two is no number.
    pub open spec fn less(self, other: Number) -> bool {
        !self.spec_is_nan() && !other.spec_is_nan() && self.key() < other.key()
    }

    /// The larger of two numbers. What is no number is passed over; of two
    /// equal numbers the first is taken.
    pub open spec fn max_of(a: Number, b: Number) -> Number {
        if a.spec_is_nan() {
            b
        } else if b.spec_is_nan() {
            a
        } else if a.less(b) {
            b
        } else {
            a
        }
    }

    /// The smaller of two numbers. What is no number is passed over; of two
    /// equal numbers the first is taken.
    pub open spec fn min_of(a: Number, b: Number) -> Number {
        if a.spec_is_nan() {
            b
        } else if b.spec_is_nan() {
            a
        } else if b.less(a) {
            b
        } else {
            a
        }
    }

    /// The exponent field.
    pub open spec fn exponent(self) -> int {
        self.magnitude() / (FRACTION_END as int)
    }

    /// The significand: the fraction field, with the hidden bit on top of it
    /// unless the exponent field is zero.
    pub open spec fn significand(self) -> int {
        if self.exponent() == 0 {
            self.magnitude() % (FRACTION_END as int)
        } else {
            self.magnitude() % (FRACTION_END as int) + FRACTION_END
        }
    }

    /// By how many binary places the significand is to be shifted down: a
    /// finite number's absolute value is its significand divided by two to
    /// this power (multiplied, where it is negative).
    pub open spec fn shift(self) -> int {
        if self.exponent() == 0 {
            1074
        } else {
            1075 - self.exponent()
        }
    }

    /// The colour channel that the number stands for: the nearest integer, a
    /// tie going away from zero, cut off at 0 and at 255. What is no number
    /// gives 0.
    pub open spec fn channel(self) -> int {
        if self.spec_is_nan() || self.negative() {
            0
        } else if self.shift() < 0 {
            255
        } else {
            clamp_channel(round_div(self.significand(), pow2(self.shift() as nat) as int))
        }
    }

    /// The number with the given bits.
    pub fn from_bits(bits: u64) -> (number: Number)
        ensures
            number.bits == bits,
    {
        Number { bits }
    }

    /// Zero, with the sign bit clear.
    pub fn zero() -> (number: Number)
        ensures
            number == Number::nought(),
    {
        Number { bits: 0 }
    }

    /// Whether the bits stand for no number at all.
    #[verifier::when_used_as_spec(spec_is_nan)]
    pub fn is_nan(self) -> (nan: bool)
        ensures
            nan == self.spec_is_nan(),
    {
        self.abs().bits > INFINITY_BITS
    }

    /// The absolute value: the same bits with the sign bit clear.
    pub fn abs(self) -> (number: Number)
        ensures
            number == self.absolute(),
    {
        if self.bits >= SIGN_BIT {
            Number { bits: self.bits - SIGN_BIT }
        } else {
            self
        }
    }

    fn order_key(self) -> (key: i64)
        ensures
            key == self.key(),
    {
        if self.bits >= SIGN_BIT {
            -((self.bits - SIGN_BIT) as i64)
        } else {
            self.bits as i64
        }
    }

    /// Whether `self` is less than `other`, as numbers are compared: negative
    /// zero is not less than zero, and what is no number is neither less nor
    /// greater than anything.
    pub fn less_than(self, other: Number) -> (less: bool)
        ensures
            less == self.less(other),
    {
        !self.is_nan() && !other.is_nan() && self.order_key() < other.order_key()
    }

    /// Whether the number is greater than zero. Neither zero is, and what is
    /// no number is not.
    pub fn is_positive(self) -> (positive: bool)
        ensures
            positive == self.positive(),
    {
        Number::zero().less_than(self)
    }

    /// The larger of two numbers; if one of them is no number, the other.
    pub fn larger(a: Number, b: Number) -> (number: Number)
        ensures
            number == Number::max_of(a, b),
    {
        if a.is_nan() {
            b
        } else if b.is_nan() {
            a
        } else if a.less_than(b) {
            b
        } else {
            a
        }
    }

    /// The smaller of two numbers; if one of them is no number, the other.
    pub fn smaller(a: Number, b: Number) -> (number: Number)
        ensures
            number == Number::min_of(a, b),
    {
        if a.is_nan() {
            b
        } else if b.is_nan() {
            a
        } else if b.less_than(a) {
            b
        } else {
            a
        }
    }

    /// Rounds the number to a colour channel: to the nearest integer, a tie
    /// going away from zero, and then into the range from 0 to 255. What is
    /// no number gives 0.
    pub fn to_channel(self) -> (channel: u8)
        ensures
            channel as int == self.channel(),
    {
        if self.bits >= SIGN_BIT || self.bits > INFINITY_BITS {
            return 0;
        }
        let exponent: u64 = self.bits / FRACTION_END;
        let fraction: u64 = self.bits % FRACTION_END;
        proof {
            lemma2_to64();
            lemma2_to64_rest();
        }
        if exponent >= 1031 {
            proof {
                let shift = self.shift();
                if shift >= 0 {
                    let d = pow2(shift as nat) as int;
                    if shift < 44 {
                        lemma_pow2_strictly_increases(shift as nat, 44);
                    }
                    assert(d <= 0x1000_0000_0000);
                    assert(self.significand() >= 0x10_0000_0000_0000);
                    lemma_quotient_at_least(2 * self.significand() + d, 2 * d, 256);
                }
            }
            return 255;
        }
        if exponent < 1022 {
            proof {
                let shift = self.shift();
                let d = pow2(shift as nat) as int;
                if shift > 54 {
                    lemma_pow2_strictly_increases(54, shift as nat);
                }
                assert(d >= 0x40_0000_0000_0000);
                assert(self.significand() < 0x20_0000_0000_0000);
                lemma_quotient_is_zero(2 * self.significand() + d, 2 * d);
            }
            return 0;
        }
        let significand: u64 = fraction + FRACTION_END;
        let shift: u64 = 1075 - exponent;
        let divisor: u64 = power_of_two(shift);
        let nearest: u64 = (2 * significand + divisor) / (2 * divisor);
        if nearest > 255 {
            255
        } else {
            nearest as u8
        }
    }
}

/// Two to the power `e`, for an `e` of 53 at most.
fn power_of_two(e: u64) -> (p: u64)
    requires
        e <= 53,
    ensures
        p == pow2(e as nat),
        0 < p <= 0x20_0000_0000_0000,
{
    proof {
        lemma2_to64();
        lemma2_to64_rest();
        if e < 53 {
            lemma_pow2_strictly_increases(e as nat, 53);
        }
        vstd::arithmetic::power2::lemma_pow2_pos(e as nat);
        vstd::bits::lemma_u64_shl_is_mul(1, e);
    }
    1u64 << e
}

proof fn lemma_quotient_at_least(n: int, d: int, q: int)
    requires
        d > 0,
        n >= q * d,
    ensures
        n / d >= q,
{
    assert(d * q == q * d) by (nonlinear_arith);
    vstd::arithmetic::div_mod::lemma_div_is_ordered(d * q, n, d);
    vstd::arithmetic::div_mod::lemma_div_multiples_vanish(q, d);
}

proof fn lemma_quotient_is_zero(n: int, d: int)
    requires
        0 <= n < d,
    ensures
        n / d == 0,
{
    vstd::arithmetic::div_mod::lemma_basic_div(n, d);
}

/// The channel is the integer nearest to the number: it differs from the
/// significand, shifted down, by half at most, and by exactly half only from
/// below. Where the channel is 255, the number is 254.5 at least.
pub proof fn lemma_channel_is_nearest(x: Number)
    requires
        !x.is_nan(),
        !x.negative(),
        x.shift() >= 0,
    ensures
        0 <= x.channel() <= 255,
        x.channel() < 255 ==> 2 * pow2(x.shift() as nat) * x.channel() - pow2(x.shift() as nat)
            <= 2 * x.significand() < 2 * pow2(x.shift() as nat) * x.channel() + pow2(
            x.shift() as nat,
        ),
        x.channel() == 255 ==> 2 * x.significand() >= 509 * pow2(x.shift() as nat),
{
    let d = pow2(x.shift() as nat) as int;
    vstd::arithmetic::power2::lemma_pow2_pos(x.shift() as nat);
    crate::color::lemma_round_div_is_nearest(x.significand(), d);
    let q = round_div(x.significand(), d);
    if q >= 255 {
        assert(2 * d * q >= 2 * d * 255) by (nonlinear_arith)
            requires
                q >= 255,
                d > 0,
        ;
    }
}

/// Among numbers, `less` is a strict order: nothing is less than itself, and
/// what is less than something less than a third is less than the third.
pub proof fn lemma_less_is_an_order(a: Number, b: Number, c: Number)
    ensures
        !a.less(a),
        a.less(b) ==> !b.less(a),
        a.less(b) && b.less(c) ==> a.less(c),
{
}

/// Of two numbers one is less than the other, unless they are equal: their
/// bits are the same, or both are zero. What is no number is never less and
/// never greater.
pub proof fn lemma_less_decides(a: Number, b: Number)
    ensures
        !a.spec_is_nan() && !b.spec_is_nan() ==> (a.less(b) || b.less(a) || a.key() == b.key()),
        a.key() == b.key() ==> a.bits == b.bits || (a.magnitude() == 0 && b.magnitude() == 0),
        a.spec_is_nan() || b.spec_is_nan() ==> !a.less(b) && !b.less(a),
{
}

/// With the sign bit clear, more bits mean a larger number; infinity is
/// larger than every other number, and every number with the sign bit set,
/// negative zero apart, is less than zero.
pub proof fn lemma_order_of_the_bits(a: Number, b: Number)
    ensures
        !a.negative() && !b.negative() && !a.spec_is_nan() && !b.spec_is_nan() ==> (a.less(b)
            <==> a.bits < b.bits),
        a.negative() && b.negative() && !a.spec_is_nan() && !b.spec_is_nan() ==> (a.less(b) <==> a.bits
            > b.bits),
        !a.spec_is_nan() && a.bits != INFINITY_BITS ==> a.less(Number { bits: INFINITY_BITS }),
        a.negative() && !a.spec_is_nan() && a.magnitude() != 0 ==> a.less(Number { bits: 0 }),
        !(Number { bits: SIGN_BIT }).less(Number { bits: 0 }),
{
}

/// The larger and the smaller of two are the two, in some order; the smaller
/// is not greater than the larger.
pub proof fn lemma_larger_and_smaller(a: Number, b: Number)
    ensures
        Number::max_of(a, b) == a || Number::max_of(a, b) == b,
        Number::min_of(a, b) == a || Number::min_of(a, b) == b,
        !Number::max_of(a, b).less(Number::min_of(a, b)),
        !a.spec_is_nan() ==> !Number::max_of(a, b).less(a) && !a.less(Number::min_of(a, b)),
        !b.spec_is_nan() ==> !Number::max_of(a, b).less(b) && !b.less(Number::min_of(a, b)),
        Number::max_of(a, b).spec_is_nan() <==> a.spec_is_nan() && b.spec_is_nan(),
        Number::min_of(a, b).spec_is_nan() <==> a.spec_is_nan() && b.spec_is_nan(),
{
}

} // verus!
