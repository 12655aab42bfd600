//! Single-precision numbers as bit patterns: their order and their sign.

use vstd::prelude::*;
use vstd::arithmetic::mul::*;
use vstd::arithmetic::power2::*;

verus! {

/// Two to the power `e`, as an integer.
pub open spec fn two_to(e: nat) -> int {
    pow2(e) as int
}

/// The sign bit of a single-precision number.
pub const SIGN_BIT: u32 = 0x8000_0000;

/// The bits of positive infinity: every exponent bit set, no fraction bit.
pub const INFINITY_BITS: u32 = 0x7F80_0000;

/// A single-precision IEEE 754 number, held as its 32 bits.
///
/// Two scalars are the same value of the type when their bits agree; the
/// comparisons below are the numeric ones, under which the two zeros are
/// equal and a NaN compares with nothing.
#[derive(Clone, Copy, Debug)]
pub struct Scalar {
    pub bits: u32,
}

impl Scalar {
    /// Whether the sign bit is set.
    pub open spec fn sign(self) -> bool {
        self.bits >= SIGN_BIT
    }

    /// The bits without the sign bit: exponent and fraction.
    pub open spec fn magnitude(self) -> int {
        if self.bits >= SIGN_BIT {
            self.bits - SIGN_BIT
        } else {
            self.bits as int
        }
    }

    /// The eight exponent bits.
    pub open spec fn exponent(self) -> int {
        self.magnitude() / 0x80_0000
    }

    /// The twenty-three fraction bits.
    pub open spec fn fraction(self) -> int {
        self.magnitude() % 0x80_0000
    }

    /// The fraction, with the leading one that a normal number implies.
    pub open spec fn significand(self) -> int {
        if self.exponent() == 0 {
            self.fraction()
        } else {
            0x80_0000 + self.fraction()
        }
    }

    /// The power of two that weighs the significand: a number that is
    /// neither infinite nor NaN has the size
    /// `significand * 2^(scale - 150)`.
    pub open spec fn scale(self) -> nat {
        if self.exponent() == 0 {
            1
        } else {
            self.exponent() as nat
        }
    }

    /// How large a number is, whatever its sign, in units of `2^-150`. For
    /// an infinite number this is more than for any other.
    pub open spec fn size(self) -> int {
        self.significand() * two_to(self.scale())
    }

    /// The number in units of `2^-150`.
    pub open spec fn value(self) -> int {
        if self.sign() {
            -self.size()
        } else {
            self.size()
        }
    }

    /// Not a number: the exponent is all ones and the fraction is not zero.
    pub open spec fn is_nan(self) -> bool {
        self.magnitude() > INFINITY_BITS
    }

    /// The place of a number in the numeric order: numbers that are not NaN
    /// compare as their ranks do. Both zeros have rank 0.
    pub open spec fn rank(self) -> int {
        if self.sign() {
            -self.magnitude()
        } else {
            self.magnitude()
        }
    }

    /// Numeric `<`.
    pub open spec fn spec_lt(self, other: Scalar) -> bool {
        !self.is_nan() && !other.is_nan() && self.rank() < other.rank()
    }

    /// Numeric `<=`.
    pub open spec fn spec_le(self, other: Scalar) -> bool {
        !self.is_nan() && !other.is_nan() && self.rank() <= other.rank()
    }

    /// Numeric `==`.
    pub open spec fn spec_eq(self, other: Scalar) -> bool {
        !self.is_nan() && !other.is_nan() && self.rank() == other.rank()
    }

    /// Greater than zero.
    pub open spec fn is_positive(self) -> bool {
        !self.is_nan() && self.rank() > 0
    }

    /// Less than zero.
    pub open spec fn is_negative(self) -> bool {
        !self.is_nan() && self.rank() < 0
    }

    /// The number with the opposite sign bit.
    pub open spec fn spec_neg(self) -> Scalar {
        if self.bits >= SIGN_BIT {
            Scalar { bits: (self.bits - SIGN_BIT) as u32 }
        } else {
            Scalar { bits: (self.bits + SIGN_BIT) as u32 }
        }
    }

    /// Positive zero.
    pub open spec fn spec_zero() -> Scalar {
        Scalar { bits: 0 }
    }

    /// The number one.
    pub open spec fn spec_one() -> Scalar {
        Scalar { bits: 0x3F80_0000 }
    }

    /// The number with these bits.
    pub fn from_bits(bits: u32) -> (r: Scalar)
        ensures
            r.bits == bits,
    {
        Scalar { bits }
    }

    /// The bits of the number.
    pub fn to_bits(self) -> (r: u32)
        ensures
            r == self.bits,
    {
        self.bits
    }

    /// Positive zero.
    #[verifier::when_used_as_spec(spec_zero)]
    pub fn zero() -> (r: Scalar)
        ensures
            r == Scalar::spec_zero(),
    {
        Scalar { bits: 0 }
    }

    /// The number one.
    #[verifier::when_used_as_spec(spec_one)]
    pub fn one() -> (r: Scalar)
        ensures
            r == Scalar::spec_one(),
    {
        Scalar { bits: 0x3F80_0000 }
    }

    /// The rank, which orders the numbers.
    fn key(self) -> (k: i64)
        ensures
            k == self.rank(),
    {
        if self.bits >= SIGN_BIT {
            let m: u32 = self.bits - SIGN_BIT;
            -(m as i64)
        } else {
            self.bits as i64
        }
    }

    /// Whether this is a NaN.
    pub fn nan(self) -> (r: bool)
        ensures
            r == self.is_nan(),
    {
        let m: u32 = if self.bits >= SIGN_BIT {
            self.bits - SIGN_BIT
        } else {
            self.bits
        };
        m > INFINITY_BITS
    }

    /// Whether this number is below the other.
    pub fn lt(self, other: Scalar) -> (r: bool)
        ensures
            r == self.spec_lt(other),
    {
        !self.nan() && !other.nan() && self.key() < other.key()
    }

    /// Whether this number is not above the other.
    pub fn le(self, other: Scalar) -> (r: bool)
        ensures
            r == self.spec_le(other),
    {
        !self.nan() && !other.nan() && self.key() <= other.key()
    }

    /// Whether this number is above the other.
    pub fn gt(self, other: Scalar) -> (r: bool)
        ensures
            r == other.spec_lt(self),
    {
        other.lt(self)
    }

    /// Whether this number is not below the other.
    pub fn ge(self, other: Scalar) -> (r: bool)
        ensures
            r == other.spec_le(self),
    {
        other.le(self)
    }

    /// Whether the two are equal numbers.
    pub fn num_eq(self, other: Scalar) -> (r: bool)
        ensures
            r == self.spec_eq(other),
    {
        !self.nan() && !other.nan() && self.key() == other.key()
    }

    /// The number with the opposite sign.
    #[verifier::when_used_as_spec(spec_neg)]
    pub fn neg(self) -> (r: Scalar)
        ensures
            r == self.spec_neg(),
    {
        if self.bits >= SIGN_BIT {
            Scalar { bits: self.bits - SIGN_BIT }
        } else {
            Scalar { bits: self.bits + SIGN_BIT }
        }
    }

    /// `<` is a strict order: nothing is below itself, and what is below a
    /// number is below everything above that number.
    pub proof fn lemma_lt_is_strict(a: Scalar, b: Scalar, c: Scalar)
        ensures
            !a.spec_lt(a),
            a.spec_lt(b) ==> !b.spec_lt(a),
            a.spec_lt(b) && b.spec_lt(c) ==> a.spec_lt(c),
    {
    }

    /// Of two numbers, neither a NaN, exactly one of `<`, `==` and `>` holds.
    pub proof fn lemma_lt_is_total(a: Scalar, b: Scalar)
        requires
            !a.is_nan(),
            !b.is_nan(),
        ensures
            a.spec_lt(b) || a.spec_eq(b) || b.spec_lt(a),
            !(a.spec_lt(b) && a.spec_eq(b)),
            !(b.spec_lt(a) && a.spec_eq(b)),
            a.spec_le(b) <==> a.spec_lt(b) || a.spec_eq(b),
    {
    }

    /// Changing the sign twice gives the number back; changing it once
    /// mirrors the order, and keeps a NaN a NaN.
    pub proof fn lemma_neg_mirrors(a: Scalar, b: Scalar)
        ensures
            a.spec_neg().spec_neg() == a,
            a.spec_neg().rank() == -a.rank(),
            a.spec_neg().is_nan() == a.is_nan(),
            a.spec_lt(b) == b.spec_neg().spec_lt(a.spec_neg()),
    {
    }

    /// The two zeros are equal, and nothing else equals them.
    pub proof fn lemma_zeros(a: Scalar)
        ensures
            Scalar::spec_zero().spec_eq(Scalar::spec_zero().spec_neg()),
            a.spec_eq(Scalar::spec_zero()) <==> a.bits == 0 || a.bits == SIGN_BIT,
            a.spec_eq(Scalar::spec_one()) <==> a.bits == 0x3F80_0000,
    {
    }

    /// Of two numbers without sign, the one with the smaller bit pattern is
    /// the smaller.
    proof fn lemma_size_grows(a: Scalar, b: Scalar)
        requires
            !a.sign(),
            !b.sign(),
            a.bits < b.bits,
            !b.is_nan(),
        ensures
            0 <= a.size() < b.size(),
    {
        let (ea, eb) = (a.exponent(), b.exponent());
        let (sa, sb) = (a.significand(), b.significand());
        let (ka, kb) = (a.scale(), b.scale());
        let (pa, pb) = (two_to(ka), two_to(kb));
        lemma_pow2_pos(ka);
        lemma_pow2_pos(kb);
        lemma2_to64();
        assert(0 <= sa * pa) by {
            lemma_mul_nonnegative(sa, pa);
        }
        if ea == eb {
            assert(sa * pa < sb * pb) by {
                lemma_mul_strict_inequality(sa, sb, pa);
            }
        } else {
            assert(ea < eb);
            if ea == 0 {
                // a has no leading one, and is below the least number that has
                assert(sa * pa < 0x80_0000 * pa) by {
                    lemma_mul_strict_inequality(sa, 0x80_0000, pa);
                }
                assert(pa <= pb) by {
                    if ka < kb {
                        lemma_pow2_strictly_increases(ka, kb);
                    }
                }
                assert(0x80_0000 * pa <= sb * pb) by {
                    lemma_mul_left_inequality(0x80_0000, pa, pb);
                    lemma_mul_inequality(0x80_0000, sb, pb);
                }
            } else {
                // a is below the least number with the next exponent, which
                // is not above b
                let next = two_to(ka + 1);
                lemma_pow2_unfold(ka + 1);
                assert(sa * pa < 0x80_0000 * next) by {
                    lemma_mul_strict_inequality(sa, 0x100_0000, pa);
                    lemma_mul_is_associative(0x80_0000, 2, pa);
                }
                assert(next <= pb) by {
                    if ka + 1 < kb {
                        lemma_pow2_strictly_increases(ka + 1, kb);
                    }
                }
                assert(0x80_0000 * next <= sb * pb) by {
                    lemma_mul_left_inequality(0x80_0000, next, pb);
                    lemma_mul_inequality(0x80_0000, sb, pb);
                }
            }
        }
    }

    /// The order of the ranks is the order of the numbers: of two numbers,
    /// neither a NaN, the one of lower rank is the smaller, and those of
    /// one rank are equal.
    pub proof fn lemma_rank_orders_values(a: Scalar, b: Scalar)
        requires
            !a.is_nan(),
            !b.is_nan(),
        ensures
            a.rank() < b.rank() <==> a.value() < b.value(),
            a.rank() == b.rank() <==> a.value() == b.value(),
    {
        let am = Scalar { bits: a.magnitude() as u32 };
        let bm = Scalar { bits: b.magnitude() as u32 };
        let zero = Scalar { bits: 0 };
        assert(am.size() == a.size() && bm.size() == b.size());
        assert(zero.size() == 0) by {
            lemma_mul_basics(two_to(1));
        }
        if am.bits < bm.bits {
            Self::lemma_size_grows(am, bm);
        }
        if bm.bits < am.bits {
            Self::lemma_size_grows(bm, am);
        }
        if 0 < am.bits {
            Self::lemma_size_grows(zero, am);
        }
        if 0 < bm.bits {
            Self::lemma_size_grows(zero, bm);
        }
    }
}

} // verus!
