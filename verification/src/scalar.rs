//! Single-precision numbers held by their bit pattern.
//!
//! The geometry in this crate only ever *compares* coordinates: it orders
//! them, takes minima and maxima, and moves them from one place to another.
//! A [`Scalar`] therefore stores the 32 bits of an IEEE-754 binary32 number
//! and offers exactly those operations, each with a contract over the
//! number's position on the number line (its [`Scalar::key`]).  Arithmetic
//! is left to the caller, who can turn the bits back into a hardware float
//! without loss.

use vstd::arithmetic::power2::{lemma2_to64, lemma_pow2_adds, lemma_pow2_pos, pow2};
use vstd::prelude::*;

verus! {

/// The sign bit of a binary32 pattern.
pub const SIGN_BIT: u32 = 0x8000_0000;

/// Everything but the sign bit: exponent and fraction.
pub const MAGNITUDE_MASK: u32 = 0x7FFF_FFFF;

/// The fraction field, the low 23 bits.
pub const FRACTION_MASK: u32 = 0x007F_FFFF;

/// The hidden leading bit of a normal number's significand.
pub const HIDDEN_BIT: u32 = 0x0080_0000;

/// Pattern of positive infinity; every larger magnitude is a NaN.
pub const INFINITY_BITS: u32 = 0x7F80_0000;

/// Pattern of negative infinity.
pub const NEG_INFINITY_BITS: u32 = 0xFF80_0000;

/// Pattern of the number one.
pub const ONE_BITS: u32 = 0x3F80_0000;

/// A binary32 number, stored as its bits.
#[derive(Clone, Copy, Debug)]
pub struct Scalar {
    pub bits: u32,
}

impl Scalar {
    /// Exponent and fraction read as one unsigned integer.
    pub open spec fn magnitude(self) -> int {
        (self.bits & MAGNITUDE_MASK) as int
    }

    /// Whether the sign bit is set.
    pub open spec fn is_negative(self) -> bool {
        self.bits & SIGN_BIT != 0
    }

    /// Whether the pattern encodes no number at all.
    pub open spec fn is_nan_spec(self) -> bool {
        self.magnitude() > INFINITY_BITS
    }

    /// Whether the pattern encodes a number other than an infinity.
    pub open spec fn is_finite_spec(self) -> bool {
        self.magnitude() < INFINITY_BITS
    }

    /// Position on the number line.  For two numbers (neither a NaN) the
    /// smaller number has the smaller key and equal numbers have equal keys;
    /// both zeros have key 0.
    pub open spec fn key(self) -> int {
        if self.is_negative() {
            -self.magnitude()
        } else {
            self.magnitude()
        }
    }

    /// `self < other` as IEEE-754 defines it: false when either is a NaN.
    pub open spec fn lt_spec(self, other: Scalar) -> bool {
        !self.is_nan_spec() && !other.is_nan_spec() && self.key() < other.key()
    }

    /// `self <= other` as IEEE-754 defines it: false when either is a NaN.
    pub open spec fn le_spec(self, other: Scalar) -> bool {
        !self.is_nan_spec() && !other.is_nan_spec() && self.key() <= other.key()
    }

    /// `self == other` as IEEE-754 defines it: a NaN equals nothing, and the
    /// two zeros equal each other.
    pub open spec fn same_number(self, other: Scalar) -> bool {
        !self.is_nan_spec() && !other.is_nan_spec() && self.key() == other.key()
    }

    /// The smaller of two numbers.  A NaN operand is ignored; of two equal
    /// numbers the receiver is kept.
    pub open spec fn min_spec(self, other: Scalar) -> Scalar {
        if other.is_nan_spec() || (!self.is_nan_spec() && self.key() <= other.key()) {
            self
        } else {
            other
        }
    }

    /// The larger of two numbers.  A NaN operand is ignored; of two equal
    /// numbers the receiver is kept.
    pub open spec fn max_spec(self, other: Scalar) -> Scalar {
        if other.is_nan_spec() || (!self.is_nan_spec() && self.key() >= other.key()) {
            self
        } else {
            other
        }
    }

    /// The biased exponent field.
    pub open spec fn exponent_field(self) -> int {
        ((self.bits & MAGNITUDE_MASK) >> 23) as int
    }

    /// The fraction field.
    pub open spec fn fraction_field(self) -> int {
        (self.bits & FRACTION_MASK) as int
    }

    /// Integer significand of a finite number: its absolute value is
    /// `significand() * 2^exponent()`.
    pub open spec fn significand(self) -> int {
        if self.exponent_field() == 0 {
            self.fraction_field()
        } else {
            HIDDEN_BIT + self.fraction_field()
        }
    }

    /// Power of two that scales [`Scalar::significand`].
    pub open spec fn exponent(self) -> int {
        if self.exponent_field() == 0 {
            -149
        } else {
            self.exponent_field() - 150
        }
    }

    /// The number is exactly `numerator / 2^shift`.  A finite binary32 has
    /// an exponent of at least -149, so the equation is stated after
    /// multiplying both sides by `2^(149 + shift)`.
    pub open spec fn is_dyadic(self, numerator: nat, shift: nat) -> bool {
        &&& !self.is_negative()
        &&& self.is_finite_spec()
        &&& numerator * pow2(149) == self.significand() * pow2(
            (self.exponent() + 149 + shift) as nat,
        )
    }

    /// A significand below `2^24` shifted left until its hidden bit is set,
    /// with the exponent field lowered by one for each shift.
    pub open spec fn normalized(significand: u32, field: u32) -> (u32, u32)
        decreases 0x100_0000 - significand,
    {
        if significand == 0 || significand >= HIDDEN_BIT || field == 0 {
            (significand, field)
        } else {
            Scalar::normalized((significand * 2) as u32, (field - 1) as u32)
        }
    }

    /// The pattern of `numerator / 2^24`: zero for a zero numerator, else
    /// the numerator normalized from the exponent field of one half.
    pub open spec fn unit_fraction_spec(numerator: u32) -> Scalar {
        if numerator == 0 {
            Scalar { bits: 0 }
        } else {
            let (significand, field) = Scalar::normalized(numerator, 126);
            Scalar { bits: (field << 23) | (significand & FRACTION_MASK) }
        }
    }

    /// Wraps a bit pattern.
    pub fn from_bits(bits: u32) -> (r: Scalar)
        ensures
            r.bits == bits,
    {
        Scalar { bits }
    }

    /// The bit pattern.
    pub fn to_bits(self) -> (r: u32)
        ensures
            r == self.bits,
    {
        self.bits
    }

    /// Positive zero.
    pub fn zero() -> (r: Scalar)
        ensures
            r.bits == 0,
            r.key() == 0,
            !r.is_nan_spec(),
    {
        assert(0u32 & MAGNITUDE_MASK == 0 && 0u32 & SIGN_BIT == 0) by (bit_vector);
        Scalar { bits: 0 }
    }

    /// One.
    pub fn one() -> (r: Scalar)
        ensures
            r.bits == ONE_BITS,
            r.key() == ONE_BITS,
            !r.is_nan_spec(),
    {
        assert(ONE_BITS & MAGNITUDE_MASK == ONE_BITS && ONE_BITS & SIGN_BIT == 0) by (bit_vector);
        Scalar { bits: ONE_BITS }
    }

    /// Positive infinity, above every other number.
    pub fn infinity() -> (r: Scalar)
        ensures
            r.bits == INFINITY_BITS,
            r.key() == INFINITY_BITS,
            !r.is_nan_spec(),
    {
        assert(INFINITY_BITS & MAGNITUDE_MASK == INFINITY_BITS && INFINITY_BITS & SIGN_BIT == 0)
            by (bit_vector);
        Scalar { bits: INFINITY_BITS }
    }

    /// Negative infinity, below every other number.
    pub fn neg_infinity() -> (r: Scalar)
        ensures
            r.bits == NEG_INFINITY_BITS,
            r.key() == -INFINITY_BITS,
            !r.is_nan_spec(),
    {
        assert(NEG_INFINITY_BITS & MAGNITUDE_MASK == INFINITY_BITS && NEG_INFINITY_BITS & SIGN_BIT
            != 0) by (bit_vector);
        Scalar { bits: NEG_INFINITY_BITS }
    }

    /// Whether the pattern is a NaN.
    #[verifier::when_used_as_spec(is_nan_spec)]
    pub fn is_nan(self) -> (r: bool)
        ensures
            r == self.is_nan_spec(),
    {
        (self.bits & MAGNITUDE_MASK) > INFINITY_BITS
    }

    /// The key as a machine integer.
    pub fn ordinal(self) -> (k: i64)
        ensures
            k == self.key(),
    {
        let m: u32 = self.bits & MAGNITUDE_MASK;
        if self.bits & SIGN_BIT != 0 {
            -(m as i64)
        } else {
            m as i64
        }
    }

    /// `self < other`.
    pub fn lt(self, other: Scalar) -> (r: bool)
        ensures
            r == self.lt_spec(other),
    {
        !self.is_nan() && !other.is_nan() && self.ordinal() < other.ordinal()
    }

    /// `self <= other`.
    pub fn le(self, other: Scalar) -> (r: bool)
        ensures
            r == self.le_spec(other),
    {
        !self.is_nan() && !other.is_nan() && self.ordinal() <= other.ordinal()
    }

    /// `self > other`.
    pub fn gt(self, other: Scalar) -> (r: bool)
        ensures
            r == other.lt_spec(self),
    {
        other.lt(self)
    }

    /// `self >= other`.
    pub fn ge(self, other: Scalar) -> (r: bool)
        ensures
            r == other.le_spec(self),
    {
        other.le(self)
    }

    /// The smaller of the two, ignoring a NaN.
    pub fn min(self, other: Scalar) -> (r: Scalar)
        ensures
            r == self.min_spec(other),
    {
        if other.is_nan() || (!self.is_nan() && self.ordinal() <= other.ordinal()) {
            self
        } else {
            other
        }
    }

    /// The larger of the two, ignoring a NaN.
    pub fn max(self, other: Scalar) -> (r: Scalar)
        ensures
            r == self.max_spec(other),
    {
        if other.is_nan() || (!self.is_nan() && self.ordinal() >= other.ordinal()) {
            self
        } else {
            other
        }
    }

    /// The number `numerator / 2^24`, which binary32 represents exactly for
    /// every 24-bit numerator.  The result lies in `[0, 1)`.
    pub fn from_unit_fraction(numerator: u32) -> (r: Scalar)
        requires
            numerator < 0x100_0000,
        ensures
            r == Scalar::unit_fraction_spec(numerator),
            r.is_dyadic(numerator as nat, 24),
            0 <= r.key() < ONE_BITS,
            numerator == 0 <==> r.bits == 0,
    {
        if numerator == 0 {
            let r = Scalar { bits: 0 };
            proof {
                assert(0u32 & MAGNITUDE_MASK == 0 && 0u32 & SIGN_BIT == 0 && 0u32 & FRACTION_MASK
                    == 0 && (0u32 & MAGNITUDE_MASK) >> 23 == 0) by (bit_vector);
                assert(r.significand() == 0);
                assert(r.exponent() == -149);
                assert(!r.is_negative());
                assert(r.is_finite_spec());
                assert(0 * pow2(149) == 0 * pow2(24)) by (nonlinear_arith);
            }
            return r;
        }
        proof {
            lemma2_to64();
        }
        let mut significand: u32 = numerator;
        let mut field: u32 = 126;
        let ghost mut shifted: nat = 0;
        while significand & HIDDEN_BIT == 0
            invariant
                0 < significand < 0x100_0000,
                shifted <= 23,
                field == 126 - shifted,
                significand == numerator * pow2(shifted),
                Scalar::normalized(significand, field) == Scalar::normalized(numerator, 126),
            decreases 0x100_0000 - significand,
        {
            let prev = significand;
            assert(prev & HIDDEN_BIT == 0 && 0 < prev < 0x100_0000 ==> prev << 1 == 2 * prev && prev
                < 0x80_0000) by (bit_vector);
            significand = significand << 1;
            proof {
                lemma_pow2_adds(shifted, 1);
                lemma2_to64();
                assert(numerator * pow2(shifted + 1) == (numerator * pow2(shifted)) * 2)
                    by (nonlinear_arith)
                    requires
                        pow2(shifted + 1) == pow2(shifted) * 2,
                ;
                lemma_pow2_pos(shifted);
                assert(shifted < 23) by {
                    if shifted >= 23 {
                        lemma_pow2_adds(23, (shifted - 23) as nat);
                        lemma_pow2_pos((shifted - 23) as nat);
                        assert(numerator * pow2(shifted) >= 0x80_0000) by (nonlinear_arith)
                            requires
                                numerator >= 1,
                                pow2(shifted) == pow2(23) * pow2((shifted - 23) as nat),
                                pow2(23) == 0x80_0000,
                                pow2((shifted - 23) as nat) >= 1,
                        ;
                    }
                }
                shifted = shifted + 1;
            }
            field = field - 1;
        }
        let bits: u32 = (field << 23) | (significand & FRACTION_MASK);
        let r = Scalar { bits };
        proof {
            let s = significand;
            let f = field;
            assert(s & HIDDEN_BIT != 0 && s < 0x100_0000 && 103 <= f <= 126 ==> {
                let b = (f << 23) | (s & FRACTION_MASK);
                &&& b & SIGN_BIT == 0
                &&& b & MAGNITUDE_MASK == b
                &&& b < ONE_BITS
                &&& b != 0
                &&& (b & MAGNITUDE_MASK) >> 23 == f
                &&& (b & FRACTION_MASK) + HIDDEN_BIT == s
            }) by (bit_vector);
            assert(s & HIDDEN_BIT != 0 && s < 0x100_0000 ==> s >= HIDDEN_BIT) by (bit_vector);
            assert(r.significand() == s);
            assert(r.exponent() == f - 150);
            assert(r.exponent() + 149 + 24 == 149 - shifted);
            lemma_pow2_adds(shifted, (149 - shifted) as nat);
            assert(numerator * pow2(149) == s * pow2((149 - shifted) as nat)) by (nonlinear_arith)
                requires
                    s == numerator * pow2(shifted),
                    pow2(149) == pow2(shifted) * pow2((149 - shifted) as nat),
            ;
        }
        r
    }
}

/// The two infinities are numbers, and they sit at the two ends of the key
/// range that numbers occupy.
pub proof fn lemma_infinity_keys()
    ensures
        (Scalar { bits: INFINITY_BITS }).key() == INFINITY_BITS,
        (Scalar { bits: NEG_INFINITY_BITS }).key() == -INFINITY_BITS,
        !(Scalar { bits: INFINITY_BITS }).is_nan_spec(),
        !(Scalar { bits: NEG_INFINITY_BITS }).is_nan_spec(),
        forall|s: Scalar| !s.is_nan_spec() ==> -INFINITY_BITS <= #[trigger] s.key() <= INFINITY_BITS,
{
    assert(INFINITY_BITS & MAGNITUDE_MASK == INFINITY_BITS && INFINITY_BITS & SIGN_BIT == 0)
        by (bit_vector);
    assert(NEG_INFINITY_BITS & MAGNITUDE_MASK == INFINITY_BITS && NEG_INFINITY_BITS & SIGN_BIT != 0)
        by (bit_vector);
}

/// Apart from the two zeros, numbers with the same key are the same
/// pattern; and only the two infinities have the keys of the infinities.
pub proof fn lemma_key_decides_numbers()
    ensures
        forall|a: Scalar, b: Scalar|
            #![trigger a.key(), b.key()]
            a.key() == b.key() && a.key() != 0 ==> a == b,
        forall|a: Scalar| #[trigger] a.key() == INFINITY_BITS ==> a.bits == INFINITY_BITS,
        forall|a: Scalar| #[trigger] a.key() == -INFINITY_BITS ==> a.bits == NEG_INFINITY_BITS,
{
    assert forall|a: Scalar, b: Scalar|
        #![trigger a.key(), b.key()]
        a.key() == b.key() && a.key() != 0 implies a == b by {
        let x = a.bits;
        let y = b.bits;
        assert((x & SIGN_BIT != 0) == (y & SIGN_BIT != 0) && x & MAGNITUDE_MASK == y
            & MAGNITUDE_MASK ==> x == y) by (bit_vector);
        assert(x & MAGNITUDE_MASK <= MAGNITUDE_MASK && y & MAGNITUDE_MASK <= MAGNITUDE_MASK)
            by (bit_vector);
    }
    assert forall|a: Scalar| #[trigger] a.key() == INFINITY_BITS implies a.bits
        == INFINITY_BITS by {
        let x = a.bits;
        assert(x & SIGN_BIT == 0 && x & MAGNITUDE_MASK == INFINITY_BITS ==> x == INFINITY_BITS)
            by (bit_vector);
        assert(x & MAGNITUDE_MASK <= MAGNITUDE_MASK) by (bit_vector);
    }
    assert forall|a: Scalar| #[trigger] a.key() == -INFINITY_BITS implies a.bits
        == NEG_INFINITY_BITS by {
        let x = a.bits;
        assert(x & SIGN_BIT != 0 && x & MAGNITUDE_MASK == INFINITY_BITS ==> x
            == NEG_INFINITY_BITS) by (bit_vector);
        assert(x & MAGNITUDE_MASK <= MAGNITUDE_MASK) by (bit_vector);
    }
}

impl PartialEq for Scalar {
    /// Equality of the numbers, not of the patterns.
    fn eq(&self, other: &Scalar) -> (r: bool) {
        !self.is_nan() && !other.is_nan() && self.ordinal() == other.ordinal()
    }
}

impl vstd::std_specs::cmp::PartialEqSpecImpl for Scalar {
    open spec fn obeys_eq_spec() -> bool {
        true
    }

    open spec fn eq_spec(&self, other: &Scalar) -> bool {
        self.same_number(*other)
    }
}

} // verus!
