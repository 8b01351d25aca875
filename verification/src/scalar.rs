use vstd::prelude::*;

verus! {

/// The encoding's sign bit.
pub const SIGN_BIT: u32 = 0x8000_0000;

/// The encoding of positive infinity; every larger magnitude is not a number.
pub const INFINITY_BITS: u32 = 0x7F80_0000;

/// The encoding of one.
pub const ONE_BITS: u32 = 0x3F80_0000;

/// A number in the 32-bit binary interchange format, held by its encoding: one sign bit,
/// eight exponent bits and twenty-three fraction bits, from the most significant bit down.
///
/// The library never computes sums or products of such numbers. It compares them, selects
/// among them and converts them, and all of that is decided by the encoding alone.
///
/// `==` holds of equal encodings. As numbers the two zeros are the same though their
/// encodings differ, and what is no number is the same as nothing: see `same`.
#[derive(Clone, Copy, Debug, PartialEq, Eq)]
pub struct Scalar {
    pub bits: u32,
}

impl Scalar {
    /// The sign bit is set.
    pub open spec fn negative(self) -> bool {
        self.bits >= SIGN_BIT
    }

    /// The encoding without its sign bit.
    pub open spec fn magnitude(self) -> int {
        if self.bits >= SIGN_BIT {
            self.bits - SIGN_BIT
        } else {
            self.bits as int
        }
    }

    /// The encoding stands for no number.
    pub open spec fn nan(self) -> bool {
        self.magnitude() > INFINITY_BITS
    }

    /// The place of the encoded number among all encoded numbers: magnitudes of one sign
    /// order as the numbers do, and both zeros share place 0.
    pub open spec fn rank(self) -> int {
        if self.negative() {
            -self.magnitude()
        } else {
            self.magnitude()
        }
    }

    /// Both are numbers and `self` is the smaller.
    pub open spec fn below(self, other: Scalar) -> bool {
        !self.nan() && !other.nan() && self.rank() < other.rank()
    }

    /// Both are numbers and they are the same number.
    pub open spec fn same(self, other: Scalar) -> bool {
        !self.nan() && !other.nan() && self.rank() == other.rank()
    }

    /// Both are numbers and `self` is not the larger.
    pub open spec fn at_most(self, other: Scalar) -> bool {
        !self.nan() && !other.nan() && self.rank() <= other.rank()
    }

    /// The encoding with the opposite sign bit.
    pub open spec fn negated(self) -> Scalar {
        if self.bits >= SIGN_BIT {
            Scalar { bits: (self.bits - SIGN_BIT) as u32 }
        } else {
            Scalar { bits: (self.bits + SIGN_BIT) as u32 }
        }
    }

    /// The lesser of two, where one that is no number gives way to the other.
    pub open spec fn lesser(self, other: Scalar) -> Scalar {
        if self.nan() {
            other
        } else if other.below(self) {
            other
        } else {
            self
        }
    }

    /// `self` moved into the range from `min` to `max`; what is no number stays as it is.
    pub open spec fn clamped(self, min: Scalar, max: Scalar) -> Scalar {
        if self.below(min) {
            min
        } else if max.below(self) {
            max
        } else {
            self
        }
    }

    /// Positive zero.
    pub open spec fn spec_zero() -> Scalar {
        Scalar { bits: 0 }
    }

    /// One.
    pub open spec fn spec_one() -> Scalar {
        Scalar { bits: ONE_BITS }
    }

    /// No number is below itself, and of two numbers at most one is below the other.
    pub proof fn lemma_below_is_strict(self, other: Scalar)
        ensures
            !self.below(self),
            self.below(other) ==> !other.below(self),
    {
    }

    /// What is below a number that is below a third is below the third.
    pub proof fn lemma_below_is_transitive(self, middle: Scalar, other: Scalar)
        requires
            self.below(middle),
            middle.below(other),
        ensures
            self.below(other),
    {
    }

    /// Of two numbers exactly one holds: the first is below, they are the same, or the
    /// second is below. Where either is no number, none holds.
    pub proof fn lemma_numbers_are_ordered(self, other: Scalar)
        ensures
            !self.nan() && !other.nan() ==> (self.below(other) || self.same(other) || other.below(
                self,
            )),
            !(self.below(other) && self.same(other)),
            !(other.below(self) && self.same(other)),
            self.nan() || other.nan() ==> !self.below(other) && !self.same(other) && !other.below(
                self,
            ),
            self.at_most(other) <==> self.below(other) || self.same(other),
    {
    }

    /// Changing the sign twice gives the encoding back, and changing it once turns the
    /// order of two numbers around.
    pub proof fn lemma_negation_mirrors(self, other: Scalar)
        ensures
            self.negated().negated() == self,
            self.negated().nan() == self.nan(),
            self.below(other) <==> other.negated().below(self.negated()),
    {
    }

    /// The number with the given encoding.
    pub fn from_bits(bits: u32) -> (s: Scalar)
        ensures
            s.bits == bits,
    {
        Scalar { bits }
    }

    /// The encoding of the number.
    pub fn to_bits(self) -> (bits: u32)
        ensures
            bits == self.bits,
    {
        self.bits
    }

    /// Positive zero.
    #[verifier::when_used_as_spec(spec_zero)]
    pub fn zero() -> (s: Scalar)
        ensures
            s == Scalar::spec_zero(),
    {
        Scalar { bits: 0 }
    }

    /// One.
    #[verifier::when_used_as_spec(spec_one)]
    pub fn one() -> (s: Scalar)
        ensures
            s == Scalar::spec_one(),
    {
        Scalar { bits: ONE_BITS }
    }

    fn magnitude_bits(self) -> (m: u32)
        ensures
            m == self.magnitude(),
    {
        if self.bits >= SIGN_BIT {
            self.bits - SIGN_BIT
        } else {
            self.bits
        }
    }

    fn place(self) -> (k: i64)
        ensures
            k == self.rank(),
    {
        let m: u32 = self.magnitude_bits();
        if self.bits >= SIGN_BIT {
            -(m as i64)
        } else {
            m as i64
        }
    }

    /// Whether the encoding stands for no number.
    pub fn is_nan(self) -> (r: bool)
        ensures
            r == self.nan(),
    {
        self.magnitude_bits() > INFINITY_BITS
    }

    /// `self < other` as the format defines it: false when either is no number.
    pub fn lt(self, other: Scalar) -> (r: bool)
        ensures
            r == self.below(other),
    {
        !self.is_nan() && !other.is_nan() && self.place() < other.place()
    }

    /// `self > other` as the format defines it: false when either is no number.
    pub fn gt(self, other: Scalar) -> (r: bool)
        ensures
            r == other.below(self),
    {
        other.lt(self)
    }

    /// `self <= other` as the format defines it: false when either is no number.
    pub fn le(self, other: Scalar) -> (r: bool)
        ensures
            r == self.at_most(other),
    {
        !self.is_nan() && !other.is_nan() && self.place() <= other.place()
    }

    /// The same magnitude with the opposite sign, for every encoding.
    pub fn neg(self) -> (r: Scalar)
        ensures
            r == self.negated(),
            r.magnitude() == self.magnitude(),
            r.negative() != self.negative(),
    {
        if self.bits >= SIGN_BIT {
            Scalar { bits: self.bits - SIGN_BIT }
        } else {
            Scalar { bits: self.bits + SIGN_BIT }
        }
    }

    /// The lesser of the two; of two equal numbers, `self`. One that is no number gives
    /// way to the other.
    pub fn min(self, other: Scalar) -> (r: Scalar)
        ensures
            r == self.lesser(other),
            r == self || r == other,
            !self.nan() && !other.nan() ==> r.at_most(self) && r.at_most(other),
            r.nan() <==> self.nan() && other.nan(),
    {
        if self.is_nan() {
            other
        } else if other.lt(self) {
            other
        } else {
            self
        }
    }

    /// `min` where `self` is below it, `max` where `self` is above it, else `self`.
    pub fn clamp(self, min: Scalar, max: Scalar) -> (r: Scalar)
        requires
            min.at_most(max),
        ensures
            r == self.clamped(min, max),
            self.nan() ==> r == self,
            !self.nan() ==> min.at_most(r) && r.at_most(max),
            min.at_most(self) && self.at_most(max) ==> r == self,
    {
        if self.lt(min) {
            min
        } else if self.gt(max) {
            max
        } else {
            self
        }
    }
}

} // verus!
