use vstd::prelude::*;
use vstd::arithmetic::div_mod::{
    lemma_div_by_multiple, lemma_div_multiples_vanish_quotient, lemma_fundamental_div_mod,
    lemma_fundamental_div_mod_converse, lemma_truncate_middle,
};
use vstd::arithmetic::power2::{lemma2_to64, lemma_pow2_adds, lemma_pow2_pos, lemma_pow2_unfold, pow2};
use crate::scalar::Scalar;

verus! {

/// The number of encodings that share one exponent: two to the power 23.
pub const BINADE: u32 = 0x80_0000;

impl Scalar {
    /// The exponent field of the encoding.
    pub open spec fn exponent(self) -> int {
        self.magnitude() / (BINADE as int)
    }

    /// The fraction field of the encoding.
    pub open spec fn fraction(self) -> int {
        self.magnitude() % (BINADE as int)
    }

    /// The integer that the fraction field stands for: the absolute value of an encoded
    /// number is `significand` times two to the power `power`.
    pub open spec fn significand(self) -> int {
        if self.exponent() == 0 {
            self.fraction()
        } else {
            BINADE + self.fraction()
        }
    }

    /// The power of two by which the significand is scaled.
    pub open spec fn power(self) -> int {
        if self.exponent() == 0 {
            -149
        } else {
            self.exponent() - 150
        }
    }

    /// The distance from the number to the next larger one, on the scale on which the
    /// least positive number is 1.
    pub open spec fn grain(self) -> int {
        pow2((self.power() + 149) as nat) as int
    }

    /// The absolute value of the number on the scale on which the least positive number
    /// is 1: the significand times the grain. An infinity stands beyond every number.
    pub open spec fn scaled(self) -> int {
        self.significand() * self.grain()
    }

    /// The integer part of the absolute value. For an infinity this is a number beyond
    /// every machine integer.
    pub open spec fn whole(self) -> int {
        if self.power() >= 0 {
            self.significand() * pow2(self.power() as nat)
        } else {
            self.significand() / (pow2((-self.power()) as nat) as int)
        }
    }

    /// The number cut down to its integer part, towards zero; 0 for what is no number.
    pub open spec fn truncated(self) -> int {
        if self.nan() {
            0
        } else if self.negative() {
            -self.whole()
        } else {
            self.whole()
        }
    }

    /// The number with its sign, on the scale on which the least positive number is 1.
    pub open spec fn signed_scaled(self) -> int {
        if self.negative() {
            -self.scaled()
        } else {
            self.scaled()
        }
    }

    /// The greatest integer that is not above the number: the number cut down towards
    /// negative infinity. 0 for what is no number.
    pub open spec fn floored(self) -> int {
        if self.nan() {
            0
        } else {
            self.signed_scaled() / (pow2(149) as int)
        }
    }

    /// The number lies strictly between two integers.
    pub open spec fn fractional(self) -> bool {
        self.power() < 0 && self.significand() % (pow2((-self.power()) as nat) as int) != 0
    }

    /// The integer part of an absolute value is not negative.
    pub proof fn lemma_whole_not_negative(self)
        ensures
            self.whole() >= 0,
    {
        let s = self.significand();
        if self.power() >= 0 {
            let p = pow2(self.power() as nat);
            assert(s * p >= 0) by (nonlinear_arith)
                requires
                    s >= 0,
                    p >= 0,
            ;
        } else {
            let p = pow2((-self.power()) as nat) as int;
            lemma_pow2_pos((-self.power()) as nat);
            assert(s / p >= 0) by (nonlinear_arith)
                requires
                    s >= 0,
                    p > 0,
            ;
        }
    }

    /// The integer part of the absolute value is the value on the scale on which the
    /// least positive number is 1, cut at what stands for one on that scale.
    pub proof fn lemma_whole_cuts_scaled(self)
        ensures
            self.whole() == self.scaled() / (pow2(149) as int),
    {
        let s = self.significand();
        let p = self.power();
        let g = self.grain();
        let one = pow2(149) as int;
        lemma_pow2_pos(149);
        lemma_pow2_pos((p + 149) as nat);
        if p >= 0 {
            let up = pow2(p as nat) as int;
            lemma_pow2_adds(p as nat, 149);
            assert(s * up >= 0) by (nonlinear_arith)
                requires
                    s >= 0,
                    up >= 0,
            ;
            assert(s * g == (s * up) * one) by (nonlinear_arith)
                requires
                    g == up * one,
            ;
            lemma_div_by_multiple(s * up, one);
        } else {
            let down = pow2((-p) as nat) as int;
            lemma_pow2_pos((-p) as nat);
            lemma_pow2_adds((-p) as nat, (p + 149) as nat);
            lemma_div_multiples_vanish_quotient(g, s, down);
            assert(g * s == s * g) by (nonlinear_arith);
            assert(g * down == one) by (nonlinear_arith)
                requires
                    one == down * g,
            ;
        }
    }

    /// A number lies between two integers just where its value, on the scale on which
    /// the least positive number is 1, is no multiple of what stands for one there.
    pub proof fn lemma_fraction_is_a_remainder(self)
        ensures
            self.fractional() <==> self.scaled() % (pow2(149) as int) != 0,
    {
        let s = self.significand();
        let p = self.power();
        let g = self.grain();
        let one = pow2(149) as int;
        lemma_pow2_pos(149);
        lemma_pow2_pos((p + 149) as nat);
        if p >= 0 {
            let up = pow2(p as nat) as int;
            lemma_pow2_adds(p as nat, 149);
            assert(s * g == (s * up) * one + 0) by (nonlinear_arith)
                requires
                    g == up * one,
            ;
            lemma_fundamental_div_mod_converse(s * g, one, s * up, 0);
        } else {
            let down = pow2((-p) as nat) as int;
            lemma_pow2_pos((-p) as nat);
            lemma_pow2_adds((-p) as nat, (p + 149) as nat);
            lemma_truncate_middle(s, g, down);
            assert(g * s == s * g) by (nonlinear_arith);
            assert(g * down == one) by (nonlinear_arith)
                requires
                    one == down * g,
            ;
            let r = s % down;
            assert(r != 0 <==> g * r != 0) by (nonlinear_arith)
                requires
                    g > 0,
            ;
        }
    }

    /// Cutting down towards negative infinity, by the integer part of the absolute
    /// value: a number that is not negative is cut to that part, a negative one to the
    /// opposite of it, and to one below that where the number lies between two integers.
    pub proof fn lemma_floored_by_parts(self)
        requires
            !self.nan(),
        ensures
            !self.negative() ==> self.floored() == self.whole(),
            self.negative() && !self.fractional() ==> self.floored() == -self.whole(),
            self.negative() && self.fractional() ==> self.floored() == -self.whole() - 1,
    {
        let one = pow2(149) as int;
        let v = self.scaled();
        lemma_pow2_pos(149);
        self.lemma_whole_cuts_scaled();
        self.lemma_fraction_is_a_remainder();
        lemma_fundamental_div_mod(v, one);
        let w = v / one;
        let r = v % one;
        if self.negative() {
            if r == 0 {
                assert(-v == (-w) * one + 0) by (nonlinear_arith)
                    requires
                        v == one * w + 0,
                ;
                lemma_fundamental_div_mod_converse(-v, one, -w, 0);
            } else {
                assert(-v == (-w - 1) * one + (one - r)) by (nonlinear_arith)
                    requires
                        v == one * w + r,
                ;
                lemma_fundamental_div_mod_converse(-v, one, -w - 1, one - r);
            }
        }
    }

    /// What `floored` gives is the floor: it is not above the number, and the next
    /// integer is.
    pub proof fn lemma_floored_is_the_floor(self)
        requires
            !self.nan(),
        ensures
            self.floored() * pow2(149) <= self.signed_scaled(),
            self.signed_scaled() < (self.floored() + 1) * pow2(149),
    {
        let one = pow2(149) as int;
        let v = self.signed_scaled();
        lemma_pow2_pos(149);
        lemma_fundamental_div_mod(v, one);
        let q = v / one;
        let r = v % one;
        assert(q * one == one * q) by (nonlinear_arith);
        assert((q + 1) * one == one * q + one) by (nonlinear_arith);
    }

    /// A number of a lower exponent is the smaller in absolute value.
    proof fn lemma_lower_exponent_is_smaller(self, other: Scalar)
        requires
            self.exponent() < other.exponent(),
        ensures
            self.scaled() < other.scaled(),
    {
        lemma2_to64();
        let gx = self.grain();
        let gy = other.grain();
        let sx = self.significand();
        let sy = other.significand();
        lemma_pow2_pos((self.power() + 149) as nat);
        lemma_pow2_pos((other.power() + 149) as nat);
        assert(BINADE == 0x80_0000);
        assert(sy * gy >= 0x80_0000 * gy) by (nonlinear_arith)
            requires
                sy >= 0x80_0000,
                gy > 0,
        ;
        if self.exponent() == 0 {
            assert(sx * gx == sx) by (nonlinear_arith)
                requires
                    gx == 1,
            ;
        } else {
            let k = (other.power() - self.power()) as nat;
            lemma_pow2_adds((self.power() + 149) as nat, k);
            lemma_pow2_unfold(k);
            lemma_pow2_pos((k - 1) as nat);
            assert(gy >= 2 * gx) by (nonlinear_arith)
                requires
                    gy == gx * pow2(k),
                    pow2(k) >= 2,
                    gx > 0,
            ;
            assert(sx * gx <= 0xFF_FFFF * gx) by (nonlinear_arith)
                requires
                    sx <= 0xFF_FFFF,
                    gx > 0,
            ;
        }
    }

    /// Encodings order as the numbers they stand for: of two magnitudes the smaller
    /// stands for the smaller absolute value, and equal magnitudes for equal ones.
    pub proof fn lemma_magnitudes_order_as_values(self, other: Scalar)
        requires
            !self.nan(),
            !other.nan(),
        ensures
            self.magnitude() < other.magnitude() <==> self.scaled() < other.scaled(),
            self.magnitude() == other.magnitude() <==> self.scaled() == other.scaled(),
    {
        if self.exponent() < other.exponent() {
            self.lemma_lower_exponent_is_smaller(other);
        } else if other.exponent() < self.exponent() {
            other.lemma_lower_exponent_is_smaller(self);
        } else {
            let g = self.grain();
            let sx = self.significand();
            let sy = other.significand();
            lemma_pow2_pos((self.power() + 149) as nat);
            assert(sx < sy ==> sx * g < sy * g) by (nonlinear_arith)
                requires
                    g > 0,
            ;
            assert(sy < sx ==> sy * g < sx * g) by (nonlinear_arith)
                requires
                    g > 0,
            ;
        }
    }
}

} // verus!
