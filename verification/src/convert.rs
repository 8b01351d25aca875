use vstd::prelude::*;
use vstd::arithmetic::div_mod::{lemma_fundamental_div_mod, lemma_small_mod};
use vstd::arithmetic::power2::{
    lemma2_to64, lemma_pow2_adds, lemma_pow2_pos, lemma_pow2_strictly_increases,
    lemma_pow2_unfold, pow2,
};
use vstd::bits::{lemma_u64_shl_is_mul, lemma_u64_shr_is_div};
use crate::scalar::Scalar;
use crate::value::BINADE;

verus! {

/// `v` moved into the range from `lo` to `hi`.
pub open spec fn clip(v: int, lo: int, hi: int) -> int {
    if v < lo {
        lo
    } else if v > hi {
        hi
    } else {
        v
    }
}

/// A number at `have`, with significand `s`, is the nearest that has an encoding to the
/// mark `want`, where the next larger number lies `step` away. It may lie above the mark
/// by half a step, or by a quarter where it is the least of its exponent (`bottom`),
/// below which numbers lie twice as close; it may lie below the mark by half a step. At
/// exactly half a step, its significand is even.
pub open spec fn near(s: int, bottom: bool, have: int, want: int, step: int) -> bool {
    if have > want {
        if bottom {
            4 * (have - want) <= step
        } else {
            2 * (have - want) <= step && (2 * (have - want) == step ==> s % 2 == 0)
        }
    } else {
        2 * (want - have) <= step && (2 * (want - have) == step ==> s % 2 == 0)
    }
}

/// Nearness does not depend on the scale: what is nearest on one scale is nearest on a
/// scale `c` times as fine.
pub proof fn lemma_near_scales(s: int, bottom: bool, have: int, want: int, step: int, c: int)
    requires
        c > 0,
        near(s, bottom, have, want, step),
    ensures
        near(s, bottom, have * c, want * c, step * c),
{
    let gap = have - want;
    assert(have * c - want * c == gap * c) by (nonlinear_arith)
        requires
            gap == have - want,
    ;
    assert(gap > 0 ==> gap * c > 0) by (nonlinear_arith)
        requires
            c > 0,
    ;
    assert(gap <= 0 ==> gap * c <= 0) by (nonlinear_arith)
        requires
            c > 0,
    ;
    assert(4 * gap <= step ==> 4 * (gap * c) <= step * c) by (nonlinear_arith)
        requires
            c > 0,
    ;
    assert(2 * gap <= step ==> 2 * (gap * c) <= step * c) by (nonlinear_arith)
        requires
            c > 0,
    ;
    assert(-2 * gap <= step ==> -2 * (gap * c) <= step * c) by (nonlinear_arith)
        requires
            c > 0,
    ;
    assert(2 * (gap * c) == step * c ==> 2 * gap == step) by (nonlinear_arith)
        requires
            c > 0,
    ;
    assert(-2 * (gap * c) == step * c ==> -2 * gap == step) by (nonlinear_arith)
        requires
            c > 0,
    ;
}

impl Scalar {
    /// The encoding stands for the positive number nearest to `n / d`, and where two are
    /// equally near, for the one whose significand is even.
    ///
    /// The number and `n / d` are held against each other on the scale on which the
    /// least positive number is 1, both multiplied by `d`.
    pub open spec fn rounds(self, n: int, d: int) -> bool {
        &&& !self.negative()
        &&& 1 <= self.exponent() <= 254
        &&& near(
            self.significand(),
            self.significand() == BINADE && self.exponent() > 1,
            self.scaled() * d,
            n * pow2(149),
            self.grain() * d,
        )
    }

    /// What `rounds` says, on the scale of the number's own exponent.
    pub open spec fn fits(self, n: int, d: int) -> bool {
        let s = self.significand();
        let up = if self.power() >= 0 {
            pow2(self.power() as nat) as int
        } else {
            1
        };
        let down = if self.power() >= 0 {
            1
        } else {
            pow2((-self.power()) as nat) as int
        };
        &&& !self.negative()
        &&& 1 <= self.exponent() <= 254
        &&& near(s, s == BINADE && self.exponent() > 1, s * d * up, n * down, d * up)
    }

    /// The encoding stands for the share of full strength that the colour byte `c`
    /// stands for: positive zero for 0, and else the number nearest to `c / 255`. One
    /// encoding does.
    pub open spec fn is_channel(self, c: u8) -> bool {
        if c == 0 {
            self == Scalar::zero()
        } else {
            self.rounds(c as int, 255)
        }
    }

    /// The encoding stands for the integer `n`, or for the number nearest to it where
    /// `n` itself has no encoding. One encoding does.
    pub open spec fn is_count(self, n: u32) -> bool {
        if n == 0 {
            self == Scalar::zero()
        } else {
            self.rounds(n as int, 1)
        }
    }

    /// What holds on the scale of a number's own exponent holds on the scale on which
    /// the least positive number is 1.
    pub proof fn lemma_fits_rounds(self, n: int, d: int)
        requires
            self.fits(n, d),
        ensures
            self.rounds(n, d),
    {
        let s = self.significand();
        let p = self.power();
        let bottom = s == BINADE && self.exponent() > 1;
        let g = self.grain();
        lemma_pow2_pos((p + 149) as nat);
        if p >= 0 {
            let up = pow2(p as nat) as int;
            let c = pow2(149) as int;
            lemma_pow2_pos(149);
            lemma_pow2_adds(p as nat, 149);
            lemma_near_scales(s, bottom, s * d * up, n * 1, d * up, c);
            assert((s * d * up) * c == (s * g) * d) by (nonlinear_arith)
                requires
                    g == up * c,
            ;
            assert((n * 1) * c == n * c) by (nonlinear_arith);
            assert((d * up) * c == g * d) by (nonlinear_arith)
                requires
                    g == up * c,
            ;
        } else {
            let down = pow2((-p) as nat) as int;
            lemma_pow2_adds((-p) as nat, (p + 149) as nat);
            lemma_near_scales(s, bottom, s * d * 1, n * down, d * 1, g);
            assert((s * d * 1) * g == (s * g) * d) by (nonlinear_arith);
            assert((n * down) * g == n * pow2(149)) by (nonlinear_arith)
                requires
                    pow2(149) == down * g,
            ;
            assert((d * 1) * g == g * d) by (nonlinear_arith);
        }
    }

    /// The integer part of the absolute value, or two to the power 32 where it is larger.
    fn whole_capped(self) -> (w: u64)
        ensures
            w == clip(self.whole(), 0, 0x1_0000_0000),
    {
        let m: u32 = if self.bits >= 0x8000_0000 {
            self.bits - 0x8000_0000
        } else {
            self.bits
        };
        let e: u32 = m / BINADE;
        let f: u32 = m % BINADE;
        proof {
            lemma2_to64();
        }
        if e < 127 {
            proof {
                let k = (-self.power()) as nat;
                assert(k >= 24);
                if k > 24 {
                    lemma_pow2_strictly_increases(24, k);
                }
                assert(self.significand() < pow2(k));
                assert(self.significand() / (pow2(k) as int) == 0) by (nonlinear_arith)
                    requires
                        0 <= self.significand() < pow2(k),
                ;
            }
            0
        } else if e >= 159 {
            proof {
                let k = self.power() as nat;
                assert(k >= 9);
                if k > 9 {
                    lemma_pow2_strictly_increases(9, k);
                }
                assert(self.significand() * pow2(k) >= 0x1_0000_0000) by (nonlinear_arith)
                    requires
                        self.significand() >= 0x80_0000,
                        pow2(k) >= 0x200,
                ;
            }
            0x1_0000_0000
        } else {
            let s: u64 = (BINADE + f) as u64;
            if e >= 150 {
                let k: u64 = (e - 150) as u64;
                proof {
                    assert(pow2(k as nat) <= 0x100) by {
                        if k < 8 {
                            lemma_pow2_strictly_increases(k as nat, 8);
                        }
                    }
                    assert(s * pow2(k as nat) <= 0xFFFF_FFFF) by (nonlinear_arith)
                        requires
                            s < 0x100_0000,
                            pow2(k as nat) <= 0x100,
                    ;
                    lemma_u64_shl_is_mul(s, k);
                }
                s << k
            } else {
                let k: u64 = (150 - e) as u64;
                proof {
                    lemma_u64_shr_is_div(s, k);
                }
                s >> k
            }
        }
    }

    /// Whether the number lies strictly between two integers.
    fn has_fraction(self) -> (between: bool)
        ensures
            between == self.fractional(),
    {
        let m: u32 = if self.bits >= 0x8000_0000 {
            self.bits - 0x8000_0000
        } else {
            self.bits
        };
        let e: u32 = m / BINADE;
        let f: u32 = m % BINADE;
        proof {
            lemma2_to64();
        }
        if e >= 150 {
            false
        } else if e < 127 {
            proof {
                let k = (-self.power()) as nat;
                if k > 24 {
                    lemma_pow2_strictly_increases(24, k);
                }
                lemma_small_mod(self.significand() as nat, pow2(k));
            }
            m != 0
        } else {
            let s: u64 = (BINADE + f) as u64;
            let k: u64 = (150 - e) as u64;
            proof {
                lemma_pow2_pos(k as nat);
                assert(pow2(k as nat) <= 0x80_0000) by {
                    if k < 23 {
                        lemma_pow2_strictly_increases(k as nat, 23);
                    }
                }
                assert(1 * pow2(k as nat) == pow2(k as nat)) by (nonlinear_arith);
                lemma_u64_shl_is_mul(1, k);
            }
            let unit: u64 = 1u64 << k;
            s % unit != 0
        }
    }

    /// The positive number with the given exponent field and significand. A significand
    /// of two to the power 24 stands for the least number of the next exponent.
    fn pack(exponent: u32, s: u64) -> (r: Scalar)
        requires
            1 <= exponent <= 253,
            BINADE <= s <= 2 * BINADE,
        ensures
            !r.negative(),
            s < 2 * BINADE ==> r.exponent() == exponent && r.significand() == s,
            s == 2 * BINADE ==> r.exponent() == exponent + 1 && r.significand() == BINADE,
    {
        let fraction: u32 = (s - BINADE as u64) as u32;
        Scalar { bits: exponent * BINADE + fraction }
    }

    /// The number nearest to the integer `n`: `n` itself up to two to the power 24, and
    /// beyond that the nearest number that has an encoding, the one with the even
    /// significand where two are equally near.
    pub fn from_u32(n: u32) -> (r: Scalar)
        ensures
            r.is_count(n),
    {
        if n == 0 {
            return Scalar::zero();
        }
        let mut l: u32 = 0;
        let mut top: u64 = 1;
        proof {
            lemma2_to64();
        }
        while top * 2 <= n as u64
            invariant
                top == pow2(l as nat),
                top <= n,
                l <= 31,
            decreases n - top,
        {
            top = top * 2;
            l = l + 1;
            proof {
                lemma2_to64();
                lemma_pow2_unfold(l as nat);
                if l >= 32 {
                    if l > 32 {
                        lemma_pow2_strictly_increases(32, l as nat);
                    }
                }
            }
        }
        if l <= 23 {
            let k: u64 = (23 - l) as u64;
            proof {
                lemma2_to64();
                lemma_pow2_adds(l as nat, k as nat);
                lemma_pow2_pos(k as nat);
                let a = pow2(l as nat) as int;
                let b = pow2(k as nat) as int;
                assert(n * b >= 0x80_0000 && n * b < 0x100_0000) by (nonlinear_arith)
                    requires
                        a <= n < 2 * a,
                        a * b == 0x80_0000,
                        b > 0,
                ;
                lemma_u64_shl_is_mul(n as u64, k);
            }
            let s: u64 = (n as u64) << k;
            let r = Scalar::pack(127 + l, s);
            proof {
                let b = pow2(k as nat) as int;
                assert(s * 1 * 1 == n * b) by (nonlinear_arith)
                    requires
                        s == n * b,
                ;
                assert(n * 1 == n) by (nonlinear_arith);
                assert(r.fits(n as int, 1));
                r.lemma_fits_rounds(n as int, 1);
            }
            r
        } else {
            let k: u64 = (l - 23) as u64;
            proof {
                lemma2_to64();
                lemma_pow2_adds(23, k as nat);
                lemma_pow2_pos(k as nat);
                assert(pow2(k as nat) <= 0x100) by {
                    if k < 8 {
                        lemma_pow2_strictly_increases(k as nat, 8);
                    }
                }
                assert(1 * pow2(k as nat) == pow2(k as nat)) by (nonlinear_arith);
                lemma_u64_shl_is_mul(1, k);
            }
            let unit: u64 = 1u64 << k;
            let q: u64 = n as u64 / unit;
            let rem: u64 = n as u64 % unit;
            proof {
                lemma_fundamental_div_mod(n as int, unit as int);
                assert(0x80_0000 <= q < 0x100_0000) by (nonlinear_arith)
                    requires
                        n == unit * q + rem,
                        0 <= rem < unit,
                        0x80_0000 * unit <= n < 2 * (0x80_0000 * unit),
                ;
            }
            let up: u64 = if 2 * rem > unit || (2 * rem == unit && q % 2 == 1) {
                1
            } else {
                0
            };
            let r = Scalar::pack(127 + l, q + up);
            proof {
                let u = unit as int;
                if q + up < 0x100_0000 {
                    assert(r.power() == k);
                    assert((q + up) * 1 * u - n * 1 == up * u - rem) by (nonlinear_arith)
                        requires
                            n == u * q + rem,
                    ;
                    assert(1 * u == u) by (nonlinear_arith);
                    assert(up * u == if up == 1 { u } else { 0 }) by (nonlinear_arith)
                        requires
                            up == 0 || up == 1,
                    ;
                } else {
                    assert(r.power() == k + 1);
                    lemma_pow2_unfold((k + 1) as nat);
                    assert(0x80_0000 * 1 * (2 * u) - n * 1 == u - rem) by (nonlinear_arith)
                        requires
                            n == u * q + rem,
                            q + 1 == 0x100_0000,
                    ;
                    assert(1 * (2 * u) == 2 * u) by (nonlinear_arith);
                }
                assert(r.fits(n as int, 1));
                r.lemma_fits_rounds(n as int, 1);
            }
            r
        }
    }

    /// The share of full strength that a colour byte stands for: the number nearest to
    /// `c / 255`.
    pub fn from_channel(c: u8) -> (r: Scalar)
        ensures
            r.is_channel(c),
    {
        if c == 0 {
            return Scalar::zero();
        }
        let mut k: u32 = 0;
        let mut m: u64 = c as u64;
        proof {
            lemma2_to64();
        }
        while m < 255
            invariant
                m == c * pow2(k as nat),
                k <= 8,
                1 <= m < 510,
            decreases 510 - m,
        {
            proof {
                lemma2_to64();
                lemma_pow2_unfold((k + 1) as nat);
                lemma_pow2_pos(k as nat);
                let b = pow2(k as nat) as int;
                assert(c * (2 * b) == 2 * (c * b)) by (nonlinear_arith);
                assert(b <= c * b) by (nonlinear_arith)
                    requires
                        c >= 1,
                        b > 0,
                ;
                assert(k < 8);
            }
            m = m * 2;
            k = k + 1;
        }
        let big: u64 = m * 0x80_0000;
        let q: u64 = big / 255;
        let rem: u64 = big % 255;
        let up: u64 = if 2 * rem > 255 {
            1
        } else {
            0
        };
        proof {
            lemma_fundamental_div_mod(big as int, 255);
        }
        let r = Scalar::pack(127 - k, q + up);
        proof {
            lemma2_to64();
            lemma_pow2_adds(k as nat, 23);
            let b = pow2(k as nat) as int;
            let w = pow2((k + 23) as nat) as int;
            assert(r.power() == -((k + 23) as int));
            assert(c * w == big) by (nonlinear_arith)
                requires
                    w == b * 0x80_0000,
                    big == (c * b) * 0x80_0000,
            ;
            assert((q + up) * 255 * 1 == 255 * q + 255 * up) by (nonlinear_arith);
            assert(255 * 1 == 255) by (nonlinear_arith);
            assert(r.fits(c as int, 255));
            r.lemma_fits_rounds(c as int, 255);
        }
        r
    }

    /// The greatest integer that is not above the number, as a signed 32-bit integer:
    /// cut towards negative infinity, held to the integer's range, and 0 for what is no
    /// number.
    pub fn floor_to_i32(self) -> (n: i32)
        ensures
            n == clip(self.floored(), i32::MIN as int, i32::MAX as int),
    {
        if self.is_nan() {
            return 0;
        }
        let w: u64 = self.whole_capped();
        let between = self.has_fraction();
        proof {
            self.lemma_whole_not_negative();
            self.lemma_floored_by_parts();
        }
        if self.bits >= 0x8000_0000 {
            if w >= 0x8000_0000 {
                i32::MIN
            } else if between {
                -(w as i32) - 1
            } else {
                -(w as i32)
            }
        } else {
            if w >= 0x8000_0000 {
                i32::MAX
            } else {
                w as i32
            }
        }
    }

    /// The number as an unsigned 32-bit integer: cut towards zero, held to the
    /// integer's range, and 0 for what is no number.
    pub fn to_u32(self) -> (n: u32)
        ensures
            n == clip(self.truncated(), 0, u32::MAX as int),
    {
        proof {
            self.lemma_whole_not_negative();
        }
        if self.is_nan() || self.bits >= 0x8000_0000 {
            return 0;
        }
        let w: u64 = self.whole_capped();
        if w > 0xFFFF_FFFF {
            u32::MAX
        } else {
            w as u32
        }
    }

    /// The number as a byte: cut towards zero, held to the range from 0 to 255, and 0
    /// for what is no number.
    pub fn to_u8(self) -> (n: u8)
        ensures
            n == clip(self.truncated(), 0, 255),
    {
        proof {
            self.lemma_whole_not_negative();
        }
        if self.is_nan() || self.bits >= 0x8000_0000 {
            return 0;
        }
        let w: u64 = self.whole_capped();
        if w > 255 {
            255
        } else {
            w as u8
        }
    }
}

} // verus!
