use vstd::prelude::*;
use vstd::arithmetic::div_mod::lemma_div_by_multiple;
use vstd::arithmetic::power2::{lemma2_to64, lemma_pow2_adds, lemma_pow2_pos, lemma_pow2_unfold, pow2};
use crate::convert::near;
use crate::scalar::Scalar;
use crate::value::BINADE;

verus! {

/// Nearness does not depend on the scale: what is nearest on a scale `c` times as fine
/// is nearest on the coarser one.
proof fn lemma_near_scales_back(s: int, bottom: bool, have: int, want: int, step: int, c: int)
    requires
        c > 0,
        near(s, bottom, have * c, want * c, step * c),
    ensures
        near(s, bottom, have, want, step),
{
    let gap = have - want;
    assert(have * c - want * c == gap * c) by (nonlinear_arith)
        requires
            gap == have - want,
    ;
    assert(gap * c > 0 ==> gap > 0) by (nonlinear_arith)
        requires
            c > 0,
    ;
    assert(gap * c <= 0 ==> gap <= 0) by (nonlinear_arith)
        requires
            c > 0,
    ;
    assert(4 * (gap * c) <= step * c ==> 4 * gap <= step) by (nonlinear_arith)
        requires
            c > 0,
    ;
    assert(2 * (gap * c) <= step * c ==> 2 * gap <= step) by (nonlinear_arith)
        requires
            c > 0,
    ;
    assert(-2 * (gap * c) <= step * c ==> -2 * gap <= step) by (nonlinear_arith)
        requires
            c > 0,
    ;
    assert(2 * gap == step ==> 2 * (gap * c) == step * c) by (nonlinear_arith);
    assert(-2 * gap == step ==> -2 * (gap * c) == step * c) by (nonlinear_arith);
}

/// Two numbers of one exponent that are both nearest to one mark are one number.
proof fn lemma_one_of_an_exponent(sx: int, sy: int, bx: bool, by: bool, grain: int, mark: int)
    requires
        grain > 0,
        BINADE <= sx <= sy,
        near(sx, bx, sx * grain, mark, grain),
        near(sy, by, sy * grain, mark, grain),
    ensures
        sx == sy,
{
    if sx == sy {
        return ;
    }
    let vx = sx * grain;
    let vy = sy * grain;
    assert(vy - vx == (sy - sx) * grain) by (nonlinear_arith)
        requires
            vx == sx * grain,
            vy == sy * grain,
    ;
    assert((sy - sx) * grain >= grain) by (nonlinear_arith)
        requires
            sy - sx >= 1,
            grain > 0,
    ;
    if sy - sx >= 2 {
        assert((sy - sx) * grain >= 2 * grain) by (nonlinear_arith)
            requires
                sy - sx >= 2,
                grain > 0,
        ;
    } else {
        assert((sy - sx) * grain == grain) by (nonlinear_arith)
            requires
                sy - sx == 1,
        ;
    }
}

/// Where two numbers are both nearest to one mark, the step of one is less than twice
/// the step of the other: they are of one exponent. `fine` and `coarse` are their steps
/// on a common scale.
proof fn lemma_one_across_exponents(sx: int, sy: int, bx: bool, fine: int, coarse: int, mark: int)
    requires
        fine > 0,
        coarse > 0,
        BINADE <= sx < 2 * BINADE,
        BINADE <= sy < 2 * BINADE,
        near(sx, bx, sx * fine, mark, fine),
        near(sy, sy == BINADE, sy * coarse, mark, coarse),
    ensures
        coarse < 2 * fine,
{
    if coarse < 2 * fine {
        return ;
    }
    let vx = sx * fine;
    let vy = sy * coarse;
    assert(BINADE == 0x80_0000);
    assert(vx <= 0xFF_FFFF * fine) by (nonlinear_arith)
        requires
            vx == sx * fine,
            sx <= 0xFF_FFFF,
            fine > 0,
    ;
    assert(vy >= 0x80_0000 * coarse) by (nonlinear_arith)
        requires
            vy == sy * coarse,
            sy >= 0x80_0000,
            coarse > 0,
    ;
    assert(2 * mark <= 2 * vx + fine);
    assert(vy > mark);
    if sy == BINADE {
        assert(vy == 0x80_0000 * coarse);
        assert(4 * (vy - mark) <= coarse);
        assert(coarse == 2 * fine);
        assert(vx == 0xFF_FFFF * fine);
        assert(sx == 0xFF_FFFF) by (nonlinear_arith)
            requires
                sx * fine == 0xFF_FFFF * fine,
                fine > 0,
        ;
        assert(2 * (mark - vx) == fine);
    } else {
        assert(vy >= 0x80_0001 * coarse) by (nonlinear_arith)
            requires
                vy == sy * coarse,
                sy >= 0x80_0001,
                coarse > 0,
        ;
    }
}

/// How far `have` lies from `want`.
pub open spec fn apart(have: int, want: int) -> int {
    if have < want {
        want - have
    } else {
        have - want
    }
}

/// A number that is nearest to a mark lies no farther from it than another number of
/// its exponent, and as far only where its own significand is even.
proof fn lemma_nearest_of_an_exponent(s: int, sw: int, bottom: bool, step: int, mark: int)
    requires
        step > 0,
        s != sw,
        near(s, bottom, s * step, mark, step),
    ensures
        apart(s * step, mark) <= apart(sw * step, mark),
        apart(s * step, mark) == apart(sw * step, mark) ==> s % 2 == 0,
{
    assert(sw * step - s * step == (sw - s) * step) by (nonlinear_arith);
    if sw > s {
        assert((sw - s) * step >= step) by (nonlinear_arith)
            requires
                sw - s >= 1,
                step > 0,
        ;
    } else {
        assert((sw - s) * step <= -step) by (nonlinear_arith)
            requires
                sw - s <= -1,
                step > 0,
        ;
    }
}

/// A number that is nearest to a mark lies nearer to it than every number of a higher
/// exponent. `have` is the number and `other` the other one, on one scale.
proof fn lemma_nearest_below_the_higher(s: int, bottom: bool, have: int, other: int, step: int, mark: int)
    requires
        step > 0,
        have <= 0xFF_FFFF * step,
        other >= 0x100_0000 * step,
        near(s, bottom, have, mark, step),
    ensures
        apart(have, mark) <= apart(other, mark),
        apart(have, mark) == apart(other, mark) ==> s % 2 == 0,
{
}

/// A number that is nearest to a mark lies no farther from it than a number of a lower
/// exponent, and as far only where it is the least of its exponent. `have` is the
/// number and `other` the other one, on one scale; `bottom` says that numbers below the
/// least of the exponent lie twice as close.
proof fn lemma_nearest_above_the_lower(s: int, bottom: bool, have: int, other: int, step: int, mark: int)
    requires
        step > 0,
        s >= 0x80_0000,
        have == s * step,
        0 <= other,
        bottom ==> 2 * other <= 0xFF_FFFF * step,
        !bottom ==> other <= 0x7F_FFFF * step,
        near(s, s == 0x80_0000 && bottom, have, mark, step),
    ensures
        apart(have, mark) <= apart(other, mark),
        apart(have, mark) == apart(other, mark) ==> s % 2 == 0,
{
    assert(have >= 0x80_0000 * step) by (nonlinear_arith)
        requires
            have == s * step,
            s >= 0x80_0000,
            step > 0,
    ;
    if s > 0x80_0000 {
        assert(have >= 0x80_0001 * step) by (nonlinear_arith)
            requires
                have == s * step,
                s >= 0x80_0001,
                step > 0,
        ;
    }
}

impl Scalar {
    /// What holds on the scale on which the least positive number is 1 holds on the
    /// scale of a number's own exponent.
    proof fn lemma_rounds_fits(self, n: int, d: int)
        requires
            self.rounds(n, d),
        ensures
            self.fits(n, d),
    {
        let s = self.significand();
        let p = self.power();
        let bottom = s == BINADE && self.exponent() > 1;
        let g = self.grain();
        lemma_pow2_pos((p + 149) as nat);
        if p >= 0 {
            let up = pow2(p as nat) as int;
            let c = pow2(149) as int;
            lemma_pow2_pos(149);
            lemma_pow2_adds(p as nat, 149);
            assert((s * d * up) * c == (s * g) * d) by (nonlinear_arith)
                requires
                    g == up * c,
            ;
            assert((n * 1) * c == n * c) by (nonlinear_arith);
            assert((d * up) * c == g * d) by (nonlinear_arith)
                requires
                    g == up * c,
            ;
            lemma_near_scales_back(s, bottom, s * d * up, n * 1, d * up, c);
        } else {
            let down = pow2((-p) as nat) as int;
            lemma_pow2_adds((-p) as nat, (p + 149) as nat);
            assert((s * d * 1) * g == (s * g) * d) by (nonlinear_arith);
            assert((n * down) * g == n * pow2(149)) by (nonlinear_arith)
                requires
                    pow2(149) == down * g,
            ;
            assert((d * 1) * g == g * d) by (nonlinear_arith);
            lemma_near_scales_back(s, bottom, s * d * 1, n * down, d * 1, g);
        }
    }

    /// The terms of `rounds`, with the grain and the divisor taken together.
    proof fn lemma_rounds_by_steps(self, n: int, d: int)
        requires
            n > 0,
            d > 0,
            self.rounds(n, d),
        ensures
            self.grain() > 0,
            d * self.grain() > 0,
            near(
                self.significand(),
                self.significand() == BINADE && self.exponent() > 1,
                self.significand() * (d * self.grain()),
                n * pow2(149),
                d * self.grain(),
            ),
    {
        let s = self.significand();
        let g = self.grain();
        lemma_pow2_pos((self.power() + 149) as nat);
        assert((s * g) * d == s * (d * g)) by (nonlinear_arith);
        assert(g * d == d * g) by (nonlinear_arith);
        assert(d * g > 0) by (nonlinear_arith)
            requires
                d > 0,
                g > 0,
        ;
    }

    /// How far the number lies from `n / d`, on the scale on which the least positive
    /// number is 1, multiplied by `d`.
    pub open spec fn off(self, n: int, d: int) -> int {
        apart(self.scaled() * d, n * pow2(149))
    }

    /// What rounds a ratio is nearest to it: no number that is not negative lies nearer
    /// to the ratio, and where another lies as near, the significand of what rounds it
    /// is even.
    pub proof fn lemma_rounds_is_nearest(self, other: Scalar, n: int, d: int)
        requires
            n > 0,
            d > 0,
            self.rounds(n, d),
            !other.nan(),
            !other.negative(),
        ensures
            self.off(n, d) <= other.off(n, d),
            self.off(n, d) == other.off(n, d) && other != self ==> self.significand() % 2 == 0,
    {
        self.lemma_rounds_by_steps(n, d);
        lemma2_to64();
        let s = self.significand();
        let sw = other.significand();
        let g = self.grain();
        let gw = other.grain();
        let step = d * g;
        let mark = n * pow2(149);
        lemma_pow2_pos((other.power() + 149) as nat);
        assert(BINADE == 0x80_0000);
        assert((s * g) * d == s * step) by (nonlinear_arith)
            requires
                step == d * g,
        ;
        if other.exponent() == self.exponent() {
            assert((sw * gw) * d == sw * step) by (nonlinear_arith)
                requires
                    step == d * g,
                    gw == g,
            ;
            if s != sw {
                lemma_nearest_of_an_exponent(s, sw, s == BINADE && self.exponent() > 1, step, mark);
            } else {
                assert(other.magnitude() == self.magnitude());
            }
        } else if other.exponent() > self.exponent() {
            let k = (other.power() - self.power()) as nat;
            lemma_pow2_adds((self.power() + 149) as nat, k);
            lemma_pow2_unfold(k);
            lemma_pow2_pos((k - 1) as nat);
            assert((sw * gw) * d >= 0x100_0000 * step) by (nonlinear_arith)
                requires
                    step == d * g,
                    gw == g * pow2(k),
                    pow2(k) >= 2,
                    sw >= 0x80_0000,
                    d > 0,
                    g > 0,
            ;
            assert(s * step <= 0xFF_FFFF * step) by (nonlinear_arith)
                requires
                    s <= 0xFF_FFFF,
                    step > 0,
            ;
            lemma_nearest_below_the_higher(
                s,
                s == BINADE && self.exponent() > 1,
                s * step,
                (sw * gw) * d,
                step,
                mark,
            );
        } else {
            let bottom = self.exponent() > 1;
            let have_w = (sw * gw) * d;
            assert(have_w >= 0) by (nonlinear_arith)
                requires
                    have_w == (sw * gw) * d,
                    sw >= 0,
                    gw > 0,
                    d > 0,
            ;
            if other.exponent() == 0 {
                assert(gw == 1);
                assert(have_w <= 0x7F_FFFF * d) by (nonlinear_arith)
                    requires
                        have_w == (sw * gw) * d,
                        gw == 1,
                        sw <= 0x7F_FFFF,
                        d > 0,
                ;
                if bottom {
                    lemma_pow2_unfold((self.power() + 149) as nat);
                    lemma_pow2_pos((self.power() + 148) as nat);
                    assert(step >= 2 * d) by (nonlinear_arith)
                        requires
                            step == d * g,
                            g >= 2,
                            d > 0,
                    ;
                } else {
                    assert(g == 1);
                    assert(step == d) by (nonlinear_arith)
                        requires
                            step == d * g,
                            g == 1,
                    ;
                }
            } else {
                let k = (self.power() - other.power()) as nat;
                lemma_pow2_adds((other.power() + 149) as nat, k);
                lemma_pow2_unfold(k);
                lemma_pow2_pos((k - 1) as nat);
                let step_w = d * gw;
                assert(have_w == sw * step_w) by (nonlinear_arith)
                    requires
                        have_w == (sw * gw) * d,
                        step_w == d * gw,
                ;
                assert(step_w > 0) by (nonlinear_arith)
                    requires
                        step_w == d * gw,
                        d > 0,
                        gw > 0,
                ;
                assert(step == step_w * pow2(k)) by (nonlinear_arith)
                    requires
                        step == d * g,
                        step_w == d * gw,
                        g == gw * pow2(k),
                ;
                assert(have_w <= 0xFF_FFFF * step_w) by (nonlinear_arith)
                    requires
                        have_w == sw * step_w,
                        sw <= 0xFF_FFFF,
                        step_w > 0,
                ;
                if k == 1 {
                    assert(step == 2 * step_w) by (nonlinear_arith)
                        requires
                            step == step_w * pow2(k),
                            pow2(k) == 2,
                    ;
                } else {
                    lemma_pow2_unfold((k - 1) as nat);
                    lemma_pow2_pos((k - 2) as nat);
                    assert(step >= 4 * step_w) by (nonlinear_arith)
                        requires
                            step == step_w * pow2(k),
                            pow2(k) >= 4,
                            step_w > 0,
                    ;
                }
            }
            lemma_nearest_above_the_lower(s, bottom, s * step, have_w, step, mark);
        }
    }

    /// Of two numbers that round one ratio, the second has no higher exponent than the
    /// first.
    proof fn lemma_rounds_is_of_one_exponent(self, other: Scalar, n: int, d: int)
        requires
            n > 0,
            d > 0,
            self.rounds(n, d),
            other.rounds(n, d),
        ensures
            other.exponent() <= self.exponent(),
    {
        if other.exponent() <= self.exponent() {
            return ;
        }
        self.lemma_rounds_by_steps(n, d);
        other.lemma_rounds_by_steps(n, d);
        let k = (other.power() - self.power()) as nat;
        lemma_pow2_adds((self.power() + 149) as nat, k);
        lemma_pow2_unfold(k);
        lemma_pow2_pos((k - 1) as nat);
        let fine = d * self.grain();
        let coarse = d * other.grain();
        assert(fine > 0) by (nonlinear_arith)
            requires
                fine == d * self.grain(),
                d > 0,
                self.grain() > 0,
        ;
        assert(coarse >= 2 * fine && coarse > 0) by (nonlinear_arith)
            requires
                fine == d * self.grain(),
                coarse == d * other.grain(),
                other.grain() == self.grain() * pow2(k),
                pow2(k) >= 2,
                d > 0,
                self.grain() > 0,
        ;
        lemma_one_across_exponents(
            self.significand(),
            other.significand(),
            self.significand() == BINADE && self.exponent() > 1,
            fine,
            coarse,
            n * pow2(149),
        );
    }

    /// Rounding pins one encoding: no two encodings stand for the number nearest to one
    /// ratio.
    pub proof fn lemma_rounds_is_unique(self, other: Scalar, n: int, d: int)
        requires
            n > 0,
            d > 0,
            self.rounds(n, d),
            other.rounds(n, d),
        ensures
            self == other,
    {
        self.lemma_rounds_is_of_one_exponent(other, n, d);
        other.lemma_rounds_is_of_one_exponent(self, n, d);
        {
            self.lemma_rounds_by_steps(n, d);
            other.lemma_rounds_by_steps(n, d);
            let grain = d * self.grain();
            assert(grain > 0) by (nonlinear_arith)
                requires
                    grain == d * self.grain(),
                    d > 0,
                    self.grain() > 0,
            ;
            let mark = n * pow2(149);
            let sx = self.significand();
            let sy = other.significand();
            if sx < sy {
                lemma_one_of_an_exponent(
                    sx,
                    sy,
                    sx == BINADE && self.exponent() > 1,
                    sy == BINADE && other.exponent() > 1,
                    grain,
                    mark,
                );
            } else if sy < sx {
                lemma_one_of_an_exponent(
                    sy,
                    sx,
                    sy == BINADE && other.exponent() > 1,
                    sx == BINADE && self.exponent() > 1,
                    grain,
                    mark,
                );
            }
            assert(self.magnitude() == other.magnitude());
        }
    }

    /// A colour byte has one share of full strength.
    pub proof fn lemma_channel_is_unique(self, other: Scalar, c: u8)
        requires
            self.is_channel(c),
            other.is_channel(c),
        ensures
            self == other,
    {
        if c > 0 {
            self.lemma_rounds_is_unique(other, c as int, 255);
        }
    }

    /// An integer has one nearest number.
    pub proof fn lemma_count_is_unique(self, other: Scalar, n: u32)
        requires
            self.is_count(n),
            other.is_count(n),
        ensures
            self == other,
    {
        if n > 0 {
            self.lemma_rounds_is_unique(other, n as int, 1);
        }
    }

    /// An integer up to two to the power 24 comes back whole from the number that stands
    /// for it: a picture reports the size that its camera was given.
    pub proof fn lemma_count_comes_back(self, n: u32)
        requires
            self.is_count(n),
            n <= 2 * BINADE,
        ensures
            self.truncated() == n,
    {
        lemma2_to64();
        if n == 0 {
            lemma_pow2_pos(149);
            assert(0int / (pow2(149) as int) == 0) by (nonlinear_arith)
                requires
                    pow2(149) > 0,
            ;
        } else {
            self.lemma_rounds_fits(n as int, 1);
            let s = self.significand();
            let p = self.power();
            if p > 0 {
                let up = pow2(p as nat) as int;
                lemma_pow2_unfold(p as nat);
                lemma_pow2_pos((p - 1) as nat);
                assert(s * 1 * up == s * up) by (nonlinear_arith);
                assert(1 * up == up) by (nonlinear_arith);
                assert(n * 1 == n) by (nonlinear_arith);
                assert(s * up >= BINADE * up) by (nonlinear_arith)
                    requires
                        s >= BINADE,
                        up > 0,
                ;
                if s > BINADE {
                    assert(s * up >= (BINADE + 1) * up) by (nonlinear_arith)
                        requires
                            s >= BINADE + 1,
                            up > 0,
                    ;
                }
            } else if p == 0 {
                assert(s * 1 * 1 == s) by (nonlinear_arith);
                assert(n * 1 == n) by (nonlinear_arith);
                assert(s * 1 == s) by (nonlinear_arith);
            } else {
                let down = pow2((-p) as nat) as int;
                lemma_pow2_pos((-p) as nat);
                assert(s * 1 * 1 == s) by (nonlinear_arith);
                assert(s == n * down);
                lemma_div_by_multiple(n as int, down);
            }
        }
    }
}

} // verus!
