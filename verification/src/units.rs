//! Fixed-point arithmetic shared by the envelope, the voices and the mixers.

use vstd::prelude::*;

verus! {

/// One whole in millionths: full-scale amplitude, unity gain, one frame,
/// the end of an asset.
pub const UNIT: u32 = 1_000_000;

/// The value at progress `num / den` on the straight line from `from` to `to`,
/// rounded toward `from`. Progress at or beyond one whole (which includes a
/// zero `den`) yields `to`.
pub open spec fn ramp(from: int, to: int, num: nat, den: nat) -> int {
    if num >= den {
        to
    } else if to >= from {
        from + ((to - from) * num) / (den as int)
    } else {
        from - ((from - to) * num) / (den as int)
    }
}

/// `sample` scaled by `gain` millionths, rounded toward zero. A gain of one
/// whole or more leaves the sample as it is.
pub open spec fn attenuate(sample: int, gain: nat) -> int {
    if gain >= UNIT {
        sample
    } else if sample >= 0 {
        (sample * gain) / (UNIT as int)
    } else {
        -(((-sample) * gain) / (UNIT as int))
    }
}

/// `x` limited to full scale on either side.
pub open spec fn clip(x: int) -> int {
    if x > UNIT {
        UNIT as int
    } else if x < -(UNIT as int) {
        -(UNIT as int)
    } else {
        x
    }
}

/// A part of a span is no longer than the span: `floor(d * n / m) <= d` for `n <= m`.
pub proof fn lemma_part_bounded(d: int, n: int, m: int)
    requires
        0 <= d,
        0 <= n <= m,
        0 < m,
    ensures
        0 <= (d * n) / m <= d,
        n == m ==> (d * n) / m == d,
        n == 0 ==> (d * n) / m == 0,
        d * n >= 0,
{
    assert(d * n >= 0) by (nonlinear_arith)
        requires
            0 <= d,
            0 <= n,
    ;
    assert(d * n <= d * m) by (nonlinear_arith)
        requires
            0 <= d,
            0 <= n <= m,
    ;
    vstd::arithmetic::div_mod::lemma_div_is_ordered(d * n, d * m, m);
    vstd::arithmetic::div_mod::lemma_div_multiples_vanish(d, m);
    vstd::arithmetic::mul::lemma_mul_is_commutative(d, m);
    vstd::arithmetic::div_mod::lemma_div_pos_is_pos(d * n, m);
    if n == 0 {
        assert(d * n == 0) by (nonlinear_arith)
            requires
                n == 0,
        ;
    }
}

/// A ramp never leaves the closed interval between its two ends.
pub proof fn lemma_ramp_between(from: int, to: int, num: nat, den: nat)
    ensures
        from <= to ==> from <= ramp(from, to, num, den) <= to,
        to <= from ==> to <= ramp(from, to, num, den) <= from,
        num == 0 && den > 0 ==> ramp(from, to, num, den) == from,
        num >= den ==> ramp(from, to, num, den) == to,
        from == to ==> ramp(from, to, num, den) == from,
{
    if num < den {
        if to >= from {
            lemma_part_bounded(to - from, num as int, den as int);
        } else {
            lemma_part_bounded(from - to, num as int, den as int);
        }
    }
}

/// Attenuation never raises the magnitude of a sample and keeps its sign.
pub proof fn lemma_attenuate_bounded(sample: int, gain: nat)
    ensures
        sample >= 0 ==> 0 <= attenuate(sample, gain) <= sample,
        sample <= 0 ==> sample <= attenuate(sample, gain) <= 0,
        gain == 0 ==> attenuate(sample, gain) == 0,
{
    if gain < UNIT {
        if sample >= 0 {
            lemma_part_bounded(sample, gain as int, UNIT as int);
        } else {
            lemma_part_bounded(-sample, gain as int, UNIT as int);
        }
    }
}

/// The point at progress `num / den` between two gain levels.
pub fn ramp_level(from: u32, to: u32, num: u128, den: u64) -> (r: u32)
    ensures
        r == ramp(from as int, to as int, num as nat, den as nat),
{
    if num >= den as u128 {
        return to;
    }
    proof {
        lemma_ramp_between(from as int, to as int, num as nat, den as nat);
    }
    if to >= from {
        let span: u128 = (to - from) as u128;
        assert(span * num <= 0xffff_ffff * 0xffff_ffff_ffff_ffff) by (nonlinear_arith)
            requires
                0 <= span <= 0xffff_ffff,
                0 <= num <= 0xffff_ffff_ffff_ffff,
        ;
        let part: u128 = span * num / (den as u128);
        from + (part as u32)
    } else {
        let span: u128 = (from - to) as u128;
        assert(span * num <= 0xffff_ffff * 0xffff_ffff_ffff_ffff) by (nonlinear_arith)
            requires
                0 <= span <= 0xffff_ffff,
                0 <= num <= 0xffff_ffff_ffff_ffff,
        ;
        let part: u128 = span * num / (den as u128);
        from - (part as u32)
    }
}

/// The point at progress `num / den` between two samples.
pub fn ramp_sample(from: i32, to: i32, num: u128, den: u64) -> (r: i32)
    ensures
        r == ramp(from as int, to as int, num as nat, den as nat),
{
    if num >= den as u128 {
        return to;
    }
    proof {
        lemma_ramp_between(from as int, to as int, num as nat, den as nat);
    }
    if to >= from {
        let span: u128 = (to as i64 - from as i64) as u128;
        assert(span * num <= 0xffff_ffff * 0xffff_ffff_ffff_ffff) by (nonlinear_arith)
            requires
                0 <= span <= 0xffff_ffff,
                0 <= num <= 0xffff_ffff_ffff_ffff,
        ;
        let part: u128 = span * num / (den as u128);
        (from as i64 + part as i64) as i32
    } else {
        let span: u128 = (from as i64 - to as i64) as u128;
        assert(span * num <= 0xffff_ffff * 0xffff_ffff_ffff_ffff) by (nonlinear_arith)
            requires
                0 <= span <= 0xffff_ffff,
                0 <= num <= 0xffff_ffff_ffff_ffff,
        ;
        let part: u128 = span * num / (den as u128);
        (from as i64 - part as i64) as i32
    }
}

/// A sample scaled by a gain in millionths.
pub fn apply_gain(sample: i32, gain: u32) -> (r: i32)
    ensures
        r == attenuate(sample as int, gain as nat),
{
    if gain >= UNIT {
        return sample;
    }
    proof {
        lemma_attenuate_bounded(sample as int, gain as nat);
    }
    if sample >= 0 {
        let product: u64 = (sample as u64) * (gain as u64);
        (product / (UNIT as u64)) as i32
    } else {
        let magnitude: u64 = (-(sample as i64)) as u64;
        let product: u64 = magnitude * (gain as u64);
        (-((product / (UNIT as u64)) as i64)) as i32
    }
}

/// Adds a sample to a running sum and hard-clips the result to full scale.
pub fn mix_add(acc: i32, sample: i32) -> (r: i32)
    ensures
        r == clip(acc + sample),
        -(UNIT as int) <= r <= UNIT,
{
    let sum: i64 = acc as i64 + sample as i64;
    if sum > UNIT as i64 {
        UNIT as i32
    } else if sum < -(UNIT as i64) {
        -(UNIT as i32)
    } else {
        sum as i32
    }
}

/// Sample `c` of frame `j` sits at `j * width + c` in an interleaved buffer,
/// and nowhere else.
pub proof fn lemma_flat_index(j: int, c: int, width: int)
    requires
        0 <= j,
        0 <= c < width,
    ensures
        (j * width + c) / width == j,
        (j * width + c) % width == c,
        0 <= j * width,
{
    vstd::arithmetic::div_mod::lemma_fundamental_div_mod_converse(j * width + c, width, j, c);
    assert(0 <= j * width) by (nonlinear_arith)
        requires
            0 <= j,
            0 <= width,
    ;
}

} // verus!
