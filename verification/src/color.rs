//! The colour of a star from its B-V colour index: a piecewise polynomial
//! approximation of black-body colour.
//!
//! The transform is written once, for a colour index given as a fraction of
//! thousandths of a magnitude (`red_scaled`, `green_scaled`,
//! `blue_scaled`). A colour is computed at the index rounded down to a whole
//! billionth, and each channel rounded down to a whole part of `FULL`;
//! `follows_formula` says how near that lies to the transform at the index
//! itself.

use crate::decimal::{clamp, lemma_pow10_adds, lemma_pow10_positive, pow10, Decimal};
use vstd::arithmetic::div_mod::{
    lemma_fundamental_div_mod, lemma_fundamental_div_mod_converse, lemma_mod_bound,
};
use vstd::prelude::*;

verus! {

/// The value of a channel at full intensity. A channel holds a number
/// between 0 and 1 as a count of parts of `FULL`; every coefficient of the
/// transform is a whole number of such parts. The transform is written with
/// these parts: a hundredth of `FULL` is 5 808 000; a hundredth over the
/// widths 400, 1200 and 1100 of its pieces is 14 520, 4 840 and 5 280; a tenth
/// over the squares of the widths 400, 1100 and 440 is 363, 48 and 300.
pub const FULL: u32 = 580_800_000;

/// The digits after the point at which a colour index is taken: it is
/// rounded down to a whole billionth of a magnitude.
pub const INDEX_PLACES: u8 = 9;

/// The lowest colour index the transform knows, in billionths: -0.4.
pub const LOWEST_INDEX: i64 = -400_000_000;

/// The highest colour index the transform knows, in billionths: 2.0.
pub const HIGHEST_INDEX: i64 = 2_000_000_000;

/// A colour: red, green and blue, each in parts of `FULL`.
#[derive(Clone, Copy, Debug, PartialEq, Eq, Structural)]
pub struct Rgb {
    pub r: u32,
    pub g: u32,
    pub b: u32,
}

/// A colour index of `n / d` thousandths, held within the range of the
/// transform, as a count of `d`-th parts of a thousandth.
pub open spec fn clamp_scaled(n: int, d: int) -> int {
    if n < -(400 * d) {
        -(400 * d)
    } else if n > 2000 * d {
        2000 * d
    } else {
        n
    }
}

/// Red at a colour index of `n / d` thousandths, `-400 <= n / d <= 2000`,
/// in parts of `FULL` and times `d * d`.
///
/// With `bv = n / (1000 d)`: on `[-0.4, 0)`, `t = (bv + 0.4) / 0.4` and
/// `r = 0.61 + 0.11 t + 0.1 t^2`; on `[0, 0.4)`, `t = bv / 0.4` and
/// `r = 0.83 + 0.17 t`; from 0.4 on, `r = 1`.
pub open spec fn red_scaled(n: int, d: int) -> int {
    if n < 0 {
        61 * (5_808_000 * (d * d)) + 11 * (14_520 * ((n + 400 * d) * d)) + 363 * ((n + 400 * d) * (n
            + 400 * d))
    } else if n < 400 * d {
        83 * (5_808_000 * (d * d)) + 17 * (14_520 * (n * d))
    } else {
        580_800_000 * (d * d)
    }
}

/// Green at a colour index of `n / d` thousandths, `-400 <= n / d <= 2000`,
/// in parts of `FULL` and times `d * d`.
///
/// On `[-0.4, 0)`, `t = (bv + 0.4) / 0.4` and `g = 0.70 + 0.07 t + 0.1 t^2`;
/// on `[0, 0.4)`, `t = bv / 0.4` and `g = 0.87 + 0.11 t`; on `[0.4, 1.6)`,
/// `t = (bv - 0.4) / 1.2` and `g = 0.98 - 0.16 t`; on `[1.6, 2.0)`,
/// `t = (bv - 1.6) / 0.4` and `g = 0.82 - 0.5 t^2`; at 2.0, `g = 1`.
pub open spec fn green_scaled(n: int, d: int) -> int {
    if n < 0 {
        70 * (5_808_000 * (d * d)) + 7 * (14_520 * ((n + 400 * d) * d)) + 363 * ((n + 400 * d) * (n
            + 400 * d))
    } else if n < 400 * d {
        87 * (5_808_000 * (d * d)) + 11 * (14_520 * (n * d))
    } else if n < 1600 * d {
        98 * (5_808_000 * (d * d)) - 16 * (4_840 * ((n - 400 * d) * d))
    } else if n < 2000 * d {
        82 * (5_808_000 * (d * d)) - 5 * (363 * ((n - 1600 * d) * (n - 1600 * d)))
    } else {
        580_800_000 * (d * d)
    }
}

/// Blue at a colour index of `n / d` thousandths, `-400 <= n / d <= 2000`,
/// in parts of `FULL` and times `d * d`.
///
/// On `[-0.4, 0.4)`, `b = 1`; on `[0.4, 1.5)`, `t = (bv - 0.4) / 1.1` and
/// `b = 1 - 0.47 t + 0.1 t^2`; on `[1.5, 1.94)`, `t = (bv - 1.5) / 0.44` and
/// `b = 0.63 - 0.6 t^2`; from 1.94 on, `b = 1`.
pub open spec fn blue_scaled(n: int, d: int) -> int {
    if n < 400 * d {
        580_800_000 * (d * d)
    } else if n < 1500 * d {
        580_800_000 * (d * d) - 47 * (5_280 * ((n - 400 * d) * d)) + 48 * ((n - 400 * d) * (n - 400
            * d))
    } else if n < 1940 * d {
        63 * (5_808_000 * (d * d)) - 6 * (300 * ((n - 1500 * d) * (n - 1500 * d)))
    } else {
        580_800_000 * (d * d)
    }
}

/// A channel at a whole billionth of a magnitude, rounded down to a whole
/// part of `FULL`: `scaled` is the channel times the square of the million
/// billionths in a thousandth.
pub open spec fn whole_parts(scaled: int) -> int {
    scaled / 1_000_000_000_000
}

/// The colour at a colour index of `step` billionths: the index is first
/// held within `[-0.4, 2.0]`, and each channel is rounded down to a whole
/// part of `FULL`.
pub open spec fn rgb_at(step: int) -> Rgb {
    let n = clamp(step, -400_000_000, 2_000_000_000);
    Rgb {
        r: whole_parts(red_scaled(n, 1_000_000)) as u32,
        g: whole_parts(green_scaled(n, 1_000_000)) as u32,
        b: whole_parts(blue_scaled(n, 1_000_000)) as u32,
    }
}

/// Whether `parts` lies within three of `scaled / (d * d)`.
pub open spec fn near(parts: int, scaled: int, d: int) -> bool {
    -(3 * (d * d)) <= parts * (d * d) - scaled <= 3 * (d * d)
}

/// Whether each channel of `c` lies within three parts of `FULL`, which is
/// less than a hundred-millionth of full intensity, of the transform at the
/// colour index `index` itself, held within `[-0.4, 2.0]`.
pub open spec fn follows_formula(c: Rgb, index: Decimal) -> bool {
    let d = pow10(index.scale as nat);
    let n = clamp_scaled(1000 * index.mantissa, d);
    &&& near(c.r as int, red_scaled(n, d), d)
    &&& near(c.g as int, green_scaled(n, d), d)
    &&& near(c.b as int, blue_scaled(n, d), d)
}

/// `x * x` for an `x` of at most `limit`, with the bounds the channels need.
fn square(x: u128, limit: u128) -> (r: u128)
    requires
        x <= limit <= 2_000_000_000,
    ensures
        r == x * x,
        r <= limit * x,
        r <= limit * limit,
{
    assert(x * x <= limit * x && x * x <= limit * limit && limit * limit <= 2_000_000_000
        * 2_000_000_000) by (nonlinear_arith)
        requires
            x <= limit <= 2_000_000_000,
    ;
    x * x
}

/// A channel as a whole number of parts of `FULL`.
fn parts_of(scaled: u128) -> (r: u32)
    requires
        scaled <= 580_800_000 * 1_000_000_000_000,
    ensures
        r == whole_parts(scaled as int),
        r <= FULL,
{
    proof {
        lemma_fundamental_div_mod(scaled as int, 1_000_000_000_000);
        lemma_mod_bound(scaled as int, 1_000_000_000_000);
    }
    (scaled / 1_000_000_000_000) as u32
}

/// Full intensity on the grid is full intensity.
proof fn lemma_full_parts()
    ensures
        whole_parts(580_800_000 * (1_000_000int * 1_000_000)) == 580_800_000,
{
    lemma_fundamental_div_mod_converse(
        580_800_000 * (1_000_000int * 1_000_000),
        1_000_000_000_000,
        580_800_000,
        0,
    );
}

/// The colour at a colour index of `step` billionths. Each channel is
/// summed in parts of `FULL` times the square of a million, with `u` the
/// billionths above the start of its piece, and then divided.
fn color_at_step(step: i64) -> (c: Rgb)
    requires
        -400_000_000 <= step <= 2_000_000_000,
    ensures
        c == rgb_at(step as int),
        c.r == whole_parts(red_scaled(step as int, 1_000_000)),
        c.g == whole_parts(green_scaled(step as int, 1_000_000)),
        c.b == whole_parts(blue_scaled(step as int, 1_000_000)),
        c.r <= FULL,
        c.g <= FULL,
        c.b <= FULL,
{
    proof {
        lemma_full_parts();
    }
    let full: u32 = 580_800_000;
    let r: u32 = if step < 0 {
        let u: u128 = (step + 400_000_000) as u128;
        let uu = square(u, 400_000_000);
        parts_of(354_288_000_000_000_000_000 + 159_720_000_000 * u + 363 * uu)
    } else if step < 400_000_000 {
        parts_of(482_064_000_000_000_000_000 + 246_840_000_000 * (step as u128))
    } else {
        full
    };
    let g: u32 = if step < 0 {
        let u: u128 = (step + 400_000_000) as u128;
        let uu = square(u, 400_000_000);
        parts_of(406_560_000_000_000_000_000 + 101_640_000_000 * u + 363 * uu)
    } else if step < 400_000_000 {
        parts_of(505_296_000_000_000_000_000 + 159_720_000_000 * (step as u128))
    } else if step < 1_600_000_000 {
        let u: u128 = (step - 400_000_000) as u128;
        parts_of(569_184_000_000_000_000_000 - 77_440_000_000 * u)
    } else if step < 2_000_000_000 {
        let u: u128 = (step - 1_600_000_000) as u128;
        let uu = square(u, 400_000_000);
        parts_of(476_256_000_000_000_000_000 - 1_815 * uu)
    } else {
        full
    };
    let b: u32 = if step < 400_000_000 {
        full
    } else if step < 1_500_000_000 {
        let u: u128 = (step - 400_000_000) as u128;
        let uu = square(u, 1_100_000_000);
        parts_of(580_800_000_000_000_000_000 + 48 * uu - 248_160_000_000 * u)
    } else if step < 1_940_000_000 {
        let u: u128 = (step - 1_500_000_000) as u128;
        let uu = square(u, 440_000_000);
        parts_of(365_904_000_000_000_000_000 - 1_800 * uu)
    } else {
        full
    };
    Rgb { r, g, b }
}

/// The colour at a colour index. Every index has a colour: one below -0.4
/// has that of -0.4, one above 2.0 that of 2.0. The index is taken in whole
/// billionths, rounded down.
pub fn color_index_to_rgb(index: &Decimal) -> (c: Rgb)
    ensures
        c == rgb_at(index.floor_at(9)),
        follows_formula(c, *index),
        c.r <= FULL,
        c.g <= FULL,
        c.b <= FULL,
{
    proof {
        lemma_channels_near(*index);
    }
    color_at_step(index.clamped_floor(INDEX_PLACES, LOWEST_INDEX, HIGHEST_INDEX))
}

/// White, the colour of a star whose colour index is not known.
pub fn white() -> (c: Rgb)
    ensures
        c == (Rgb { r: FULL, g: FULL, b: FULL }),
{
    Rgb { r: FULL, g: FULL, b: FULL }
}

/// A polynomial `a + bq w + c w^2` of a `w` between 0 and `wmax`, taken at
/// `w` rounded down to a whole millionth and itself rounded down, lies
/// within three of its value at `w`. Here `w = wn / b`, its whole millionths
/// are `u`, and the slope of the polynomial stays within 1 600 000.
proof fn lemma_piece(a: int, bq: int, c: int, wmax: int, b: int, wn: int, u: int)
    requires
        b >= 1,
        0 <= u,
        u * b <= 1_000_000 * wn,
        1_000_000 * wn < u * b + b,
        wn <= wmax * b,
        0 <= wmax,
        -1_600_000 <= bq <= 1_600_000,
        -1_600_000 <= bq + 2 * (c * wmax) <= 1_600_000,
    ensures
        near(
            whole_parts(a * 1_000_000_000_000 + bq * (1_000_000 * u) + c * (u * u)),
            a * (b * b) + bq * (wn * b) + c * (wn * wn),
            b,
        ),
{
    let g = a * 1_000_000_000_000 + bq * (1_000_000 * u) + c * (u * u);
    let e = a * (b * b) + bq * (wn * b) + c * (wn * wn);
    let r = g / 1_000_000_000_000;
    let rho = g % 1_000_000_000_000;
    lemma_fundamental_div_mod(g, 1_000_000_000_000);
    lemma_mod_bound(g, 1_000_000_000_000);
    let bb = b * b;
    let ub = u * b;
    let wm = 1_000_000 * wn;
    let delta = wm - ub;
    let mb = 1_000_000 * b;
    let s = bq * mb + c * (ub + wm);
    assert(0 <= ub) by (nonlinear_arith)
        requires
            0 <= u,
            b >= 1,
            ub == u * b,
    ;
    assert(bb >= 1) by (nonlinear_arith)
        requires
            b >= 1,
            bb == b * b,
    ;
    // the difference of the two values, over the common denominator
    let p1 = (1_000_000 * u) * bb;
    let q1 = (wn * b) * 1_000_000_000_000;
    let p2 = (u * u) * bb;
    let q2 = (wn * wn) * 1_000_000_000_000;
    let dmb = delta * mb;
    let dt = delta * (ub + wm);
    assert(p1 - q1 == -dmb) by (nonlinear_arith)
        requires
            p1 == (1_000_000 * u) * (b * b),
            q1 == (wn * b) * 1_000_000_000_000,
            dmb == (1_000_000 * wn - u * b) * (1_000_000 * b),
    ;
    assert(p2 == ub * ub) by (nonlinear_arith)
        requires
            p2 == (u * u) * (b * b),
            ub == u * b,
    ;
    assert(q2 == wm * wm) by (nonlinear_arith)
        requires
            q2 == (wn * wn) * 1_000_000_000_000,
            wm == 1_000_000 * wn,
    ;
    assert(ub * ub - wm * wm == -dt) by (nonlinear_arith)
        requires
            dt == (wm - ub) * (ub + wm),
    ;
    let abb = a * bb;
    assert(g * bb == 1_000_000_000_000 * abb + bq * p1 + c * p2) by (nonlinear_arith)
        requires
            g == a * 1_000_000_000_000 + bq * (1_000_000 * u) + c * (u * u),
            abb == a * bb,
            p1 == (1_000_000 * u) * bb,
            p2 == (u * u) * bb,
    ;
    assert(e * 1_000_000_000_000 == 1_000_000_000_000 * abb + bq * q1 + c * q2)
        by (nonlinear_arith)
        requires
            e == a * bb + bq * (wn * b) + c * (wn * wn),
            abb == a * bb,
            q1 == (wn * b) * 1_000_000_000_000,
            q2 == (wn * wn) * 1_000_000_000_000,
    ;
    assert(delta * s == bq * dmb + c * dt) by (nonlinear_arith)
        requires
            s == bq * mb + c * (ub + wm),
            dmb == delta * mb,
            dt == delta * (ub + wm),
    ;
    assert(g * bb - e * 1_000_000_000_000 == -(delta * s)) by (nonlinear_arith)
        requires
            g * bb == 1_000_000_000_000 * abb + bq * p1 + c * p2,
            e * 1_000_000_000_000 == 1_000_000_000_000 * abb + bq * q1 + c * q2,
            p1 - q1 == -dmb,
            p2 - q2 == -dt,
            delta * s == bq * dmb + c * dt,
    ;
    // the slope lies between its values at the two ends of the piece
    let t = ub + wm;
    let cap = 2 * (wmax * mb);
    assert(0 <= t <= cap) by (nonlinear_arith)
        requires
            t == ub + wm,
            0 <= ub <= wm,
            wm == 1_000_000 * wn,
            wn <= wmax * b,
            mb == 1_000_000 * b,
            cap == 2 * (wmax * mb),
    ;
    let ct = c * t;
    let ccap = c * cap;
    assert((c >= 0 ==> 0 <= ct <= ccap) && (c < 0 ==> ccap <= ct <= 0)) by (nonlinear_arith)
        requires
            0 <= t <= cap,
            ct == c * t,
            ccap == c * cap,
    ;
    let s0 = bq * mb;
    let s1 = (bq + 2 * (c * wmax)) * mb;
    assert(s1 == s0 + ccap) by (nonlinear_arith)
        requires
            s0 == bq * mb,
            s1 == (bq + 2 * (c * wmax)) * mb,
            ccap == c * cap,
            cap == 2 * (wmax * mb),
    ;
    let top = 1_600_000 * mb;
    assert(-top <= s0 <= top) by (nonlinear_arith)
        requires
            s0 == bq * mb,
            -1_600_000 <= bq <= 1_600_000,
            mb >= 0,
            top == 1_600_000 * mb,
    ;
    assert(-top <= s1 <= top) by (nonlinear_arith)
        requires
            s1 == (bq + 2 * (c * wmax)) * mb,
            -1_600_000 <= bq + 2 * (c * wmax) <= 1_600_000,
            mb >= 0,
            top == 1_600_000 * mb,
    ;
    assert(s == s0 + ct);
    assert(-top <= s <= top);
    let ds = delta * s;
    assert(-(1_600_000_000_000 * bb) <= ds <= 1_600_000_000_000 * bb) by (nonlinear_arith)
        requires
            ds == delta * s,
            0 <= delta <= b,
            -top <= s <= top,
            top == 1_600_000 * mb,
            mb == 1_000_000 * b,
            bb == b * b,
            b >= 1,
    ;
    let rb = rho * bb;
    assert(0 <= rb <= 1_000_000_000_000 * bb) by (nonlinear_arith)
        requires
            rb == rho * bb,
            0 <= rho < 1_000_000_000_000,
            bb >= 1,
    ;
    let x = r * bb - e;
    assert(1_000_000_000_000 * x == -ds - rb) by (nonlinear_arith)
        requires
            x == r * bb - e,
            g == 1_000_000_000_000 * r + rho,
            rb == rho * bb,
            g * bb - e * 1_000_000_000_000 == -ds,
    ;
    assert(1_000_000_000_000 * x >= -(2_600_000_000_000 * bb));
    assert(1_000_000_000_000 * x <= 1_600_000_000_000 * bb);
}

/// A colour index and the same index rounded down to a whole millionth of a
/// thousandth lie on the same side of a whole thousandth `k`.
proof fn lemma_same_side(g: int, n: int, b: int, k: int)
    requires
        b >= 1,
        g * b <= 1_000_000 * n,
        1_000_000 * n < g * b + b,
    ensures
        (g < 1_000_000 * k) == (n < k * b),
{
    let gb = g * b;
    let kb = k * b;
    let mk = 1_000_000 * k;
    assert((g < mk) == (gb + b <= mk * b)) by (nonlinear_arith)
        requires
            gb == g * b,
            b >= 1,
    ;
    assert((g >= mk) == (gb >= mk * b)) by (nonlinear_arith)
        requires
            gb == g * b,
            b >= 1,
    ;
    assert(mk * b == 1_000_000 * kb) by (nonlinear_arith)
        requires
            mk == 1_000_000 * k,
            kb == k * b,
    ;
}

/// `lemma_piece` for a piece that begins at `k0` thousandths and ends
/// before `k1`.
proof fn lemma_shifted_piece(a: int, bq: int, c: int, k0: int, k1: int, b: int, n: int, g: int)
    requires
        b >= 1,
        g * b <= 1_000_000 * n,
        1_000_000 * n < g * b + b,
        k0 * b <= n < k1 * b,
        k0 <= k1,
        -1_600_000 <= bq <= 1_600_000,
        -1_600_000 <= bq + 2 * (c * (k1 - k0)) <= 1_600_000,
    ensures
        1_000_000 * k0 <= g < 1_000_000 * k1,
        near(
            whole_parts(
                a * 1_000_000_000_000 + bq * (1_000_000 * (g - 1_000_000 * k0)) + c * ((g
                    - 1_000_000 * k0) * (g - 1_000_000 * k0)),
            ),
            a * (b * b) + bq * ((n - k0 * b) * b) + c * ((n - k0 * b) * (n - k0 * b)),
            b,
        ),
{
    lemma_same_side(g, n, b, k0);
    lemma_same_side(g, n, b, k1);
    let u = g - 1_000_000 * k0;
    let wn = n - k0 * b;
    let kb = k0 * b;
    assert(u * b == g * b - 1_000_000 * kb) by (nonlinear_arith)
        requires
            u == g - 1_000_000 * k0,
            kb == k0 * b,
    ;
    assert(wn <= (k1 - k0) * b) by (nonlinear_arith)
        requires
            wn == n - k0 * b,
            n < k1 * b,
    ;
    lemma_piece(a, bq, c, k1 - k0, b, wn, u);
}

/// Where a colour index stands between two whole billionths: with the index
/// held within `[-0.4, 2.0]` as `n / b` thousandths and its whole billionths
/// `g`, `g / 1 000 000 <= n / b < (g + 1) / 1 000 000`.
proof fn lemma_index_bracket(index: Decimal)
    ensures
        ({
            let b = pow10(index.scale as nat);
            let n = clamp_scaled(1000 * index.mantissa, b);
            let g = clamp(index.floor_at(9), -400_000_000, 2_000_000_000);
            &&& b >= 1
            &&& -(400 * b) <= n <= 2000 * b
            &&& g * b <= 1_000_000 * n
            &&& 1_000_000 * n < g * b + b
        }),
{
    let m = index.mantissa as int;
    let s = index.scale as nat;
    let b = pow10(s);
    let f = index.floor_at(9);
    let g = clamp(f, -400_000_000, 2_000_000_000);
    lemma_pow10_positive(s);
    assert(pow10(9) == 1_000_000_000) by {
        reveal_with_fuel(pow10, 10);
    }
    let gb = g * b;
    assert(g == -400_000_000 ==> gb == -(400_000_000 * b)) by (nonlinear_arith)
        requires
            gb == g * b,
    ;
    assert(g == 2_000_000_000 ==> gb == 2_000_000_000 * b) by (nonlinear_arith)
        requires
            gb == g * b,
    ;
    if s <= 9 {
        let p = pow10((9 - s) as nat);
        lemma_pow10_adds((9 - s) as nat, s);
        lemma_pow10_positive((9 - s) as nat);
        let fb = f * b;
        assert(fb == 1_000_000_000 * m) by (nonlinear_arith)
            requires
                fb == (m * p) * b,
                p * b == 1_000_000_000,
        ;
        assert(f <= -400_000_001 ==> fb <= -(400_000_001 * b)) by (nonlinear_arith)
            requires
                fb == f * b,
                b >= 1,
        ;
        assert(f >= 2_000_000_001 ==> fb >= 2_000_000_001 * b) by (nonlinear_arith)
            requires
                fb == f * b,
                b >= 1,
        ;
        assert(-400_000_000 <= f <= 2_000_000_000 ==> -(400_000_000 * b) <= fb <= 2_000_000_000
            * b) by (nonlinear_arith)
            requires
                fb == f * b,
                b >= 1,
        ;
    } else {
        let p = pow10((s - 9) as nat);
        lemma_pow10_adds((s - 9) as nat, 9);
        lemma_pow10_positive((s - 9) as nat);
        assert(b == 1_000_000_000 * p) by (nonlinear_arith)
            requires
                b == p * 1_000_000_000,
        ;
        lemma_fundamental_div_mod(m, p);
        lemma_mod_bound(m, p);
        let fp = p * f;
        assert(fp <= m < fp + p);
        assert(f * b == 1_000_000_000 * fp) by (nonlinear_arith)
            requires
                b == 1_000_000_000 * p,
                fp == p * f,
        ;
        assert(f <= -400_000_001 ==> fp <= -(400_000_001 * p)) by (nonlinear_arith)
            requires
                fp == p * f,
                p >= 1,
        ;
        assert(f >= 2_000_000_000 ==> fp >= 2_000_000_000 * p) by (nonlinear_arith)
            requires
                fp == p * f,
                p >= 1,
        ;
        assert(f >= -400_000_000 ==> fp >= -(400_000_000 * p)) by (nonlinear_arith)
            requires
                fp == p * f,
                p >= 1,
        ;
        assert(f <= 1_999_999_999 ==> fp <= 1_999_999_999 * p) by (nonlinear_arith)
            requires
                fp == p * f,
                p >= 1,
        ;
    }
}

/// Each channel of the colour of a colour index lies within three parts of
/// `FULL` of the transform at the index itself.
proof fn lemma_channels_near(index: Decimal)
    ensures
        ({
            let b = pow10(index.scale as nat);
            let n = clamp_scaled(1000 * index.mantissa, b);
            let g = clamp(index.floor_at(9), -400_000_000, 2_000_000_000);
            &&& near(whole_parts(red_scaled(g, 1_000_000)), red_scaled(n, b), b)
            &&& near(whole_parts(green_scaled(g, 1_000_000)), green_scaled(n, b), b)
            &&& near(whole_parts(blue_scaled(g, 1_000_000)), blue_scaled(n, b), b)
        }),
{
    let b = pow10(index.scale as nat);
    let n = clamp_scaled(1000 * index.mantissa, b);
    let g = clamp(index.floor_at(9), -400_000_000, 2_000_000_000);
    lemma_index_bracket(index);
    lemma_full_parts();
    lemma_same_side(g, n, b, 0);
    lemma_same_side(g, n, b, 400);
    lemma_same_side(g, n, b, 1500);
    lemma_same_side(g, n, b, 1600);
    lemma_same_side(g, n, b, 1940);
    lemma_same_side(g, n, b, 2000);
    if n < 0 {
        lemma_shifted_piece(354_288_000, 159_720, 363, -400, 0, b, n, g);
        lemma_shifted_piece(406_560_000, 101_640, 363, -400, 0, b, n, g);
    } else if n < 400 * b {
        lemma_shifted_piece(482_064_000, 246_840, 0, 0, 400, b, n, g);
        lemma_shifted_piece(505_296_000, 159_720, 0, 0, 400, b, n, g);
    } else {
        if n < 1600 * b {
            lemma_shifted_piece(569_184_000, -77_440, 0, 400, 1600, b, n, g);
        } else if n < 2000 * b {
            lemma_shifted_piece(476_256_000, 0, -1_815, 1600, 2000, b, n, g);
        }
        if n < 1500 * b {
            lemma_shifted_piece(580_800_000, -248_160, 48, 400, 1500, b, n, g);
        } else if n < 1940 * b {
            lemma_shifted_piece(365_904_000, 0, -1_800, 1500, 1940, b, n, g);
        }
    }
}

/// A quotient by the square of a million lies between nothing and `FULL`
/// where the dividend lies between nothing and `FULL` times that square.
proof fn lemma_parts_bounded(scaled: int)
    requires
        0 <= scaled <= 580_800_000 * 1_000_000_000_000,
    ensures
        0 <= whole_parts(scaled) <= 580_800_000,
{
    lemma_fundamental_div_mod(scaled, 1_000_000_000_000);
    lemma_mod_bound(scaled, 1_000_000_000_000);
}

/// Every channel of every colour lies between nothing and full intensity.
pub proof fn lemma_color_in_range(step: int)
    ensures
        ({
            let n = clamp(step, -400_000_000, 2_000_000_000);
            &&& 0 <= whole_parts(red_scaled(n, 1_000_000)) <= FULL
            &&& 0 <= whole_parts(green_scaled(n, 1_000_000)) <= FULL
            &&& 0 <= whole_parts(blue_scaled(n, 1_000_000)) <= FULL
        }),
{
    let n = clamp(step, -400_000_000, 2_000_000_000);
    lemma_full_parts();
    if n < 0 {
        let u = n + 400_000_000;
        assert(0 <= u * u <= 400_000_000 * u) by (nonlinear_arith)
            requires
                0 <= u <= 400_000_000,
        ;
    }
    if 400_000_000 <= n < 1_500_000_000 {
        let u = n - 400_000_000;
        assert(0 <= u * u <= 1_100_000_000 * u) by (nonlinear_arith)
            requires
                0 <= u <= 1_100_000_000,
        ;
    }
    if 1_500_000_000 <= n < 1_940_000_000 {
        let u = n - 1_500_000_000;
        assert(0 <= u * u <= 440_000_000 * 440_000_000) by (nonlinear_arith)
            requires
                0 <= u <= 440_000_000,
        ;
    }
    if 1_600_000_000 <= n < 2_000_000_000 {
        let u = n - 1_600_000_000;
        assert(0 <= u * u <= 400_000_000 * 400_000_000) by (nonlinear_arith)
            requires
                0 <= u <= 400_000_000,
        ;
    }
    lemma_parts_bounded(red_scaled(n, 1_000_000));
    lemma_parts_bounded(green_scaled(n, 1_000_000));
    lemma_parts_bounded(blue_scaled(n, 1_000_000));
}

/// The colour of every colour index follows the transform: each channel
/// lies within three parts of `FULL` of the value of the transform at the
/// index itself, held within `[-0.4, 2.0]`, whatever the scale of the index.
pub proof fn lemma_color_follows_formula(index: Decimal)
    ensures
        follows_formula(rgb_at(index.floor_at(9)), index),
{
    lemma_channels_near(index);
    lemma_color_in_range(index.floor_at(9));
}

/// Colour indices at or below -0.4 all have the colour of -0.4, and those at
/// or above 2.0 all have the colour of 2.0.
pub proof fn lemma_color_clamps(step: int)
    ensures
        step <= -400_000_000 ==> rgb_at(step) == rgb_at(-400_000_000),
        step >= 2_000_000_000 ==> rgb_at(step) == rgb_at(2_000_000_000),
        rgb_at(step) == rgb_at(clamp(step, -400_000_000, 2_000_000_000)),
{
}

/// The parts of `FULL` that the transform is written with.
pub proof fn lemma_parts_of_full()
    ensures
        FULL == 100 * 5_808_000,
        FULL == 100 * 400 * 14_520,
        FULL == 100 * 1200 * 4_840,
        FULL == 100 * 1100 * 5_280,
        FULL == 10 * (400 * 400) * 363,
        FULL == 10 * (1100 * 1100) * 48,
        FULL == 10 * (440 * 440) * 300,
{
}

} // verus!
