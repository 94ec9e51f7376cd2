//! Exact decimal numbers, as a catalogue writes them.

use vstd::arithmetic::div_mod::{
    lemma_div_denominator, lemma_fundamental_div_mod, lemma_fundamental_div_mod_converse,
    lemma_mod_bound,
};
use vstd::prelude::*;

verus! {

/// Ten to the power `n`.
pub open spec fn pow10(n: nat) -> int
    decreases n,
{
    if n == 0 {
        1
    } else {
        10 * pow10((n - 1) as nat)
    }
}

/// Powers of ten are positive.
pub proof fn lemma_pow10_positive(n: nat)
    ensures
        pow10(n) >= 1,
    decreases n,
{
    if n > 0 {
        lemma_pow10_positive((n - 1) as nat);
    }
}

/// Exponents add when powers of ten are multiplied.
pub proof fn lemma_pow10_adds(a: nat, b: nat)
    ensures
        pow10(a + b) == pow10(a) * pow10(b),
    decreases a,
{
    if a == 0 {
        assert(pow10(a) == 1);
        assert(pow10(a) * pow10(b) == pow10(b)) by (nonlinear_arith)
            requires
                pow10(a) == 1,
        ;
    } else {
        lemma_pow10_adds((a - 1) as nat, b);
        let p = pow10((a - 1) as nat);
        let q = pow10(b);
        assert(pow10(a + b) == 10 * pow10((a - 1 + b) as nat));
        assert((10 * p) * q == 10 * (p * q)) by (nonlinear_arith);
    }
}

/// The largest number of digits a `Decimal` can have after the point.
pub const MAX_SCALE: u8 = 255;

/// The bound below which `scale_up` keeps its result.
pub(crate) const WIDE_LIMIT: i128 = 1_000_000_000_000_000_000_000_000_000_000;

/// The number `mantissa / 10^scale`. Every value is finite and the order of
/// the values is total. Two decimals with different scales may stand for the
/// same number; `==` compares the fields, `same_value` the numbers.
#[derive(Clone, Copy, Debug, PartialEq, Eq, Structural)]
pub struct Decimal {
    pub mantissa: i64,
    pub scale: u8,
}

/// `x * 10^d` where that lies within `WIDE_LIMIT` of zero, `None` where it
/// lies beyond.
pub(crate) fn scale_up(x: i128, d: u8) -> (r: Option<i128>)
    requires
        -WIDE_LIMIT <= x <= WIDE_LIMIT,
    ensures
        match r {
            Some(y) => y == x * pow10(d as nat) && -WIDE_LIMIT <= y <= WIDE_LIMIT,
            None => x * pow10(d as nat) < -WIDE_LIMIT || x * pow10(d as nat) > WIDE_LIMIT,
        },
{
    let mut y: i128 = x;
    let mut k: u8 = 0;
    proof {
        assert(x * pow10(0) == x) by (nonlinear_arith)
            requires
                pow10(0) == 1,
        ;
    }
    while k < d && -WIDE_LIMIT <= y && y <= WIDE_LIMIT
        invariant
            k <= d,
            y == x * pow10(k as nat),
            -10 * WIDE_LIMIT <= y <= 10 * WIDE_LIMIT,
        decreases d - k,
    {
        proof {
            let p = pow10(k as nat);
            assert(pow10((k + 1) as nat) == 10 * p);
            assert((x * p) * 10 == x * (10 * p)) by (nonlinear_arith);
        }
        y = y * 10;
        k = k + 1;
    }
    if -WIDE_LIMIT <= y && y <= WIDE_LIMIT {
        Some(y)
    } else {
        proof {
            let rest = (d - k) as nat;
            lemma_pow10_adds(k as nat, rest);
            lemma_pow10_positive(rest);
            let p = pow10(k as nat);
            let q = pow10(rest);
            assert(x * (p * q) == (x * p) * q) by (nonlinear_arith);
            assert(y * q >= y || y <= 0) by (nonlinear_arith)
                requires
                    q >= 1,
            ;
            assert(y * q <= y || y >= 0) by (nonlinear_arith)
                requires
                    q >= 1,
            ;
        }
        None
    }
}

/// Whether `a / 10^a_scale < b / 10^b_scale`, decided without rounding.
pub(crate) fn wide_lt(a: i128, a_scale: u8, b: i128, b_scale: u8) -> (r: bool)
    requires
        -WIDE_LIMIT <= a <= WIDE_LIMIT,
        -WIDE_LIMIT <= b <= WIDE_LIMIT,
    ensures
        r == (a * pow10(b_scale as nat) < b * pow10(a_scale as nat)),
{
    if a_scale <= b_scale {
        let d: u8 = b_scale - a_scale;
        proof {
            lemma_pow10_adds(a_scale as nat, d as nat);
            lemma_pow10_positive(a_scale as nat);
            let s = pow10(a_scale as nat);
            let p = pow10(d as nat);
            assert((a * (s * p) < b * s) == (a * p < b)) by (nonlinear_arith)
                requires
                    s >= 1,
            ;
            lemma_pow10_positive(d as nat);
            assert((a < 0 ==> a * p < 0) && (a >= 0 ==> a * p >= 0)) by (nonlinear_arith)
                requires
                    p >= 1,
            ;
        }
        match scale_up(a, d) {
            Some(y) => y < b,
            None => a < 0,
        }
    } else {
        let d: u8 = a_scale - b_scale;
        proof {
            lemma_pow10_adds(b_scale as nat, d as nat);
            lemma_pow10_positive(b_scale as nat);
            let s = pow10(b_scale as nat);
            let p = pow10(d as nat);
            assert((a * s < b * (s * p)) == (a < b * p)) by (nonlinear_arith)
                requires
                    s >= 1,
            ;
            lemma_pow10_positive(d as nat);
            assert((b <= 0 ==> b * p <= 0) && (b > 0 ==> b * p > 0)) by (nonlinear_arith)
                requires
                    p >= 1,
            ;
        }
        match scale_up(b, d) {
            Some(y) => a < y,
            None => b > 0,
        }
    }
}

/// Comparing two fractions by cross-multiplication agrees with comparing
/// them in units of `10^-255`.
pub proof fn lemma_units_order(a: int, a_scale: nat, b: int, b_scale: nat)
    requires
        a_scale <= 255,
        b_scale <= 255,
    ensures
        (a * pow10(b_scale) < b * pow10(a_scale)) == (a * pow10((255 - a_scale) as nat) < b * pow10(
            (255 - b_scale) as nat,
        )),
{
    let pa = pow10(a_scale);
    let pb = pow10(b_scale);
    let ra = pow10((255 - a_scale) as nat);
    let rb = pow10((255 - b_scale) as nat);
    let t = pow10(255);
    lemma_pow10_adds(a_scale, (255 - a_scale) as nat);
    lemma_pow10_adds(b_scale, (255 - b_scale) as nat);
    lemma_pow10_positive(a_scale);
    lemma_pow10_positive(b_scale);
    lemma_pow10_positive((255 - a_scale) as nat);
    lemma_pow10_positive((255 - b_scale) as nat);
    lemma_pow10_positive(255);
    assert(t == pa * ra);
    assert(t == pb * rb);
    let q = pa * pb;
    assert(q >= 1) by (nonlinear_arith)
        requires
            q == pa * pb,
            pa >= 1,
            pb >= 1,
    ;
    assert((a * pb) * (pa * ra) == (a * ra) * (pa * pb)) by (nonlinear_arith);
    assert((b * pa) * (pb * rb) == (b * rb) * (pa * pb)) by (nonlinear_arith);
    let x = a * pb;
    let y = b * pa;
    let u = a * ra;
    let v = b * rb;
    assert((x < y) == (x * t < y * t)) by (nonlinear_arith)
        requires
            t >= 1,
    ;
    assert((u < v) == (u * q < v * q)) by (nonlinear_arith)
        requires
            q >= 1,
    ;
    assert(x * t == u * q);
    assert(y * t == v * q);
}

impl Decimal {
    /// The number in units of `10^-255`, the finest step a `Decimal` can
    /// express. Two decimals stand for the same number exactly when their
    /// units are equal, and are ordered as their units are.
    pub open spec fn units(self) -> int {
        self.mantissa * pow10((255 - self.scale) as nat)
    }

    /// The number `mantissa / 10^scale`.
    pub fn new(mantissa: i64, scale: u8) -> (d: Decimal)
        ensures
            d.mantissa == mantissa,
            d.scale == scale,
    {
        Decimal { mantissa, scale }
    }

    /// Whether this number is smaller than `other`.
    pub fn is_less_than(&self, other: &Decimal) -> (r: bool)
        ensures
            r == (self.units() < other.units()),
    {
        proof {
            lemma_units_order(
                self.mantissa as int,
                self.scale as nat,
                other.mantissa as int,
                other.scale as nat,
            );
        }
        wide_lt(self.mantissa as i128, self.scale, other.mantissa as i128, other.scale)
    }

    /// Whether this number is `other` or smaller.
    pub fn is_at_most(&self, other: &Decimal) -> (r: bool)
        ensures
            r == (self.units() <= other.units()),
    {
        !other.is_less_than(self)
    }

    /// Whether the two stand for the same number, whatever their scales.
    pub fn same_value(&self, other: &Decimal) -> (r: bool)
        ensures
            r == (self.units() == other.units()),
    {
        !self.is_less_than(other) && !other.is_less_than(self)
    }

    /// The product, where it can be held: `None` when the mantissa of the
    /// product leaves `i64` or its scale would pass `MAX_SCALE`. In units of
    /// `10^-255` the product of two numbers is the product of their units
    /// over `10^255`.
    pub fn checked_mul(&self, other: &Decimal) -> (r: Option<Decimal>)
        ensures
            r is Some <==> i64::MIN <= self.mantissa * other.mantissa <= i64::MAX && self.scale
                + other.scale <= 255,
            r matches Some(p) ==> p.mantissa == self.mantissa * other.mantissa && p.scale
                == self.scale + other.scale && p.units() * pow10(255) == self.units()
                * other.units(),
    {
        if self.scale > MAX_SCALE - other.scale {
            return None;
        }
        match self.mantissa.checked_mul(other.mantissa) {
            Some(m) => {
                let product = Decimal { mantissa: m, scale: self.scale + other.scale };
                proof {
                    lemma_product_units(*self, *other, product);
                }
                Some(product)
            },
            None => None,
        }
    }
}

/// The units of a product, times `10^255`, are the product of the units.
proof fn lemma_product_units(a: Decimal, b: Decimal, p: Decimal)
    requires
        p.mantissa == a.mantissa * b.mantissa,
        p.scale == a.scale + b.scale,
    ensures
        p.units() * pow10(255) == a.units() * b.units(),
{
    let ra = pow10((255 - a.scale) as nat);
    let rb = pow10((255 - b.scale) as nat);
    let rp = pow10((255 - p.scale) as nat);
    let t = pow10(255);
    // 10^(255-sa) * 10^(255-sb) == 10^(255-sa-sb) * 10^255
    lemma_pow10_adds((255 - a.scale) as nat, (255 - b.scale) as nat);
    lemma_pow10_adds((255 - p.scale) as nat, 255);
    assert(ra * rb == rp * t);
    let ma = a.mantissa as int;
    let mb = b.mantissa as int;
    assert(((ma * mb) * rp) * t == (ma * mb) * (rp * t)) by (nonlinear_arith);
    assert((ma * ra) * (mb * rb) == (ma * mb) * (ra * rb)) by (nonlinear_arith);
}

/// `value` held between `low` and `high`.
pub open spec fn clamp(value: int, low: int, high: int) -> int {
    if value < low {
        low
    } else if value > high {
        high
    } else {
        value
    }
}

/// A quotient rounded down lies below `bound` exactly when the dividend lies
/// below `bound` times the divisor.
proof fn lemma_floor_below(m: int, d: int, bound: int)
    requires
        d > 0,
    ensures
        (m / d < bound) == (m < bound * d),
{
    lemma_fundamental_div_mod(m, d);
    lemma_mod_bound(m, d);
    let q = m / d;
    let r = m % d;
    assert((q < bound) == (m < bound * d)) by (nonlinear_arith)
        requires
            m == d * q + r,
            0 <= r < d,
    ;
}

/// `x / 10^k`, rounded down.
fn div_pow10(x: u64, k: u8) -> (q: u64)
    ensures
        q == x as int / pow10(k as nat),
{
    let mut q: u64 = x;
    let mut j: u8 = 0;
    while j < k
        invariant
            j <= k,
            q == x as int / pow10(j as nat),
        decreases k - j,
    {
        proof {
            lemma_pow10_positive(j as nat);
            lemma_div_denominator(x as int, pow10(j as nat), 10);
            assert(pow10((j + 1) as nat) == 10 * pow10(j as nat));
            assert(pow10(j as nat) * 10 == 10 * pow10(j as nat));
        }
        q = q / 10;
        j = j + 1;
    }
    q
}

impl Decimal {
    /// The number in units of `10^-places`, rounded down to a whole unit.
    pub open spec fn floor_at(self, places: nat) -> int {
        if self.scale <= places {
            self.mantissa * pow10((places - self.scale) as nat)
        } else {
            self.mantissa as int / pow10((self.scale - places) as nat)
        }
    }

    /// Comparing the number with `bound` units of `10^-places` by
    /// cross-multiplication agrees with comparing its whole units with
    /// `bound`.
    proof fn lemma_floor_at_below(self, places: nat, bound: int)
        ensures
            (self.mantissa * pow10(places) < bound * pow10(self.scale as nat)) == (self.floor_at(
                places,
            ) < bound),
    {
        let m = self.mantissa as int;
        if self.scale <= places {
            let up = pow10((places - self.scale) as nat);
            let s = pow10(self.scale as nat);
            lemma_pow10_adds((places - self.scale) as nat, self.scale as nat);
            lemma_pow10_positive(self.scale as nat);
            assert((m * (up * s) < bound * s) == (m * up < bound)) by (nonlinear_arith)
                requires
                    s >= 1,
            ;
        } else {
            let d = pow10((self.scale - places) as nat);
            let t = pow10(places);
            lemma_pow10_adds((self.scale - places) as nat, places);
            lemma_pow10_positive((self.scale - places) as nat);
            lemma_pow10_positive(places);
            lemma_floor_below(m, d, bound);
            assert((m * t < bound * (d * t)) == (m < bound * d)) by (nonlinear_arith)
                requires
                    t >= 1,
            ;
        }
    }

    /// The number in whole units of `10^-places`, rounded down and held
    /// between `low` and `high`.
    pub fn clamped_floor(&self, places: u8, low: i64, high: i64) -> (r: i64)
        requires
            low <= high,
        ensures
            r == clamp(self.floor_at(places as nat), low as int, high as int),
    {
        proof {
            self.lemma_floor_at_below(places as nat, low as int);
            self.lemma_floor_at_below(places as nat, high as int);
        }
        if wide_lt(self.mantissa as i128, self.scale, low as i128, places) {
            return low;
        }
        if !wide_lt(self.mantissa as i128, self.scale, high as i128, places) {
            return high;
        }
        if self.scale <= places {
            match scale_up(self.mantissa as i128, places - self.scale) {
                Some(y) => y as i64,
                None => low,
            }
        } else {
            let k: u8 = self.scale - places;
            proof {
                lemma_pow10_positive(k as nat);
            }
            if self.mantissa >= 0 {
                let q = div_pow10(self.mantissa as u64, k);
                q as i64
            } else {
                let below: u64 = (-(self.mantissa + 1)) as u64;
                let q = div_pow10(below, k);
                proof {
                    let d = pow10(k as nat);
                    let m = self.mantissa as int;
                    let n = below as int;
                    lemma_fundamental_div_mod(n, d);
                    lemma_mod_bound(n, d);
                    let qq = n / d;
                    let rr = n % d;
                    assert(m == (-qq - 1) * d + (d - 1 - rr)) by (nonlinear_arith)
                        requires
                            n == d * qq + rr,
                            m == -n - 1,
                    ;
                    lemma_fundamental_div_mod_converse(m, d, -qq - 1, d - 1 - rr);
                }
                -(q as i64) - 1
            }
        }
    }
}

} // verus!
