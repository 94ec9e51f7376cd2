//! Distance-bounded queries: the stars nearer than a bound given in
//! light-years, in ascending order of distance.

use crate::decimal::{lemma_units_order, pow10, wide_lt, Decimal};
use crate::sim_data::{star_views, Star, StarView};
use vstd::multiset::Multiset;
use vstd::prelude::*;
use vstd::seq_lib::{to_multiset_build, to_multiset_contains};

verus! {

/// One light-year in millionths of a parsec: a light-year is 0.306601 parsec.
pub const PARSEC_MILLIONTHS_PER_LIGHT_YEAR: i64 = 306_601;

/// One parsec in hundred-thousandths of a light-year: a parsec is 3.26156
/// light-years.
pub const LIGHT_YEAR_HUNDRED_THOUSANDTHS_PER_PARSEC: i64 = 326_156;

/// Whether a distance in parsecs is smaller than a bound in light-years:
/// `distance < bound * 0.306601`. A distance equal to the bound is not.
pub open spec fn within(distance: Decimal, bound_ly: Decimal) -> bool {
    1_000_000 * distance.units() < 306_601 * bound_ly.units()
}

/// Whether a query selects `star`: it lies within the bound, and it is not
/// the origin unless the query includes the origin.
pub open spec fn selected(star: StarView, bound_ly: Decimal, include_origin: bool) -> bool {
    within(star.distance, bound_ly) && (include_origin || star.id != 0)
}

/// Whether the star at `a` stands before the star at `b` in an answer: it is
/// nearer, or as near and earlier in the catalogue.
pub open spec fn nearer(stars: Seq<StarView>, a: usize, b: usize) -> bool {
    stars[a as int].distance.units() < stars[b as int].distance.units() || (
    stars[a as int].distance.units() == stars[b as int].distance.units() && a < b)
}

/// Whether the star at `a` is the star at `b` or stands before it.
pub open spec fn not_after(stars: Seq<StarView>, a: usize, b: usize) -> bool {
    a == b || nearer(stars, a, b)
}

/// Whether `order` holds places in `stars` and nothing else.
pub open spec fn in_bounds(stars: Seq<StarView>, order: Seq<usize>) -> bool {
    forall|k: int| 0 <= k < order.len() ==> (#[trigger] order[k]) < stars.len()
}

/// Whether no place of `order` stands after a later one.
pub open spec fn ascending(stars: Seq<StarView>, order: Seq<usize>) -> bool {
    forall|i: int, j: int|
        0 <= i < j < order.len() ==> not_after(stars, #[trigger] order[i], #[trigger] order[j])
}

/// Whether `order` is the answer to a query: the places of exactly the stars
/// that the query selects, each before those that are farther, and before
/// those as far that come later in the catalogue.
pub open spec fn is_answer(
    stars: Seq<StarView>,
    bound_ly: Decimal,
    include_origin: bool,
    order: Seq<usize>,
) -> bool {
    &&& forall|k: int|
        0 <= k < order.len() ==> (#[trigger] order[k]) < stars.len() && selected(
            stars[order[k] as int],
            bound_ly,
            include_origin,
        )
    &&& forall|i: int|
        0 <= i < stars.len() && selected(#[trigger] stars[i], bound_ly, include_origin)
            ==> order.contains(i as usize)
    &&& forall|i: int, j: int|
        0 <= i < j < order.len() ==> nearer(stars, #[trigger] order[i], #[trigger] order[j])
}

/// The answer to a query: the places in the catalogue of the stars it
/// selects, nearest first.
#[derive(Clone, Debug, PartialEq, Eq)]
pub struct ResultSet {
    pub order: Vec<usize>,
}

/// Whether `distance`, in parsecs, is smaller than `bound_ly`, in light-years.
pub fn is_within(distance: &Decimal, bound_ly: &Decimal) -> (r: bool)
    ensures
        r == within(*distance, *bound_ly),
{
    let a: i128 = distance.mantissa as i128 * 1_000_000;
    let b: i128 = bound_ly.mantissa as i128 * 306_601;
    proof {
        lemma_units_order(a as int, distance.scale as nat, b as int, bound_ly.scale as nat);
        let m = distance.mantissa as int;
        let n = bound_ly.mantissa as int;
        let p = pow10((255 - distance.scale) as nat);
        let q = pow10((255 - bound_ly.scale) as nat);
        assert((m * 1_000_000) * p == 1_000_000 * (m * p)) by (nonlinear_arith);
        assert((n * 306_601) * q == 306_601 * (n * q)) by (nonlinear_arith);
    }
    wide_lt(a, distance.scale, b, bound_ly.scale)
}

/// Whether the star at `a` is the star at `b` or stands before it.
fn comes_first(stars: &Vec<Star>, a: usize, b: usize) -> (r: bool)
    requires
        a < stars@.len(),
        b < stars@.len(),
    ensures
        r == not_after(star_views(stars@), a, b),
{
    let da = &stars[a].distance;
    let db = &stars[b].distance;
    if da.is_less_than(db) {
        true
    } else if db.is_less_than(da) {
        false
    } else {
        a <= b
    }
}

/// No place occurs in an empty run.
proof fn lemma_empty_run()
    ensures
        Seq::<usize>::empty().to_multiset() == Multiset::<usize>::empty(),
{
    broadcast use vstd::multiset::group_multiset_axioms;

    let none = Seq::<usize>::empty();
    assert forall|x: usize| none.to_multiset().count(x) == 0 by {
        to_multiset_contains(none, x);
    }
    assert(none.to_multiset() =~= Multiset::<usize>::empty());
}

/// Merges two ascending runs into one.
fn merge(stars: &Vec<Star>, left: &Vec<usize>, right: &Vec<usize>) -> (out: Vec<usize>)
    requires
        in_bounds(star_views(stars@), left@),
        in_bounds(star_views(stars@), right@),
        ascending(star_views(stars@), left@),
        ascending(star_views(stars@), right@),
    ensures
        in_bounds(star_views(stars@), out@),
        ascending(star_views(stars@), out@),
        out@.to_multiset() == left@.to_multiset().add(right@.to_multiset()),
{
    broadcast use vstd::multiset::group_multiset_axioms;

    let ghost views = star_views(stars@);
    let mut out: Vec<usize> = Vec::new();
    let mut i: usize = 0;
    let mut j: usize = 0;
    proof {
        assert(left@.take(0) =~= Seq::<usize>::empty());
        assert(right@.take(0) =~= Seq::<usize>::empty());
        assert(out@ =~= Seq::<usize>::empty());
        lemma_empty_run();
        assert(out@.to_multiset() =~= left@.take(0).to_multiset().add(
            right@.take(0).to_multiset(),
        ));
    }
    while i < left.len() || j < right.len()
        invariant
            i <= left@.len(),
            j <= right@.len(),
            views == star_views(stars@),
            in_bounds(views, left@),
            in_bounds(views, right@),
            ascending(views, left@),
            ascending(views, right@),
            in_bounds(views, out@),
            ascending(views, out@),
            out@.to_multiset() == left@.take(i as int).to_multiset().add(
                right@.take(j as int).to_multiset(),
            ),
            forall|k: int|
                0 <= k < out@.len() && i < left@.len() ==> not_after(
                    views,
                    #[trigger] out@[k],
                    left@[i as int],
                ),
            forall|k: int|
                0 <= k < out@.len() && j < right@.len() ==> not_after(
                    views,
                    #[trigger] out@[k],
                    right@[j as int],
                ),
        decreases left@.len() - i + right@.len() - j,
    {
        let ghost before = out@;
        let from_left = if j >= right.len() {
            true
        } else if i >= left.len() {
            false
        } else {
            comes_first(stars, left[i], right[j])
        };
        if from_left {
            let x = left[i];
            out.push(x);
            proof {
                assert(left@.take(i + 1) =~= left@.take(i as int).push(x));
                to_multiset_build(left@.take(i as int), x);
                to_multiset_build(before, x);
                assert(out@.to_multiset() =~= left@.take(i + 1).to_multiset().add(
                    right@.take(j as int).to_multiset(),
                ));
                assert forall|a: int, b: int| 0 <= a < b < out@.len() implies not_after(
                    views,
                    #[trigger] out@[a],
                    #[trigger] out@[b],
                ) by {
                    if b < before.len() {
                        assert(out@[a] == before[a] && out@[b] == before[b]);
                    } else {
                        assert(out@[a] == before[a]);
                    }
                }
                assert forall|k: int| 0 <= k < out@.len() && i + 1 < left@.len() implies not_after(
                    views,
                    #[trigger] out@[k],
                    left@[i + 1],
                ) by {
                    assert(not_after(views, left@[i as int], left@[i + 1]));
                    if k < before.len() {
                        assert(out@[k] == before[k]);
                    }
                }
                assert forall|k: int| 0 <= k < out@.len() && j < right@.len() implies not_after(
                    views,
                    #[trigger] out@[k],
                    right@[j as int],
                ) by {
                    if k < before.len() {
                        assert(out@[k] == before[k]);
                    }
                }
            }
            i = i + 1;
        } else {
            let x = right[j];
            out.push(x);
            proof {
                assert(right@.take(j + 1) =~= right@.take(j as int).push(x));
                to_multiset_build(right@.take(j as int), x);
                to_multiset_build(before, x);
                assert(out@.to_multiset() =~= left@.take(i as int).to_multiset().add(
                    right@.take(j + 1).to_multiset(),
                ));
                assert forall|a: int, b: int| 0 <= a < b < out@.len() implies not_after(
                    views,
                    #[trigger] out@[a],
                    #[trigger] out@[b],
                ) by {
                    if b < before.len() {
                        assert(out@[a] == before[a] && out@[b] == before[b]);
                    } else {
                        assert(out@[a] == before[a]);
                    }
                }
                assert forall|k: int| 0 <= k < out@.len() && j + 1 < right@.len() implies not_after(
                    views,
                    #[trigger] out@[k],
                    right@[j + 1],
                ) by {
                    assert(not_after(views, right@[j as int], right@[j + 1]));
                    if k < before.len() {
                        assert(out@[k] == before[k]);
                    }
                }
                assert forall|k: int| 0 <= k < out@.len() && i < left@.len() implies not_after(
                    views,
                    #[trigger] out@[k],
                    left@[i as int],
                ) by {
                    if k < before.len() {
                        assert(out@[k] == before[k]);
                    }
                }
            }
            j = j + 1;
        }
    }
    proof {
        assert(left@.take(i as int) =~= left@);
        assert(right@.take(j as int) =~= right@);
    }
    out
}

/// The places `items[low..high]` in ascending order.
fn sorted_range(stars: &Vec<Star>, items: &Vec<usize>, low: usize, high: usize) -> (out: Vec<
    usize,
>)
    requires
        low <= high <= items@.len(),
        in_bounds(star_views(stars@), items@),
    ensures
        in_bounds(star_views(stars@), out@),
        ascending(star_views(stars@), out@),
        out@.to_multiset() == items@.subrange(low as int, high as int).to_multiset(),
    decreases high - low,
{
    broadcast use vstd::multiset::group_multiset_axioms;

    let ghost whole = items@.subrange(low as int, high as int);
    if high - low <= 1 {
        let mut out: Vec<usize> = Vec::new();
        if high - low == 1 {
            out.push(items[low]);
        }
        assert(out@ =~= whole);
        return out;
    }
    let middle = low + (high - low) / 2;
    let left = sorted_range(stars, items, low, middle);
    let right = sorted_range(stars, items, middle, high);
    proof {
        let first = items@.subrange(low as int, middle as int);
        let second = items@.subrange(middle as int, high as int);
        assert(first + second =~= whole);
        vstd::seq_lib::lemma_multiset_commutative(first, second);
    }
    merge(stars, &left, &right)
}

/// Answers a query: the stars of the catalogue nearer than `bound_ly`
/// light-years, nearest first; stars as near as one another stand in the
/// order of the catalogue. The origin, the star whose `id` is 0, is among
/// them only where `include_origin` says so.
pub fn query(stars: &Vec<Star>, bound_ly: &Decimal, include_origin: bool) -> (answer: ResultSet)
    ensures
        is_answer(star_views(stars@), *bound_ly, include_origin, answer.order@),
{
    let ghost views = star_views(stars@);
    let mut picked: Vec<usize> = Vec::new();
    let mut i: usize = 0;
    while i < stars.len()
        invariant
            i <= stars@.len(),
            views == star_views(stars@),
            forall|k: int|
                0 <= k < picked@.len() ==> (#[trigger] picked@[k]) < i && selected(
                    views[picked@[k] as int],
                    *bound_ly,
                    include_origin,
                ),
            forall|p: int|
                0 <= p < i && selected(#[trigger] views[p], *bound_ly, include_origin)
                    ==> picked@.contains(p as usize),
            forall|a: int, b: int|
                0 <= a < b < picked@.len() ==> (#[trigger] picked@[a]) < (#[trigger] picked@[b]),
        decreases stars@.len() - i,
    {
        let ghost before = picked@;
        let star = &stars[i];
        if is_within(&star.distance, bound_ly) && (include_origin || star.id != 0) {
            picked.push(i);
            proof {
                assert(picked@[before.len() as int] == i);
                assert forall|p: int|
                    0 <= p < i + 1 && selected(
                        #[trigger] views[p],
                        *bound_ly,
                        include_origin,
                    ) implies picked@.contains(p as usize) by {
                    if p < i {
                        let k = choose|k: int| 0 <= k < before.len() && before[k] == p as usize;
                        assert(picked@[k] == p as usize);
                    }
                }
            }
        }
        i = i + 1;
    }
    let order = sorted_range(stars, &picked, 0, picked.len());
    proof {
        broadcast use vstd::multiset::group_multiset_axioms;

        assert(picked@.subrange(0, picked@.len() as int) =~= picked@);
        assert(picked@.no_duplicates());
        picked@.lemma_multiset_has_no_duplicates();
        order@.lemma_multiset_has_no_duplicates_conv();
        assert forall|k: int| 0 <= k < order@.len() implies (#[trigger] order@[k])
            < views.len() && selected(views[order@[k] as int], *bound_ly, include_origin) by {
            let x = order@[k];
            to_multiset_contains(order@, x);
            to_multiset_contains(picked@, x);
            assert(order@.contains(x));
            let w = choose|w: int| 0 <= w < picked@.len() && picked@[w] == x;
            assert(picked@[w] == x);
        }
        assert forall|p: int|
            0 <= p < views.len() && selected(
                #[trigger] views[p],
                *bound_ly,
                include_origin,
            ) implies order@.contains(p as usize) by {
            to_multiset_contains(order@, p as usize);
            to_multiset_contains(picked@, p as usize);
        }
        assert forall|a: int, b: int| 0 <= a < b < order@.len() implies nearer(
            views,
            #[trigger] order@[a],
            #[trigger] order@[b],
        ) by {
            assert(not_after(views, order@[a], order@[b]));
            assert(order@[a] != order@[b]);
        }
    }
    ResultSet { order }
}

/// How many stars of an answer are listed at the prompt.
pub const LISTED: usize = 10;

impl ResultSet {
    /// The number of stars in the answer.
    pub fn count(&self) -> (n: usize)
        ensures
            n == self.order@.len(),
    {
        self.order.len()
    }

    /// The places of the `limit` nearest stars of the answer, or of all of
    /// them where they are fewer, nearest first. The answer itself is left
    /// whole.
    pub fn nearest(&self, limit: usize) -> (out: Vec<usize>)
        ensures
            out@ == self.order@.take(
                if limit <= self.order@.len() {
                    limit as int
                } else {
                    self.order@.len() as int
                },
            ),
    {
        let n = if limit <= self.order.len() {
            limit
        } else {
            self.order.len()
        };
        let mut out: Vec<usize> = Vec::new();
        let mut i: usize = 0;
        while i < n
            invariant
                i <= n <= self.order@.len(),
                out@ == self.order@.take(i as int),
            decreases n - i,
        {
            out.push(self.order[i]);
            i = i + 1;
            assert(out@ =~= self.order@.take(i as int));
        }
        out
    }
}

/// A distance given in parsecs, in light-years: the distance times 3.26156.
/// `None` where the mantissa of the product leaves `i64` or its scale would
/// pass 255.
pub fn to_light_years(parsecs: &Decimal) -> (r: Option<Decimal>)
    ensures
        r is Some <==> i64::MIN <= parsecs.mantissa * 326_156 <= i64::MAX && parsecs.scale + 5
            <= 255,
        r matches Some(ly) ==> ly.mantissa == parsecs.mantissa * 326_156 && ly.scale
            == parsecs.scale + 5 && 100_000 * ly.units() == 326_156 * parsecs.units(),
{
    let r = parsecs.checked_mul(&Decimal::new(LIGHT_YEAR_HUNDRED_THOUSANDTHS_PER_PARSEC, 5));
    proof {
        if let Some(ly) = r {
            lemma_scaled_units(*parsecs, ly, 326_156, 5);
            assert(pow10(5) == 100_000) by {
                reveal_with_fuel(pow10, 6);
            }
            let u = ly.units();
            assert(pow10(5) * u == 100_000 * u) by (nonlinear_arith)
                requires
                    pow10(5) == 100_000,
            ;
        }
    }
    r
}

/// A distance given in light-years, in parsecs: the distance times
/// 0.306601. `None` where the mantissa of the product leaves `i64` or its
/// scale would pass 255.
pub fn to_parsecs(light_years: &Decimal) -> (r: Option<Decimal>)
    ensures
        r is Some <==> i64::MIN <= light_years.mantissa * 306_601 <= i64::MAX && light_years.scale
            + 6 <= 255,
        r matches Some(pc) ==> pc.mantissa == light_years.mantissa * 306_601 && pc.scale
            == light_years.scale + 6 && 1_000_000 * pc.units() == 306_601 * light_years.units(),
{
    let r = light_years.checked_mul(&Decimal::new(PARSEC_MILLIONTHS_PER_LIGHT_YEAR, 6));
    proof {
        if let Some(pc) = r {
            lemma_scaled_units(*light_years, pc, 306_601, 6);
            assert(pow10(6) == 1_000_000) by {
                reveal_with_fuel(pow10, 7);
            }
            let u = pc.units();
            assert(pow10(6) * u == 1_000_000 * u) by (nonlinear_arith)
                requires
                    pow10(6) == 1_000_000,
            ;
        }
    }
    r
}

/// The units of a number multiplied by `factor / 10^places`.
proof fn lemma_scaled_units(d: Decimal, p: Decimal, factor: int, places: nat)
    requires
        p.mantissa == d.mantissa * factor,
        p.scale == d.scale + places,
    ensures
        pow10(places) * p.units() == factor * d.units(),
{
    let low = pow10((255 - p.scale) as nat);
    let step = pow10(places);
    crate::decimal::lemma_pow10_adds(places, (255 - p.scale) as nat);
    let m = d.mantissa as int;
    assert(step * ((m * factor) * low) == factor * (m * (step * low))) by (nonlinear_arith);
}

/// A wider bound keeps every star that a narrower bound selects.
pub proof fn lemma_wider_bound_keeps(
    stars: Seq<StarView>,
    narrow_ly: Decimal,
    wide_ly: Decimal,
    include_origin: bool,
    narrow: Seq<usize>,
    wide: Seq<usize>,
)
    requires
        narrow_ly.units() <= wide_ly.units(),
        is_answer(stars, narrow_ly, include_origin, narrow),
        is_answer(stars, wide_ly, include_origin, wide),
    ensures
        forall|k: int| 0 <= k < narrow.len() ==> wide.contains(#[trigger] narrow[k]),
{
    assert forall|k: int| 0 <= k < narrow.len() implies wide.contains(#[trigger] narrow[k]) by {
        let place = narrow[k];
        assert(selected(stars[place as int], narrow_ly, include_origin));
        assert(selected(stars[place as int], wide_ly, include_origin));
    }
}

/// In an answer no star is farther than the star that follows it.
pub proof fn lemma_answer_ascends(
    stars: Seq<StarView>,
    bound_ly: Decimal,
    include_origin: bool,
    order: Seq<usize>,
    i: int,
)
    requires
        is_answer(stars, bound_ly, include_origin, order),
        0 <= i,
        i + 1 < order.len(),
    ensures
        stars[order[i] as int].distance.units() <= stars[order[i + 1] as int].distance.units(),
{
    assert(nearer(stars, order[i], order[i + 1]));
}

/// A bound in light-years selects the distances below the bound taken in
/// parsecs, which is the bound times 0.306601.
pub proof fn lemma_within_is_below_parsecs(
    distance: Decimal,
    bound_ly: Decimal,
    bound_pc: Decimal,
)
    requires
        bound_pc.mantissa == bound_ly.mantissa * 306_601,
        bound_pc.scale == bound_ly.scale + 6,
    ensures
        within(distance, bound_ly) == (distance.units() < bound_pc.units()),
{
    lemma_scaled_units(bound_ly, bound_pc, 306_601, 6);
    assert(pow10(6) == 1_000_000) by {
        reveal_with_fuel(pow10, 7);
    }
    let u = bound_pc.units();
    assert(pow10(6) * u == 1_000_000 * u) by (nonlinear_arith)
        requires
            pow10(6) == 1_000_000,
    ;
}

/// Of two places in a catalogue, one stands before the other in an answer,
/// and never both ways.
proof fn lemma_nearer_orders(stars: Seq<StarView>, a: usize, b: usize)
    ensures
        a != b ==> nearer(stars, a, b) || nearer(stars, b, a),
        !(nearer(stars, a, b) && nearer(stars, b, a)),
        !nearer(stars, a, a),
{
}

/// Two answers to one query agree on their first `n` places.
proof fn lemma_answers_agree(
    stars: Seq<StarView>,
    bound_ly: Decimal,
    include_origin: bool,
    first: Seq<usize>,
    second: Seq<usize>,
    n: int,
)
    requires
        is_answer(stars, bound_ly, include_origin, first),
        is_answer(stars, bound_ly, include_origin, second),
        0 <= n <= first.len(),
    ensures
        n <= second.len(),
        forall|k: int| 0 <= k < n ==> first[k] == second[k],
    decreases n,
{
    if n > 0 {
        lemma_answers_agree(stars, bound_ly, include_origin, first, second, n - 1);
        let k = n - 1;
        let x = first[k];
        // the place at `k` of the first answer stands somewhere in the second
        assert(selected(stars[x as int], bound_ly, include_origin));
        assert(second.contains(x));
        let m = choose|m: int| 0 <= m < second.len() && second[m] == x;
        if m < k {
            // it would stand twice in the first answer
            assert(first[m] == second[m]);
            assert(nearer(stars, first[m], first[k]));
        }
        assert(m >= k);
        let y = second[k];
        assert(selected(stars[y as int], bound_ly, include_origin));
        assert(first.contains(y));
        let w = choose|w: int| 0 <= w < first.len() && first[w] == y;
        if w < k {
            assert(first[w] == second[w]);
            assert(nearer(stars, second[w], second[k]));
        }
        assert(w >= k);
        if m > k {
            assert(nearer(stars, second[k], second[m]));
            if w > k {
                assert(nearer(stars, first[k], first[w]));
            }
            lemma_nearer_orders(stars, x, y);
        }
    }
}

/// A query has one answer: the contract of `query` leaves nothing open.
pub proof fn lemma_answer_is_unique(
    stars: Seq<StarView>,
    bound_ly: Decimal,
    include_origin: bool,
    first: Seq<usize>,
    second: Seq<usize>,
)
    requires
        is_answer(stars, bound_ly, include_origin, first),
        is_answer(stars, bound_ly, include_origin, second),
    ensures
        first == second,
{
    lemma_answers_agree(stars, bound_ly, include_origin, first, second, first.len() as int);
    lemma_answers_agree(stars, bound_ly, include_origin, second, first, second.len() as int);
    assert(first =~= second);
}

} // verus!
