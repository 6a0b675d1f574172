//! Evaluation of Bézier curves at rational parameters.
//!
//! A curve over canvas points, taken at `t = numerator / denominator`, has
//! rational coordinates with the common denominator `denominator^n`, where
//! `n` is the degree. The functions here return those numerators and that
//! denominator, as long as they fit the machine integers. Where they do not,
//! the same construction is carried out on a fine grid, each step rounded
//! down, and stays within a known distance of the exact one.

use super::bernstein::{
    bernstein_sum, bernstein_value, bernstein_weight, bounded_by, casteljau, grid_casteljau,
    lemma_bernstein_at_end, lemma_bernstein_at_start, lemma_bernstein_sum_bounded,
    lemma_casteljau_bounded, lemma_casteljau_within, lemma_evaluations_agree,
    lemma_grid_casteljau_at_end, lemma_grid_casteljau_at_start, lemma_grid_casteljau_is_close,
    lemma_grid_casteljau_within, lemma_pow_grows_with_base, lemma_pow_grows_with_exponent,
    lemma_pow_step, lemma_weight_at_most_scale,
};
use super::binomial::{binomial, lemma_binomial_positive};
use super::points::Point;
use crate::vector::Vector2;
use vstd::arithmetic::div_mod::lemma_hoist_over_denominator;
use vstd::arithmetic::power::{lemma_pow0, pow};
use vstd::prelude::*;

verus! {

/// The most points a curve may have: its degree is then the last row for
/// which binomial coefficients are computed.
pub const MAX_CURVE_POINTS: usize = 63;

/// The largest common denominator with which a curve point is still given
/// exactly: `2^95`. Times a canvas coordinate it stays below `2^127`.
pub const MAX_EXACT_SCALE: u128 = 0x8000_0000_0000_0000_0000_0000;

/// The grid on which curve points are given where they cannot be given
/// exactly: this many steps to the canvas unit.
pub const GRID_STEPS: u128 = 65536;

/// A curve parameter `t = numerator / denominator`, between zero and one.
#[derive(Clone, Copy, Debug, PartialEq, Eq, Structural)]
pub struct Parameter {
    pub numerator: u32,
    pub denominator: u32,
}

impl Parameter {
    /// The parameter lies in `[0, 1]` and its denominator is not zero.
    pub open spec fn wf(self) -> bool {
        0 < self.denominator && self.numerator <= self.denominator
    }

    /// The weight of the start of a segment, `1 - t`, times the denominator.
    pub open spec fn start_weight(self) -> int {
        self.denominator - self.numerator
    }

    /// The weight of the end of a segment, `t`, times the denominator.
    pub open spec fn end_weight(self) -> int {
        self.numerator as int
    }

    /// The parameter `numerator / denominator`, when it lies in `[0, 1]`.
    pub fn new(numerator: u32, denominator: u32) -> (parameter: Option<Parameter>)
        ensures
            parameter is Some <==> 0 < denominator && numerator <= denominator,
            parameter matches Some(t) ==> t == (Parameter { numerator, denominator }),
    {
        if 0 < denominator && numerator <= denominator {
            Some(Parameter { numerator, denominator })
        } else {
            None
        }
    }
}

/// The point `(x / denominator, y / denominator)`.
#[derive(Clone, Copy, Debug, PartialEq, Eq, Structural)]
pub struct RationalVector2 {
    pub x: i128,
    pub y: i128,
    pub denominator: u128,
}

/// The horizontal coordinates of the points, in order.
pub open spec fn xs<P: Point>(points: Seq<P>) -> Seq<int> {
    Seq::new(points.len(), |i: int| points[i].spec_position().x as int)
}

/// The vertical coordinates of the points, in order.
pub open spec fn ys<P: Point>(points: Seq<P>) -> Seq<int> {
    Seq::new(points.len(), |i: int| points[i].spec_position().y as int)
}

/// The common denominator of level `level` of the construction at `t`.
pub open spec fn scale_at(t: Parameter, level: nat) -> int {
    pow(t.denominator as int, level)
}

/// Whether a curve of `len` points has a point at `t` whose exact
/// coordinates are given: the common denominator does not exceed
/// [`MAX_EXACT_SCALE`].
pub open spec fn exactly_representable(len: nat, t: Parameter) -> bool {
    scale_at(t, (len - 1) as nat) <= MAX_EXACT_SCALE
}

/// `value` is the point of the curve at `t`: the Bernstein polynomial of the
/// control points in each coordinate, over the common denominator.
pub open spec fn is_curve_point<P: Point>(
    points: Seq<P>,
    t: Parameter,
    value: RationalVector2,
) -> bool {
    &&& value.x == bernstein_value(xs(points), t.start_weight(), t.end_weight())
    &&& value.y == bernstein_value(ys(points), t.start_weight(), t.end_weight())
    &&& value.denominator == scale_at(t, (points.len() - 1) as nat)
}

/// `value` is entry `i` of level `level` of the De Casteljau construction
/// over the points at `t`.
pub open spec fn is_construction_point<P: Point>(
    points: Seq<P>,
    t: Parameter,
    level: nat,
    i: int,
    value: RationalVector2,
) -> bool {
    &&& value.x == casteljau(xs(points), t.start_weight(), t.end_weight(), level, i)
    &&& value.y == casteljau(ys(points), t.start_weight(), t.end_weight(), level, i)
    &&& value.denominator == scale_at(t, level)
}

/// `entries` is the whole of level `level` of the construction: one entry
/// fewer than the level before, each the interpolation of two neighbours.
pub open spec fn is_construction_level<P: Point>(
    points: Seq<P>,
    t: Parameter,
    level: nat,
    entries: Seq<RationalVector2>,
) -> bool {
    &&& entries.len() == points.len() - level
    &&& forall|i: int|
        0 <= i < entries.len() ==> is_construction_point(points, t, level, i, #[trigger] entries[i])
}

/// The De Casteljau construction of a curve point: every level of
/// interpolated points down to the level of two, then the point itself.
pub struct Construction {
    /// Level 1 first. Level `k` has `k` points fewer than the curve has
    /// control points; the last level listed has two.
    pub levels: Vec<Vec<RationalVector2>>,
    /// The single point of the last level: the point of the curve.
    pub final_point: RationalVector2,
}

/// `construction` is the De Casteljau construction over the points at `t`.
pub open spec fn is_construction<P: Point>(
    points: Seq<P>,
    t: Parameter,
    construction: Construction,
) -> bool {
    &&& construction.levels@.len() == points.len() - 2
    &&& forall|l: int|
        0 <= l < construction.levels@.len() ==> is_construction_level(
            points,
            t,
            (l + 1) as nat,
            #[trigger] construction.levels@[l]@,
        )
    &&& is_construction_point(
        points,
        t,
        (points.len() - 1) as nat,
        0,
        construction.final_point,
    )
}

/// `value` is entry `i` of level `level` of the construction as it is
/// computed on the grid: in whole grid steps, every interpolation rounded
/// down.
pub open spec fn is_grid_construction_point<P: Point>(
    points: Seq<P>,
    t: Parameter,
    level: nat,
    i: int,
    value: RationalVector2,
) -> bool {
    &&& value.x == grid_casteljau(
        xs(points),
        t.start_weight(),
        t.end_weight(),
        GRID_STEPS as int,
        level,
        i,
    )
    &&& value.y == grid_casteljau(
        ys(points),
        t.start_weight(),
        t.end_weight(),
        GRID_STEPS as int,
        level,
        i,
    )
    &&& value.denominator == GRID_STEPS
}

/// `entries` is the whole of level `level` of the construction on the grid.
pub open spec fn is_grid_construction_level<P: Point>(
    points: Seq<P>,
    t: Parameter,
    level: nat,
    entries: Seq<RationalVector2>,
) -> bool {
    &&& entries.len() == points.len() - level
    &&& forall|i: int|
        0 <= i < entries.len() ==> is_grid_construction_point(
            points,
            t,
            level,
            i,
            #[trigger] entries[i],
        )
}

/// `construction` is the De Casteljau construction over the points at `t`
/// as it is computed on the grid.
pub open spec fn is_grid_construction<P: Point>(
    points: Seq<P>,
    t: Parameter,
    construction: Construction,
) -> bool {
    &&& construction.levels@.len() == points.len() - 2
    &&& forall|l: int|
        0 <= l < construction.levels@.len() ==> is_grid_construction_level(
            points,
            t,
            (l + 1) as nat,
            #[trigger] construction.levels@[l]@,
        )
    &&& is_grid_construction_point(
        points,
        t,
        (points.len() - 1) as nat,
        0,
        construction.final_point,
    )
}

/// `value` is the point of the curve at `t` as the construction on the grid
/// finds it.
pub open spec fn is_grid_curve_point<P: Point>(
    points: Seq<P>,
    t: Parameter,
    value: RationalVector2,
) -> bool {
    is_grid_construction_point(points, t, (points.len() - 1) as nat, 0, value)
}

/// `value` gives the point of the curve at `t` as well as it can be given:
/// exactly where that is representable, and on the grid where it is not.
pub open spec fn is_best_curve_point<P: Point>(
    points: Seq<P>,
    t: Parameter,
    value: RationalVector2,
) -> bool {
    if exactly_representable(points.len(), t) {
        is_curve_point(points, t, value)
    } else {
        is_grid_curve_point(points, t, value)
    }
}

/// `construction` gives the construction over the points at `t` as well as
/// it can be given: exactly where that is representable, and on the grid
/// where it is not.
pub open spec fn is_best_construction<P: Point>(
    points: Seq<P>,
    t: Parameter,
    construction: Construction,
) -> bool {
    if exactly_representable(points.len(), t) {
        is_construction(points, t, construction)
    } else {
        is_grid_construction(points, t, construction)
    }
}

/// The bound on the absolute value of a canvas coordinate.
pub const COORDINATE_BOUND: i64 = 0x8000_0000;

proof fn lemma_coordinates_bounded<P: Point>(points: Seq<P>)
    ensures
        bounded_by(xs(points), COORDINATE_BOUND as int),
        bounded_by(ys(points), COORDINATE_BOUND as int),
{
}

/// `denominator^exponent`, or `None` when that exceeds [`MAX_EXACT_SCALE`].
fn checked_scale(denominator: u32, exponent: usize) -> (scale: Option<u128>)
    requires
        denominator >= 1,
    ensures
        scale is Some <==> pow(denominator as int, exponent as nat) <= MAX_EXACT_SCALE,
        scale matches Some(s) ==> s == pow(denominator as int, exponent as nat),
{
    let mut scale: u128 = 1;
    let mut done: usize = 0;
    proof {
        lemma_pow0(denominator as int);
    }
    while done < exponent
        invariant
            denominator >= 1,
            done <= exponent,
            scale == pow(denominator as int, done as nat),
            scale <= MAX_EXACT_SCALE,
        decreases exponent - done,
    {
        proof {
            lemma_pow_step(denominator as int, (done + 1) as nat);
            lemma_pow_grows_with_exponent(denominator as int, (done + 1) as nat, exponent as nat);
        }
        if scale > MAX_EXACT_SCALE / (denominator as u128) {
            proof {
                let d = denominator as int;
                let s = scale as int;
                assert(d * s > MAX_EXACT_SCALE) by (nonlinear_arith)
                    requires
                        d >= 1,
                        s > MAX_EXACT_SCALE as int / d,
                ;
            }
            return None;
        }
        proof {
            let d = denominator as int;
            let s = scale as int;
            assert(d * s <= MAX_EXACT_SCALE) by (nonlinear_arith)
                requires
                    d >= 1,
                    0 <= s <= MAX_EXACT_SCALE as int / d,
            ;
            assert(s * d == d * s) by (nonlinear_arith);
        }
        scale = scale * (denominator as u128);
        done = done + 1;
    }
    Some(scale)
}

/// The powers `base^0 ..= base^top` of a weight that is at most the
/// denominator.
fn power_table(base: u32, top: usize, Ghost(denominator): Ghost<int>) -> (table: Vec<u128>)
    requires
        base <= denominator,
        1 <= denominator,
        pow(denominator, top as nat) <= MAX_EXACT_SCALE,
        top < usize::MAX,
    ensures
        table.len() == top + 1,
        forall|j: int| 0 <= j <= top ==> #[trigger] table[j] == pow(base as int, j as nat),
{
    let mut table: Vec<u128> = Vec::new();
    table.push(1);
    proof {
        lemma_pow0(base as int);
    }
    let mut j: usize = 0;
    while j < top
        invariant
            j <= top,
            top < usize::MAX,
            base <= denominator,
            1 <= denominator,
            pow(denominator, top as nat) <= MAX_EXACT_SCALE,
            table.len() == j + 1,
            forall|i: int| 0 <= i <= j ==> #[trigger] table[i] == pow(base as int, i as nat),
        decreases top - j,
    {
        let last = table[j];
        proof {
            lemma_pow_step(base as int, (j + 1) as nat);
            lemma_pow_grows_with_base(base as int, denominator, (j + 1) as nat);
            lemma_pow_grows_with_exponent(denominator, (j + 1) as nat, top as nat);
            assert(last == pow(base as int, j as nat));
            assert(last * base == base * last) by (nonlinear_arith);
        }
        table.push(last * (base as u128));
        j = j + 1;
    }
    table
}

/// The point of the Bézier curve over `points` at `t`, by its Bernstein
/// polynomial: the sum of the control points, each weighted by
/// `C(n, i) * (1 - t)^(n - i) * t^i`.
///
/// The result is exact. It is `None` when the common denominator
/// `denominator^n` exceeds [`MAX_EXACT_SCALE`].
pub fn evalute_bezier_curve<P: Point>(points: &[P], t: Parameter) -> (value: Option<
    RationalVector2,
>)
    requires
        2 <= points.len() <= MAX_CURVE_POINTS,
        t.wf(),
    ensures
        value is Some <==> exactly_representable(points@.len(), t),
        value matches Some(v) ==> is_curve_point(points@, t, v),
{
    let n = points.len() - 1;
    let scale = match checked_scale(t.denominator, n) {
        Some(scale) => scale,
        None => {
            return None;
        },
    };
    let a: u32 = t.denominator - t.numerator;
    let b: u32 = t.numerator;
    let powers_a = power_table(a, n, Ghost(t.denominator as int));
    let powers_b = power_table(b, n, Ghost(t.denominator as int));
    let ghost px = xs(points@);
    let ghost py = ys(points@);
    let ghost ai = a as int;
    let ghost bi = b as int;
    let ghost total = pow(ai + bi, n as nat);
    let mut x: i128 = 0;
    let mut y: i128 = 0;
    let mut i: usize = 0;
    while i <= n
        invariant
            n == points.len() - 1,
            1 <= n < MAX_CURVE_POINTS,
            i <= n + 1,
            ai == a && bi == b,
            ai + bi == t.denominator,
            total == pow(ai + bi, n as nat),
            total == scale,
            scale <= MAX_EXACT_SCALE,
            px == xs(points@),
            py == ys(points@),
            powers_a.len() == n + 1,
            powers_b.len() == n + 1,
            forall|j: int| 0 <= j <= n ==> #[trigger] powers_a[j] == pow(ai, j as nat),
            forall|j: int| 0 <= j <= n ==> #[trigger] powers_b[j] == pow(bi, j as nat),
            x == bernstein_sum(px, 0, n as nat, ai, bi, i as nat),
            y == bernstein_sum(py, 0, n as nat, ai, bi, i as nat),
        decreases n + 1 - i,
    {
        let coefficient = binomial(n as u64, i as u64);
        let power_a = powers_a[n - i];
        let power_b = powers_b[i];
        proof {
            let c = coefficient as int;
            let pa = power_a as int;
            let pb = power_b as int;
            let w = bernstein_weight(n as nat, i as nat, ai, bi);
            lemma_binomial_positive(n as nat, i as nat);
            lemma_weight_at_most_scale(n as nat, i as nat, ai, bi);
            assert(pa == pow(ai, (n - i) as nat));
            assert(pb == pow(bi, i as nat));
            assert(w == c * pa * pb);
            assert(c * (pa * pb) == w && 0 <= pa * pb <= w) by (nonlinear_arith)
                requires
                    w == c * pa * pb,
                    c >= 1,
                    pa >= 0,
                    pb >= 0,
            ;
        }
        let weight: u128 = (coefficient as u128) * (power_a * power_b);
        let position = points[i].get_position();
        proof {
            let w = weight as int;
            let vx = position.x as int;
            let vy = position.y as int;
            lemma_coordinates_bounded(points@);
            lemma_bernstein_sum_bounded(px, n as nat, ai, bi, (i + 1) as nat, COORDINATE_BOUND as int);
            lemma_bernstein_sum_bounded(py, n as nat, ai, bi, (i + 1) as nat, COORDINATE_BOUND as int);
            assert(px[0 + (i + 1) - 1] == vx);
            assert(py[0 + (i + 1) - 1] == vy);
            assert(-0x8000_0000 * MAX_EXACT_SCALE <= w * vx <= 0x8000_0000 * MAX_EXACT_SCALE
                && -0x8000_0000 * MAX_EXACT_SCALE <= w * vy <= 0x8000_0000 * MAX_EXACT_SCALE)
                by (nonlinear_arith)
                requires
                    0 <= w <= MAX_EXACT_SCALE,
                    -0x8000_0000 <= vx <= 0x8000_0000,
                    -0x8000_0000 <= vy <= 0x8000_0000,
            ;
            assert(COORDINATE_BOUND * total <= 0x8000_0000 * MAX_EXACT_SCALE
                && -COORDINATE_BOUND * total >= -0x8000_0000 * MAX_EXACT_SCALE)
                by (nonlinear_arith)
                requires
                    0 <= total <= MAX_EXACT_SCALE,
                    COORDINATE_BOUND == 0x8000_0000,
            ;
        }
        x = x + (weight as i128) * (position.x as i128);
        y = y + (weight as i128) * (position.y as i128);
        i = i + 1;
    }
    Some(RationalVector2 { x, y, denominator: scale })
}

/// One more level of the construction: each entry interpolates between two
/// neighbours of the level before.
fn interpolate_level(
    previous: &Vec<RationalVector2>,
    t: Parameter,
    scale: u128,
    Ghost(px): Ghost<Seq<int>>,
    Ghost(py): Ghost<Seq<int>>,
    Ghost(level): Ghost<nat>,
) -> (next: Vec<RationalVector2>)
    requires
        t.wf(),
        previous.len() >= 2,
        px.len() == previous.len() + level,
        py.len() == px.len(),
        bounded_by(px, COORDINATE_BOUND as int),
        bounded_by(py, COORDINATE_BOUND as int),
        scale == scale_at(t, level + 1),
        scale <= MAX_EXACT_SCALE,
        forall|i: int|
            0 <= i < previous.len() ==> (#[trigger] previous[i]).x == casteljau(
                px,
                t.start_weight(),
                t.end_weight(),
                level,
                i,
            ) && previous[i].y == casteljau(py, t.start_weight(), t.end_weight(), level, i),
    ensures
        next.len() == previous.len() - 1,
        forall|i: int|
            0 <= i < next.len() ==> (#[trigger] next[i]).x == casteljau(
                px,
                t.start_weight(),
                t.end_weight(),
                level + 1,
                i,
            ) && next[i].y == casteljau(py, t.start_weight(), t.end_weight(), level + 1, i)
                && next[i].denominator == scale,
{
    let a: i128 = (t.denominator - t.numerator) as i128;
    let b: i128 = t.numerator as i128;
    let ghost ai = t.start_weight();
    let ghost bi = t.end_weight();
    let mut next: Vec<RationalVector2> = Vec::new();
    let mut i: usize = 0;
    while i + 1 < previous.len()
        invariant
            t.wf(),
            a == ai && b == bi,
            ai == t.start_weight(),
            bi == t.end_weight(),
            i + 1 <= previous.len(),
            previous.len() >= 2,
            px.len() == previous.len() + level,
            py.len() == px.len(),
            bounded_by(px, COORDINATE_BOUND as int),
            bounded_by(py, COORDINATE_BOUND as int),
            scale == scale_at(t, level + 1),
            scale <= MAX_EXACT_SCALE,
            forall|j: int|
                0 <= j < previous.len() ==> (#[trigger] previous[j]).x == casteljau(
                    px,
                    ai,
                    bi,
                    level,
                    j,
                ) && previous[j].y == casteljau(py, ai, bi, level, j),
            next.len() == i,
            forall|j: int|
                0 <= j < i ==> (#[trigger] next[j]).x == casteljau(px, ai, bi, level + 1, j)
                    && next[j].y == casteljau(py, ai, bi, level + 1, j) && next[j].denominator
                    == scale,
        decreases previous.len() - i,
    {
        let left = previous[i];
        let right = previous[i + 1];
        proof {
            let index = i as int;
            lemma_pow_step(ai + bi, level + 1);
            let lower = pow(ai + bi, level);
            lemma_casteljau_bounded(px, ai, bi, level, index, COORDINATE_BOUND as int);
            lemma_casteljau_bounded(px, ai, bi, level, index + 1, COORDINATE_BOUND as int);
            lemma_casteljau_bounded(py, ai, bi, level, index, COORDINATE_BOUND as int);
            lemma_casteljau_bounded(py, ai, bi, level, index + 1, COORDINATE_BOUND as int);
            let limit = COORDINATE_BOUND * lower;
            assert(-COORDINATE_BOUND * lower == -limit) by (nonlinear_arith)
                requires
                    limit == COORDINATE_BOUND * lower,
            ;
            assert((ai + bi) * limit <= 0x8000_0000 * MAX_EXACT_SCALE) by (nonlinear_arith)
                requires
                    limit == COORDINATE_BOUND * lower,
                    COORDINATE_BOUND == 0x8000_0000,
                    (ai + bi) * lower <= MAX_EXACT_SCALE,
            ;
            lemma_lerp_fits(ai, bi, left.x as int, right.x as int, limit);
            lemma_lerp_fits(ai, bi, left.y as int, right.y as int, limit);
        }
        next.push(
            RationalVector2 {
                x: a * left.x + b * right.x,
                y: a * left.y + b * right.y,
                denominator: scale,
            },
        );
        i = i + 1;
    }
    next
}

/// An interpolation step between bounded values stays bounded, and so does
/// each of its two products.
proof fn lemma_lerp_fits(a: int, b: int, left: int, right: int, limit: int)
    by (nonlinear_arith)
    requires
        a >= 0,
        b >= 0,
        -limit <= left <= limit,
        -limit <= right <= limit,
    ensures
        -((a + b) * limit) <= a * left <= (a + b) * limit,
        -((a + b) * limit) <= b * right <= (a + b) * limit,
        -((a + b) * limit) <= a * left + b * right <= (a + b) * limit,
{
}

/// Level zero of the construction: the control points themselves.
fn base_level<P: Point>(points: &[P], t: Parameter) -> (base: Vec<RationalVector2>)
    ensures
        base.len() == points.len(),
        forall|i: int|
            0 <= i < base.len() ==> (#[trigger] base[i]).x == casteljau(
                xs(points@),
                t.start_weight(),
                t.end_weight(),
                0,
                i,
            ) && base[i].y == casteljau(ys(points@), t.start_weight(), t.end_weight(), 0, i),
{
    let mut base: Vec<RationalVector2> = Vec::new();
    let mut i: usize = 0;
    while i < points.len()
        invariant
            i <= points.len(),
            base.len() == i,
            forall|j: int|
                0 <= j < i ==> (#[trigger] base[j]).x == xs(points@)[j] && base[j].y == ys(
                    points@,
                )[j],
        decreases points.len() - i,
    {
        let position = points[i].get_position();
        base.push(RationalVector2 { x: position.x as i128, y: position.y as i128, denominator: 1 });
        i = i + 1;
    }
    base
}

/// The De Casteljau construction of the curve point at `t`: the control
/// points are interpolated pairwise at `t`, level after level, each level one
/// point shorter than the one before, until a single point is left.
///
/// Every level is returned, exactly. The result is `None` when the common
/// denominator of the last level, `denominator^n`, exceeds
/// [`MAX_EXACT_SCALE`].
pub fn de_casteljau<P: Point>(points: &[P], t: Parameter) -> (construction: Option<
    Construction,
>)
    requires
        2 <= points.len() <= MAX_CURVE_POINTS,
        t.wf(),
    ensures
        construction is Some <==> exactly_representable(points@.len(), t),
        construction matches Some(c) ==> is_construction(points@, t, c),
{
    let n = points.len() - 1;
    if checked_scale(t.denominator, n).is_none() {
        return None;
    }
    let scales = power_table(t.denominator, n, Ghost(t.denominator as int));
    let base = base_level(points, t);
    let ghost px = xs(points@);
    let ghost py = ys(points@);
    proof {
        lemma_coordinates_bounded(points@);
    }
    let mut levels: Vec<Vec<RationalVector2>> = Vec::new();
    let mut k: usize = 1;
    while k < n
        invariant
            t.wf(),
            n == points.len() - 1,
            1 <= k <= n,
            n < MAX_CURVE_POINTS,
            px == xs(points@),
            py == ys(points@),
            bounded_by(px, COORDINATE_BOUND as int),
            bounded_by(py, COORDINATE_BOUND as int),
            scales.len() == n + 1,
            forall|j: int| 0 <= j <= n ==> #[trigger] scales[j] == scale_at(t, j as nat),
            scale_at(t, n as nat) <= MAX_EXACT_SCALE,
            base.len() == points.len(),
            forall|i: int|
                0 <= i < base.len() ==> (#[trigger] base[i]).x == casteljau(
                    px,
                    t.start_weight(),
                    t.end_weight(),
                    0,
                    i,
                ) && base[i].y == casteljau(py, t.start_weight(), t.end_weight(), 0, i),
            levels.len() == k - 1,
            forall|l: int|
                0 <= l < levels.len() ==> is_construction_level(
                    points@,
                    t,
                    (l + 1) as nat,
                    #[trigger] levels@[l]@,
                ),
        decreases n - k,
    {
        proof {
            lemma_pow_grows_with_exponent(t.denominator as int, k as nat, n as nat);
        }
        let next = if k == 1 {
            interpolate_level(&base, t, scales[k], Ghost(px), Ghost(py), Ghost(0))
        } else {
            proof {
                assert(is_construction_level(points@, t, (k - 1) as nat, levels@[k - 2]@));
            }
            interpolate_level(
                &levels[k - 2],
                t,
                scales[k],
                Ghost(px),
                Ghost(py),
                Ghost((k - 1) as nat),
            )
        };
        proof {
            assert(is_construction_level(points@, t, k as nat, next@));
        }
        let ghost before = levels@;
        levels.push(next);
        proof {
            assert forall|l: int| 0 <= l < levels.len() implies is_construction_level(
                points@,
                t,
                (l + 1) as nat,
                #[trigger] levels@[l]@,
            ) by {
                if l < before.len() {
                    assert(levels@[l] == before[l]);
                }
            }
        }
        k = k + 1;
    }
    let last = if n == 1 {
        interpolate_level(&base, t, scales[n], Ghost(px), Ghost(py), Ghost(0))
    } else {
        proof {
            assert(is_construction_level(points@, t, (n - 1) as nat, levels@[n - 2]@));
        }
        interpolate_level(
            &levels[n - 2],
            t,
            scales[n],
            Ghost(px),
            Ghost(py),
            Ghost((n - 1) as nat),
        )
    };
    let final_point = last[0];
    Some(Construction { levels, final_point })
}

/// The last point of the construction is the point of the curve: the two
/// ways of evaluating a curve agree, exactly and for every parameter.
pub proof fn lemma_construction_ends_on_curve<P: Point>(
    points: Seq<P>,
    t: Parameter,
    last: RationalVector2,
)
    requires
        points.len() >= 1,
        is_construction_point(points, t, (points.len() - 1) as nat, 0, last),
    ensures
        is_curve_point(points, t, last),
{
    lemma_evaluations_agree(xs(points), t.start_weight(), t.end_weight());
    lemma_evaluations_agree(ys(points), t.start_weight(), t.end_weight());
}

/// At `t = 0` the curve is at its first control point.
pub proof fn lemma_curve_starts_at_first_point<P: Point>(
    points: Seq<P>,
    t: Parameter,
    value: RationalVector2,
)
    requires
        points.len() >= 1,
        t.numerator == 0,
        is_curve_point(points, t, value),
    ensures
        value.x == value.denominator * points[0].spec_position().x,
        value.y == value.denominator * points[0].spec_position().y,
{
    lemma_bernstein_at_start(xs(points), t.start_weight());
    lemma_bernstein_at_start(ys(points), t.start_weight());
}

/// At `t = 1` the curve is at its last control point.
pub proof fn lemma_curve_ends_at_last_point<P: Point>(
    points: Seq<P>,
    t: Parameter,
    value: RationalVector2,
)
    requires
        points.len() >= 1,
        t.numerator == t.denominator,
        is_curve_point(points, t, value),
    ensures
        value.x == value.denominator * points[points.len() - 1].spec_position().x,
        value.y == value.denominator * points[points.len() - 1].spec_position().y,
{
    lemma_bernstein_at_end(xs(points), t.end_weight());
    lemma_bernstein_at_end(ys(points), t.end_weight());
}

/// A curve never leaves the extent of its control points: in each
/// coordinate its points lie between the least and the greatest of them.
pub proof fn lemma_curve_within_control_points<P: Point>(
    points: Seq<P>,
    t: Parameter,
    value: RationalVector2,
    low: Vector2,
    high: Vector2,
)
    requires
        points.len() >= 1,
        t.wf(),
        is_curve_point(points, t, value),
        forall|i: int|
            0 <= i < points.len() ==> low.x <= (#[trigger] points[i]).spec_position().x <= high.x
                && low.y <= points[i].spec_position().y <= high.y,
    ensures
        low.x * value.denominator <= value.x <= high.x * value.denominator,
        low.y * value.denominator <= value.y <= high.y * value.denominator,
{
    let n = (points.len() - 1) as nat;
    let a = t.start_weight();
    let b = t.end_weight();
    lemma_evaluations_agree(xs(points), a, b);
    lemma_evaluations_agree(ys(points), a, b);
    lemma_casteljau_within(xs(points), a, b, n, 0, low.x as int, high.x as int);
    lemma_casteljau_within(ys(points), a, b, n, 0, low.y as int, high.y as int);
}

/// Whether the values never fall from one to the next.
pub open spec fn is_rising(values: Seq<int>) -> bool {
    forall|i: int, j: int| 0 <= i <= j < values.len() ==> values[i] <= values[j]
}

/// Whether the values never rise from one to the next.
pub open spec fn is_falling(values: Seq<int>) -> bool {
    forall|i: int, j: int| 0 <= i <= j < values.len() ==> values[i] >= values[j]
}

/// A curve whose control points follow one another in one direction along
/// each axis, as those of a segment flattened to a straight line do when
/// they lie on it in order, stays within the box spanned by its two end
/// points. As the curve passes through both of them, that box is its
/// bounding box.
pub proof fn lemma_ordered_curve_within_ends<P: Point>(
    points: Seq<P>,
    t: Parameter,
    value: RationalVector2,
)
    requires
        points.len() >= 1,
        t.wf(),
        is_curve_point(points, t, value),
        is_rising(xs(points)) || is_falling(xs(points)),
        is_rising(ys(points)) || is_falling(ys(points)),
    ensures
        ({
            let first = points[0].spec_position();
            let last = points[points.len() - 1].spec_position();
            let left = if first.x <= last.x {
                first.x
            } else {
                last.x
            };
            let right = if first.x <= last.x {
                last.x
            } else {
                first.x
            };
            let top = if first.y <= last.y {
                first.y
            } else {
                last.y
            };
            let bottom = if first.y <= last.y {
                last.y
            } else {
                first.y
            };
            &&& left * value.denominator <= value.x <= right * value.denominator
            &&& top * value.denominator <= value.y <= bottom * value.denominator
        }),
{
    let n = points.len() - 1;
    let px = xs(points);
    let py = ys(points);
    let first = points[0].spec_position();
    let last = points[n].spec_position();
    let low = Vector2 {
        x: if first.x <= last.x {
            first.x
        } else {
            last.x
        },
        y: if first.y <= last.y {
            first.y
        } else {
            last.y
        },
    };
    let high = Vector2 {
        x: if first.x <= last.x {
            last.x
        } else {
            first.x
        },
        y: if first.y <= last.y {
            last.y
        } else {
            first.y
        },
    };
    assert forall|i: int| 0 <= i < points.len() implies low.x <= (
    #[trigger] points[i]).spec_position().x <= high.x && low.y <= points[i].spec_position().y
        <= high.y by {
        assert(px[i] == points[i].spec_position().x);
        assert(py[i] == points[i].spec_position().y);
        assert(px[0] == first.x && px[n] == last.x);
        assert(py[0] == first.y && py[n] == last.y);
        if is_rising(px) {
            assert(px[0] <= px[i] && px[i] <= px[n]);
        } else {
            assert(px[0] >= px[i] && px[i] >= px[n]);
        }
        if is_rising(py) {
            assert(py[0] <= py[i] && py[i] <= py[n]);
        } else {
            assert(py[0] >= py[i] && py[i] >= py[n]);
        }
    }
    lemma_curve_within_control_points(points, t, value, low, high);
}

/// The bound on the absolute value of a coordinate in grid steps.
pub const GRID_BOUND: i128 = 0x8000_0000_0000;

/// The mean of `left` and `right` with the weights of `t`, rounded down.
fn rounded_mean(t: Parameter, left: i128, right: i128) -> (mean: i128)
    requires
        t.wf(),
        -GRID_BOUND <= left <= GRID_BOUND,
        -GRID_BOUND <= right <= GRID_BOUND,
    ensures
        mean == (t.start_weight() * left + t.end_weight() * right) / (t.start_weight()
            + t.end_weight()),
{
    let a: i128 = (t.denominator - t.numerator) as i128;
    let b: i128 = t.numerator as i128;
    let d: i128 = t.denominator as i128;
    proof {
        assert(-(d * GRID_BOUND) <= a * left <= d * GRID_BOUND && -(d * GRID_BOUND) <= b * right
            <= d * GRID_BOUND && -(d * GRID_BOUND) <= a * left + b * right <= d * GRID_BOUND)
            by (nonlinear_arith)
            requires
                a >= 0,
                b >= 0,
                a + b == d,
                -GRID_BOUND <= left <= GRID_BOUND,
                -GRID_BOUND <= right <= GRID_BOUND,
        ;
        assert(0 <= d * GRID_BOUND <= 0x1_0000_0000 * GRID_BOUND) by (nonlinear_arith)
            requires
                0 <= d <= 0x1_0000_0000,
        ;
        assert(GRID_BOUND * d == d * GRID_BOUND) by (nonlinear_arith);
        lemma_hoist_over_denominator(a * left + b * right, GRID_BOUND as int, d as nat);
    }
    // Shifted by a multiple of the divisor, the dividend is not negative,
    // and the machine division rounds down as the mathematical one does.
    let shifted: i128 = a * left + b * right + d * GRID_BOUND;
    shifted / d - GRID_BOUND
}

/// One more level of the construction on the grid.
fn interpolate_grid_level(
    previous: &Vec<RationalVector2>,
    t: Parameter,
    Ghost(px): Ghost<Seq<int>>,
    Ghost(py): Ghost<Seq<int>>,
    Ghost(level): Ghost<nat>,
) -> (next: Vec<RationalVector2>)
    requires
        t.wf(),
        previous.len() >= 2,
        px.len() == previous.len() + level,
        py.len() == px.len(),
        bounded_by(px, COORDINATE_BOUND as int),
        bounded_by(py, COORDINATE_BOUND as int),
        forall|i: int|
            0 <= i < previous.len() ==> (#[trigger] previous[i]).x == grid_casteljau(
                px,
                t.start_weight(),
                t.end_weight(),
                GRID_STEPS as int,
                level,
                i,
            ) && previous[i].y == grid_casteljau(
                py,
                t.start_weight(),
                t.end_weight(),
                GRID_STEPS as int,
                level,
                i,
            ),
    ensures
        next.len() == previous.len() - 1,
        forall|i: int|
            0 <= i < next.len() ==> (#[trigger] next[i]).x == grid_casteljau(
                px,
                t.start_weight(),
                t.end_weight(),
                GRID_STEPS as int,
                level + 1,
                i,
            ) && next[i].y == grid_casteljau(
                py,
                t.start_weight(),
                t.end_weight(),
                GRID_STEPS as int,
                level + 1,
                i,
            ) && next[i].denominator == GRID_STEPS,
{
    let ghost a = t.start_weight();
    let ghost b = t.end_weight();
    let ghost grid = GRID_STEPS as int;
    let mut next: Vec<RationalVector2> = Vec::new();
    let mut i: usize = 0;
    while i + 1 < previous.len()
        invariant
            t.wf(),
            a == t.start_weight(),
            b == t.end_weight(),
            grid == GRID_STEPS,
            i + 1 <= previous.len(),
            previous.len() >= 2,
            px.len() == previous.len() + level,
            py.len() == px.len(),
            bounded_by(px, COORDINATE_BOUND as int),
            bounded_by(py, COORDINATE_BOUND as int),
            forall|j: int|
                0 <= j < previous.len() ==> (#[trigger] previous[j]).x == grid_casteljau(
                    px,
                    a,
                    b,
                    grid,
                    level,
                    j,
                ) && previous[j].y == grid_casteljau(py, a, b, grid, level, j),
            next.len() == i,
            forall|j: int|
                0 <= j < i ==> (#[trigger] next[j]).x == grid_casteljau(
                    px,
                    a,
                    b,
                    grid,
                    level + 1,
                    j,
                ) && next[j].y == grid_casteljau(py, a, b, grid, level + 1, j)
                    && next[j].denominator == GRID_STEPS,
        decreases previous.len() - i,
    {
        let left = previous[i];
        let right = previous[i + 1];
        proof {
            let index = i as int;
            let bound = COORDINATE_BOUND as int;
            lemma_grid_casteljau_within(px, a, b, grid, level, index, -bound, bound);
            lemma_grid_casteljau_within(px, a, b, grid, level, index + 1, -bound, bound);
            lemma_grid_casteljau_within(py, a, b, grid, level, index, -bound, bound);
            lemma_grid_casteljau_within(py, a, b, grid, level, index + 1, -bound, bound);
        }
        next.push(
            RationalVector2 {
                x: rounded_mean(t, left.x, right.x),
                y: rounded_mean(t, left.y, right.y),
                denominator: GRID_STEPS,
            },
        );
        i = i + 1;
    }
    next
}

/// Level zero of the construction on the grid: the control points in grid
/// steps.
fn grid_base_level<P: Point>(points: &[P], t: Parameter) -> (base: Vec<RationalVector2>)
    ensures
        base.len() == points.len(),
        forall|i: int|
            0 <= i < base.len() ==> (#[trigger] base[i]).x == grid_casteljau(
                xs(points@),
                t.start_weight(),
                t.end_weight(),
                GRID_STEPS as int,
                0,
                i,
            ) && base[i].y == grid_casteljau(
                ys(points@),
                t.start_weight(),
                t.end_weight(),
                GRID_STEPS as int,
                0,
                i,
            ),
{
    let mut base: Vec<RationalVector2> = Vec::new();
    let mut i: usize = 0;
    while i < points.len()
        invariant
            i <= points.len(),
            base.len() == i,
            forall|j: int|
                0 <= j < i ==> (#[trigger] base[j]).x == xs(points@)[j] * GRID_STEPS && base[j].y
                    == ys(points@)[j] * GRID_STEPS,
        decreases points.len() - i,
    {
        let position = points[i].get_position();
        base.push(
            RationalVector2 {
                x: position.x as i128 * 65536,
                y: position.y as i128 * 65536,
                denominator: GRID_STEPS,
            },
        );
        i = i + 1;
    }
    base
}

/// The De Casteljau construction of the curve point at `t`, computed on the
/// grid of [`GRID_STEPS`] steps to the unit: the control points are
/// interpolated pairwise at `t`, level after level, and every interpolated
/// coordinate is rounded down to a whole grid step.
///
/// This works for every curve and every parameter. Each level falls behind
/// the exact construction by at most one grid step more than the level
/// before: see [`lemma_grid_point_is_close`].
pub fn de_casteljau_on_grid<P: Point>(points: &[P], t: Parameter) -> (construction: Construction)
    requires
        2 <= points.len(),
        t.wf(),
    ensures
        is_grid_construction(points@, t, construction),
{
    let n = points.len() - 1;
    let base = grid_base_level(points, t);
    let ghost px = xs(points@);
    let ghost py = ys(points@);
    proof {
        lemma_coordinates_bounded(points@);
    }
    let mut levels: Vec<Vec<RationalVector2>> = Vec::new();
    let mut k: usize = 1;
    while k < n
        invariant
            t.wf(),
            n == points.len() - 1,
            1 <= k <= n,
            px == xs(points@),
            py == ys(points@),
            bounded_by(px, COORDINATE_BOUND as int),
            bounded_by(py, COORDINATE_BOUND as int),
            base.len() == points.len(),
            forall|i: int|
                0 <= i < base.len() ==> (#[trigger] base[i]).x == grid_casteljau(
                    px,
                    t.start_weight(),
                    t.end_weight(),
                    GRID_STEPS as int,
                    0,
                    i,
                ) && base[i].y == grid_casteljau(
                    py,
                    t.start_weight(),
                    t.end_weight(),
                    GRID_STEPS as int,
                    0,
                    i,
                ),
            levels.len() == k - 1,
            forall|l: int|
                0 <= l < levels.len() ==> is_grid_construction_level(
                    points@,
                    t,
                    (l + 1) as nat,
                    #[trigger] levels@[l]@,
                ),
        decreases n - k,
    {
        let next = if k == 1 {
            interpolate_grid_level(&base, t, Ghost(px), Ghost(py), Ghost(0))
        } else {
            proof {
                assert(is_grid_construction_level(points@, t, (k - 1) as nat, levels@[k - 2]@));
            }
            interpolate_grid_level(
                &levels[k - 2],
                t,
                Ghost(px),
                Ghost(py),
                Ghost((k - 1) as nat),
            )
        };
        proof {
            assert(is_grid_construction_level(points@, t, k as nat, next@));
        }
        let ghost before = levels@;
        levels.push(next);
        proof {
            assert forall|l: int| 0 <= l < levels.len() implies is_grid_construction_level(
                points@,
                t,
                (l + 1) as nat,
                #[trigger] levels@[l]@,
            ) by {
                if l < before.len() {
                    assert(levels@[l] == before[l]);
                }
            }
        }
        k = k + 1;
    }
    let last = if n == 1 {
        interpolate_grid_level(&base, t, Ghost(px), Ghost(py), Ghost(0))
    } else {
        proof {
            assert(is_grid_construction_level(points@, t, (n - 1) as nat, levels@[n - 2]@));
        }
        interpolate_grid_level(&levels[n - 2], t, Ghost(px), Ghost(py), Ghost((n - 1) as nat))
    };
    let final_point = last[0];
    Construction { levels, final_point }
}

/// The point of the curve at `t`, computed on the grid: the last point of
/// [`de_casteljau_on_grid`].
pub fn evaluate_on_grid<P: Point>(points: &[P], t: Parameter) -> (value: RationalVector2)
    requires
        2 <= points.len(),
        t.wf(),
    ensures
        is_grid_curve_point(points@, t, value),
{
    de_casteljau_on_grid(points, t).final_point
}

/// The point of the curve at `t` as well as it can be given: exactly where
/// that is representable, on the grid where it is not.
pub fn best_curve_point<P: Point>(points: &[P], t: Parameter) -> (value: RationalVector2)
    requires
        2 <= points.len() <= MAX_CURVE_POINTS,
        t.wf(),
    ensures
        is_best_curve_point(points@, t, value),
{
    match evalute_bezier_curve(points, t) {
        Some(value) => value,
        None => evaluate_on_grid(points, t),
    }
}

/// The construction of the curve point at `t` as well as it can be given:
/// exactly where that is representable, on the grid where it is not.
pub fn best_construction<P: Point>(points: &[P], t: Parameter) -> (construction: Construction)
    requires
        2 <= points.len() <= MAX_CURVE_POINTS,
        t.wf(),
    ensures
        is_best_construction(points@, t, construction),
{
    match de_casteljau(points, t) {
        Some(construction) => construction,
        None => de_casteljau_on_grid(points, t),
    }
}

/// A curve point found on the grid lies below the exact one by at most one
/// grid step for each degree of the curve, in either coordinate: with `n`
/// the degree and `scale` the exact common denominator,
/// `0 <= GRID_STEPS * exact - scale * on_grid <= n * scale`.
pub proof fn lemma_grid_point_is_close<P: Point>(
    points: Seq<P>,
    t: Parameter,
    value: RationalVector2,
)
    requires
        points.len() >= 1,
        t.wf(),
        is_grid_curve_point(points, t, value),
    ensures
        ({
            let n = (points.len() - 1) as nat;
            let scale = scale_at(t, n);
            let exact_x = bernstein_value(xs(points), t.start_weight(), t.end_weight());
            let exact_y = bernstein_value(ys(points), t.start_weight(), t.end_weight());
            &&& 0 <= GRID_STEPS * exact_x - scale * value.x <= n * scale
            &&& 0 <= GRID_STEPS * exact_y - scale * value.y <= n * scale
        }),
{
    let n = (points.len() - 1) as nat;
    let a = t.start_weight();
    let b = t.end_weight();
    lemma_evaluations_agree(xs(points), a, b);
    lemma_evaluations_agree(ys(points), a, b);
    lemma_grid_casteljau_is_close(xs(points), a, b, GRID_STEPS as int, n, 0);
    lemma_grid_casteljau_is_close(ys(points), a, b, GRID_STEPS as int, n, 0);
}

/// On the grid, too, the curve starts at its first control point and ends
/// at its last, exactly.
pub proof fn lemma_grid_curve_meets_its_ends<P: Point>(
    points: Seq<P>,
    t: Parameter,
    value: RationalVector2,
)
    requires
        points.len() >= 1,
        t.wf(),
        is_grid_curve_point(points, t, value),
    ensures
        t.numerator == 0 ==> value.x == points[0].spec_position().x * GRID_STEPS && value.y
            == points[0].spec_position().y * GRID_STEPS,
        t.numerator == t.denominator ==> value.x == points[points.len() - 1].spec_position().x
            * GRID_STEPS && value.y == points[points.len() - 1].spec_position().y * GRID_STEPS,
{
    let n = (points.len() - 1) as nat;
    if t.numerator == 0 {
        lemma_grid_casteljau_at_start(xs(points), t.start_weight(), GRID_STEPS as int, n, 0);
        lemma_grid_casteljau_at_start(ys(points), t.start_weight(), GRID_STEPS as int, n, 0);
    }
    if t.numerator == t.denominator {
        lemma_grid_casteljau_at_end(xs(points), t.end_weight(), GRID_STEPS as int, n, 0);
        lemma_grid_casteljau_at_end(ys(points), t.end_weight(), GRID_STEPS as int, n, 0);
    }
}

} // verus!
