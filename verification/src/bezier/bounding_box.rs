//! The bounding box of a cubic Bézier segment.
//!
//! Along each axis a cubic is widest at one of its ends or where its
//! derivative vanishes. The derivative is a quadratic; its roots are found
//! as parameters of [`PARAMETER_STEPS`] steps, rounded down, and the curve is
//! then taken at those parameters exactly.

use super::bernstein::{
    bernstein_value, lemma_casteljau_within, lemma_evaluations_agree, lemma_pow_step,
};
use super::evaluation::{
    evalute_bezier_curve, exactly_representable, is_falling, is_rising, scale_at, xs, ys,
    Parameter,
};
use super::points::Point;
use crate::vector::Vector2;
use vstd::arithmetic::div_mod::lemma_div_is_ordered;
use vstd::arithmetic::power::{lemma_pow0, pow};
use vstd::prelude::*;

verus! {

/// The denominator of the parameters at which the curve is probed: `2^29`.
pub const PARAMETER_STEPS: u32 = 0x2000_0000;

/// The common denominator of the sides of a bounding box: `2^87`, the cube
/// of [`PARAMETER_STEPS`].
pub const BOX_SCALE: u128 = 0x80_0000_0000_0000_0000_0000;

/// An axis-aligned rectangle: its corner `(x, y)` of least coordinates, its
/// width and its height, all four over the common denominator.
#[derive(Clone, Copy, Debug, PartialEq, Eq, Structural)]
pub struct RationalRectangle {
    pub x: i128,
    pub y: i128,
    pub width: i128,
    pub height: i128,
    pub denominator: u128,
}

/// Why a list of points has no bounding box.
#[derive(Clone, Copy, Debug, PartialEq, Eq, Structural)]
pub enum BoundingBoxError {
    /// A cubic segment is made of exactly four points.
    NotFourPoints,
    /// All four points coincide: the segment is a single point and there is
    /// nothing to bound.
    SinglePoint,
}

/// `root` is the square root of `n`, rounded down.
pub open spec fn is_integer_sqrt(n: int, root: int) -> bool {
    root >= 0 && root * root <= n < (root + 1) * (root + 1)
}

/// The square root of `n`, rounded down.
pub open spec fn integer_sqrt(n: int) -> int {
    choose|root: int| is_integer_sqrt(n, root)
}

/// A number has one rounded square root only.
pub proof fn lemma_integer_sqrt_is_unique(n: int, first: int, second: int)
    requires
        is_integer_sqrt(n, first),
        is_integer_sqrt(n, second),
    ensures
        first == second,
{
    assert(first == second) by (nonlinear_arith)
        requires
            first >= 0,
            second >= 0,
            first * first <= n < (first + 1) * (first + 1),
            second * second <= n < (second + 1) * (second + 1),
    ;
}

/// The square root of `n`, rounded down.
pub fn isqrt(n: u128) -> (root: u64)
    ensures
        is_integer_sqrt(n as int, root as int),
        root == integer_sqrt(n as int),
{
    let mut low: u128 = 0;
    let mut high: u128 = 0xFFFF_FFFF_FFFF_FFFF;
    assert(0xFFFF_FFFF_FFFF_FFFF * 0xFFFF_FFFF_FFFF_FFFF
        == 0xFFFF_FFFF_FFFF_FFFE_0000_0000_0000_0001) by (nonlinear_arith);
    if n >= 0xFFFF_FFFF_FFFF_FFFE_0000_0000_0000_0001 {
        proof {
            assert((0xFFFF_FFFF_FFFF_FFFF + 1) * (0xFFFF_FFFF_FFFF_FFFF + 1)
                == 0x1_0000_0000_0000_0000_0000_0000_0000_0000) by (nonlinear_arith);
            assert(is_integer_sqrt(n as int, 0xFFFF_FFFF_FFFF_FFFF));
            lemma_integer_sqrt_is_unique(n as int, 0xFFFF_FFFF_FFFF_FFFF, integer_sqrt(n as int));
        }
        return 0xFFFF_FFFF_FFFF_FFFF;
    }
    while high - low > 1
        invariant
            low < high <= 0xFFFF_FFFF_FFFF_FFFF,
            low * low <= n < high * high,
        decreases high - low,
    {
        let middle = low + (high - low) / 2;
        assert(middle * middle <= 0xFFFF_FFFF_FFFF_FFFF * 0xFFFF_FFFF_FFFF_FFFF)
            by (nonlinear_arith)
            requires
                0 <= middle <= 0xFFFF_FFFF_FFFF_FFFF,
        ;
        if middle * middle <= n {
            low = middle;
        } else {
            high = middle;
        }
    }
    proof {
        assert(is_integer_sqrt(n as int, low as int));
        lemma_integer_sqrt_is_unique(n as int, low as int, integer_sqrt(n as int));
    }
    low as u64
}

/// A third of the derivative of the cubic over the four control values is
/// `a t^2 + b t + c`, with these `(a, b, c)`.
pub open spec fn derivative_coefficients(values: Seq<int>) -> (int, int, int) {
    (
        values[3] - 3 * values[2] + 3 * values[1] - values[0],
        2 * (values[2] - 2 * values[1] + values[0]),
        values[1] - values[0],
    )
}

/// The parameter of `numerator / denominator` steps, rounded down to a
/// whole number of steps, if that lies strictly between zero and one.
pub open spec fn inner_parameter(numerator: int, denominator: int) -> Option<Parameter>
    recommends
        denominator != 0,
{
    let steps = if denominator > 0 {
        numerator / denominator
    } else {
        (-numerator) / (-denominator)
    };
    if 0 < steps < PARAMETER_STEPS {
        Some(Parameter { numerator: steps as u32, denominator: PARAMETER_STEPS })
    } else {
        None
    }
}

/// The parameters strictly inside `(0, 1)` at which the derivative of the
/// cubic over the four control values vanishes, in whole steps: the root
/// `-c / b` of a linear derivative, the two roots
/// `(-b ± sqrt(b^2 - 4 a c)) / (2 a)` of a quadratic one with the square
/// root itself rounded down to a whole number of steps, and none where the
/// derivative is constant or has no real root.
pub open spec fn critical_parameters(values: Seq<int>) -> (Option<Parameter>, Option<Parameter>) {
    let (a, b, c) = derivative_coefficients(values);
    if a == 0 {
        if b == 0 {
            (None, None)
        } else {
            (inner_parameter(-c * PARAMETER_STEPS, b), None)
        }
    } else {
        let discriminant = b * b - 4 * a * c;
        if discriminant < 0 {
            (None, None)
        } else {
            let root = integer_sqrt(discriminant * PARAMETER_STEPS * PARAMETER_STEPS);
            (
                inner_parameter(-b * PARAMETER_STEPS + root, 2 * a),
                inner_parameter(-b * PARAMETER_STEPS - root, 2 * a),
            )
        }
    }
}

/// The value of the cubic over the control values at `t`, times
/// [`BOX_SCALE`], where a parameter is given.
pub open spec fn value_at(values: Seq<int>, t: Option<Parameter>) -> Option<int> {
    match t {
        Some(t) => Some(bernstein_value(values, t.start_weight(), t.end_weight())),
        None => None,
    }
}

/// The lesser of `value` and `other`, where there is another.
pub open spec fn lesser(value: int, other: Option<int>) -> int {
    match other {
        Some(other) => if other < value {
            other
        } else {
            value
        },
        None => value,
    }
}

/// The greater of `value` and `other`, where there is another.
pub open spec fn greater(value: int, other: Option<int>) -> int {
    match other {
        Some(other) => if other > value {
            other
        } else {
            value
        },
        None => value,
    }
}

/// The least value of the cubic over the four control values among its two
/// ends and its critical parameters, times [`BOX_SCALE`].
pub open spec fn axis_low(values: Seq<int>) -> int {
    let critical = critical_parameters(values);
    let ends = if values[0] <= values[3] {
        values[0] * BOX_SCALE
    } else {
        values[3] * BOX_SCALE
    };
    lesser(lesser(ends, value_at(values, critical.0)), value_at(values, critical.1))
}

/// The greatest value of the cubic over the four control values among its
/// two ends and its critical parameters, times [`BOX_SCALE`].
pub open spec fn axis_high(values: Seq<int>) -> int {
    let critical = critical_parameters(values);
    let ends = if values[0] <= values[3] {
        values[3] * BOX_SCALE
    } else {
        values[0] * BOX_SCALE
    };
    greater(greater(ends, value_at(values, critical.0)), value_at(values, critical.1))
}

/// Whether all the points lie at one position.
pub open spec fn all_coincide<P: Point>(points: Seq<P>) -> bool {
    forall|i: int|
        0 <= i < points.len() ==> (#[trigger] points[i]).spec_position()
            == points[0].spec_position()
}

/// The bounding box of the cubic segment over the four points: along each
/// axis it reaches from the least to the greatest coordinate that the curve
/// has at its ends and at its critical parameters.
pub open spec fn bounding_box_of<P: Point>(points: Seq<P>) -> RationalRectangle
    recommends
        points.len() == 4,
{
    RationalRectangle {
        x: axis_low(xs(points)) as i128,
        y: axis_low(ys(points)) as i128,
        width: (axis_high(xs(points)) - axis_low(xs(points))) as i128,
        height: (axis_high(ys(points)) - axis_low(ys(points))) as i128,
        denominator: BOX_SCALE,
    }
}

/// Rounds `numerator / denominator` steps down to a parameter, if that lies
/// strictly between zero and one.
fn round_to_inner_parameter(numerator: i128, denominator: i128) -> (t: Option<Parameter>)
    requires
        denominator != 0,
        -0x4_0000_0000_0000_0000 <= numerator <= 0x4_0000_0000_0000_0000,
        -0x10_0000_0000 <= denominator <= 0x10_0000_0000,
    ensures
        t == inner_parameter(numerator as int, denominator as int),
        t matches Some(parameter) ==> parameter.wf() && parameter.denominator == PARAMETER_STEPS,
{
    let (n, m) = if denominator > 0 {
        (numerator, denominator)
    } else {
        (-numerator, -denominator)
    };
    if n <= 0 {
        proof {
            lemma_div_is_ordered(n as int, 0, m as int);
        }
        return None;
    }
    let steps = n / m;
    if 0 < steps && steps < 0x2000_0000 {
        Some(Parameter { numerator: steps as u32, denominator: PARAMETER_STEPS })
    } else {
        None
    }
}

/// Finds the critical parameters of the cubic over four control values.
fn find_critical_parameters(p0: i32, p1: i32, p2: i32, p3: i32) -> (critical: (
    Option<Parameter>,
    Option<Parameter>,
))
    ensures
        critical == critical_parameters(seq![p0 as int, p1 as int, p2 as int, p3 as int]),
        critical.0 matches Some(t) ==> t.wf() && t.denominator == PARAMETER_STEPS,
        critical.1 matches Some(t) ==> t.wf() && t.denominator == PARAMETER_STEPS,
{
    let steps: i128 = 0x2000_0000;
    let a: i128 = p3 as i128 - 3 * (p2 as i128) + 3 * (p1 as i128) - p0 as i128;
    let b: i128 = 2 * (p2 as i128 - 2 * (p1 as i128) + p0 as i128);
    let c: i128 = p1 as i128 - p0 as i128;
    if a == 0 {
        // The derivative is linear or constant: there is no leading
        // coefficient to divide by.
        if b == 0 {
            (None, None)
        } else {
            (round_to_inner_parameter(-c * steps, b), None)
        }
    } else {
        assert(0 <= b * b <= 0x4_0000_0000 * 0x4_0000_0000) by (nonlinear_arith)
            requires
                -0x4_0000_0000 <= b <= 0x4_0000_0000,
        ;
        assert(-(0x4_0000_0000 * 0x1_0000_0000) <= a * c <= 0x4_0000_0000 * 0x1_0000_0000)
            by (nonlinear_arith)
            requires
                -0x4_0000_0000 <= a <= 0x4_0000_0000,
                -0x1_0000_0000 <= c <= 0x1_0000_0000,
        ;
        let discriminant: i128 = b * b - 4 * (a * c);
        assert(discriminant == b * b - 4 * a * c) by (nonlinear_arith)
            requires
                discriminant == b * b - 4 * (a * c),
        ;
        if discriminant < 0 {
            (None, None)
        } else {
            assert(discriminant * 0x2000_0000 * 0x2000_0000 == discriminant
                * 0x400_0000_0000_0000 && 0 <= discriminant * 0x400_0000_0000_0000 <= 0x20
                * 0x1_0000_0000_0000_0000 * 0x400_0000_0000_0000) by (nonlinear_arith)
                requires
                    0 <= discriminant <= 0x20 * 0x1_0000_0000_0000_0000,
            ;
            let root = isqrt((discriminant as u128) * 0x400_0000_0000_0000) as i128;
            (
                round_to_inner_parameter(-b * steps + root, 2 * a),
                round_to_inner_parameter(-b * steps - root, 2 * a),
            )
        }
    }
}

/// At parameters of [`PARAMETER_STEPS`] steps a cubic has exact
/// coordinates, over the denominator [`BOX_SCALE`].
pub proof fn lemma_cubic_at_steps_is_representable(t: Parameter)
    requires
        t.denominator == PARAMETER_STEPS,
    ensures
        exactly_representable(4, t),
        scale_at(t, 3) == BOX_SCALE,
{
    lemma_pow0(0x2000_0000);
    lemma_pow_step(0x2000_0000, 1);
    lemma_pow_step(0x2000_0000, 2);
    lemma_pow_step(0x2000_0000, 3);
    assert(pow(0x2000_0000, 1) == 0x2000_0000);
    assert(pow(0x2000_0000, 2) == 0x400_0000_0000_0000);
    assert(pow(0x2000_0000, 3) == 0x80_0000_0000_0000_0000_0000);
}

/// What [`cubic_bezier_bounding_box`] returns for the points: their bounding
/// box if they are four and not all at one position, and otherwise the
/// reason why they have none.
pub open spec fn bounding_box_result<P: Point>(points: Seq<P>) -> Result<
    RationalRectangle,
    BoundingBoxError,
> {
    if points.len() != 4 {
        Err(BoundingBoxError::NotFourPoints)
    } else if all_coincide(points) {
        Err(BoundingBoxError::SinglePoint)
    } else {
        Ok(bounding_box_of(points))
    }
}

/// Whether `t` is a parameter of [`PARAMETER_STEPS`] steps, if it is one at
/// all.
spec fn in_steps(t: Option<Parameter>) -> bool {
    t matches Some(parameter) ==> parameter.wf() && parameter.denominator == PARAMETER_STEPS
}

/// Critical parameters are parameters of [`PARAMETER_STEPS`] steps.
proof fn lemma_critical_parameters_in_steps(values: Seq<int>)
    ensures
        in_steps(critical_parameters(values).0),
        in_steps(critical_parameters(values).1),
{
}

/// The value of the cubic at a parameter of [`PARAMETER_STEPS`] steps lies
/// between `low` and `high` if its control values do.
proof fn lemma_value_within(values: Seq<int>, t: Option<Parameter>, low: int, high: int)
    requires
        values.len() == 4,
        in_steps(t),
        forall|i: int| 0 <= i < 4 ==> low <= #[trigger] values[i] <= high,
    ensures
        value_at(values, t) matches Some(value) ==> low * BOX_SCALE <= value <= high
            * BOX_SCALE,
{
    if let Some(parameter) = t {
        lemma_cubic_at_steps_is_representable(parameter);
        lemma_evaluations_agree(values, parameter.start_weight(), parameter.end_weight());
        lemma_casteljau_within(
            values,
            parameter.start_weight(),
            parameter.end_weight(),
            3,
            0,
            low,
            high,
        );
    }
}

/// The extent of the curve along one axis, between its least and its
/// greatest coordinate among its ends and its critical parameters.
fn axis_extent<P: Point>(points: &[P], horizontal: bool) -> (extent: (i128, i128))
    requires
        points.len() == 4,
    ensures
        ({
            let values = if horizontal {
                xs(points@)
            } else {
                ys(points@)
            };
            &&& extent.0 == axis_low(values)
            &&& extent.1 == axis_high(values)
            &&& i32::MIN * BOX_SCALE <= extent.0 <= extent.1 <= i32::MAX * BOX_SCALE
        }),
{
    let first = points[0].get_position();
    let second = points[1].get_position();
    let third = points[2].get_position();
    let fourth = points[3].get_position();
    let (p0, p1, p2, p3) = if horizontal {
        (first.x, second.x, third.x, fourth.x)
    } else {
        (first.y, second.y, third.y, fourth.y)
    };
    let ghost values = if horizontal {
        xs(points@)
    } else {
        ys(points@)
    };
    proof {
        assert(values =~= seq![p0 as int, p1 as int, p2 as int, p3 as int]);
    }
    let critical = find_critical_parameters(p0, p1, p2, p3);
    let scale: i128 = 0x80_0000_0000_0000_0000_0000;
    let (mut low, mut high) = if p0 <= p3 {
        (p0 as i128 * scale, p3 as i128 * scale)
    } else {
        (p3 as i128 * scale, p0 as i128 * scale)
    };
    proof {
        lemma_value_within(values, critical.0, i32::MIN as int, i32::MAX as int);
        lemma_value_within(values, critical.1, i32::MIN as int, i32::MAX as int);
    }
    if let Some(t) = critical.0 {
        proof {
            lemma_cubic_at_steps_is_representable(t);
        }
        let point = evalute_bezier_curve(points, t).unwrap();
        let value = if horizontal {
            point.x
        } else {
            point.y
        };
        if value < low {
            low = value;
        }
        if value > high {
            high = value;
        }
    }
    if let Some(t) = critical.1 {
        proof {
            lemma_cubic_at_steps_is_representable(t);
        }
        let point = evalute_bezier_curve(points, t).unwrap();
        let value = if horizontal {
            point.x
        } else {
            point.y
        };
        if value < low {
            low = value;
        }
        if value > high {
            high = value;
        }
    }
    (low, high)
}

/// The bounding box of the cubic Bézier segment over `points`: the
/// axis-aligned rectangle that reaches, along each axis, from the least to
/// the greatest coordinate that the curve has at its two ends and at its
/// critical parameters along that axis, where its derivative vanishes.
///
/// The critical parameters are whole numbers of [`PARAMETER_STEPS`] steps,
/// rounded down; the coordinates of the curve at them are exact. What the
/// curve gains within the last step towards an extreme is not counted.
///
/// There is no bounding box unless the points are four, and none of a
/// segment whose four points all coincide.
pub fn cubic_bezier_bounding_box<P: Point>(points: &[P]) -> (result: Result<
    RationalRectangle,
    BoundingBoxError,
>)
    ensures
        result == bounding_box_result(points@),
{
    if points.len() != 4 {
        return Err(BoundingBoxError::NotFourPoints);
    }
    let first = points[0].get_position();
    if points[1].get_position() == first && points[2].get_position() == first
        && points[3].get_position() == first {
        return Err(BoundingBoxError::SinglePoint);
    }
    proof {
        if all_coincide(points@) {
            assert(points@[1].spec_position() == points@[0].spec_position());
            assert(points@[2].spec_position() == points@[0].spec_position());
            assert(points@[3].spec_position() == points@[0].spec_position());
        }
    }
    let (left, right) = axis_extent(points, true);
    let (top, bottom) = axis_extent(points, false);
    Ok(
        RationalRectangle {
            x: left,
            y: top,
            width: right - left,
            height: bottom - top,
            denominator: BOX_SCALE,
        },
    )
}

/// The bounding box holds both ends of the segment.
pub proof fn lemma_box_holds_ends<P: Point>(points: Seq<P>)
    requires
        points.len() == 4,
    ensures
        ({
            let bounds = bounding_box_of(points);
            let first = points[0].spec_position();
            let last = points[3].spec_position();
            &&& bounds.x <= first.x * BOX_SCALE <= bounds.x + bounds.width
            &&& bounds.x <= last.x * BOX_SCALE <= bounds.x + bounds.width
            &&& bounds.y <= first.y * BOX_SCALE <= bounds.y + bounds.height
            &&& bounds.y <= last.y * BOX_SCALE <= bounds.y + bounds.height
        }),
{
    lemma_box_within_control_points(
        points,
        Vector2 { x: i32::MIN, y: i32::MIN },
        Vector2 { x: i32::MAX, y: i32::MAX },
    );
}

/// The bounding box does not reach beyond the extent of the control points.
pub proof fn lemma_box_within_control_points<P: Point>(points: Seq<P>, low: Vector2, high: Vector2)
    requires
        points.len() == 4,
        forall|i: int|
            0 <= i < 4 ==> low.x <= (#[trigger] points[i]).spec_position().x <= high.x && low.y
                <= points[i].spec_position().y <= high.y,
    ensures
        ({
            let bounds = bounding_box_of(points);
            &&& bounds.x == axis_low(xs(points))
            &&& bounds.y == axis_low(ys(points))
            &&& bounds.x + bounds.width == axis_high(xs(points))
            &&& bounds.y + bounds.height == axis_high(ys(points))
            &&& low.x * BOX_SCALE <= bounds.x <= bounds.x + bounds.width <= high.x * BOX_SCALE
            &&& low.y * BOX_SCALE <= bounds.y <= bounds.y + bounds.height <= high.y * BOX_SCALE
        }),
{
    let px = xs(points);
    let py = ys(points);
    assert forall|i: int| 0 <= i < 4 implies low.x <= #[trigger] px[i] <= high.x by {
        assert(px[i] == points[i].spec_position().x);
    }
    assert forall|i: int| 0 <= i < 4 implies low.y <= #[trigger] py[i] <= high.y by {
        assert(py[i] == points[i].spec_position().y);
    }
    lemma_axis_within(px, low.x as int, high.x as int);
    lemma_axis_within(py, low.y as int, high.y as int);
    lemma_axis_within(px, i32::MIN as int, i32::MAX as int);
    lemma_axis_within(py, i32::MIN as int, i32::MAX as int);
}

/// Along one axis the extent of the curve lies within that of its control
/// values.
proof fn lemma_axis_within(values: Seq<int>, low: int, high: int)
    requires
        values.len() == 4,
        forall|i: int| 0 <= i < 4 ==> low <= #[trigger] values[i] <= high,
    ensures
        low * BOX_SCALE <= axis_low(values) <= axis_high(values) <= high * BOX_SCALE,
{
    lemma_critical_parameters_in_steps(values);
    let critical = critical_parameters(values);
    lemma_value_within(values, critical.0, low, high);
    lemma_value_within(values, critical.1, low, high);
    let first = values[0];
    let last = values[3];
    assert(low * BOX_SCALE <= first * BOX_SCALE <= high * BOX_SCALE && low * BOX_SCALE <= last
        * BOX_SCALE <= high * BOX_SCALE && (first <= last ==> first * BOX_SCALE <= last
        * BOX_SCALE) && (last <= first ==> last * BOX_SCALE <= first * BOX_SCALE))
        by (nonlinear_arith)
        requires
            low <= first <= high,
            low <= last <= high,
            BOX_SCALE > 0,
    ;
}

/// Along an axis on which the control values follow one another in one
/// direction, the extent of the curve is that of its two ends.
proof fn lemma_ordered_axis(values: Seq<int>)
    requires
        values.len() == 4,
        is_rising(values) || is_falling(values),
    ensures
        axis_low(values) == (if values[0] <= values[3] {
            values[0]
        } else {
            values[3]
        }) * BOX_SCALE,
        axis_high(values) == (if values[0] <= values[3] {
            values[3]
        } else {
            values[0]
        }) * BOX_SCALE,
{
    let low = if values[0] <= values[3] {
        values[0]
    } else {
        values[3]
    };
    let high = if values[0] <= values[3] {
        values[3]
    } else {
        values[0]
    };
    assert forall|i: int| 0 <= i < 4 implies low <= #[trigger] values[i] <= high by {
        if is_rising(values) {
            assert(values[0] <= values[i] && values[i] <= values[3]);
        } else {
            assert(values[0] >= values[i] && values[i] >= values[3]);
        }
    }
    lemma_critical_parameters_in_steps(values);
    let critical = critical_parameters(values);
    lemma_value_within(values, critical.0, low, high);
    lemma_value_within(values, critical.1, low, high);
}

/// The bounding box of a segment whose control points follow one another in
/// one direction along each axis, as those of a segment flattened to a
/// straight line do when they lie on it in order, is the box spanned by its
/// two end points.
pub proof fn lemma_box_of_ordered_segment<P: Point>(points: Seq<P>)
    requires
        points.len() == 4,
        is_rising(xs(points)) || is_falling(xs(points)),
        is_rising(ys(points)) || is_falling(ys(points)),
    ensures
        ({
            let bounds = bounding_box_of(points);
            let first = points[0].spec_position();
            let last = points[3].spec_position();
            &&& bounds.x == (if first.x <= last.x {
                first.x
            } else {
                last.x
            }) * BOX_SCALE
            &&& bounds.y == (if first.y <= last.y {
                first.y
            } else {
                last.y
            }) * BOX_SCALE
            &&& bounds.width == (if first.x <= last.x {
                last.x - first.x
            } else {
                first.x - last.x
            }) * BOX_SCALE
            &&& bounds.height == (if first.y <= last.y {
                last.y - first.y
            } else {
                first.y - last.y
            }) * BOX_SCALE
        }),
{
    let px = xs(points);
    let py = ys(points);
    lemma_ordered_axis(px);
    lemma_ordered_axis(py);
    lemma_box_within_control_points(
        points,
        Vector2 { x: i32::MIN, y: i32::MIN },
        Vector2 { x: i32::MAX, y: i32::MAX },
    );
    let first = points[0].spec_position();
    let last = points[3].spec_position();
    assert(px[0] == first.x && px[3] == last.x && py[0] == first.y && py[3] == last.y);
    assert((last.x - first.x) * BOX_SCALE == last.x * BOX_SCALE - first.x * BOX_SCALE && (first.x
        - last.x) * BOX_SCALE == first.x * BOX_SCALE - last.x * BOX_SCALE && (last.y - first.y)
        * BOX_SCALE == last.y * BOX_SCALE - first.y * BOX_SCALE && (first.y - last.y)
        * BOX_SCALE == first.y * BOX_SCALE - last.y * BOX_SCALE) by (nonlinear_arith);
}

} // verus!
