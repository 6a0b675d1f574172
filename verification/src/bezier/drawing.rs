//! What there is to draw of one Bézier curve.

use super::evaluation::{
    best_construction, best_curve_point, exactly_representable, is_best_construction,
    is_best_curve_point, is_construction, is_curve_point, Construction, Parameter,
    RationalVector2, MAX_CURVE_POINTS,
};
use super::points::{BasicPoint, PointGui};
use vstd::prelude::*;

verus! {

/// The number of straight pieces by which a curve is drawn.
pub const SAMPLES: u32 = 50;

/// The parameter of sample `i` of [`SAMPLES`] along a curve.
pub open spec fn sample_parameter(i: int) -> Parameter {
    Parameter { numerator: i as u32, denominator: SAMPLES }
}

/// A point as it is drawn, without its constraints.
pub open spec fn snapshot<P: PointGui>(point: P) -> BasicPoint {
    BasicPoint {
        position: point.spec_position(),
        radius: point.spec_radius(),
        color: point.spec_color(),
        is_selected: point.spec_selected(),
        is_hovered: point.spec_hovered(),
    }
}

/// Everything that is drawn of one curve.
pub struct BezierDrawing {
    /// The control points in order, as they look. Consecutive ones are
    /// joined by the lines of the control polygon.
    pub points: Vec<BasicPoint>,
    /// The De Casteljau construction of the curve point at the parameter
    /// that was asked for, if one was.
    pub construction: Option<Construction>,
    /// The curve itself, sampled at `0/SAMPLES, 1/SAMPLES, ..., 1`.
    pub curve: Vec<RationalVector2>,
}

/// `shown` holds the points as they are drawn, in order.
pub open spec fn are_snapshots_of<P: PointGui>(points: Seq<P>, shown: Seq<BasicPoint>) -> bool {
    &&& shown.len() == points.len()
    &&& forall|i: int| 0 <= i < points.len() ==> #[trigger] shown[i] == snapshot(points[i])
}

/// `drawing` shows the curve over `points`, with the construction at `t`
/// where one is asked for. The construction and the samples of the curve are
/// exact where that is representable, and on the grid where it is not.
pub open spec fn is_drawing_of<P: PointGui>(
    points: Seq<P>,
    t: Option<Parameter>,
    drawing: BezierDrawing,
) -> bool {
    &&& are_snapshots_of(points, drawing.points@)
    &&& drawing.construction is Some <==> t is Some
    &&& drawing.construction matches Some(construction) ==> is_best_construction(
        points,
        t.unwrap(),
        construction,
    )
    &&& drawing.curve@.len() == SAMPLES + 1
    &&& forall|i: int|
        0 <= i <= SAMPLES ==> is_best_curve_point(
            points,
            sample_parameter(i),
            #[trigger] drawing.curve@[i],
        )
}

/// `drawing` shows the curve over `points` as [`is_drawing_of`] says, and
/// all of it exactly.
pub open spec fn is_exact_drawing_of<P: PointGui>(
    points: Seq<P>,
    t: Option<Parameter>,
    drawing: BezierDrawing,
) -> bool {
    &&& are_snapshots_of(points, drawing.points@)
    &&& drawing.construction is Some <==> t is Some
    &&& drawing.construction matches Some(construction) ==> is_construction(
        points,
        t.unwrap(),
        construction,
    )
    &&& drawing.curve@.len() == SAMPLES + 1
    &&& forall|i: int|
        0 <= i <= SAMPLES ==> is_curve_point(
            points,
            sample_parameter(i),
            #[trigger] drawing.curve@[i],
        )
}

/// A drawing is exact where the exact coordinates are representable, both at
/// the samples of the curve and at the parameter of the construction.
pub proof fn lemma_drawing_is_exact<P: PointGui>(
    points: Seq<P>,
    t: Option<Parameter>,
    drawing: BezierDrawing,
)
    requires
        is_drawing_of(points, t, drawing),
        exactly_representable(points.len(), sample_parameter(0)),
        t matches Some(parameter) ==> exactly_representable(points.len(), parameter),
    ensures
        is_exact_drawing_of(points, t, drawing),
{
    assert forall|i: int| 0 <= i <= SAMPLES implies is_curve_point(
        points,
        sample_parameter(i),
        #[trigger] drawing.curve@[i],
    ) by {
        assert(is_best_curve_point(points, sample_parameter(i), drawing.curve@[i]));
    }
}

/// The snapshots of the points, in order.
fn snapshots<P: PointGui>(points: &[P]) -> (shown: Vec<BasicPoint>)
    ensures
        are_snapshots_of(points@, shown@),
{
    let mut shown: Vec<BasicPoint> = Vec::new();
    let mut i: usize = 0;
    while i < points.len()
        invariant
            i <= points.len(),
            shown@.len() == i,
            forall|j: int| 0 <= j < i ==> #[trigger] shown@[j] == snapshot(points@[j]),
        decreases points.len() - i,
    {
        let point = &points[i];
        let mut basic = BasicPoint::new(point.get_position(), point.get_color());
        basic.radius = point.get_radius();
        basic.is_selected = point.is_selected();
        basic.is_hovered = point.is_hovered();
        shown.push(basic);
        i = i + 1;
    }
    shown
}

/// The curve sampled at every multiple of `1 / SAMPLES`, first to last.
fn sampled_curve<P: PointGui>(points: &[P]) -> (samples: Vec<RationalVector2>)
    requires
        2 <= points.len() <= MAX_CURVE_POINTS,
    ensures
        samples@.len() == SAMPLES + 1,
        forall|i: int|
            0 <= i <= SAMPLES ==> is_best_curve_point(
                points@,
                sample_parameter(i),
                #[trigger] samples@[i],
            ),
{
    let mut samples: Vec<RationalVector2> = Vec::new();
    let mut i: u32 = 0;
    while i <= SAMPLES
        invariant
            2 <= points.len() <= MAX_CURVE_POINTS,
            i <= SAMPLES + 1,
            samples@.len() == i,
            forall|j: int|
                0 <= j < i ==> is_best_curve_point(
                    points@,
                    sample_parameter(j),
                    #[trigger] samples@[j],
                ),
        decreases SAMPLES + 1 - i,
    {
        let t = Parameter { numerator: i, denominator: SAMPLES };
        assert(t == sample_parameter(i as int));
        samples.push(best_curve_point(points, t));
        i = i + 1;
    }
    samples
}

/// Gathers what is drawn of the curve over `points`: the points as they
/// look, the curve sampled in [`SAMPLES`] steps and, where a parameter `t`
/// is given, the De Casteljau construction of the curve point at `t`.
pub fn draw_bezier<P: PointGui>(points: &[P], t: Option<Parameter>) -> (drawing: BezierDrawing)
    requires
        2 <= points.len() <= MAX_CURVE_POINTS,
        t matches Some(parameter) ==> parameter.wf(),
    ensures
        is_drawing_of(points@, t, drawing),
{
    let construction = match t {
        Some(parameter) => Some(best_construction(points, parameter)),
        None => None,
    };
    let curve = sampled_curve(points);
    BezierDrawing { points: snapshots(points), construction, curve }
}

} // verus!
