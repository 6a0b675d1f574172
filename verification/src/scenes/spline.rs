//! The scene that edits a spline of cubic Bézier segments.
//!
//! The points of the spline stand in one list: a join, two handles, a join,
//! two handles, and so on. Segment `s` is made of the four points from index
//! `3 s` on. When the spline is closed into a loop, two more handles follow
//! the last join, and the last segment runs from that join through them to
//! the first point of the list.

use super::{
    all_deselected, animate_parameter, animated_parameter, deselect_all, first_hovered,
    first_hovered_selected, lemma_first_hovered_found, select_first_hovered, FrameInput,
    KeyboardKey, Scene, T_DENOMINATOR,
};
use crate::bezier::drawing::{
    draw_bezier, is_exact_drawing_of, lemma_drawing_is_exact, sample_parameter, snapshot,
    BezierDrawing,
};
use crate::bezier::evaluation::{exactly_representable, Parameter};
use crate::bezier::graph::{
    lemma_control_mirrors_linked, lemma_join_carries_handles, lemma_move_is_one_hop, moved,
    relation_in_order, set_position, well_linked, SplinePoint,
};
use crate::bezier::points::{
    after_frame, radius_in_range, BasicPoint, ControlPoint, ControlPointConstraintID, JoinPoint,
    JoinPointConstraintID, MovableGuiPoint, Point, PointGui, POINTS_RADIUS,
};
use crate::bezier::bernstein::lemma_pow_step;
use crate::bezier::bounding_box::{
    bounding_box_result, cubic_bezier_bounding_box, RationalRectangle,
};
use crate::vector::Vector2;
use vstd::arithmetic::power::{lemma_pow0, pow};
use vstd::prelude::*;

verus! {

/// The scene that edits a spline: a chain of cubic segments whose joins and
/// handles keep each other in place while the pointer drags one of them.
pub struct BezierSplineScene {
    points: Vec<SplinePoint>,
    animated: bool,
    animation_bounce: bool,
    has_point_selected: bool,
    debug_draw: bool,
    t: u32,
    draw_bounding_box: bool,
    lock_move: bool,
    is_closed_loop: bool,
}

/// The state of the spline scene.
pub struct SplineState {
    /// The points of the spline, in order.
    pub points: Seq<SplinePoint>,
    /// Whether the curve parameter moves by itself.
    pub animated: bool,
    /// Whether the parameter is on its way back to zero.
    pub animation_bounce: bool,
    /// Whether a point is being dragged.
    pub has_point_selected: bool,
    /// Whether the construction of the curve points is shown.
    pub debug_draw: bool,
    /// The curve parameter, in thousandths.
    pub t: u32,
    /// Whether the bounding boxes of the segments are shown.
    pub draw_bounding_box: bool,
    /// Whether a dragged point carries its neighbours along.
    pub lock_move: bool,
    /// Whether the spline is closed into a loop.
    pub is_closed_loop: bool,
}

/// The lengths a spline can have: one join and three points per segment
/// while it is open, and two handles more once it is closed. Points are
/// referred to by index, so there are no more of them than indices.
pub open spec fn is_spline_length(len: int, closed: bool) -> bool {
    &&& len <= usize::MAX
    &&& if closed {
        len >= 6 && len % 3 == 0
    } else {
        len >= 4 && len % 3 == 1
    }
}

/// The point that slot 0 of the point at `i` is bound to, in a spline of the
/// given length.
///
/// A join knows the handle before it; the first join has one only in a loop,
/// where it is the last handle of the list. The handle after a join is
/// linked to the handle before that join, the handle before a join to the
/// handle after it. The last handle of a loop is linked to the first handle
/// of the list.
pub open spec fn first_bond(i: int, len: int, closed: bool) -> Option<usize> {
    if i % 3 == 0 {
        if i > 0 {
            Some((i - 1) as usize)
        } else if closed {
            Some((len - 1) as usize)
        } else {
            None
        }
    } else if i % 3 == 1 {
        if i >= 2 {
            Some((i - 2) as usize)
        } else if closed {
            Some((len - 1) as usize)
        } else {
            None
        }
    } else {
        if closed && i == len - 1 {
            Some(1)
        } else if i + 2 < len {
            Some((i + 2) as usize)
        } else {
            None
        }
    }
}

/// The point that slot 1 of the point at `i` is bound to, in a spline of the
/// given length.
///
/// A join knows the handle after it, if there is one. A handle knows its
/// anchor: the join next to it, which for the last handle of a loop is the
/// first point of the list.
pub open spec fn second_bond(i: int, len: int, closed: bool) -> Option<usize> {
    if i % 3 == 0 {
        if i + 1 < len {
            Some((i + 1) as usize)
        } else {
            None
        }
    } else if i % 3 == 1 {
        Some((i - 1) as usize)
    } else {
        if closed && i == len - 1 {
            Some(0)
        } else {
            Some((i + 1) as usize)
        }
    }
}

/// The point at `i` is of the kind that belongs there and is bound to the
/// neighbours that belong to it.
pub open spec fn is_wired(point: SplinePoint, i: int, len: int, closed: bool) -> bool {
    &&& point is Join <==> i % 3 == 0
    &&& point.first_relation() == first_bond(i, len, closed)
    &&& point.second_relation() == second_bond(i, len, closed)
}

/// The same point, bound as the point at `i` of a spline of the given
/// length is.
pub open spec fn wired_as(point: SplinePoint, i: int, len: int, closed: bool) -> SplinePoint {
    match point {
        SplinePoint::Join(join) => SplinePoint::Join(
            JoinPoint {
                previous_control_point: first_bond(i, len, closed),
                next_control_point: second_bond(i, len, closed),
                ..join
            },
        ),
        SplinePoint::Control(control) => SplinePoint::Control(
            ControlPoint {
                linked_control_point: first_bond(i, len, closed),
                mirror_join_point: second_bond(i, len, closed),
                ..control
            },
        ),
    }
}

/// A new handle at `position`, bound as the point at `i` is.
pub open spec fn new_handle(position: Vector2, i: int, len: int, closed: bool) -> SplinePoint {
    SplinePoint::Control(
        ControlPoint {
            position,
            radius: POINTS_RADIUS,
            is_selected: false,
            is_hovered: false,
            linked_control_point: first_bond(i, len, closed),
            mirror_join_point: second_bond(i, len, closed),
        },
    )
}

/// A new join at `position`, bound as the point at `i` is.
pub open spec fn new_join(position: Vector2, i: int, len: int, closed: bool) -> SplinePoint {
    SplinePoint::Join(
        JoinPoint {
            position,
            radius: POINTS_RADIUS,
            is_selected: false,
            is_hovered: false,
            previous_control_point: first_bond(i, len, closed),
            next_control_point: second_bond(i, len, closed),
        },
    )
}

/// The points after the one at `index` has met the pointer: it shows whether
/// it is hovered, and if it is selected it follows the pointer, with its
/// neighbours if `lock_move` is set. A move that would carry a neighbour off
/// the canvas does not take place.
pub open spec fn point_met(
    points: Seq<SplinePoint>,
    index: int,
    mouse_position: Vector2,
    lock_move: bool,
) -> Seq<SplinePoint> {
    let shown = points.update(index, after_frame(points[index], mouse_position));
    if shown[index].spec_selected() {
        match moved(shown, index, mouse_position, lock_move) {
            Some(after) => after,
            None => shown,
        }
    } else {
        shown
    }
}

/// The points after the first `count` of them have met the pointer, one
/// after the other in the order of the list.
pub open spec fn points_met(
    points: Seq<SplinePoint>,
    mouse_position: Vector2,
    lock_move: bool,
    count: nat,
) -> Seq<SplinePoint>
    decreases count,
{
    if count == 0 {
        points
    } else {
        point_met(
            points_met(points, mouse_position, lock_move, (count - 1) as nat),
            count - 1,
            mouse_position,
            lock_move,
        )
    }
}

/// Two points play the same part in their splines: they are of one kind,
/// bound to the same neighbours, and both selected or both not.
pub open spec fn same_role(a: SplinePoint, b: SplinePoint) -> bool {
    &&& a is Join <==> b is Join
    &&& a.first_relation() == b.first_relation()
    &&& a.second_relation() == b.second_relation()
    &&& a.spec_selected() == b.spec_selected()
}

/// Two lists of points differ at most in where the points are and how they
/// look.
pub open spec fn same_roles(a: Seq<SplinePoint>, b: Seq<SplinePoint>) -> bool {
    &&& a.len() == b.len()
    &&& forall|i: int| 0 <= i < a.len() ==> same_role(#[trigger] a[i], b[i])
}

/// Every point has a radius between the resting and the hover radius.
pub open spec fn radii_in_range(points: Seq<SplinePoint>) -> bool {
    forall|i: int| 0 <= i < points.len() ==> radius_in_range((#[trigger] points[i]).spec_radius())
}

/// The four points of segment `segment` as they are drawn. The last of them
/// is the join that comes next, which in the closing segment of a loop is
/// the first point of the list.
pub open spec fn segment_points(points: Seq<SplinePoint>, segment: int) -> Seq<BasicPoint> {
    seq![
        snapshot(points[3 * segment]),
        snapshot(points[3 * segment + 1]),
        snapshot(points[3 * segment + 2]),
        snapshot(points[(3 * segment + 3) % (points.len() as int)]),
    ]
}

/// What is drawn of one segment of the spline.
pub struct SegmentDrawing {
    /// The curve of the segment.
    pub curve: BezierDrawing,
    /// Its bounding box, where bounding boxes are shown and the segment has
    /// one.
    pub bounding_box: Option<RationalRectangle>,
}

impl SplineState {
    /// The state is consistent: the list has the length of a spline, every
    /// point is of the kind and has the bonds that belong to its place, the
    /// parameter lies within `[0, 1]`, at most one point is selected and the
    /// scene knows whether one is, and every radius is in range.
    pub open spec fn wf(self) -> bool {
        &&& is_spline_length(self.points.len() as int, self.is_closed_loop)
        &&& forall|i: int|
            0 <= i < self.points.len() ==> is_wired(
                #[trigger] self.points[i],
                i,
                self.points.len() as int,
                self.is_closed_loop,
            )
        &&& self.t <= T_DENOMINATOR
        &&& self.has_point_selected <==> exists|i: int|
            0 <= i < self.points.len() && (#[trigger] self.points[i]).spec_selected()
        &&& forall|i: int, j: int|
            0 <= i < self.points.len() && 0 <= j < self.points.len() && (
            #[trigger] self.points[i]).spec_selected() && (
            #[trigger] self.points[j]).spec_selected() ==> i == j
        &&& radii_in_range(self.points)
    }

    /// The scene as it starts: one segment, animated, with the construction
    /// shown at the middle of the curve and neighbours carried along.
    pub open spec fn initial() -> SplineState {
        SplineState {
            points: seq![
                new_join(Vector2 { x: 300, y: 600 }, 0, 4, false),
                new_handle(Vector2 { x: 600, y: 300 }, 1, 4, false),
                new_handle(Vector2 { x: 900, y: 300 }, 2, 4, false),
                new_join(Vector2 { x: 1200, y: 600 }, 3, 4, false),
            ],
            animated: true,
            animation_bounce: false,
            has_point_selected: false,
            debug_draw: true,
            t: 500,
            draw_bounding_box: false,
            lock_move: true,
            is_closed_loop: false,
        }
    }

    /// The number of segments of the spline.
    pub open spec fn segment_count(self) -> int {
        if self.is_closed_loop {
            self.points.len() as int / 3
        } else {
            (self.points.len() as int - 1) / 3
        }
    }

    /// Every point has met the pointer, in the order of the list: see
    /// [`point_met`].
    pub open spec fn points_updated(self, mouse_position: Vector2) -> SplineState {
        SplineState {
            points: points_met(self.points, mouse_position, self.lock_move, self.points.len()),
            ..self
        }
    }

    /// The point at `index` has been dragged to `position`, with its
    /// neighbours if `lock_constraint` is set; `None` when that would carry
    /// a neighbour off the canvas.
    pub open spec fn dragged(self, index: int, position: Vector2, lock_constraint: bool)
        -> Option<SplineState> {
        match moved(self.points, index, position, lock_constraint) {
            Some(points) => Some(SplineState { points, ..self }),
            None => None,
        }
    }

    /// The button has been looked at. While it is down and no point is
    /// selected, the first hovered point becomes selected. Once it is up,
    /// whatever was selected is let go.
    pub open spec fn selection_updated(self, mouse_button_down: bool) -> SplineState {
        if mouse_button_down {
            if self.has_point_selected {
                self
            } else {
                SplineState {
                    points: first_hovered_selected(self.points),
                    has_point_selected: first_hovered(self.points) is Some,
                    ..self
                }
            }
        } else if self.has_point_selected {
            SplineState { points: all_deselected(self.points), has_point_selected: false, ..self }
        } else {
            self
        }
    }

    /// The handle that continues the spline smoothly past its last join: the
    /// last handle reflected through that join. `None` when it would lie off
    /// the canvas.
    pub open spec fn continuing_handle(self) -> Option<Vector2> {
        let len = self.points.len() as int;
        self.points[len - 2].spec_position().reflected(self.points[len - 1].spec_position())
    }

    /// The handle that lets a loop arrive smoothly at its first join: the
    /// first handle reflected through that join. `None` when it would lie
    /// off the canvas.
    pub open spec fn arriving_handle(self) -> Option<Vector2> {
        self.points[1].spec_position().reflected(self.points[0].spec_position())
    }

    /// Whether a segment may be appended: no point is being dragged, the
    /// spline is open, there are indices left for three more points, and the
    /// handle that continues the spline lies on the canvas.
    pub open spec fn can_append_segment(self) -> bool {
        &&& !self.has_point_selected
        &&& !self.is_closed_loop
        &&& self.points.len() + 3 <= usize::MAX
        &&& self.continuing_handle() is Some
    }

    /// A segment has been appended that ends in a new join at `anchor`. Its
    /// first handle continues the spline smoothly; its second lies halfway
    /// between the new join and the old last one.
    pub open spec fn segment_appended(self, anchor: Vector2) -> SplineState {
        let len = self.points.len() as int;
        let last = self.points[len - 1].spec_position();
        SplineState {
            points: Seq::new(
                (len + 3) as nat,
                |i: int|
                    if i < len {
                        wired_as(self.points[i], i, len + 3, false)
                    } else if i == len {
                        new_handle(self.continuing_handle().unwrap(), i, len + 3, false)
                    } else if i == len + 1 {
                        new_handle(anchor.halfway(last), i, len + 3, false)
                    } else {
                        new_join(anchor, i, len + 3, false)
                    },
            ),
            ..self
        }
    }

    /// Whether the last segment may be removed: no point is being dragged,
    /// and it is not the only segment.
    pub open spec fn can_remove_segment(self) -> bool {
        !self.has_point_selected && self.points.len() > 4
    }

    /// The last segment has been removed: of a loop the two handles that
    /// closed it, otherwise the last join and the two handles before it. The
    /// points that stay no longer refer to those that went, and the spline
    /// is open.
    pub open spec fn segment_removed(self) -> SplineState {
        let len = if self.is_closed_loop {
            self.points.len() as int - 2
        } else {
            self.points.len() as int - 3
        };
        SplineState {
            points: Seq::new(len as nat, |i: int| wired_as(self.points[i], i, len, false)),
            is_closed_loop: false,
            ..self
        }
    }

    /// Whether the spline may be closed: no point is being dragged, it is
    /// open, there are indices left for two more points, and both handles of
    /// the closing segment lie on the canvas.
    pub open spec fn can_close_loop(self) -> bool {
        &&& !self.has_point_selected
        &&& !self.is_closed_loop
        &&& self.points.len() + 2 <= usize::MAX
        &&& self.continuing_handle() is Some
        &&& self.arriving_handle() is Some
    }

    /// The spline has been closed into a loop by a segment from its last
    /// join back to its first: two handles are added, one that continues the
    /// spline smoothly past the last join and one that lets it arrive
    /// smoothly at the first.
    pub open spec fn loop_closed(self) -> SplineState {
        let len = self.points.len() as int;
        SplineState {
            points: Seq::new(
                (len + 2) as nat,
                |i: int|
                    if i < len {
                        wired_as(self.points[i], i, len + 2, true)
                    } else if i == len {
                        new_handle(self.continuing_handle().unwrap(), i, len + 2, true)
                    } else {
                        new_handle(self.arriving_handle().unwrap(), i, len + 2, true)
                    },
            ),
            is_closed_loop: true,
            ..self
        }
    }

    /// A key has been acted on, with the pointer at `mouse_position`: space
    /// appends a segment that ends there, backspace removes the last
    /// segment, enter closes the loop, each where that is allowed.
    pub open spec fn key_handled(
        self,
        key_pressed: Option<KeyboardKey>,
        mouse_position: Vector2,
    ) -> SplineState {
        match key_pressed {
            Some(KeyboardKey::Space) => if self.can_append_segment() {
                self.segment_appended(mouse_position)
            } else {
                self
            },
            Some(KeyboardKey::Backspace) => if self.can_remove_segment() {
                self.segment_removed()
            } else {
                self
            },
            Some(KeyboardKey::Enter) => if self.can_close_loop() {
                self.loop_closed()
            } else {
                self
            },
            _ => self,
        }
    }

    /// The parameter has taken one animation step, if it is animated.
    pub open spec fn animation_advanced(self) -> SplineState {
        if self.animated {
            let next = animated_parameter(self.t, self.animation_bounce);
            SplineState { t: next.0, animation_bounce: next.1, ..self }
        } else {
            self
        }
    }

    /// The state one frame later: the points meet the pointer, the button
    /// settles the selection, the key is acted on, the parameter moves.
    pub open spec fn frame_advanced(self, input: FrameInput) -> SplineState {
        self.points_updated(input.mouse_position).selection_updated(
            input.mouse_button_down,
        ).key_handled(input.key_pressed, input.mouse_position).animation_advanced()
    }

    /// The parameter at which the construction is shown, if it is shown.
    pub open spec fn shown_parameter(self) -> Option<Parameter> {
        if self.debug_draw {
            Some(Parameter { numerator: self.t, denominator: T_DENOMINATOR })
        } else {
            None
        }
    }

    /// The bounding box that is shown of segment `segment`: none unless
    /// bounding boxes are shown, and none of a segment that has none.
    pub open spec fn shown_bounding_box(self, segment: int) -> Option<RationalRectangle> {
        if self.draw_bounding_box {
            match bounding_box_result(segment_points(self.points, segment)) {
                Ok(bounds) => Some(bounds),
                Err(_) => None,
            }
        } else {
            None
        }
    }

    /// `drawing` shows segment `segment`: its curve, exactly, with the
    /// construction where that is shown, and its bounding box where that is
    /// shown.
    pub open spec fn is_shown_by(self, segment: int, drawing: SegmentDrawing) -> bool {
        &&& is_exact_drawing_of(
            segment_points(self.points, segment),
            self.shown_parameter(),
            drawing.curve,
        )
        &&& drawing.bounding_box == self.shown_bounding_box(segment)
    }
}

/// In a consistent state every bond leads to another point of the list.
pub proof fn lemma_wf_is_well_linked(state: SplineState)
    requires
        state.wf(),
    ensures
        well_linked(state.points),
{
    let len = state.points.len() as int;
    assert forall|i: int| 0 <= i < len implies relation_in_order(
        (#[trigger] state.points[i]).first_relation(),
        i,
        len,
    ) && relation_in_order(state.points[i].second_relation(), i, len) by {
        assert(is_wired(state.points[i], i, len, state.is_closed_loop));
    }
}

/// Consistency carries over to a state whose points play the same parts.
pub proof fn lemma_same_roles_wf(before: SplineState, after: SplineState)
    requires
        before.wf(),
        same_roles(before.points, after.points),
        radii_in_range(after.points),
        after.is_closed_loop == before.is_closed_loop,
        after.has_point_selected == before.has_point_selected,
        after.t <= T_DENOMINATOR,
    ensures
        after.wf(),
{
    let len = before.points.len() as int;
    assert forall|i: int| 0 <= i < len implies is_wired(
        #[trigger] after.points[i],
        i,
        len,
        after.is_closed_loop,
    ) by {
        assert(same_role(before.points[i], after.points[i]));
        assert(is_wired(before.points[i], i, len, before.is_closed_loop));
    }
    if before.has_point_selected {
        let i = choose|i: int|
            0 <= i < before.points.len() && (#[trigger] before.points[i]).spec_selected();
        assert(same_role(before.points[i], after.points[i]));
        assert(after.points[i].spec_selected());
    }
    assert forall|i: int, j: int|
        0 <= i < len && 0 <= j < len && (#[trigger] after.points[i]).spec_selected() && (
        #[trigger] after.points[j]).spec_selected() implies i == j by {
        assert(same_role(before.points[i], after.points[i]));
        assert(same_role(before.points[j], after.points[j]));
        assert(before.points[i].spec_selected() && before.points[j].spec_selected());
    }
    if after.has_point_selected {
    } else {
        assert forall|i: int| 0 <= i < len implies !(#[trigger] after.points[i]).spec_selected() by {
            assert(same_role(before.points[i], after.points[i]));
        }
    }
}

/// A point that meets the pointer changes no part that any point plays, and
/// leaves every radius in range.
pub proof fn lemma_point_met_keeps_roles(
    points: Seq<SplinePoint>,
    index: int,
    mouse_position: Vector2,
    lock_move: bool,
)
    requires
        0 <= index < points.len(),
        well_linked(points),
        radii_in_range(points),
    ensures
        same_roles(points, point_met(points, index, mouse_position, lock_move)),
        radii_in_range(point_met(points, index, mouse_position, lock_move)),
        well_linked(point_met(points, index, mouse_position, lock_move)),
        well_linked(points.update(index, after_frame(points[index], mouse_position))),
{
    let shown = points.update(index, after_frame(points[index], mouse_position));
    assert(radius_in_range(points[index].spec_radius()));
    assert(same_role(points[index], shown[index]));
    assert forall|i: int| 0 <= i < points.len() implies same_role(#[trigger] points[i], shown[i])
        && radius_in_range(shown[i].spec_radius()) by {
        assert(radius_in_range(points[i].spec_radius()));
    }
    assert forall|i: int| 0 <= i < shown.len() implies relation_in_order(
        (#[trigger] shown[i]).first_relation(),
        i,
        shown.len() as int,
    ) && relation_in_order(shown[i].second_relation(), i, shown.len() as int) by {
        assert(same_role(points[i], shown[i]));
        assert(relation_in_order(points[i].first_relation(), i, points.len() as int));
    }
    assert(well_linked(shown));
    let met = point_met(points, index, mouse_position, lock_move);
    if shown[index].spec_selected() && moved(shown, index, mouse_position, lock_move) is Some {
        assert forall|i: int| 0 <= i < points.len() implies same_role(#[trigger] points[i], met[i])
            && radius_in_range(met[i].spec_radius()) by {
            lemma_move_is_one_hop(shown, index, mouse_position, lock_move, met, i);
            assert(same_role(points[i], shown[i]));
        }
        assert forall|i: int| 0 <= i < met.len() implies relation_in_order(
            (#[trigger] met[i]).first_relation(),
            i,
            met.len() as int,
        ) && relation_in_order(met[i].second_relation(), i, met.len() as int) by {
            lemma_move_is_one_hop(shown, index, mouse_position, lock_move, met, i);
            assert(relation_in_order(shown[i].first_relation(), i, shown.len() as int));
        }
    }
}

/// Points that meet the pointer one after the other change no part that any
/// point plays, and leave every radius in range.
pub proof fn lemma_points_met_keep_roles(
    points: Seq<SplinePoint>,
    mouse_position: Vector2,
    lock_move: bool,
    count: nat,
)
    requires
        count <= points.len(),
        well_linked(points),
        radii_in_range(points),
    ensures
        same_roles(points, points_met(points, mouse_position, lock_move, count)),
        radii_in_range(points_met(points, mouse_position, lock_move, count)),
        well_linked(points_met(points, mouse_position, lock_move, count)),
    decreases count,
{
    if count > 0 {
        let before = points_met(points, mouse_position, lock_move, (count - 1) as nat);
        lemma_points_met_keep_roles(points, mouse_position, lock_move, (count - 1) as nat);
        lemma_point_met_keeps_roles(before, count - 1, mouse_position, lock_move);
        let after = point_met(before, count - 1, mouse_position, lock_move);
        assert forall|i: int| 0 <= i < points.len() implies same_role(#[trigger] points[i], after[i]) by {
            assert(same_role(points[i], before[i]));
            assert(same_role(before[i], after[i]));
        }
    }
}

/// Meeting the pointer keeps the state consistent.
pub proof fn lemma_points_updated_wf(state: SplineState, mouse_position: Vector2)
    requires
        state.wf(),
    ensures
        state.points_updated(mouse_position).wf(),
{
    lemma_wf_is_well_linked(state);
    lemma_points_met_keep_roles(state.points, mouse_position, state.lock_move, state.points.len());
    lemma_same_roles_wf(state, state.points_updated(mouse_position));
}

/// A drag keeps the state consistent.
pub proof fn lemma_dragged_wf(
    state: SplineState,
    index: int,
    position: Vector2,
    lock_constraint: bool,
)
    requires
        state.wf(),
        0 <= index < state.points.len(),
        state.dragged(index, position, lock_constraint) is Some,
    ensures
        state.dragged(index, position, lock_constraint).unwrap().wf(),
{
    lemma_wf_is_well_linked(state);
    let after = state.dragged(index, position, lock_constraint).unwrap();
    assert forall|i: int| 0 <= i < state.points.len() implies same_role(
        #[trigger] state.points[i],
        after.points[i],
    ) && radius_in_range(after.points[i].spec_radius()) by {
        lemma_move_is_one_hop(state.points, index, position, lock_constraint, after.points, i);
        assert(radius_in_range(state.points[i].spec_radius()));
    }
    lemma_same_roles_wf(state, after);
}

/// In a spline, a join that is dragged with its neighbours carries each of
/// its handles along by exactly its own displacement.
pub proof fn lemma_dragged_join_carries_handles(
    state: SplineState,
    index: int,
    position: Vector2,
    handle: usize,
)
    requires
        state.wf(),
        0 <= index < state.points.len(),
        state.points[index] is Join,
        state.points[index].first_relation() == Some(handle)
            || state.points[index].second_relation() == Some(handle),
        state.dragged(index, position, true) is Some,
    ensures
        ({
            let after = state.dragged(index, position, true).unwrap();
            let join = state.points[index].spec_position();
            let before = state.points[handle as int].spec_position();
            &&& handle < state.points.len()
            &&& after.points[index].spec_position() == position
            &&& after.points[handle as int].spec_position().x - before.x == position.x - join.x
            &&& after.points[handle as int].spec_position().y - before.y == position.y - join.y
        }),
{
    lemma_wf_is_well_linked(state);
    assert(is_wired(
        state.points[index],
        index,
        state.points.len() as int,
        state.is_closed_loop,
    ));
    assert(relation_in_order(
        state.points[index].first_relation(),
        index,
        state.points.len() as int,
    ));
    assert(relation_in_order(
        state.points[index].second_relation(),
        index,
        state.points.len() as int,
    ));
    lemma_join_carries_handles(
        state.points,
        index,
        position,
        state.dragged(index, position, true).unwrap().points,
    );
}

/// In a spline, a handle that is dragged with its neighbours leaves the
/// handle linked to it at the mirror image of itself through their anchor:
/// at twice the position of the anchor minus its own.
pub proof fn lemma_dragged_handle_mirrors_linked(
    state: SplineState,
    index: int,
    position: Vector2,
)
    requires
        state.wf(),
        0 <= index < state.points.len(),
        state.points[index] is Control,
        state.points[index].first_relation() is Some,
        state.dragged(index, position, true) is Some,
    ensures
        ({
            let after = state.dragged(index, position, true).unwrap();
            let linked = state.points[index].first_relation().unwrap() as int;
            let anchor = state.points[index].second_relation().unwrap() as int;
            &&& state.points[index].second_relation() is Some
            &&& after.points[index].spec_position() == position
            &&& after.points[anchor] == state.points[anchor]
            &&& after.points[linked].spec_position().x == 2 * after.points[
                anchor].spec_position().x - position.x
            &&& after.points[linked].spec_position().y == 2 * after.points[
                anchor].spec_position().y - position.y
        }),
{
    lemma_wf_is_well_linked(state);
    assert(is_wired(
        state.points[index],
        index,
        state.points.len() as int,
        state.is_closed_loop,
    ));
    lemma_control_mirrors_linked(
        state.points,
        index,
        position,
        state.dragged(index, position, true).unwrap().points,
    );
}

/// Settling the selection keeps the state consistent.
pub proof fn lemma_selection_updated_wf(state: SplineState, mouse_button_down: bool)
    requires
        state.wf(),
    ensures
        state.selection_updated(mouse_button_down).wf(),
{
    let after = state.selection_updated(mouse_button_down);
    let len = state.points.len() as int;
    lemma_first_hovered_found(state.points);
    assert forall|i: int| 0 <= i < len implies is_wired(
        #[trigger] after.points[i],
        i,
        len,
        after.is_closed_loop,
    ) && radius_in_range(after.points[i].spec_radius()) by {
        assert(is_wired(state.points[i], i, len, state.is_closed_loop));
        assert(radius_in_range(state.points[i].spec_radius()));
    }
    if mouse_button_down && !state.has_point_selected {
        match first_hovered(state.points) {
            Some(first) => {
                assert(after.points[first].spec_selected());
                assert forall|i: int| 0 <= i < len && i != first implies !(
                #[trigger] after.points[i]).spec_selected() by {
                    assert(after.points[i] == state.points[i]);
                }
            },
            None => {
                assert(after.points == state.points);
            },
        }
    } else if !mouse_button_down && state.has_point_selected {
    } else {
        assert(after == state);
    }
}

/// Appending a segment keeps the state consistent.
pub proof fn lemma_segment_appended_wf(state: SplineState, anchor: Vector2)
    requires
        state.wf(),
        state.can_append_segment(),
    ensures
        state.segment_appended(anchor).wf(),
{
    let after = state.segment_appended(anchor);
    let len = state.points.len() as int;
    assert forall|i: int| 0 <= i < after.points.len() implies is_wired(
        #[trigger] after.points[i],
        i,
        len + 3,
        false,
    ) && !after.points[i].spec_selected() && radius_in_range(after.points[i].spec_radius()) by {
        if i < len {
            assert(is_wired(state.points[i], i, len, false));
            assert(!state.points[i].spec_selected());
            assert(radius_in_range(state.points[i].spec_radius()));
        }
    }
}

/// Removing the last segment keeps the state consistent.
pub proof fn lemma_segment_removed_wf(state: SplineState)
    requires
        state.wf(),
        state.can_remove_segment(),
    ensures
        state.segment_removed().wf(),
{
    let after = state.segment_removed();
    let len = state.points.len() as int;
    assert forall|i: int| 0 <= i < after.points.len() implies is_wired(
        #[trigger] after.points[i],
        i,
        after.points.len() as int,
        false,
    ) && !after.points[i].spec_selected() && radius_in_range(after.points[i].spec_radius()) by {
        assert(is_wired(state.points[i], i, len, state.is_closed_loop));
        assert(!state.points[i].spec_selected());
        assert(radius_in_range(state.points[i].spec_radius()));
    }
}

/// Closing the loop keeps the state consistent.
pub proof fn lemma_loop_closed_wf(state: SplineState)
    requires
        state.wf(),
        state.can_close_loop(),
    ensures
        state.loop_closed().wf(),
{
    let after = state.loop_closed();
    let len = state.points.len() as int;
    assert forall|i: int| 0 <= i < after.points.len() implies is_wired(
        #[trigger] after.points[i],
        i,
        len + 2,
        true,
    ) && !after.points[i].spec_selected() && radius_in_range(after.points[i].spec_radius()) by {
        if i < len {
            assert(is_wired(state.points[i], i, len, false));
            assert(!state.points[i].spec_selected());
            assert(radius_in_range(state.points[i].spec_radius()));
        }
    }
}

/// A segment that is appended and at once removed again leaves the spline as
/// it was: the same number of points, each where it was and bound as it was.
pub proof fn lemma_append_then_remove(state: SplineState, anchor: Vector2)
    requires
        state.wf(),
        state.can_append_segment(),
    ensures
        state.segment_appended(anchor).can_remove_segment(),
        state.segment_appended(anchor).segment_removed() == state,
{
    let appended = state.segment_appended(anchor);
    let back = appended.segment_removed();
    let len = state.points.len() as int;
    assert forall|i: int| 0 <= i < len implies back.points[i] == state.points[i] by {
        assert(is_wired(state.points[i], i, len, false));
    }
    assert(back.points =~= state.points);
}

/// Closing a spline of `N - 2` points gives a loop of `N`: besides the handle
/// that continues the spline past its last join, exactly one handle is made
/// up, the mirror image of the first handle through the first join. The
/// closing segment is made of the points `N - 3`, `N - 2`, `N - 1` and `0`:
/// a join, two handles, a join.
pub proof fn lemma_closed_loop_shape(state: SplineState)
    requires
        state.wf(),
        state.can_close_loop(),
    ensures
        ({
            let closed = state.loop_closed();
            let n = closed.points.len() as int;
            &&& closed.wf()
            &&& n == state.points.len() + 2
            &&& closed.segment_count() == state.segment_count() + 1
            &&& forall|i: int|
                0 <= i < state.points.len() ==> #[trigger] closed.points[i] == wired_as(
                    state.points[i],
                    i,
                    n,
                    true,
                )
            &&& closed.points[n - 3] is Join
            &&& closed.points[n - 2] is Control
            &&& closed.points[n - 1] is Control
            &&& closed.points[0] is Join
            &&& (3 * (closed.segment_count() - 1) + 3) % n == 0
            &&& Some(closed.points[n - 1].spec_position()) == state.arriving_handle()
            &&& Some(closed.points[n - 2].spec_position()) == state.continuing_handle()
            &&& closed.points[n - 1].first_relation() == Some(1usize)
            &&& closed.points[n - 1].second_relation() == Some(0usize)
            &&& closed.points[0].first_relation() == Some((n - 1) as usize)
        }),
{
    lemma_loop_closed_wf(state);
    let closed = state.loop_closed();
    let len = state.points.len() as int;
    let n = len + 2;
    assert(is_wired(state.points[len - 1], len - 1, len, false));
    assert(is_wired(state.points[0], 0, len, false));
    assert(closed.points[n - 3] == wired_as(state.points[len - 1], len - 1, n, true));
    assert(closed.points[0] == wired_as(state.points[0], 0, n, true));
    assert(closed.segment_count() == n / 3);
    assert(3 * (n / 3) == n);
    assert(n % n == 0) by (nonlinear_arith)
        requires
            n > 0,
    ;
}

/// The exact coordinates of a cubic segment are always representable, at the
/// scene's parameter as well as at the samples of the curve.
pub proof fn lemma_cubic_is_representable(numerator: u32)
    ensures
        exactly_representable(4, Parameter { numerator, denominator: T_DENOMINATOR }),
        exactly_representable(4, sample_parameter(0)),
{
    lemma_pow0(1000);
    lemma_pow_step(1000, 1);
    lemma_pow_step(1000, 2);
    lemma_pow_step(1000, 3);
    lemma_pow0(50);
    lemma_pow_step(50, 1);
    lemma_pow_step(50, 2);
    lemma_pow_step(50, 3);
    assert(pow(1000, 3) == 1000000000);
    assert(pow(50, 3) == 125000);
}

/// The points that stay when the last segment goes, as the removal leaves
/// them: cut off behind the join that is now last, with the bonds to the
/// points that went undone one by one.
spec fn detached(state: SplineState) -> Seq<SplinePoint> {
    let kept = if state.is_closed_loop {
        state.points.len() - 2
    } else {
        state.points.len() - 3
    };
    let cut = state.points.subrange(0, kept);
    let opened = if state.is_closed_loop {
        let first = cut.update(0, cut[0].without_constraint(0));
        first.update(1, first[1].without_constraint(0))
    } else {
        cut
    };
    let ended = opened.update(kept - 1, opened[kept - 1].without_constraint(1));
    ended.update(kept - 2, ended[kept - 2].without_constraint(0))
}

/// Undoing those bonds one by one leaves every point bound as its place in
/// the shorter spline asks.
proof fn lemma_detached_is_removed(state: SplineState, result: Seq<SplinePoint>)
    requires
        state.wf(),
        state.can_remove_segment(),
        result == detached(state),
    ensures
        result == state.segment_removed().points,
{
    let after = state.segment_removed().points;
    let len = state.points.len() as int;
    assert forall|i: int| 0 <= i < after.len() implies result[i] == after[i] by {
        assert(is_wired(state.points[i], i, len, state.is_closed_loop));
    }
    assert(result =~= after);
}

/// Unbinds slot `constraint_id` of the point at `index`.
fn unbind(points: &mut Vec<SplinePoint>, index: usize, constraint_id: usize)
    requires
        index < old(points).len(),
    ensures
        final(points)@ == old(points)@.update(
            index as int,
            old(points)@[index as int].without_constraint(constraint_id),
        ),
{
    points[index].clear_constraint(constraint_id);
}

impl View for BezierSplineScene {
    type V = SplineState;

    closed spec fn view(&self) -> SplineState {
        SplineState {
            points: self.points@,
            animated: self.animated,
            animation_bounce: self.animation_bounce,
            has_point_selected: self.has_point_selected,
            debug_draw: self.debug_draw,
            t: self.t,
            draw_bounding_box: self.draw_bounding_box,
            lock_move: self.lock_move,
            is_closed_loop: self.is_closed_loop,
        }
    }
}

impl BezierSplineScene {
    /// Lets every point meet the pointer, one after the other: each shows
    /// whether it is hovered, and the selected one follows the pointer.
    pub fn update_points(&mut self, mouse_position: Vector2)
        requires
            old(self)@.wf(),
        ensures
            final(self)@.wf(),
            final(self)@ == old(self)@.points_updated(mouse_position),
    {
        proof {
            lemma_wf_is_well_linked(self@);
        }
        let mut i: usize = 0;
        while i < self.points.len()
            invariant
                i <= self.points.len(),
                self.points@.len() == old(self).points@.len(),
                self.animated == old(self).animated,
                self.animation_bounce == old(self).animation_bounce,
                self.has_point_selected == old(self).has_point_selected,
                self.debug_draw == old(self).debug_draw,
                self.t == old(self).t,
                self.draw_bounding_box == old(self).draw_bounding_box,
                self.lock_move == old(self).lock_move,
                self.is_closed_loop == old(self).is_closed_loop,
                well_linked(old(self).points@),
                radii_in_range(old(self).points@),
                self.points@ == points_met(
                    old(self).points@,
                    mouse_position,
                    self.lock_move,
                    i as nat,
                ),
            decreases self.points.len() - i,
        {
            let ghost before = self.points@;
            proof {
                lemma_points_met_keep_roles(
                    old(self).points@,
                    mouse_position,
                    self.lock_move,
                    i as nat,
                );
                lemma_point_met_keeps_roles(before, i as int, mouse_position, self.lock_move);
            }
            self.points[i].udpate_gui(mouse_position);
            assert(self.points@ == before.update(
                i as int,
                after_frame(before[i as int], mouse_position),
            ));
            if self.points[i].is_selected() {
                let _ = set_position(&mut self.points, i, mouse_position, self.lock_move);
            }
            i = i + 1;
        }
        proof {
            lemma_points_updated_wf(old(self)@, mouse_position);
        }
    }

    /// Drags the point at `index` to `mouse_position`, with its neighbours
    /// if `lock_constraint` is set, and says whether it did. Nothing moves
    /// when a neighbour would be carried off the canvas.
    pub fn drag(&mut self, index: usize, mouse_position: Vector2, lock_constraint: bool) -> (dragged:
        bool)
        requires
            old(self)@.wf(),
            index < old(self)@.points.len(),
        ensures
            final(self)@.wf(),
            dragged == old(self)@.dragged(index as int, mouse_position, lock_constraint) is Some,
            final(self)@ == match old(self)@.dragged(index as int, mouse_position, lock_constraint) {
                Some(after) => after,
                None => old(self)@,
            },
    {
        proof {
            lemma_wf_is_well_linked(self@);
            if self@.dragged(index as int, mouse_position, lock_constraint) is Some {
                lemma_dragged_wf(self@, index as int, mouse_position, lock_constraint);
            }
        }
        set_position(&mut self.points, index, mouse_position, lock_constraint).is_ok()
    }

    /// Settles the selection by the state of the button.
    pub fn update_selection(&mut self, mouse_button_down: bool)
        requires
            old(self)@.wf(),
        ensures
            final(self)@.wf(),
            final(self)@ == old(self)@.selection_updated(mouse_button_down),
    {
        proof {
            lemma_selection_updated_wf(self@, mouse_button_down);
        }
        if mouse_button_down {
            if !self.has_point_selected {
                self.has_point_selected = select_first_hovered(&mut self.points);
            }
        } else if self.has_point_selected {
            deselect_all(&mut self.points);
            self.has_point_selected = false;
        }
    }

    /// Appends a segment that ends in a new join at `anchor`, and says
    /// whether it did. Nothing is appended while a point is being dragged,
    /// to a closed loop, or when the handle that continues the spline would
    /// lie off the canvas.
    pub fn append_segment(&mut self, anchor: Vector2) -> (appended: bool)
        requires
            old(self)@.wf(),
        ensures
            final(self)@.wf(),
            appended == old(self)@.can_append_segment(),
            final(self)@ == if appended {
                old(self)@.segment_appended(anchor)
            } else {
                old(self)@
            },
    {
        let len = self.points.len();
        if self.has_point_selected || self.is_closed_loop || len > usize::MAX - 3 {
            return false;
        }
        let last_position = self.points[len - 1].get_position();
        let handle_position = self.points[len - 2].get_position();
        let first_handle = match handle_position.reflect(last_position) {
            Some(position) => position,
            None => {
                return false;
            },
        };
        proof {
            assert(is_wired(self.points@[len - 1], len - 1, len as int, false));
            assert(is_wired(self.points@[len - 2], len - 2, len as int, false));
        }
        // The first handle mirrors the last handle of the spline so far.
        self.points.push(
            SplinePoint::Control(ControlPoint::new(first_handle, Some(len - 2), Some(len - 1))),
        );
        self.points[len - 1].set_constraint(JoinPointConstraintID::NextControlPoint.index(), len);
        self.points[len - 2].set_constraint(
            ControlPointConstraintID::LinkedControlPoint.index(),
            len,
        );
        // The second handle lies between the new join and the old last one.
        self.points.push(
            SplinePoint::Control(ControlPoint::new(anchor.midpoint(last_position), None, None)),
        );
        self.points.push(SplinePoint::Join(JoinPoint::new(anchor, Some(len + 1), None)));
        self.points[len + 1].set_constraint(
            ControlPointConstraintID::MirrorJoinPoint.index(),
            len + 2,
        );
        proof {
            let before = old(self)@;
            let after = before.segment_appended(anchor);
            assert forall|i: int| 0 <= i < after.points.len() implies self.points@[i]
                == after.points[i] by {
                if i < len {
                    assert(is_wired(before.points[i], i, len as int, false));
                }
            }
            assert(self.points@ =~= after.points);
            lemma_segment_appended_wf(before, anchor);
        }
        true
    }

    /// Removes the last segment, and says whether it did: of a loop the two
    /// handles that closed it, otherwise the last join and the two handles
    /// before it. Nothing is removed while a point is being dragged, nor
    /// from a spline of one segment.
    pub fn remove_last_segment(&mut self) -> (removed: bool)
        requires
            old(self)@.wf(),
        ensures
            final(self)@.wf(),
            removed == old(self)@.can_remove_segment(),
            final(self)@ == if removed {
                old(self)@.segment_removed()
            } else {
                old(self)@
            },
    {
        if self.has_point_selected || self.points.len() <= 4 {
            return false;
        }
        let ghost before = self@;
        let _ = self.points.pop();
        let _ = self.points.pop();
        assert(self.points@ =~= before.points.subrange(0, before.points.len() - 2));
        if self.is_closed_loop {
            // The first join and the first handle let go of the handle that
            // closed the loop.
            unbind(&mut self.points, 0, JoinPointConstraintID::PreviousControlPoint.index());
            unbind(&mut self.points, 1, ControlPointConstraintID::LinkedControlPoint.index());
        } else {
            let _ = self.points.pop();
            assert(self.points@ =~= before.points.subrange(0, before.points.len() - 3));
        }
        // The join that is now last, and the handle before it, let go of the
        // handle that followed them.
        let len = self.points.len();
        unbind(&mut self.points, len - 1, JoinPointConstraintID::NextControlPoint.index());
        unbind(&mut self.points, len - 2, ControlPointConstraintID::LinkedControlPoint.index());
        self.is_closed_loop = false;
        proof {
            lemma_detached_is_removed(before, self.points@);
            lemma_segment_removed_wf(before);
        }
        true
    }

    /// Closes the spline into a loop by a segment from its last join back to
    /// its first, and says whether it did. Nothing happens while a point is
    /// being dragged, to a loop that is closed already, or when one of the
    /// two new handles would lie off the canvas.
    pub fn close_loop(&mut self) -> (closed: bool)
        requires
            old(self)@.wf(),
        ensures
            final(self)@.wf(),
            closed == old(self)@.can_close_loop(),
            final(self)@ == if closed {
                old(self)@.loop_closed()
            } else {
                old(self)@
            },
    {
        let len = self.points.len();
        if self.has_point_selected || self.is_closed_loop || len > usize::MAX - 2 {
            return false;
        }
        let last_position = self.points[len - 1].get_position();
        let handle_position = self.points[len - 2].get_position();
        let first_handle = match handle_position.reflect(last_position) {
            Some(position) => position,
            None => {
                return false;
            },
        };
        let start_position = self.points[0].get_position();
        let start_handle_position = self.points[1].get_position();
        let second_handle = match start_handle_position.reflect(start_position) {
            Some(position) => position,
            None => {
                return false;
            },
        };
        proof {
            assert(is_wired(self.points@[len - 1], len - 1, len as int, false));
            assert(is_wired(self.points@[len - 2], len - 2, len as int, false));
            assert(is_wired(self.points@[0], 0, len as int, false));
            assert(is_wired(self.points@[1], 1, len as int, false));
        }
        // The first handle mirrors the last handle of the spline so far.
        self.points.push(
            SplinePoint::Control(ControlPoint::new(first_handle, Some(len - 2), Some(len - 1))),
        );
        self.points[len - 1].set_constraint(JoinPointConstraintID::NextControlPoint.index(), len);
        self.points[len - 2].set_constraint(
            ControlPointConstraintID::LinkedControlPoint.index(),
            len,
        );
        // The second handle mirrors the first handle of the spline.
        self.points.push(SplinePoint::Control(ControlPoint::new(second_handle, Some(1), Some(0))));
        self.points[0].set_constraint(
            JoinPointConstraintID::PreviousControlPoint.index(),
            len + 1,
        );
        self.points[1].set_constraint(
            ControlPointConstraintID::LinkedControlPoint.index(),
            len + 1,
        );
        self.is_closed_loop = true;
        proof {
            let before = old(self)@;
            let after = before.loop_closed();
            assert forall|i: int| 0 <= i < after.points.len() implies self.points@[i]
                == after.points[i] by {
                if i < len {
                    assert(is_wired(before.points[i], i, len as int, false));
                }
            }
            assert(self.points@ =~= after.points);
            lemma_loop_closed_wf(before);
        }
        true
    }

    /// Whether the spline is closed into a loop.
    pub fn is_closed(&self) -> (closed: bool)
        ensures
            closed == self@.is_closed_loop,
    {
        self.is_closed_loop
    }

    /// Acts on the key that was pressed, with the pointer at
    /// `mouse_position`.
    pub fn handle_key(&mut self, key_pressed: Option<KeyboardKey>, mouse_position: Vector2)
        requires
            old(self)@.wf(),
        ensures
            final(self)@.wf(),
            final(self)@ == old(self)@.key_handled(key_pressed, mouse_position),
    {
        match key_pressed {
            Some(KeyboardKey::Space) => {
                let _ = self.append_segment(mouse_position);
            },
            Some(KeyboardKey::Backspace) => {
                let _ = self.remove_last_segment();
            },
            Some(KeyboardKey::Enter) => {
                let _ = self.close_loop();
            },
            _ => {},
        }
    }

    /// Lets the parameter take one animation step, if it is animated.
    pub fn animate(&mut self)
        requires
            old(self)@.wf(),
        ensures
            final(self)@.wf(),
            final(self)@ == old(self)@.animation_advanced(),
    {
        if self.animated {
            let next = animate_parameter(self.t, self.animation_bounce);
            self.t = next.0;
            self.animation_bounce = next.1;
        }
        proof {
            lemma_same_roles_wf(old(self)@, self@);
        }
    }

    /// The points of the spline.
    pub fn points(&self) -> (points: &Vec<SplinePoint>)
        ensures
            points@ == self@.points,
    {
        &self.points
    }

    /// The curve parameter, in thousandths.
    pub fn t(&self) -> (t: u32)
        ensures
            t == self@.t,
    {
        self.t
    }

    /// Sets the curve parameter, in thousandths; a value beyond one is taken
    /// as one.
    pub fn set_t(&mut self, t: u32)
        requires
            old(self)@.wf(),
        ensures
            final(self)@.wf(),
            final(self)@ == (SplineState {
                t: if t <= T_DENOMINATOR {
                    t
                } else {
                    T_DENOMINATOR
                },
                ..old(self)@
            }),
    {
        self.t = if t <= T_DENOMINATOR {
            t
        } else {
            T_DENOMINATOR
        };
        proof {
            lemma_same_roles_wf(old(self)@, self@);
        }
    }

    pub fn is_animated(&self) -> (animated: bool)
        ensures
            animated == self@.animated,
    {
        self.animated
    }

    pub fn set_animated(&mut self, animated: bool)
        requires
            old(self)@.wf(),
        ensures
            final(self)@.wf(),
            final(self)@ == (SplineState { animated, ..old(self)@ }),
    {
        self.animated = animated;
        proof {
            lemma_same_roles_wf(old(self)@, self@);
        }
    }

    pub fn is_debug_draw(&self) -> (debug_draw: bool)
        ensures
            debug_draw == self@.debug_draw,
    {
        self.debug_draw
    }

    pub fn set_debug_draw(&mut self, debug_draw: bool)
        requires
            old(self)@.wf(),
        ensures
            final(self)@.wf(),
            final(self)@ == (SplineState { debug_draw, ..old(self)@ }),
    {
        self.debug_draw = debug_draw;
        proof {
            lemma_same_roles_wf(old(self)@, self@);
        }
    }

    pub fn is_draw_bounding_box(&self) -> (draw_bounding_box: bool)
        ensures
            draw_bounding_box == self@.draw_bounding_box,
    {
        self.draw_bounding_box
    }

    pub fn set_draw_bounding_box(&mut self, draw_bounding_box: bool)
        requires
            old(self)@.wf(),
        ensures
            final(self)@.wf(),
            final(self)@ == (SplineState { draw_bounding_box, ..old(self)@ }),
    {
        self.draw_bounding_box = draw_bounding_box;
        proof {
            lemma_same_roles_wf(old(self)@, self@);
        }
    }

    pub fn is_lock_move(&self) -> (lock_move: bool)
        ensures
            lock_move == self@.lock_move,
    {
        self.lock_move
    }

    pub fn set_lock_move(&mut self, lock_move: bool)
        requires
            old(self)@.wf(),
        ensures
            final(self)@.wf(),
            final(self)@ == (SplineState { lock_move, ..old(self)@ }),
    {
        self.lock_move = lock_move;
        proof {
            lemma_same_roles_wf(old(self)@, self@);
        }
    }

    pub fn has_point_selected(&self) -> (selected: bool)
        ensures
            selected == self@.has_point_selected,
    {
        self.has_point_selected
    }

    /// The four points of segment `segment`, as they are drawn.
    fn segment(&self, segment: usize) -> (four: Vec<BasicPoint>)
        requires
            self@.wf(),
            segment < self@.segment_count(),
        ensures
            four@ == segment_points(self@.points, segment as int),
    {
        let len = self.points.len();
        let first = 3 * segment;
        let mut four: Vec<BasicPoint> = Vec::new();
        four.push(self.points[first].downcast_basic_point());
        four.push(self.points[first + 1].downcast_basic_point());
        four.push(self.points[first + 2].downcast_basic_point());
        four.push(self.points[(first + 3) % len].downcast_basic_point());
        assert(four@ =~= segment_points(self@.points, segment as int));
        four
    }
}

impl Default for BezierSplineScene {
    fn default() -> (scene: Self)
        ensures
            scene@ == SplineState::initial(),
            scene@.wf(),
    {
        let mut points: Vec<SplinePoint> = Vec::new();
        points.push(SplinePoint::Join(JoinPoint::new(Vector2::new(300, 600), None, None)));
        points.push(SplinePoint::Control(ControlPoint::new(Vector2::new(600, 300), None, Some(0))));
        points.push(SplinePoint::Control(ControlPoint::new(Vector2::new(900, 300), None, None)));
        points.push(SplinePoint::Join(JoinPoint::new(Vector2::new(1200, 600), Some(2), None)));
        points[0].set_constraint(JoinPointConstraintID::NextControlPoint.index(), 1);
        points[2].set_constraint(ControlPointConstraintID::MirrorJoinPoint.index(), 3);
        let scene = BezierSplineScene {
            points,
            animated: true,
            animation_bounce: false,
            has_point_selected: false,
            debug_draw: true,
            t: 500,
            draw_bounding_box: false,
            lock_move: true,
            is_closed_loop: false,
        };
        proof {
            let initial = SplineState::initial();
            assert(scene@.points =~= initial.points);
            assert forall|i: int| 0 <= i < initial.points.len() implies is_wired(
                #[trigger] initial.points[i],
                i,
                4,
                false,
            ) && !initial.points[i].spec_selected() && radius_in_range(
                initial.points[i].spec_radius(),
            ) by {}
        }
        scene
    }
}

impl Scene for BezierSplineScene {
    type Drawing = Vec<SegmentDrawing>;

    open spec fn wf(&self) -> bool {
        self@.wf()
    }

    fn get_title(&self) -> (title: &'static str)
        ensures
            title@ == "Bezier Spline Scene"@,
    {
        "Bezier Spline Scene"
    }

    fn has_background(&self) -> (background: bool)
        ensures
            !background,
    {
        false
    }

    fn help_text(&self) -> (lines: Vec<&'static str>)
        ensures
            lines@.len() == 5,
            lines@[0]@ == "ESC - Go back to main menu"@,
            lines@[1]@
                == "SPACE - Add new cubic Bezier to the spline with the last join at mouse position"@,
            lines@[2]@ == "BACKSPACE - Remove last cubic Bezier set"@,
            lines@[3]@ == "MOUSE CLICK - Move point"@,
            lines@[4]@ == "ENTER - Close path (while close SPACE can no longer be use)"@,
    {
        let mut lines: Vec<&'static str> = Vec::new();
        lines.push("ESC - Go back to main menu");
        lines.push(
            "SPACE - Add new cubic Bezier to the spline with the last join at mouse position",
        );
        lines.push("BACKSPACE - Remove last cubic Bezier set");
        lines.push("MOUSE CLICK - Move point");
        lines.push("ENTER - Close path (while close SPACE can no longer be use)");
        lines
    }

    /// Advances the scene by one frame: see [`SplineState::frame_advanced`].
    fn update(&mut self, input: FrameInput)
        ensures
            final(self)@ == old(self)@.frame_advanced(input),
    {
        self.update_points(input.mouse_position);
        self.update_selection(input.mouse_button_down);
        self.handle_key(input.key_pressed, input.mouse_position);
        self.animate();
    }

    /// What is drawn of the spline, segment by segment, the closing segment
    /// of a loop last. Each segment comes with its sampled curve, with the
    /// construction of its curve point at the scene's parameter where that
    /// is shown, and with its bounding box where that is shown. Of a cubic
    /// segment the curve and the construction are exact.
    fn draw(&self) -> (drawings: Vec<SegmentDrawing>)
        ensures
            drawings@.len() == self@.segment_count(),
            forall|segment: int|
                0 <= segment < drawings@.len() ==> self@.is_shown_by(
                    segment,
                    #[trigger] drawings@[segment],
                ),
    {
        let t = if self.debug_draw {
            Some(Parameter { numerator: self.t, denominator: T_DENOMINATOR })
        } else {
            None
        };
        let len = self.points.len();
        let count = if self.is_closed_loop {
            len / 3
        } else {
            (len - 1) / 3
        };
        proof {
            lemma_cubic_is_representable(self.t);
        }
        let mut drawings: Vec<SegmentDrawing> = Vec::new();
        let mut segment: usize = 0;
        while segment < count
            invariant
                self@.wf(),
                segment <= count,
                count == self@.segment_count(),
                t == self@.shown_parameter(),
                exactly_representable(
                    4,
                    Parameter { numerator: self@.t, denominator: T_DENOMINATOR },
                ),
                exactly_representable(4, sample_parameter(0)),
                drawings@.len() == segment,
                forall|s: int| 0 <= s < segment ==> self@.is_shown_by(s, #[trigger] drawings@[s]),
            decreases count - segment,
        {
            let four = self.segment(segment);
            let curve = draw_bezier(four.as_slice(), t);
            proof {
                lemma_drawing_is_exact(four@, t, curve);
            }
            let bounding_box = if self.draw_bounding_box {
                match cubic_bezier_bounding_box(four.as_slice()) {
                    Ok(bounds) => Some(bounds),
                    Err(_) => None,
                }
            } else {
                None
            };
            drawings.push(SegmentDrawing { curve, bounding_box });
            segment = segment + 1;
        }
        drawings
    }
}

} // verus!
