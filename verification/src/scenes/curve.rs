//! The scene that edits a single Bézier curve of any degree.

use super::{
    all_deselected, animate_parameter, animated_parameter, deselect_all, first_hovered,
    first_hovered_selected, lemma_first_hovered_found, select_first_hovered, FrameInput,
    KeyboardKey, Scene, T_DENOMINATOR,
};
use crate::bezier::drawing::{draw_bezier, is_drawing_of, BezierDrawing};
use crate::bezier::evaluation::Parameter;
use crate::bezier::points::{
    after_frame, radius_in_range, BasicPoint, MovablePoint, PointGui, POINTS_RADIUS,
};
use crate::colors::{color_blue, color_light, Color};
use crate::vector::Vector2;
use vstd::prelude::*;

verus! {

/// The most points the curve may have, so that its degree stays within what
/// the binomial coefficients allow.
pub const MAX_POINTS: usize = 62;

/// The fewest points the curve may have.
pub const MIN_POINTS: usize = 2;

/// The scene that edits a single Bézier curve: a list of free points, of
/// which the pointer can drag one at a time.
pub struct BezierCurveScene {
    points: Vec<BasicPoint>,
    animated: bool,
    animation_bounce: bool,
    has_point_selected: bool,
    debug_draw: bool,
    t: u32,
}

/// The state of the curve scene.
pub struct CurveState {
    /// The control points of the curve, first to last.
    pub points: Seq<BasicPoint>,
    /// Whether the curve parameter moves by itself.
    pub animated: bool,
    /// Whether the parameter is on its way back to zero.
    pub animation_bounce: bool,
    /// Whether a point is being dragged.
    pub has_point_selected: bool,
    /// Whether the construction of the curve point is shown.
    pub debug_draw: bool,
    /// The curve parameter, in thousandths.
    pub t: u32,
}

/// A point after the pointer has been at `mouse_position` for a frame: it
/// shows whether it is hovered, and follows the pointer if it is selected.
pub open spec fn followed(point: BasicPoint, mouse_position: Vector2) -> BasicPoint {
    let shown = after_frame(point, mouse_position);
    if shown.is_selected {
        shown.moved_to(mouse_position)
    } else {
        shown
    }
}

/// The colour a point of the curve has by its place: the two ends are blue,
/// the points between them light.
pub open spec fn color_at(index: int, len: int) -> Color {
    if index == 0 || index == len - 1 {
        color_blue()
    } else {
        color_light()
    }
}

impl CurveState {
    /// The state is consistent: the number of points is within its limits,
    /// the parameter within `[0, 1]`, at most one point is selected and the
    /// scene knows whether one is, and every point has the radius and the
    /// colour that belong to it.
    pub open spec fn wf(self) -> bool {
        &&& MIN_POINTS <= self.points.len() <= MAX_POINTS
        &&& self.t <= T_DENOMINATOR
        &&& self.has_point_selected <==> exists|i: int|
            0 <= i < self.points.len() && (#[trigger] self.points[i]).is_selected
        &&& forall|i: int, j: int|
            0 <= i < self.points.len() && 0 <= j < self.points.len() && (
            #[trigger] self.points[i]).is_selected && (#[trigger] self.points[j]).is_selected
                ==> i == j
        &&& forall|i: int|
            0 <= i < self.points.len() ==> radius_in_range((#[trigger] self.points[i]).radius)
        &&& forall|i: int|
            0 <= i < self.points.len() ==> (#[trigger] self.points[i]).color == color_at(
                i,
                self.points.len() as int,
            )
    }

    /// The scene as it starts: a cubic curve, animated, with the
    /// construction shown at the middle of the curve.
    pub open spec fn initial() -> CurveState {
        CurveState {
            points: seq![
                BasicPoint {
                    position: Vector2 { x: 300, y: 600 },
                    radius: POINTS_RADIUS,
                    color: color_blue(),
                    is_selected: false,
                    is_hovered: false,
                },
                BasicPoint {
                    position: Vector2 { x: 600, y: 300 },
                    radius: POINTS_RADIUS,
                    color: color_light(),
                    is_selected: false,
                    is_hovered: false,
                },
                BasicPoint {
                    position: Vector2 { x: 900, y: 300 },
                    radius: POINTS_RADIUS,
                    color: color_light(),
                    is_selected: false,
                    is_hovered: false,
                },
                BasicPoint {
                    position: Vector2 { x: 1200, y: 600 },
                    radius: POINTS_RADIUS,
                    color: color_blue(),
                    is_selected: false,
                    is_hovered: false,
                },
            ],
            animated: true,
            animation_bounce: false,
            has_point_selected: false,
            debug_draw: true,
            t: 500,
        }
    }

    /// Every point has met the pointer: see [`followed`].
    pub open spec fn points_updated(self, mouse_position: Vector2) -> CurveState {
        CurveState {
            points: Seq::new(
                self.points.len(),
                |i: int| followed(self.points[i], mouse_position),
            ),
            ..self
        }
    }

    /// The button has been looked at. While it is down and no point is
    /// selected, the first hovered point becomes selected. Once it is up,
    /// whatever was selected is let go.
    pub open spec fn selection_updated(self, mouse_button_down: bool) -> CurveState {
        if mouse_button_down {
            if self.has_point_selected {
                self
            } else {
                CurveState {
                    points: first_hovered_selected(self.points),
                    has_point_selected: first_hovered(self.points) is Some,
                    ..self
                }
            }
        } else if self.has_point_selected {
            CurveState { points: all_deselected(self.points), has_point_selected: false, ..self }
        } else {
            self
        }
    }

    /// Whether a point may be added: none is being dragged, and there is
    /// room for one more.
    pub open spec fn can_add_point(self) -> bool {
        !self.has_point_selected && self.points.len() < MAX_POINTS
    }

    /// A point has been added at `position` as the new end of the curve; the
    /// old end has become an inner point.
    pub open spec fn point_added(self, position: Vector2) -> CurveState {
        let last = self.points.len() - 1;
        CurveState {
            points: self.points.update(
                last,
                BasicPoint { color: color_light(), ..self.points[last] },
            ).push(
                BasicPoint {
                    position,
                    radius: POINTS_RADIUS,
                    color: color_blue(),
                    is_selected: false,
                    is_hovered: false,
                },
            ),
            ..self
        }
    }

    /// Whether the last point may be removed: none is being dragged, and
    /// more than the minimum are left.
    pub open spec fn can_remove_point(self) -> bool {
        !self.has_point_selected && self.points.len() > MIN_POINTS
    }

    /// The last point has been removed; the point before it has become the
    /// end of the curve.
    pub open spec fn point_removed(self) -> CurveState {
        let last = self.points.len() - 2;
        CurveState {
            points: self.points.drop_last().update(
                last,
                BasicPoint { color: color_blue(), ..self.points[last] },
            ),
            ..self
        }
    }

    /// A key has been acted on, with the pointer at `mouse_position`: space
    /// adds a point there, backspace removes the last one, each where that
    /// is allowed.
    pub open spec fn key_handled(
        self,
        key_pressed: Option<KeyboardKey>,
        mouse_position: Vector2,
    ) -> CurveState {
        match key_pressed {
            Some(KeyboardKey::Space) => if self.can_add_point() {
                self.point_added(mouse_position)
            } else {
                self
            },
            Some(KeyboardKey::Backspace) => if self.can_remove_point() {
                self.point_removed()
            } else {
                self
            },
            _ => self,
        }
    }

    /// The parameter has taken one animation step, if it is animated.
    pub open spec fn animation_advanced(self) -> CurveState {
        if self.animated {
            let next = animated_parameter(self.t, self.animation_bounce);
            CurveState { t: next.0, animation_bounce: next.1, ..self }
        } else {
            self
        }
    }

    /// The state one frame later: the points meet the pointer, the button
    /// settles the selection, the key is acted on, the parameter moves.
    pub open spec fn frame_advanced(self, input: FrameInput) -> CurveState {
        self.points_updated(input.mouse_position).selection_updated(
            input.mouse_button_down,
        ).key_handled(input.key_pressed, input.mouse_position).animation_advanced()
    }
}

impl View for BezierCurveScene {
    type V = CurveState;

    closed spec fn view(&self) -> CurveState {
        CurveState {
            points: self.points@,
            animated: self.animated,
            animation_bounce: self.animation_bounce,
            has_point_selected: self.has_point_selected,
            debug_draw: self.debug_draw,
            t: self.t,
        }
    }
}

impl BezierCurveScene {
    /// Lets every point meet the pointer.
    pub fn update_points(&mut self, mouse_position: Vector2)
        requires
            old(self)@.wf(),
        ensures
            final(self)@.wf(),
            final(self)@ == old(self)@.points_updated(mouse_position),
    {
        let mut i: usize = 0;
        while i < self.points.len()
            invariant
                i <= self.points.len(),
                self.points@.len() == old(self).points@.len(),
                self.animated == old(self).animated,
                self.animation_bounce == old(self).animation_bounce,
                self.has_point_selected == old(self).has_point_selected,
                self.debug_draw == old(self).debug_draw,
                self.t == old(self).t,
                forall|j: int|
                    0 <= j < i ==> #[trigger] self.points@[j] == followed(
                        old(self).points@[j],
                        mouse_position,
                    ),
                forall|j: int|
                    i <= j < self.points@.len() ==> #[trigger] self.points@[j] == old(
                        self,
                    ).points@[j],
            decreases self.points.len() - i,
        {
            self.points[i].udpate_gui(mouse_position);
            if self.points[i].is_selected {
                let _ = self.points[i].set_position(mouse_position, false);
            }
            i = i + 1;
        }
        proof {
            let before = old(self)@;
            let after = before.points_updated(mouse_position);
            assert(self@.points =~= after.points);
            lemma_points_updated_wf(before, mouse_position);
        }
    }

    /// Settles the selection by the state of the button.
    pub fn update_selection(&mut self, mouse_button_down: bool)
        requires
            old(self)@.wf(),
        ensures
            final(self)@.wf(),
            final(self)@ == old(self)@.selection_updated(mouse_button_down),
    {
        proof {
            lemma_selection_updated_wf(self@, mouse_button_down);
        }
        if mouse_button_down {
            if !self.has_point_selected {
                self.has_point_selected = select_first_hovered(&mut self.points);
            }
        } else if self.has_point_selected {
            deselect_all(&mut self.points);
            self.has_point_selected = false;
        }
    }

    /// Adds a point at `position` as the new end of the curve, and says
    /// whether it did. Nothing is added while a point is being dragged, nor
    /// beyond [`MAX_POINTS`].
    pub fn add_point(&mut self, position: Vector2) -> (added: bool)
        requires
            old(self)@.wf(),
        ensures
            final(self)@.wf(),
            added == old(self)@.can_add_point(),
            final(self)@ == if added {
                old(self)@.point_added(position)
            } else {
                old(self)@
            },
    {
        if self.has_point_selected || self.points.len() >= MAX_POINTS {
            return false;
        }
        let last = self.points.len() - 1;
        self.points[last].color = color_light();
        self.points.push(BasicPoint::new(position, color_blue()));
        proof {
            assert(self@.points =~= old(self)@.point_added(position).points);
            lemma_point_added_wf(old(self)@, position);
        }
        true
    }

    /// Removes the last point, and says whether it did. Nothing is removed
    /// while a point is being dragged, nor below [`MIN_POINTS`].
    pub fn remove_last_point(&mut self) -> (removed: bool)
        requires
            old(self)@.wf(),
        ensures
            final(self)@.wf(),
            removed == old(self)@.can_remove_point(),
            final(self)@ == if removed {
                old(self)@.point_removed()
            } else {
                old(self)@
            },
    {
        if self.has_point_selected || self.points.len() <= MIN_POINTS {
            return false;
        }
        let _ = self.points.pop();
        let last = self.points.len() - 1;
        self.points[last].color = color_blue();
        proof {
            assert(self@.points =~= old(self)@.point_removed().points);
            lemma_point_removed_wf(old(self)@);
        }
        true
    }

    /// Acts on the key that was pressed, with the pointer at
    /// `mouse_position`.
    pub fn handle_key(&mut self, key_pressed: Option<KeyboardKey>, mouse_position: Vector2)
        requires
            old(self)@.wf(),
        ensures
            final(self)@.wf(),
            final(self)@ == old(self)@.key_handled(key_pressed, mouse_position),
    {
        match key_pressed {
            Some(KeyboardKey::Space) => {
                let _ = self.add_point(mouse_position);
            },
            Some(KeyboardKey::Backspace) => {
                let _ = self.remove_last_point();
            },
            _ => {},
        }
    }

    /// Lets the parameter take one animation step, if it is animated.
    pub fn animate(&mut self)
        requires
            old(self)@.wf(),
        ensures
            final(self)@.wf(),
            final(self)@ == old(self)@.animation_advanced(),
    {
        if self.animated {
            let next = animate_parameter(self.t, self.animation_bounce);
            self.t = next.0;
            self.animation_bounce = next.1;
        }
        proof {
            lemma_same_points_wf(old(self)@, self@);
        }
    }

    /// The control points of the curve.
    pub fn points(&self) -> (points: &Vec<BasicPoint>)
        ensures
            points@ == self@.points,
    {
        &self.points
    }

    /// The curve parameter, in thousandths.
    pub fn t(&self) -> (t: u32)
        ensures
            t == self@.t,
    {
        self.t
    }

    /// Sets the curve parameter, in thousandths; a value beyond one is taken
    /// as one.
    pub fn set_t(&mut self, t: u32)
        requires
            old(self)@.wf(),
        ensures
            final(self)@.wf(),
            final(self)@ == (CurveState {
                t: if t <= T_DENOMINATOR {
                    t
                } else {
                    T_DENOMINATOR
                },
                ..old(self)@
            }),
    {
        self.t = if t <= T_DENOMINATOR {
            t
        } else {
            T_DENOMINATOR
        };
        proof {
            lemma_same_points_wf(old(self)@, self@);
        }
    }

    pub fn is_animated(&self) -> (animated: bool)
        ensures
            animated == self@.animated,
    {
        self.animated
    }

    pub fn set_animated(&mut self, animated: bool)
        requires
            old(self)@.wf(),
        ensures
            final(self)@.wf(),
            final(self)@ == (CurveState { animated, ..old(self)@ }),
    {
        self.animated = animated;
        proof {
            lemma_same_points_wf(old(self)@, self@);
        }
    }

    pub fn is_debug_draw(&self) -> (debug_draw: bool)
        ensures
            debug_draw == self@.debug_draw,
    {
        self.debug_draw
    }

    pub fn set_debug_draw(&mut self, debug_draw: bool)
        requires
            old(self)@.wf(),
        ensures
            final(self)@.wf(),
            final(self)@ == (CurveState { debug_draw, ..old(self)@ }),
    {
        self.debug_draw = debug_draw;
        proof {
            lemma_same_points_wf(old(self)@, self@);
        }
    }

    pub fn has_point_selected(&self) -> (selected: bool)
        ensures
            selected == self@.has_point_selected,
    {
        self.has_point_selected
    }
}

impl Default for BezierCurveScene {
    fn default() -> (scene: Self)
        ensures
            scene@ == CurveState::initial(),
            scene@.wf(),
    {
        let mut points: Vec<BasicPoint> = Vec::new();
        points.push(BasicPoint::new(Vector2::new(300, 600), color_blue()));
        points.push(BasicPoint::new(Vector2::new(600, 300), color_light()));
        points.push(BasicPoint::new(Vector2::new(900, 300), color_light()));
        points.push(BasicPoint::new(Vector2::new(1200, 600), color_blue()));
        let scene = BezierCurveScene {
            points,
            animated: true,
            animation_bounce: false,
            has_point_selected: false,
            debug_draw: true,
            t: 500,
        };
        assert(scene@.points =~= CurveState::initial().points);
        scene
    }
}

impl Scene for BezierCurveScene {
    type Drawing = BezierDrawing;

    open spec fn wf(&self) -> bool {
        self@.wf()
    }

    fn get_title(&self) -> (title: &'static str)
        ensures
            title@ == "Bezier Curve Scene"@,
    {
        "Bezier Curve Scene"
    }

    fn has_background(&self) -> (background: bool)
        ensures
            !background,
    {
        false
    }

    fn help_text(&self) -> (lines: Vec<&'static str>)
        ensures
            lines@.len() == 4,
            lines@[0]@ == "ESC - Go back to main menu"@,
            lines@[1]@ == "SPACE - Add new control point on mouse position"@,
            lines@[2]@ == "BACKSPACE - Remove last point"@,
            lines@[3]@ == "MOUSE CLICK - Move point"@,
    {
        let mut lines: Vec<&'static str> = Vec::new();
        lines.push("ESC - Go back to main menu");
        lines.push("SPACE - Add new control point on mouse position");
        lines.push("BACKSPACE - Remove last point");
        lines.push("MOUSE CLICK - Move point");
        lines
    }

    /// Advances the scene by one frame: see [`CurveState::frame_advanced`].
    fn update(&mut self, input: FrameInput)
        ensures
            final(self)@ == old(self)@.frame_advanced(input),
    {
        self.update_points(input.mouse_position);
        self.update_selection(input.mouse_button_down);
        self.handle_key(input.key_pressed, input.mouse_position);
        self.animate();
    }

    /// What is drawn of the curve; the construction is that of the curve
    /// point at the scene's parameter, and is left out unless it is shown.
    fn draw(&self) -> (drawing: BezierDrawing)
        ensures
            is_drawing_of(
                self@.points,
                if self@.debug_draw {
                    Some(Parameter { numerator: self@.t, denominator: T_DENOMINATOR })
                } else {
                    None
                },
                drawing,
            ),
    {
        let t = if self.debug_draw {
            Some(Parameter { numerator: self.t, denominator: T_DENOMINATOR })
        } else {
            None
        };
        draw_bezier(self.points.as_slice(), t)
    }
}

/// Consistency depends on the points, the selection and the parameter only.
pub proof fn lemma_same_points_wf(before: CurveState, after: CurveState)
    requires
        before.wf(),
        after.points == before.points,
        after.has_point_selected == before.has_point_selected,
        after.t <= T_DENOMINATOR,
    ensures
        after.wf(),
{
    if before.has_point_selected {
        let i = choose|i: int|
            0 <= i < before.points.len() && (#[trigger] before.points[i]).is_selected;
        assert(after.points[i].is_selected);
    }
}

/// Meeting the pointer keeps the state consistent.
pub proof fn lemma_points_updated_wf(state: CurveState, mouse_position: Vector2)
    requires
        state.wf(),
    ensures
        state.points_updated(mouse_position).wf(),
{
    let after = state.points_updated(mouse_position);
    assert forall|i: int| 0 <= i < after.points.len() implies (#[trigger] after.points[i]).is_selected
        == state.points[i].is_selected && after.points[i].color == state.points[i].color
        && radius_in_range(after.points[i].radius) by {
        assert(radius_in_range(state.points[i].radius));
    }
    if state.has_point_selected {
        let i = choose|i: int| 0 <= i < state.points.len() && (#[trigger] state.points[i]).is_selected;
        assert(after.points[i].is_selected);
    }
    assert forall|i: int| 0 <= i < after.points.len() implies (#[trigger] after.points[i]).color
        == color_at(i, after.points.len() as int) by {
        assert(state.points[i].color == color_at(i, state.points.len() as int));
    }
}

/// Settling the selection keeps the state consistent.
pub proof fn lemma_selection_updated_wf(state: CurveState, mouse_button_down: bool)
    requires
        state.wf(),
    ensures
        state.selection_updated(mouse_button_down).wf(),
{
    let after = state.selection_updated(mouse_button_down);
    lemma_first_hovered_found(state.points);
    assert forall|i: int| 0 <= i < after.points.len() implies radius_in_range(
        (#[trigger] after.points[i]).radius,
    ) && after.points[i].color == color_at(i, after.points.len() as int) by {
        assert(radius_in_range(state.points[i].radius));
        assert(state.points[i].color == color_at(i, state.points.len() as int));
    }
    if mouse_button_down && !state.has_point_selected {
        match first_hovered(state.points) {
            Some(first) => {
                assert(after.points[first].is_selected);
                assert forall|i: int|
                    0 <= i < after.points.len() && i != first implies !(
                #[trigger] after.points[i]).is_selected by {
                    assert(after.points[i] == state.points[i]);
                }
            },
            None => {
                assert(after.points == state.points);
            },
        }
    }
}

/// Adding a point keeps the state consistent.
pub proof fn lemma_point_added_wf(state: CurveState, position: Vector2)
    requires
        state.wf(),
        state.can_add_point(),
    ensures
        state.point_added(position).wf(),
{
    let after = state.point_added(position);
    assert forall|i: int| 0 <= i < after.points.len() implies !(#[trigger] after.points[i]).is_selected
        && radius_in_range(after.points[i].radius) && after.points[i].color == color_at(
        i,
        after.points.len() as int,
    ) by {
        if i < state.points.len() {
            assert(!state.points[i].is_selected);
            assert(radius_in_range(state.points[i].radius));
            assert(state.points[i].color == color_at(i, state.points.len() as int));
        }
    }
}

/// Removing the last point keeps the state consistent.
pub proof fn lemma_point_removed_wf(state: CurveState)
    requires
        state.wf(),
        state.can_remove_point(),
    ensures
        state.point_removed().wf(),
{
    let after = state.point_removed();
    assert forall|i: int| 0 <= i < after.points.len() implies !(#[trigger] after.points[i]).is_selected
        && radius_in_range(after.points[i].radius) && after.points[i].color == color_at(
        i,
        after.points.len() as int,
    ) by {
        assert(!state.points[i].is_selected);
        assert(radius_in_range(state.points[i].radius));
        assert(state.points[i].color == color_at(i, state.points.len() as int));
    }
}

} // verus!
