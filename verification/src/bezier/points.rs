//! The three kinds of points and what they have in common.
//!
//! A [`BasicPoint`] is free. A [`JoinPoint`] and a [`ControlPoint`] belong to a
//! spline and refer to their neighbours by index into the spline's point
//! list; they never own each other.

use crate::colors::Color;
use crate::vector::{Offset, Vector2};
use vstd::prelude::*;

verus! {

/// The radius of a point at rest.
pub const POINTS_RADIUS: i32 = 10;

/// The radius of a point under the pointer.
pub const POINTS_RADIUS_HOVER: i32 = 15;

/// How much the radius changes per frame on its way between the two.
pub const ANIMATION_SPEED: i32 = 1;

/// The radius one frame later: one step towards the hover radius while the
/// point is hovered, one step towards the resting radius while it is not,
/// without ever stepping past the target. A radius on the far side of its
/// target snaps to it.
pub open spec fn animated_radius(radius: i32, hovered: bool) -> i32 {
    if hovered {
        if radius + ANIMATION_SPEED < POINTS_RADIUS_HOVER {
            (radius + ANIMATION_SPEED) as i32
        } else {
            POINTS_RADIUS_HOVER
        }
    } else {
        if radius - ANIMATION_SPEED > POINTS_RADIUS {
            (radius - ANIMATION_SPEED) as i32
        } else {
            POINTS_RADIUS
        }
    }
}

/// Whether a radius lies between the resting and the hover radius.
pub open spec fn radius_in_range(radius: i32) -> bool {
    POINTS_RADIUS <= radius <= POINTS_RADIUS_HOVER
}

/// The animation never leaves the range between the two radii.
pub proof fn lemma_animation_stays_in_range(radius: i32, hovered: bool)
    requires
        radius_in_range(radius),
    ensures
        radius_in_range(animated_radius(radius, hovered)),
{
}

/// What a point asks of its neighbours after it has been moved.
#[derive(Clone, Copy, Debug, PartialEq, Eq, Structural)]
pub enum Propagation {
    /// Nobody else moves.
    Nothing,
    /// The two handles of a join follow it: each is shifted back by `offset`,
    /// the old position of the join minus its new one.
    Translate { previous: Option<usize>, next: Option<usize>, offset: Offset },
    /// The handle `linked` is placed opposite the moved handle, reflected
    /// through the point `anchor`.
    Mirror { linked: usize, anchor: usize },
}

/// Anything that has a position.
pub trait Point {
    spec fn spec_position(&self) -> Vector2;

    fn get_position(&self) -> (position: Vector2)
        ensures
            position == self.spec_position(),
    ;
}

/// A point as it is shown: with a radius, a colour, and the two flags that
/// follow the pointer.
pub trait PointGui: Point + Sized {
    spec fn spec_radius(&self) -> i32;

    spec fn spec_color(&self) -> Color;

    spec fn spec_hovered(&self) -> bool;

    spec fn spec_selected(&self) -> bool;

    /// The same point with another radius.
    spec fn with_radius(self, radius: i32) -> Self;

    /// The same point with another hover flag.
    spec fn with_hover_state(self, state: bool) -> Self;

    /// The same point with another selection flag.
    spec fn with_selected(self, state: bool) -> Self;

    fn get_radius(&self) -> (radius: i32)
        ensures
            radius == self.spec_radius(),
    ;

    fn set_radius(&mut self, radius: i32)
        ensures
            *final(self) == old(self).with_radius(radius),
            final(self).spec_radius() == radius,
            final(self).spec_position() == old(self).spec_position(),
            final(self).spec_color() == old(self).spec_color(),
            final(self).spec_hovered() == old(self).spec_hovered(),
            final(self).spec_selected() == old(self).spec_selected(),
    ;

    fn get_color(&self) -> (color: Color)
        ensures
            color == self.spec_color(),
    ;

    fn is_hovered(&self) -> (hovered: bool)
        ensures
            hovered == self.spec_hovered(),
    ;

    fn set_hover_state(&mut self, state: bool)
        ensures
            *final(self) == old(self).with_hover_state(state),
            final(self).spec_hovered() == state,
            final(self).spec_position() == old(self).spec_position(),
            final(self).spec_color() == old(self).spec_color(),
            final(self).spec_radius() == old(self).spec_radius(),
            final(self).spec_selected() == old(self).spec_selected(),
    ;

    fn is_selected(&self) -> (selected: bool)
        ensures
            selected == self.spec_selected(),
    ;

    fn set_selected(&mut self, state: bool)
        ensures
            *final(self) == old(self).with_selected(state),
            final(self).spec_selected() == state,
            final(self).spec_position() == old(self).spec_position(),
            final(self).spec_color() == old(self).spec_color(),
            final(self).spec_radius() == old(self).spec_radius(),
            final(self).spec_hovered() == old(self).spec_hovered(),
    ;

    /// Brings the hover flag and the radius up to date for one frame.
    fn udpate_gui(&mut self, mouse_position: Vector2)
        ensures
            ({
                let hovered = mouse_position.inside_disc(
                    old(self).spec_position(),
                    old(self).spec_radius() as int,
                ) || old(self).spec_selected();
                let radius = animated_radius(old(self).spec_radius(), hovered);
                &&& *final(self) == old(self).with_hover_state(hovered).with_radius(radius)
                &&& final(self).spec_hovered() == hovered
                &&& final(self).spec_radius() == radius
            }),
            final(self).spec_position() == old(self).spec_position(),
            final(self).spec_color() == old(self).spec_color(),
            final(self).spec_selected() == old(self).spec_selected(),
    {
        let hovered = mouse_position.is_inside_disc(self.get_position(), self.get_radius())
            || self.is_selected();
        self.set_hover_state(hovered);
        let radius = self.get_radius();
        let target = if self.is_hovered() {
            if radius < POINTS_RADIUS_HOVER - ANIMATION_SPEED {
                radius + ANIMATION_SPEED
            } else {
                POINTS_RADIUS_HOVER
            }
        } else if radius > POINTS_RADIUS + ANIMATION_SPEED {
            radius - ANIMATION_SPEED
        } else {
            POINTS_RADIUS
        };
        self.set_radius(target);
    }
}

/// Whether a point counts as hovered with the pointer at `mouse_position`:
/// the pointer is strictly inside its disc, or the point is selected and so
/// follows the pointer anyway.
pub open spec fn hovered_by<P: PointGui>(point: P, mouse_position: Vector2) -> bool {
    mouse_position.inside_disc(point.spec_position(), point.spec_radius() as int)
        || point.spec_selected()
}

/// A point one frame later, with the pointer at `mouse_position`: the hover
/// flag is brought up to date and the radius takes one animation step.
pub open spec fn after_frame<P: PointGui>(point: P, mouse_position: Vector2) -> P {
    let hovered = hovered_by(point, mouse_position);
    point.with_hover_state(hovered).with_radius(animated_radius(point.spec_radius(), hovered))
}

/// A point that can be moved.
pub trait MovablePoint: Sized {
    /// The same point at another position.
    spec fn moved_to(self, position: Vector2) -> Self;

    /// What moving the point to `position` asks of its neighbours.
    spec fn propagation(self, position: Vector2, with_constraint: bool) -> Propagation;

    /// Moves the point to `position`, whatever its constraints. With
    /// `with_constraint` the result says which neighbours have to follow and
    /// how; the point itself cannot reach them. Neighbours are then moved
    /// plainly, so a move never travels further than one hop.
    fn set_position(&mut self, position: Vector2, with_constraint: bool) -> (propagation:
        Propagation)
        ensures
            *final(self) == old(self).moved_to(position),
            propagation == old(self).propagation(position, with_constraint),
    ;
}

/// A movable, visible point of a spline.
pub trait MovableGuiPoint: MovablePoint + PointGui {
    /// The same point with one constraint slot bound to the point at index
    /// `constraint`; unchanged when the kind of point has no slot
    /// `constraint_id`.
    spec fn with_constraint(self, constraint_id: usize, constraint: usize) -> Self;

    /// A free point that looks the same: a snapshot for drawing.
    fn downcast_basic_point(&self) -> (basic: BasicPoint)
        ensures
            basic == (BasicPoint {
                position: self.spec_position(),
                radius: self.spec_radius(),
                color: self.spec_color(),
                is_selected: self.spec_selected(),
                is_hovered: self.spec_hovered(),
            }),
    ;

    /// Binds the constraint slot `constraint_id` to the point at index
    /// `constraint`. A slot number that this kind of point does not have is
    /// ignored.
    fn set_constraint(&mut self, constraint_id: usize, constraint: usize)
        ensures
            *final(self) == old(self).with_constraint(constraint_id, constraint),
    ;
}

/// A point without constraints.
#[derive(Clone, Copy, Debug, PartialEq, Eq, Structural)]
pub struct BasicPoint {
    pub position: Vector2,
    pub radius: i32,
    pub color: Color,
    pub is_selected: bool,
    pub is_hovered: bool,
}

impl BasicPoint {
    pub fn new(position: Vector2, color: Color) -> (point: BasicPoint)
        ensures
            point == (BasicPoint {
                position,
                radius: POINTS_RADIUS,
                color,
                is_selected: false,
                is_hovered: false,
            }),
    {
        BasicPoint { position, radius: POINTS_RADIUS, color, is_selected: false, is_hovered: false }
    }
}

impl Point for BasicPoint {
    open spec fn spec_position(&self) -> Vector2 {
        self.position
    }

    fn get_position(&self) -> (position: Vector2) {
        self.position
    }
}

impl PointGui for BasicPoint {
    open spec fn spec_radius(&self) -> i32 {
        self.radius
    }

    open spec fn spec_color(&self) -> Color {
        self.color
    }

    open spec fn spec_hovered(&self) -> bool {
        self.is_hovered
    }

    open spec fn spec_selected(&self) -> bool {
        self.is_selected
    }

    open spec fn with_radius(self, radius: i32) -> Self {
        BasicPoint { radius, ..self }
    }

    open spec fn with_hover_state(self, state: bool) -> Self {
        BasicPoint { is_hovered: state, ..self }
    }

    open spec fn with_selected(self, state: bool) -> Self {
        BasicPoint { is_selected: state, ..self }
    }

    fn get_radius(&self) -> (radius: i32) {
        self.radius
    }

    fn set_radius(&mut self, radius: i32) {
        self.radius = radius;
    }

    fn get_color(&self) -> (color: Color) {
        self.color
    }

    fn is_hovered(&self) -> (hovered: bool) {
        self.is_hovered
    }

    fn set_hover_state(&mut self, state: bool) {
        self.is_hovered = state;
    }

    fn is_selected(&self) -> (selected: bool) {
        self.is_selected
    }

    fn set_selected(&mut self, state: bool) {
        self.is_selected = state;
    }
}

impl MovablePoint for BasicPoint {
    open spec fn moved_to(self, position: Vector2) -> Self {
        BasicPoint { position, ..self }
    }

    open spec fn propagation(self, position: Vector2, with_constraint: bool) -> Propagation {
        Propagation::Nothing
    }

    fn set_position(&mut self, position: Vector2, with_constraint: bool) -> (propagation:
        Propagation) {
        self.position = position;
        Propagation::Nothing
    }
}

/// The constraint slots of a join point.
#[derive(Clone, Copy, Debug, PartialEq, Eq, Structural)]
pub enum JoinPointConstraintID {
    PreviousControlPoint,
    NextControlPoint,
}

impl JoinPointConstraintID {
    /// The number of the slot.
    pub open spec fn spec_index(self) -> usize {
        match self {
            JoinPointConstraintID::PreviousControlPoint => 0,
            JoinPointConstraintID::NextControlPoint => 1,
        }
    }

    /// The slot with the given number, if a join point has one.
    pub open spec fn from_index(value: usize) -> Result<JoinPointConstraintID, ()> {
        if value == 0 {
            Ok(JoinPointConstraintID::PreviousControlPoint)
        } else if value == 1 {
            Ok(JoinPointConstraintID::NextControlPoint)
        } else {
            Err(())
        }
    }

    #[verifier::when_used_as_spec(spec_index)]
    pub fn index(self) -> (value: usize)
        ensures
            value == self.spec_index(),
    {
        match self {
            JoinPointConstraintID::PreviousControlPoint => 0,
            JoinPointConstraintID::NextControlPoint => 1,
        }
    }

    pub fn try_from(value: usize) -> (slot: Result<JoinPointConstraintID, ()>)
        ensures
            slot == JoinPointConstraintID::from_index(value),
    {
        match value {
            0 => Ok(JoinPointConstraintID::PreviousControlPoint),
            1 => Ok(JoinPointConstraintID::NextControlPoint),
            _ => Err(()),
        }
    }
}

/// An anchor of a spline, where two segments meet. It may know the handle
/// before it and the handle after it.
#[derive(Clone, Copy, Debug, PartialEq, Eq, Structural)]
pub struct JoinPoint {
    pub position: Vector2,
    pub radius: i32,
    pub is_selected: bool,
    pub is_hovered: bool,
    pub previous_control_point: Option<usize>,
    pub next_control_point: Option<usize>,
}

impl JoinPoint {
    pub fn new(
        position: Vector2,
        previous_control_point: Option<usize>,
        next_control_point: Option<usize>,
    ) -> (point: JoinPoint)
        ensures
            point == (JoinPoint {
                position,
                radius: POINTS_RADIUS,
                is_selected: false,
                is_hovered: false,
                previous_control_point,
                next_control_point,
            }),
    {
        JoinPoint {
            position,
            radius: POINTS_RADIUS,
            is_selected: false,
            is_hovered: false,
            previous_control_point,
            next_control_point,
        }
    }
}

impl Point for JoinPoint {
    open spec fn spec_position(&self) -> Vector2 {
        self.position
    }

    fn get_position(&self) -> (position: Vector2) {
        self.position
    }
}

impl PointGui for JoinPoint {
    open spec fn spec_radius(&self) -> i32 {
        self.radius
    }

    open spec fn spec_color(&self) -> Color {
        Color::join_blue()
    }

    open spec fn spec_hovered(&self) -> bool {
        self.is_hovered
    }

    open spec fn spec_selected(&self) -> bool {
        self.is_selected
    }

    open spec fn with_radius(self, radius: i32) -> Self {
        JoinPoint { radius, ..self }
    }

    open spec fn with_hover_state(self, state: bool) -> Self {
        JoinPoint { is_hovered: state, ..self }
    }

    open spec fn with_selected(self, state: bool) -> Self {
        JoinPoint { is_selected: state, ..self }
    }

    fn get_radius(&self) -> (radius: i32) {
        self.radius
    }

    fn set_radius(&mut self, radius: i32) {
        self.radius = radius;
    }

    fn get_color(&self) -> (color: Color) {
        Color::new(0, 121, 241, 255)
    }

    fn is_hovered(&self) -> (hovered: bool) {
        self.is_hovered
    }

    fn set_hover_state(&mut self, state: bool) {
        self.is_hovered = state;
    }

    fn is_selected(&self) -> (selected: bool) {
        self.is_selected
    }

    fn set_selected(&mut self, state: bool) {
        self.is_selected = state;
    }
}

impl MovablePoint for JoinPoint {
    open spec fn moved_to(self, position: Vector2) -> Self {
        JoinPoint { position, ..self }
    }

    /// With the constraint on, both handles are asked to follow by the same
    /// displacement, so that they keep their place relative to the join.
    open spec fn propagation(self, position: Vector2, with_constraint: bool) -> Propagation {
        if with_constraint {
            Propagation::Translate {
                previous: self.previous_control_point,
                next: self.next_control_point,
                offset: Offset {
                    dx: (self.position.x - position.x) as i64,
                    dy: (self.position.y - position.y) as i64,
                },
            }
        } else {
            Propagation::Nothing
        }
    }

    fn set_position(&mut self, position: Vector2, with_constraint: bool) -> (propagation:
        Propagation) {
        let movement_diff = self.position.minus(position);
        self.position = position;
        if with_constraint {
            Propagation::Translate {
                previous: self.previous_control_point,
                next: self.next_control_point,
                offset: movement_diff,
            }
        } else {
            Propagation::Nothing
        }
    }
}

impl MovableGuiPoint for JoinPoint {
    open spec fn with_constraint(self, constraint_id: usize, constraint: usize) -> Self {
        match JoinPointConstraintID::from_index(constraint_id) {
            Ok(JoinPointConstraintID::PreviousControlPoint) => JoinPoint {
                previous_control_point: Some(constraint),
                ..self
            },
            Ok(JoinPointConstraintID::NextControlPoint) => JoinPoint {
                next_control_point: Some(constraint),
                ..self
            },
            Err(_) => self,
        }
    }

    fn downcast_basic_point(&self) -> (basic: BasicPoint) {
        let mut basic_point = BasicPoint::new(self.position, self.get_color());
        basic_point.radius = self.radius;
        basic_point.is_selected = self.is_selected;
        basic_point.is_hovered = self.is_hovered;
        basic_point
    }

    fn set_constraint(&mut self, constraint_id: usize, constraint: usize) {
        match JoinPointConstraintID::try_from(constraint_id) {
            Ok(JoinPointConstraintID::PreviousControlPoint) => {
                self.previous_control_point = Some(constraint);
            },
            Ok(JoinPointConstraintID::NextControlPoint) => {
                self.next_control_point = Some(constraint);
            },
            Err(_) => {},
        }
    }
}

/// The constraint slots of a control point.
#[derive(Clone, Copy, Debug, PartialEq, Eq, Structural)]
pub enum ControlPointConstraintID {
    LinkedControlPoint,
    MirrorJoinPoint,
}

impl ControlPointConstraintID {
    /// The number of the slot.
    pub open spec fn spec_index(self) -> usize {
        match self {
            ControlPointConstraintID::LinkedControlPoint => 0,
            ControlPointConstraintID::MirrorJoinPoint => 1,
        }
    }

    /// The slot with the given number, if a control point has one.
    pub open spec fn from_index(value: usize) -> Result<ControlPointConstraintID, ()> {
        if value == 0 {
            Ok(ControlPointConstraintID::LinkedControlPoint)
        } else if value == 1 {
            Ok(ControlPointConstraintID::MirrorJoinPoint)
        } else {
            Err(())
        }
    }

    #[verifier::when_used_as_spec(spec_index)]
    pub fn index(self) -> (value: usize)
        ensures
            value == self.spec_index(),
    {
        match self {
            ControlPointConstraintID::LinkedControlPoint => 0,
            ControlPointConstraintID::MirrorJoinPoint => 1,
        }
    }

    pub fn try_from(value: usize) -> (slot: Result<ControlPointConstraintID, ()>)
        ensures
            slot == ControlPointConstraintID::from_index(value),
    {
        match value {
            0 => Ok(ControlPointConstraintID::LinkedControlPoint),
            1 => Ok(ControlPointConstraintID::MirrorJoinPoint),
            _ => Err(()),
        }
    }
}

/// A tangent handle of a spline. It may know the handle on the other side
/// of its anchor, and the anchor itself.
#[derive(Clone, Copy, Debug, PartialEq, Eq, Structural)]
pub struct ControlPoint {
    pub position: Vector2,
    pub radius: i32,
    pub is_selected: bool,
    pub is_hovered: bool,
    pub linked_control_point: Option<usize>,
    pub mirror_join_point: Option<usize>,
}

impl ControlPoint {
    pub fn new(
        position: Vector2,
        linked_point: Option<usize>,
        mirror_join_point: Option<usize>,
    ) -> (point: ControlPoint)
        ensures
            point == (ControlPoint {
                position,
                radius: POINTS_RADIUS,
                is_selected: false,
                is_hovered: false,
                linked_control_point: linked_point,
                mirror_join_point,
            }),
    {
        ControlPoint {
            position,
            radius: POINTS_RADIUS,
            is_selected: false,
            is_hovered: false,
            linked_control_point: linked_point,
            mirror_join_point,
        }
    }
}

impl Point for ControlPoint {
    open spec fn spec_position(&self) -> Vector2 {
        self.position
    }

    fn get_position(&self) -> (position: Vector2) {
        self.position
    }
}

impl PointGui for ControlPoint {
    open spec fn spec_radius(&self) -> i32 {
        self.radius
    }

    open spec fn spec_color(&self) -> Color {
        Color::control_white()
    }

    open spec fn spec_hovered(&self) -> bool {
        self.is_hovered
    }

    open spec fn spec_selected(&self) -> bool {
        self.is_selected
    }

    open spec fn with_radius(self, radius: i32) -> Self {
        ControlPoint { radius, ..self }
    }

    open spec fn with_hover_state(self, state: bool) -> Self {
        ControlPoint { is_hovered: state, ..self }
    }

    open spec fn with_selected(self, state: bool) -> Self {
        ControlPoint { is_selected: state, ..self }
    }

    fn get_radius(&self) -> (radius: i32) {
        self.radius
    }

    fn set_radius(&mut self, radius: i32) {
        self.radius = radius;
    }

    fn get_color(&self) -> (color: Color) {
        Color::new(255, 255, 255, 255)
    }

    fn is_hovered(&self) -> (hovered: bool) {
        self.is_hovered
    }

    fn set_hover_state(&mut self, state: bool) {
        self.is_hovered = state;
    }

    fn is_selected(&self) -> (selected: bool) {
        self.is_selected
    }

    fn set_selected(&mut self, state: bool) {
        self.is_selected = state;
    }
}

impl MovablePoint for ControlPoint {
    open spec fn moved_to(self, position: Vector2) -> Self {
        ControlPoint { position, ..self }
    }

    /// With the constraint on and both relations bound, the linked handle is
    /// asked to take the place opposite this one.
    open spec fn propagation(self, position: Vector2, with_constraint: bool) -> Propagation {
        match (with_constraint, self.linked_control_point, self.mirror_join_point) {
            (true, Some(linked), Some(anchor)) => Propagation::Mirror { linked, anchor },
            _ => Propagation::Nothing,
        }
    }

    fn set_position(&mut self, position: Vector2, with_constraint: bool) -> (propagation:
        Propagation) {
        self.position = position;
        if with_constraint {
            match (self.linked_control_point, self.mirror_join_point) {
                (Some(linked), Some(anchor)) => Propagation::Mirror { linked, anchor },
                _ => Propagation::Nothing,
            }
        } else {
            Propagation::Nothing
        }
    }
}

impl MovableGuiPoint for ControlPoint {
    open spec fn with_constraint(self, constraint_id: usize, constraint: usize) -> Self {
        match ControlPointConstraintID::from_index(constraint_id) {
            Ok(ControlPointConstraintID::LinkedControlPoint) => ControlPoint {
                linked_control_point: Some(constraint),
                ..self
            },
            Ok(ControlPointConstraintID::MirrorJoinPoint) => ControlPoint {
                mirror_join_point: Some(constraint),
                ..self
            },
            Err(_) => self,
        }
    }

    fn downcast_basic_point(&self) -> (basic: BasicPoint) {
        let mut basic_point = BasicPoint::new(self.position, self.get_color());
        basic_point.radius = self.radius;
        basic_point.is_selected = self.is_selected;
        basic_point.is_hovered = self.is_hovered;
        basic_point
    }

    fn set_constraint(&mut self, constraint_id: usize, constraint: usize) {
        match ControlPointConstraintID::try_from(constraint_id) {
            Ok(ControlPointConstraintID::LinkedControlPoint) => {
                self.linked_control_point = Some(constraint);
            },
            Ok(ControlPointConstraintID::MirrorJoinPoint) => {
                self.mirror_join_point = Some(constraint);
            },
            Err(_) => {},
        }
    }
}

} // verus!
