//! The constraint graph of a spline: its points in one list, their relations
//! as indices into that list, and the move that carries a point's neighbours
//! along.

use super::points::{
    BasicPoint, ControlPoint, JoinPoint, MovableGuiPoint, MovablePoint, Point, PointGui,
    Propagation,
};
use crate::colors::Color;
use crate::vector::{Offset, Vector2};
use vstd::prelude::*;

verus! {

/// A point of a spline: an anchor or a handle.
#[derive(Clone, Copy, Debug, PartialEq, Eq, Structural)]
pub enum SplinePoint {
    Join(JoinPoint),
    Control(ControlPoint),
}

/// A move that was refused because it would have carried a point off the
/// canvas.
#[derive(Clone, Copy, Debug, PartialEq, Eq, Structural)]
pub struct OffCanvas;

impl SplinePoint {
    /// The relation in slot 0: the handle before a join, or the handle
    /// linked to a handle.
    pub open spec fn first_relation(self) -> Option<usize> {
        match self {
            SplinePoint::Join(point) => point.previous_control_point,
            SplinePoint::Control(point) => point.linked_control_point,
        }
    }

    /// The relation in slot 1: the handle after a join, or the anchor that a
    /// handle mirrors around.
    pub open spec fn second_relation(self) -> Option<usize> {
        match self {
            SplinePoint::Join(point) => point.next_control_point,
            SplinePoint::Control(point) => point.mirror_join_point,
        }
    }
}

impl SplinePoint {
    /// The same point with slot `constraint_id` unbound; unchanged when the
    /// point has no such slot.
    pub open spec fn without_constraint(self, constraint_id: usize) -> SplinePoint {
        match self {
            SplinePoint::Join(point) => if constraint_id == 0 {
                SplinePoint::Join(JoinPoint { previous_control_point: None, ..point })
            } else if constraint_id == 1 {
                SplinePoint::Join(JoinPoint { next_control_point: None, ..point })
            } else {
                self
            },
            SplinePoint::Control(point) => if constraint_id == 0 {
                SplinePoint::Control(ControlPoint { linked_control_point: None, ..point })
            } else if constraint_id == 1 {
                SplinePoint::Control(ControlPoint { mirror_join_point: None, ..point })
            } else {
                self
            },
        }
    }

    /// Unbinds slot `constraint_id`, so that the point no longer refers to a
    /// neighbour that is about to go. A slot number that the point does not
    /// have is ignored.
    pub fn clear_constraint(&mut self, constraint_id: usize)
        ensures
            *final(self) == old(self).without_constraint(constraint_id),
    {
        match self {
            SplinePoint::Join(point) => {
                if constraint_id == 0 {
                    point.previous_control_point = None;
                } else if constraint_id == 1 {
                    point.next_control_point = None;
                }
            },
            SplinePoint::Control(point) => {
                if constraint_id == 0 {
                    point.linked_control_point = None;
                } else if constraint_id == 1 {
                    point.mirror_join_point = None;
                }
            },
        }
    }
}

impl Point for SplinePoint {
    open spec fn spec_position(&self) -> Vector2 {
        match self {
            SplinePoint::Join(point) => point.position,
            SplinePoint::Control(point) => point.position,
        }
    }

    fn get_position(&self) -> (position: Vector2) {
        match self {
            SplinePoint::Join(point) => point.get_position(),
            SplinePoint::Control(point) => point.get_position(),
        }
    }
}

impl PointGui for SplinePoint {
    open spec fn spec_radius(&self) -> i32 {
        match self {
            SplinePoint::Join(point) => point.radius,
            SplinePoint::Control(point) => point.radius,
        }
    }

    open spec fn spec_color(&self) -> Color {
        match self {
            SplinePoint::Join(point) => point.spec_color(),
            SplinePoint::Control(point) => point.spec_color(),
        }
    }

    open spec fn spec_hovered(&self) -> bool {
        match self {
            SplinePoint::Join(point) => point.is_hovered,
            SplinePoint::Control(point) => point.is_hovered,
        }
    }

    open spec fn spec_selected(&self) -> bool {
        match self {
            SplinePoint::Join(point) => point.is_selected,
            SplinePoint::Control(point) => point.is_selected,
        }
    }

    open spec fn with_radius(self, radius: i32) -> Self {
        match self {
            SplinePoint::Join(point) => SplinePoint::Join(point.with_radius(radius)),
            SplinePoint::Control(point) => SplinePoint::Control(point.with_radius(radius)),
        }
    }

    open spec fn with_hover_state(self, state: bool) -> Self {
        match self {
            SplinePoint::Join(point) => SplinePoint::Join(point.with_hover_state(state)),
            SplinePoint::Control(point) => SplinePoint::Control(point.with_hover_state(state)),
        }
    }

    open spec fn with_selected(self, state: bool) -> Self {
        match self {
            SplinePoint::Join(point) => SplinePoint::Join(point.with_selected(state)),
            SplinePoint::Control(point) => SplinePoint::Control(point.with_selected(state)),
        }
    }

    fn get_radius(&self) -> (radius: i32) {
        match self {
            SplinePoint::Join(point) => point.get_radius(),
            SplinePoint::Control(point) => point.get_radius(),
        }
    }

    fn set_radius(&mut self, radius: i32) {
        match self {
            SplinePoint::Join(point) => point.set_radius(radius),
            SplinePoint::Control(point) => point.set_radius(radius),
        }
    }

    fn get_color(&self) -> (color: Color) {
        match self {
            SplinePoint::Join(point) => point.get_color(),
            SplinePoint::Control(point) => point.get_color(),
        }
    }

    fn is_hovered(&self) -> (hovered: bool) {
        match self {
            SplinePoint::Join(point) => point.is_hovered(),
            SplinePoint::Control(point) => point.is_hovered(),
        }
    }

    fn set_hover_state(&mut self, state: bool) {
        match self {
            SplinePoint::Join(point) => point.set_hover_state(state),
            SplinePoint::Control(point) => point.set_hover_state(state),
        }
    }

    fn is_selected(&self) -> (selected: bool) {
        match self {
            SplinePoint::Join(point) => point.is_selected(),
            SplinePoint::Control(point) => point.is_selected(),
        }
    }

    fn set_selected(&mut self, state: bool) {
        match self {
            SplinePoint::Join(point) => point.set_selected(state),
            SplinePoint::Control(point) => point.set_selected(state),
        }
    }
}

impl MovablePoint for SplinePoint {
    open spec fn moved_to(self, position: Vector2) -> Self {
        match self {
            SplinePoint::Join(point) => SplinePoint::Join(point.moved_to(position)),
            SplinePoint::Control(point) => SplinePoint::Control(point.moved_to(position)),
        }
    }

    open spec fn propagation(self, position: Vector2, with_constraint: bool) -> Propagation {
        match self {
            SplinePoint::Join(point) => point.propagation(position, with_constraint),
            SplinePoint::Control(point) => point.propagation(position, with_constraint),
        }
    }

    fn set_position(&mut self, position: Vector2, with_constraint: bool) -> (propagation:
        Propagation) {
        match self {
            SplinePoint::Join(point) => point.set_position(position, with_constraint),
            SplinePoint::Control(point) => point.set_position(position, with_constraint),
        }
    }
}

impl MovableGuiPoint for SplinePoint {
    open spec fn with_constraint(self, constraint_id: usize, constraint: usize) -> Self {
        match self {
            SplinePoint::Join(point) => SplinePoint::Join(
                point.with_constraint(constraint_id, constraint),
            ),
            SplinePoint::Control(point) => SplinePoint::Control(
                point.with_constraint(constraint_id, constraint),
            ),
        }
    }

    fn downcast_basic_point(&self) -> (basic: BasicPoint) {
        match self {
            SplinePoint::Join(point) => point.downcast_basic_point(),
            SplinePoint::Control(point) => point.downcast_basic_point(),
        }
    }

    fn set_constraint(&mut self, constraint_id: usize, constraint: usize) {
        match self {
            SplinePoint::Join(point) => point.set_constraint(constraint_id, constraint),
            SplinePoint::Control(point) => point.set_constraint(constraint_id, constraint),
        }
    }
}

/// A relation of the point at `owner` is in order when it is unbound, or
/// bound to another point of the list.
pub open spec fn relation_in_order(relation: Option<usize>, owner: int, len: int) -> bool {
    relation matches Some(target) ==> target < len && target != owner
}

/// Every relation of every point leads to another point of the list.
pub open spec fn well_linked(points: Seq<SplinePoint>) -> bool {
    forall|i: int|
        0 <= i < points.len() ==> relation_in_order(
            (#[trigger] points[i]).first_relation(),
            i,
            points.len() as int,
        ) && relation_in_order(points[i].second_relation(), i, points.len() as int)
}

/// The list with the point at `index` placed at `position`, nothing else
/// changed.
pub open spec fn placed(points: Seq<SplinePoint>, index: int, position: Vector2) -> Seq<
    SplinePoint,
> {
    points.update(index, points[index].moved_to(position))
}

/// The list with the point at `target`, if one is bound, shifted back by
/// `offset`. `None` when that point would leave the canvas.
pub open spec fn shifted(points: Seq<SplinePoint>, target: Option<usize>, offset: Offset)
    -> Option<Seq<SplinePoint>> {
    match target {
        None => Some(points),
        Some(index) => match points[index as int].spec_position().shifted_back(offset) {
            Some(position) => Some(placed(points, index as int, position)),
            None => None,
        },
    }
}

/// The list after the neighbours of a point that was moved to `position`
/// have followed as it asked. `None` when one of them would leave the
/// canvas.
pub open spec fn propagated(
    points: Seq<SplinePoint>,
    propagation: Propagation,
    position: Vector2,
) -> Option<Seq<SplinePoint>> {
    match propagation {
        Propagation::Nothing => Some(points),
        Propagation::Translate { previous, next, offset } => match shifted(
            points,
            previous,
            offset,
        ) {
            Some(after) => shifted(after, next, offset),
            None => None,
        },
        Propagation::Mirror { linked, anchor } => match position.reflected(
            points[anchor as int].spec_position(),
        ) {
            Some(mirrored) => Some(placed(points, linked as int, mirrored)),
            None => None,
        },
    }
}

/// The list after the point at `index` has been moved to `position`: first
/// the point itself, then, with the constraint on, its bound neighbours, one
/// hop and no further. `None` when a neighbour would leave the canvas.
pub open spec fn moved(
    points: Seq<SplinePoint>,
    index: int,
    position: Vector2,
    with_constraint: bool,
) -> Option<Seq<SplinePoint>> {
    propagated(
        placed(points, index, position),
        points[index].propagation(position, with_constraint),
        position,
    )
}

/// Places the point at `index` at `position`, plainly.
fn place(points: &mut Vec<SplinePoint>, index: usize, position: Vector2)
    requires
        index < old(points).len(),
    ensures
        final(points)@ == placed(old(points)@, index as int, position),
{
    let mut point = points[index];
    let _ = point.set_position(position, false);
    points.set(index, point);
}

/// Moves the point at `index` to `position`. With `with_constraint`, the
/// neighbours bound to it follow: the handles of a join are carried along by
/// the same displacement, and the handle linked to a handle is placed
/// opposite it, reflected through their anchor. The neighbours are moved
/// plainly, so nothing travels further than one hop.
///
/// The move is refused as a whole, and the list left as it was, when a
/// neighbour would leave the canvas.
pub fn set_position(
    points: &mut Vec<SplinePoint>,
    index: usize,
    position: Vector2,
    with_constraint: bool,
) -> (result: Result<(), OffCanvas>)
    requires
        index < old(points).len(),
        well_linked(old(points)@),
    ensures
        well_linked(final(points)@),
        match moved(old(points)@, index as int, position, with_constraint) {
            Some(after) => result is Ok && final(points)@ == after,
            None => result is Err && final(points)@ == old(points)@,
        },
{
    let mut point = points[index];
    let propagation = point.set_position(position, with_constraint);
    let ghost start = points@;
    let ghost own = placed(start, index as int, position);
    proof {
        lemma_placed_keeps_links(start, index as int, position);
    }
    match propagation {
        Propagation::Nothing => {
            points.set(index, point);
            assert(points@ == own);
            Ok(())
        },
        Propagation::Translate { previous, next, offset } => {
            let first = match previous {
                None => None,
                Some(target) => match points[target].get_position().shift_back(offset) {
                    Some(shifted_position) => Some(shifted_position),
                    None => {
                        return Err(OffCanvas);
                    },
                },
            };
            let ghost after_first = shifted(own, previous, offset).unwrap();
            proof {
                if previous is Some {
                    lemma_placed_keeps_links(own, previous.unwrap() as int, first.unwrap());
                }
            }
            let second = match next {
                None => None,
                Some(target) => {
                    let current = if first.is_some() && previous == Some(target) {
                        first.unwrap()
                    } else {
                        points[target].get_position()
                    };
                    assert(current == after_first[target as int].spec_position());
                    match current.shift_back(offset) {
                        Some(shifted_position) => Some(shifted_position),
                        None => {
                            return Err(OffCanvas);
                        },
                    }
                },
            };
            points.set(index, point);
            assert(points@ == own);
            if let Some(target) = previous {
                place(points, target, first.unwrap());
            }
            assert(points@ == after_first);
            if let Some(target) = next {
                proof {
                    lemma_placed_keeps_links(after_first, target as int, second.unwrap());
                }
                place(points, target, second.unwrap());
            }
            Ok(())
        },
        Propagation::Mirror { linked, anchor } => {
            let anchor_position = points[anchor].get_position();
            assert(anchor_position == own[anchor as int].spec_position());
            match position.reflect(anchor_position) {
                Some(mirrored) => {
                    points.set(index, point);
                    assert(points@ == own);
                    proof {
                        lemma_placed_keeps_links(own, linked as int, mirrored);
                    }
                    place(points, linked, mirrored);
                    Ok(())
                },
                None => Err(OffCanvas),
            }
        },
    }
}

/// Binds slot `constraint_id` of the point at `index` to the point at
/// `target`. A slot number that the point does not have is ignored.
pub fn set_constraint(
    points: &mut Vec<SplinePoint>,
    index: usize,
    constraint_id: usize,
    target: usize,
)
    requires
        index < old(points).len(),
        target < old(points).len(),
        target != index,
        well_linked(old(points)@),
    ensures
        well_linked(final(points)@),
        final(points)@ == old(points)@.update(
            index as int,
            old(points)@[index as int].with_constraint(constraint_id, target),
        ),
{
    let mut point = points[index];
    point.set_constraint(constraint_id, target);
    points.set(index, point);
    proof {
        let before = old(points)@;
        let after = points@;
        assert forall|i: int| 0 <= i < after.len() implies relation_in_order(
            (#[trigger] after[i]).first_relation(),
            i,
            after.len() as int,
        ) && relation_in_order(after[i].second_relation(), i, after.len() as int) by {
            assert(relation_in_order(before[i].first_relation(), i, before.len() as int));
        }
    }
}

/// Placing a point somewhere else changes no relation.
pub proof fn lemma_placed_keeps_links(points: Seq<SplinePoint>, index: int, position: Vector2)
    requires
        0 <= index < points.len(),
        well_linked(points),
    ensures
        well_linked(placed(points, index, position)),
        placed(points, index, position).len() == points.len(),
{
    let after = placed(points, index, position);
    assert forall|i: int| 0 <= i < after.len() implies relation_in_order(
        (#[trigger] after[i]).first_relation(),
        i,
        after.len() as int,
    ) && relation_in_order(after[i].second_relation(), i, after.len() as int) by {
        assert(relation_in_order(points[i].first_relation(), i, points.len() as int));
    }
}

/// A join that is moved with the constraint on carries its handles along
/// rigidly: each handle bound to it moves by exactly the displacement of the
/// join. (Two slots bound to one and the same handle would move it twice;
/// that case is left out.)
pub proof fn lemma_join_carries_handles(
    points: Seq<SplinePoint>,
    index: int,
    position: Vector2,
    after: Seq<SplinePoint>,
)
    requires
        0 <= index < points.len(),
        well_linked(points),
        points[index] is Join,
        points[index].first_relation() != points[index].second_relation(),
        moved(points, index, position, true) == Some(after),
    ensures
        after.len() == points.len(),
        after[index].spec_position() == position,
        points[index].first_relation() matches Some(handle) ==> {
            &&& after[handle as int].spec_position().x - points[handle as int].spec_position().x
                == position.x - points[index].spec_position().x
            &&& after[handle as int].spec_position().y - points[handle as int].spec_position().y
                == position.y - points[index].spec_position().y
        },
        points[index].second_relation() matches Some(handle) ==> {
            &&& after[handle as int].spec_position().x - points[handle as int].spec_position().x
                == position.x - points[index].spec_position().x
            &&& after[handle as int].spec_position().y - points[handle as int].spec_position().y
                == position.y - points[index].spec_position().y
        },
{
    assert(relation_in_order(points[index].first_relation(), index, points.len() as int));
    assert(relation_in_order(points[index].second_relation(), index, points.len() as int));
}

/// A handle that is moved with the constraint on, and that knows both its
/// linked handle and its anchor, leaves the linked handle opposite itself:
/// at twice the anchor's position minus its own. (A handle whose two slots
/// are bound to one and the same point would move its own anchor; that case
/// is left out.)
pub proof fn lemma_control_mirrors_linked(
    points: Seq<SplinePoint>,
    index: int,
    position: Vector2,
    after: Seq<SplinePoint>,
)
    requires
        0 <= index < points.len(),
        well_linked(points),
        points[index] is Control,
        points[index].first_relation() is Some,
        points[index].second_relation() is Some,
        points[index].first_relation() != points[index].second_relation(),
        moved(points, index, position, true) == Some(after),
    ensures
        after.len() == points.len(),
        after[index].spec_position() == position,
        ({
            let linked = points[index].first_relation().unwrap() as int;
            let anchor = points[index].second_relation().unwrap() as int;
            &&& after[anchor] == points[anchor]
            &&& after[linked].spec_position().x == 2 * after[anchor].spec_position().x
                - after[index].spec_position().x
            &&& after[linked].spec_position().y == 2 * after[anchor].spec_position().y
                - after[index].spec_position().y
        }),
{
    assert(relation_in_order(points[index].first_relation(), index, points.len() as int));
    assert(relation_in_order(points[index].second_relation(), index, points.len() as int));
}

/// A move goes one hop and no further: it changes the moved point and the
/// points bound to it, and of those nothing but the position.
pub proof fn lemma_move_is_one_hop(
    points: Seq<SplinePoint>,
    index: int,
    position: Vector2,
    with_constraint: bool,
    after: Seq<SplinePoint>,
    other: int,
)
    requires
        0 <= index < points.len(),
        0 <= other < points.len(),
        well_linked(points),
        moved(points, index, position, with_constraint) == Some(after),
    ensures
        after.len() == points.len(),
        after[other] == points[other].moved_to(after[other].spec_position()),
        other != index && points[index].first_relation() != Some(other as usize)
            && points[index].second_relation() != Some(other as usize) ==> after[other]
            == points[other],
        !with_constraint && other != index ==> after[other] == points[other],
{
    assert(relation_in_order(points[index].first_relation(), index, points.len() as int));
    assert(relation_in_order(points[index].second_relation(), index, points.len() as int));
    let own = placed(points, index, position);
    match points[index].propagation(position, with_constraint) {
        Propagation::Nothing => {},
        Propagation::Translate { previous, next, offset } => {
            let first = shifted(own, previous, offset).unwrap();
            assert(first[other] == points[other].moved_to(first[other].spec_position()));
        },
        Propagation::Mirror { linked, anchor } => {},
    }
}

} // verus!
