//! The two editing scenes and what their frames have in common: the input of
//! a frame, the animation of the curve parameter, and the selection of the
//! point under the pointer.

pub mod curve;
pub mod spline;

pub use curve::BezierCurveScene;
pub use spline::{BezierSplineScene, SegmentDrawing};

use crate::bezier::points::PointGui;
use crate::vector::Vector2;
use vstd::prelude::*;

verus! {

/// The curve parameter of a scene is held in thousandths.
pub const T_DENOMINATOR: u32 = 1000;

/// How far the animated parameter travels per frame, in thousandths.
pub const T_ANIMATION_SPEED: u32 = 5;

/// The keys a scene reacts to.
#[derive(Clone, Copy, Debug, PartialEq, Eq, Structural)]
pub enum KeyboardKey {
    Space,
    Backspace,
    Enter,
    Other,
}

/// What the outside world reports for one frame.
#[derive(Clone, Copy, Debug, PartialEq, Eq, Structural)]
pub struct FrameInput {
    /// Where the pointer is.
    pub mouse_position: Vector2,
    /// Whether the left button is held down.
    pub mouse_button_down: bool,
    /// The key that was pressed since the last frame, if any.
    pub key_pressed: Option<KeyboardKey>,
}

/// An editing scene: a state that advances frame by frame.
pub trait Scene {
    /// What is drawn of the scene.
    type Drawing;

    /// The state is consistent.
    spec fn wf(&self) -> bool;

    fn get_title(&self) -> &'static str;

    fn has_background(&self) -> bool;

    fn help_text(&self) -> Vec<&'static str>;

    /// Advances the scene by one frame.
    fn update(&mut self, input: FrameInput)
        requires
            old(self).wf(),
        ensures
            final(self).wf(),
    ;

    /// Gathers what is drawn of the scene.
    fn draw(&self) -> Self::Drawing
        requires
            self.wf(),
    ;
}

/// The animated parameter and its direction one frame later. The parameter
/// travels by [`T_ANIMATION_SPEED`], backwards while `bounce` is set; at
/// either end of `[0, 1]` it stops and turns round.
pub open spec fn animated_parameter(t: u32, bounce: bool) -> (u32, bool) {
    let moved: int = if bounce {
        t - T_ANIMATION_SPEED
    } else {
        t + T_ANIMATION_SPEED
    };
    if moved >= T_DENOMINATOR {
        (T_DENOMINATOR, true)
    } else if moved <= 0 {
        (0, false)
    } else {
        (moved as u32, bounce)
    }
}

/// Takes one animation step.
pub fn animate_parameter(t: u32, bounce: bool) -> (next: (u32, bool))
    ensures
        next == animated_parameter(t, bounce),
        next.0 <= T_DENOMINATOR,
{
    let moved: i64 = if bounce {
        t as i64 - T_ANIMATION_SPEED as i64
    } else {
        t as i64 + T_ANIMATION_SPEED as i64
    };
    if moved >= T_DENOMINATOR as i64 {
        (T_DENOMINATOR, true)
    } else if moved <= 0 {
        (0, false)
    } else {
        (moved as u32, bounce)
    }
}

/// The index of the first hovered point, if any point is hovered.
pub open spec fn first_hovered<P: PointGui>(points: Seq<P>) -> Option<int>
    decreases points.len(),
{
    if points.len() == 0 {
        None
    } else if points[0].spec_hovered() {
        Some(0)
    } else {
        match first_hovered(points.skip(1)) {
            Some(i) => Some(i + 1),
            None => None,
        }
    }
}

/// The points with the first hovered one selected.
pub open spec fn first_hovered_selected<P: PointGui>(points: Seq<P>) -> Seq<P> {
    match first_hovered(points) {
        Some(i) => points.update(i, points[i].with_selected(true)),
        None => points,
    }
}

/// The points with every one deselected.
pub open spec fn all_deselected<P: PointGui>(points: Seq<P>) -> Seq<P> {
    Seq::new(points.len(), |i: int| points[i].with_selected(false))
}

/// A hovered point with no hovered point before it is the first hovered.
pub proof fn lemma_first_hovered_is_least<P: PointGui>(points: Seq<P>, index: int)
    requires
        0 <= index < points.len(),
        points[index].spec_hovered(),
        forall|j: int| 0 <= j < index ==> !(#[trigger] points[j]).spec_hovered(),
    ensures
        first_hovered(points) == Some(index),
    decreases index,
{
    if index > 0 {
        assert(!points[0].spec_hovered());
        let rest = points.skip(1);
        assert forall|j: int| 0 <= j < index - 1 implies !(#[trigger] rest[j]).spec_hovered() by {
            assert(rest[j] == points[j + 1]);
        }
        lemma_first_hovered_is_least(rest, index - 1);
    }
}

/// Where no point is hovered there is no first hovered point.
pub proof fn lemma_first_hovered_none<P: PointGui>(points: Seq<P>)
    requires
        forall|j: int| 0 <= j < points.len() ==> !(#[trigger] points[j]).spec_hovered(),
    ensures
        first_hovered(points) is None,
    decreases points.len(),
{
    if points.len() > 0 {
        assert(!points[0].spec_hovered());
        let rest = points.skip(1);
        assert forall|j: int| 0 <= j < rest.len() implies !(#[trigger] rest[j]).spec_hovered() by {
            assert(rest[j] == points[j + 1]);
        }
        lemma_first_hovered_none(rest);
    }
}

/// The first hovered point is hovered, and no point before it is.
pub proof fn lemma_first_hovered_found<P: PointGui>(points: Seq<P>)
    ensures
        first_hovered(points) matches Some(index) ==> {
            &&& 0 <= index < points.len()
            &&& points[index].spec_hovered()
            &&& forall|j: int| 0 <= j < index ==> !(#[trigger] points[j]).spec_hovered()
        },
        first_hovered(points) is None ==> forall|j: int|
            0 <= j < points.len() ==> !(#[trigger] points[j]).spec_hovered(),
    decreases points.len(),
{
    if points.len() > 0 && !points[0].spec_hovered() {
        let rest = points.skip(1);
        lemma_first_hovered_found(rest);
        match first_hovered(rest) {
            Some(i) => {
                assert(rest[i] == points[i + 1]);
                assert forall|j: int| 0 <= j < i + 1 implies !(#[trigger] points[j]).spec_hovered() by {
                    if j > 0 {
                        assert(rest[j - 1] == points[j]);
                    }
                }
            },
            None => {
                assert forall|j: int| 0 <= j < points.len() implies !(
                #[trigger] points[j]).spec_hovered() by {
                    if j > 0 {
                        assert(rest[j - 1] == points[j]);
                    }
                }
            },
        }
    }
}

/// Selects the first hovered point, if there is one, and says whether there
/// was.
pub fn select_first_hovered<P: PointGui>(points: &mut Vec<P>) -> (selected: bool)
    ensures
        final(points)@ == first_hovered_selected(old(points)@),
        selected == first_hovered(old(points)@) is Some,
{
    let mut i: usize = 0;
    while i < points.len()
        invariant
            i <= points.len(),
            points@ == old(points)@,
            forall|j: int| 0 <= j < i ==> !(#[trigger] points@[j]).spec_hovered(),
        decreases points.len() - i,
    {
        if points[i].is_hovered() {
            proof {
                lemma_first_hovered_is_least(points@, i as int);
            }
            points[i].set_selected(true);
            return true;
        }
        i = i + 1;
    }
    proof {
        lemma_first_hovered_none(points@);
    }
    false
}

/// Deselects every point.
pub fn deselect_all<P: PointGui>(points: &mut Vec<P>)
    ensures
        final(points)@ == all_deselected(old(points)@),
{
    let mut i: usize = 0;
    while i < points.len()
        invariant
            i <= points.len(),
            points@.len() == old(points)@.len(),
            forall|j: int| 0 <= j < i ==> #[trigger] points@[j] == old(points)@[j].with_selected(false),
            forall|j: int| i <= j < points@.len() ==> #[trigger] points@[j] == old(points)@[j],
        decreases points.len() - i,
    {
        points[i].set_selected(false);
        i = i + 1;
    }
    assert(points@ =~= all_deselected(old(points)@));
}

} // verus!
