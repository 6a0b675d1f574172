//! Positions on the integer canvas and the few vector operations the editor
//! needs, each with its exact meaning over the integers.

use vstd::prelude::*;

verus! {

/// A position on the canvas. Both coordinates are whole canvas units.
#[derive(Clone, Copy, Debug, PartialEq, Eq, Structural)]
pub struct Vector2 {
    pub x: i32,
    pub y: i32,
}

/// A displacement between two canvas positions. The difference of two
/// coordinates needs one bit more than a coordinate, hence the wider fields.
#[derive(Clone, Copy, Debug, PartialEq, Eq, Structural)]
pub struct Offset {
    pub dx: i64,
    pub dy: i64,
}

/// Whether `value` is a canvas coordinate.
pub open spec fn is_coordinate(value: int) -> bool {
    i32::MIN <= value <= i32::MAX
}

impl Vector2 {
    /// The square of the Euclidean distance to `other`.
    pub open spec fn distance_squared(self, other: Vector2) -> int {
        (self.x - other.x) * (self.x - other.x) + (self.y - other.y) * (self.y - other.y)
    }

    /// Whether `self` lies strictly inside the disc of the given radius
    /// around `center`. A disc of radius zero or less is empty.
    pub open spec fn inside_disc(self, center: Vector2, radius: int) -> bool {
        radius > 0 && self.distance_squared(center) < radius * radius
    }

    /// `self` shifted back by `offset`, when that is a canvas position.
    pub open spec fn shifted_back(self, offset: Offset) -> Option<Vector2> {
        if is_coordinate(self.x - offset.dx) && is_coordinate(self.y - offset.dy) {
            Some(Vector2 { x: (self.x - offset.dx) as i32, y: (self.y - offset.dy) as i32 })
        } else {
            None
        }
    }

    /// The reflection of `self` through `anchor`, when that is a canvas
    /// position.
    pub open spec fn reflected(self, anchor: Vector2) -> Option<Vector2> {
        if is_coordinate(2 * anchor.x - self.x) && is_coordinate(2 * anchor.y - self.y) {
            Some(
                Vector2 { x: (2 * anchor.x - self.x) as i32, y: (2 * anchor.y - self.y) as i32 },
            )
        } else {
            None
        }
    }

    /// The point halfway to `other`; a half unit is rounded down.
    pub open spec fn halfway(self, other: Vector2) -> Vector2 {
        Vector2 { x: ((self.x + other.x) / 2) as i32, y: ((self.y + other.y) / 2) as i32 }
    }

    pub fn new(x: i32, y: i32) -> (vector: Vector2)
        ensures
            vector == (Vector2 { x, y }),
    {
        Vector2 { x, y }
    }

    /// The displacement that leads from `other` to `self`.
    pub fn minus(self, other: Vector2) -> (offset: Offset)
        ensures
            offset.dx == self.x - other.x,
            offset.dy == self.y - other.y,
    {
        Offset { dx: self.x as i64 - other.x as i64, dy: self.y as i64 - other.y as i64 }
    }

    /// Tests whether `self` lies strictly within `radius` of `center`.
    pub fn is_inside_disc(self, center: Vector2, radius: i32) -> (inside: bool)
        ensures
            inside == self.inside_disc(center, radius as int),
    {
        if radius <= 0 {
            return false;
        }
        let dx: i128 = self.x as i128 - center.x as i128;
        let dy: i128 = self.y as i128 - center.y as i128;
        let r: i128 = radius as i128;
        assert(0 <= dx * dx <= 0x1_0000_0000_0000_0000) by (nonlinear_arith)
            requires
                -0x1_0000_0000 <= dx <= 0x1_0000_0000,
        ;
        assert(0 <= dy * dy <= 0x1_0000_0000_0000_0000) by (nonlinear_arith)
            requires
                -0x1_0000_0000 <= dy <= 0x1_0000_0000,
        ;
        assert(0 <= r * r <= 0x1_0000_0000_0000_0000) by (nonlinear_arith)
            requires
                0 <= r <= 0x1_0000_0000,
        ;
        dx * dx + dy * dy < r * r
    }

    /// Shifts `self` back by `offset`. `None` when the result is off the
    /// canvas.
    pub fn shift_back(self, offset: Offset) -> (shifted: Option<Vector2>)
        ensures
            shifted == self.shifted_back(offset),
    {
        let x: i128 = self.x as i128 - offset.dx as i128;
        let y: i128 = self.y as i128 - offset.dy as i128;
        if i32::MIN as i128 <= x && x <= i32::MAX as i128 && i32::MIN as i128 <= y && y
            <= i32::MAX as i128 {
            Some(Vector2 { x: x as i32, y: y as i32 })
        } else {
            None
        }
    }

    /// Reflects `self` through `anchor`. `None` when the result is off the
    /// canvas.
    pub fn reflect(self, anchor: Vector2) -> (mirrored: Option<Vector2>)
        ensures
            mirrored == self.reflected(anchor),
    {
        let x: i64 = 2 * (anchor.x as i64) - self.x as i64;
        let y: i64 = 2 * (anchor.y as i64) - self.y as i64;
        if i32::MIN as i64 <= x && x <= i32::MAX as i64 && i32::MIN as i64 <= y && y
            <= i32::MAX as i64 {
            Some(Vector2 { x: x as i32, y: y as i32 })
        } else {
            None
        }
    }

    /// The point halfway between `self` and `other`; a half unit is rounded
    /// down.
    pub fn midpoint(self, other: Vector2) -> (middle: Vector2)
        ensures
            middle == self.halfway(other),
    {
        Vector2 { x: half_sum(self.x, other.x), y: half_sum(self.y, other.y) }
    }
}

/// The mean of two coordinates, rounded down.
fn half_sum(a: i32, b: i32) -> (mean: i32)
    ensures
        mean == (a + b) / 2,
{
    // Shift the sum into the non-negative range so that the machine division,
    // which truncates, agrees with the mathematical one, which rounds down.
    let shifted: i64 = a as i64 + b as i64 + 0x1_0000_0000;
    ((shifted / 2) - 0x8000_0000) as i32
}

} // verus!
