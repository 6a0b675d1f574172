//! Bézier mathematics and the point model shared by both scenes.

pub mod bernstein;
pub mod binomial;
pub mod bounding_box;
pub mod drawing;
pub mod evaluation;
pub mod graph;
pub mod points;

pub use binomial::binomial;
pub use bounding_box::{cubic_bezier_bounding_box, BoundingBoxError, RationalRectangle};
pub use drawing::{draw_bezier, BezierDrawing};
pub use evaluation::{evalute_bezier_curve, Construction, Parameter, RationalVector2};
pub use graph::{OffCanvas, SplinePoint};
pub use points::{
    BasicPoint, ControlPoint, ControlPointConstraintID, JoinPoint, JoinPointConstraintID,
    MovableGuiPoint, MovablePoint, Point, PointGui, Propagation,
};
