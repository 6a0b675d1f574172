//! An editor model for Bézier curves and cubic Bézier splines.
//!
//! Everything here lives on an integer canvas: positions are pairs of whole
//! canvas units, radii are whole units, and a curve parameter is a fraction
//! of two integers. On that canvas nothing is rounded behind the caller's
//! back. Moving a point, mirroring a handle, appending or removing a segment
//! give exactly the positions their contracts state, and a curve point comes
//! with its exact numerators and denominator wherever those fit the machine
//! integers, and rounded down on a fine grid, with a proved bound on the
//! distance, where they do not.
//!
//! - [`vector`] and [`colors`]: positions and colours.
//! - [`bezier`]: binomial coefficients, the two ways of evaluating a curve
//!   and the proof that they agree, the kinds of points, and the moves that
//!   carry a point's neighbours along.
//! - [`scenes`]: the two editing scenes as state machines that advance by
//!   one frame of input at a time, and what each has to show.

pub mod bezier;
pub mod colors;
pub mod scenes;
pub mod vector;
