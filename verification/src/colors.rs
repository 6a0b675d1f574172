//! Colours and the editor's palette.

use vstd::prelude::*;

verus! {

/// A colour as red, green, blue and opacity.
#[derive(Clone, Copy, Debug, PartialEq, Eq, Structural)]
pub struct Color {
    pub r: u8,
    pub g: u8,
    pub b: u8,
    pub a: u8,
}

impl Color {
    pub open spec fn rgba(r: u8, g: u8, b: u8, a: u8) -> Color {
        Color { r, g, b, a }
    }

    /// The colour of join points.
    pub open spec fn join_blue() -> Color {
        Color::rgba(0, 121, 241, 255)
    }

    /// The colour of control points.
    pub open spec fn control_white() -> Color {
        Color::rgba(255, 255, 255, 255)
    }

    pub fn new(r: u8, g: u8, b: u8, a: u8) -> (color: Color)
        ensures
            color == Color::rgba(r, g, b, a),
    {
        Color { r, g, b, a }
    }
}

pub open spec fn color_red_value() -> Color {
    Color::rgba(232, 57, 53, 255)
}

pub open spec fn color_green_value() -> Color {
    Color::rgba(54, 184, 62, 255)
}

pub open spec fn color_yellow_value() -> Color {
    Color::rgba(227, 210, 70, 255)
}

pub open spec fn color_blue_value() -> Color {
    Color::rgba(67, 130, 232, 255)
}

pub open spec fn color_dark_value() -> Color {
    Color::rgba(89, 89, 89, 255)
}

pub open spec fn color_black_value() -> Color {
    Color::rgba(0, 0, 0, 255)
}

pub open spec fn color_light_value() -> Color {
    Color::rgba(247, 251, 252, 255)
}

#[verifier::when_used_as_spec(color_red_value)]
pub fn color_red() -> (color: Color)
    ensures
        color == color_red_value(),
{
    Color::new(232, 57, 53, 255)
}

#[verifier::when_used_as_spec(color_green_value)]
pub fn color_green() -> (color: Color)
    ensures
        color == color_green_value(),
{
    Color::new(54, 184, 62, 255)
}

#[verifier::when_used_as_spec(color_yellow_value)]
pub fn color_yellow() -> (color: Color)
    ensures
        color == color_yellow_value(),
{
    Color::new(227, 210, 70, 255)
}

#[verifier::when_used_as_spec(color_blue_value)]
pub fn color_blue() -> (color: Color)
    ensures
        color == color_blue_value(),
{
    Color::new(67, 130, 232, 255)
}

#[verifier::when_used_as_spec(color_dark_value)]
pub fn color_dark() -> (color: Color)
    ensures
        color == color_dark_value(),
{
    Color::new(89, 89, 89, 255)
}

#[verifier::when_used_as_spec(color_black_value)]
pub fn color_black() -> (color: Color)
    ensures
        color == color_black_value(),
{
    Color::new(0, 0, 0, 255)
}

#[verifier::when_used_as_spec(color_light_value)]
pub fn color_light() -> (color: Color)
    ensures
        color == color_light_value(),
{
    Color::new(247, 251, 252, 255)
}

} // verus!
