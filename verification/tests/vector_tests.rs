use spline_drawer::colors::{
    color_black, color_blue, color_dark, color_green, color_light, color_red, color_yellow, Color,
};
use spline_drawer::vector::{Offset, Vector2};

#[test]
fn minus_gives_the_displacement() {
    let offset = Vector2::new(10, -3).minus(Vector2::new(4, 5));
    assert_eq!(offset, Offset { dx: 6, dy: -8 });
    let widest = Vector2::new(i32::MAX, i32::MIN).minus(Vector2::new(i32::MIN, i32::MAX));
    assert_eq!(widest, Offset { dx: 4294967295, dy: -4294967295 });
}

#[test]
fn shift_back_subtracts_the_offset() {
    let shifted = Vector2::new(100, 200).shift_back(Offset { dx: 30, dy: -50 });
    assert_eq!(shifted, Some(Vector2::new(70, 250)));
}

#[test]
fn shift_back_refuses_to_leave_the_canvas() {
    assert_eq!(Vector2::new(i32::MIN, 0).shift_back(Offset { dx: 1, dy: 0 }), None);
    assert_eq!(Vector2::new(0, i32::MAX).shift_back(Offset { dx: 0, dy: -1 }), None);
    assert_eq!(
        Vector2::new(i32::MIN, 0).shift_back(Offset { dx: 0, dy: 0 }),
        Some(Vector2::new(i32::MIN, 0))
    );
    assert_eq!(Vector2::new(0, 0).shift_back(Offset { dx: i64::MIN, dy: 0 }), None);
}

#[test]
fn reflect_mirrors_through_the_anchor() {
    assert_eq!(
        Vector2::new(900, 300).reflect(Vector2::new(1200, 600)),
        Some(Vector2::new(1500, 900))
    );
    assert_eq!(Vector2::new(5, 5).reflect(Vector2::new(5, 5)), Some(Vector2::new(5, 5)));
    assert_eq!(Vector2::new(-7, 2).reflect(Vector2::new(0, 0)), Some(Vector2::new(7, -2)));
}

#[test]
fn reflect_refuses_to_leave_the_canvas() {
    assert_eq!(Vector2::new(0, 0).reflect(Vector2::new(i32::MAX, 0)), None);
    assert_eq!(Vector2::new(i32::MIN, 0).reflect(Vector2::new(0, 0)), None);
    assert_eq!(
        Vector2::new(i32::MIN + 1, 0).reflect(Vector2::new(0, 0)),
        Some(Vector2::new(i32::MAX, 0))
    );
}

#[test]
fn midpoint_rounds_half_units_down() {
    assert_eq!(Vector2::new(0, 0).midpoint(Vector2::new(10, 20)), Vector2::new(5, 10));
    assert_eq!(Vector2::new(0, 0).midpoint(Vector2::new(1, 3)), Vector2::new(0, 1));
    assert_eq!(Vector2::new(0, 0).midpoint(Vector2::new(-1, -3)), Vector2::new(-1, -2));
    assert_eq!(Vector2::new(-4, 7).midpoint(Vector2::new(-7, -8)), Vector2::new(-6, -1));
    assert_eq!(
        Vector2::new(i32::MAX, i32::MIN).midpoint(Vector2::new(i32::MAX, i32::MIN)),
        Vector2::new(i32::MAX, i32::MIN)
    );
    assert_eq!(
        Vector2::new(i32::MAX, i32::MIN).midpoint(Vector2::new(i32::MIN, i32::MAX)),
        Vector2::new(-1, -1)
    );
}

#[test]
fn inside_disc_is_strict() {
    let center = Vector2::new(100, 100);
    assert!(Vector2::new(100, 100).is_inside_disc(center, 10));
    assert!(Vector2::new(109, 100).is_inside_disc(center, 10));
    assert!(!Vector2::new(110, 100).is_inside_disc(center, 10));
    assert!(Vector2::new(106, 107).is_inside_disc(center, 10));
    assert!(!Vector2::new(106, 108).is_inside_disc(center, 10));
    assert!(!Vector2::new(108, 106).is_inside_disc(center, 10));
}

#[test]
fn inside_disc_of_no_radius_is_empty() {
    let center = Vector2::new(0, 0);
    assert!(!center.is_inside_disc(center, 0));
    assert!(!center.is_inside_disc(center, -5));
    assert!(center.is_inside_disc(center, 1));
}

#[test]
fn inside_disc_across_the_whole_canvas() {
    let far = Vector2::new(i32::MIN, i32::MIN);
    let other = Vector2::new(i32::MAX, i32::MAX);
    assert!(!far.is_inside_disc(other, i32::MAX));
    assert!(far.is_inside_disc(far, i32::MAX));
}

#[test]
fn palette_values() {
    assert_eq!(color_red(), Color { r: 232, g: 57, b: 53, a: 255 });
    assert_eq!(color_green(), Color { r: 54, g: 184, b: 62, a: 255 });
    assert_eq!(color_yellow(), Color { r: 227, g: 210, b: 70, a: 255 });
    assert_eq!(color_blue(), Color { r: 67, g: 130, b: 232, a: 255 });
    assert_eq!(color_dark(), Color { r: 89, g: 89, b: 89, a: 255 });
    assert_eq!(color_black(), Color { r: 0, g: 0, b: 0, a: 255 });
    assert_eq!(color_light(), Color { r: 247, g: 251, b: 252, a: 255 });
    assert_eq!(Color::new(1, 2, 3, 4), Color { r: 1, g: 2, b: 3, a: 4 });
}
