use spline_drawer::bezier::{BasicPoint, RationalVector2};
use spline_drawer::colors::{color_blue, color_light};
use spline_drawer::scenes::curve::{MAX_POINTS, MIN_POINTS};
use spline_drawer::scenes::{
    animate_parameter, deselect_all, select_first_hovered, BezierCurveScene, FrameInput,
    KeyboardKey, Scene, T_ANIMATION_SPEED, T_DENOMINATOR,
};
use spline_drawer::vector::Vector2;

fn frame(x: i32, y: i32, down: bool, key: Option<KeyboardKey>) -> FrameInput {
    FrameInput { mouse_position: Vector2::new(x, y), mouse_button_down: down, key_pressed: key }
}

fn positions(scene: &BezierCurveScene) -> Vec<(i32, i32)> {
    scene.points().iter().map(|p| (p.position.x, p.position.y)).collect()
}

#[test]
fn scene_constants() {
    assert_eq!(T_DENOMINATOR, 1000);
    assert_eq!(T_ANIMATION_SPEED, 5);
    assert_eq!(MAX_POINTS, 62);
    assert_eq!(MIN_POINTS, 2);
}

#[test]
fn animation_steps_and_bounces() {
    assert_eq!(animate_parameter(500, false), (505, false));
    assert_eq!(animate_parameter(500, true), (495, true));
    assert_eq!(animate_parameter(995, false), (1000, true));
    assert_eq!(animate_parameter(998, false), (1000, true));
    assert_eq!(animate_parameter(1000, true), (995, true));
    assert_eq!(animate_parameter(5, true), (0, false));
    assert_eq!(animate_parameter(3, true), (0, false));
    assert_eq!(animate_parameter(0, false), (5, false));
    assert_eq!(animate_parameter(0, true), (0, false));
    assert_eq!(animate_parameter(u32::MAX, false), (1000, true));
}

#[test]
fn first_hovered_point_is_selected() {
    let mut points: Vec<BasicPoint> =
        (0..4).map(|i| BasicPoint::new(Vector2::new(i, 0), color_light())).collect();
    assert!(!select_first_hovered(&mut points));
    assert!(points.iter().all(|p| !p.is_selected));
    points[1].is_hovered = true;
    points[3].is_hovered = true;
    assert!(select_first_hovered(&mut points));
    let selected: Vec<bool> = points.iter().map(|p| p.is_selected).collect();
    assert_eq!(selected, vec![false, true, false, false]);
    deselect_all(&mut points);
    assert!(points.iter().all(|p| !p.is_selected));
    assert!(points[1].is_hovered && points[3].is_hovered);
}

#[test]
fn curve_scene_starts_as_a_cubic() {
    let scene = BezierCurveScene::default();
    assert_eq!(
        scene.points(),
        &vec![
            BasicPoint::new(Vector2::new(300, 600), color_blue()),
            BasicPoint::new(Vector2::new(600, 300), color_light()),
            BasicPoint::new(Vector2::new(900, 300), color_light()),
            BasicPoint::new(Vector2::new(1200, 600), color_blue()),
        ]
    );
    assert_eq!(scene.t(), 500);
    assert!(scene.is_animated());
    assert!(scene.is_debug_draw());
    assert!(!scene.has_point_selected());
}

#[test]
fn curve_scene_title_and_help() {
    let scene = BezierCurveScene::default();
    assert_eq!(scene.get_title(), "Bezier Curve Scene");
    assert!(!scene.has_background());
    assert_eq!(
        scene.help_text(),
        vec![
            "ESC - Go back to main menu",
            "SPACE - Add new control point on mouse position",
            "BACKSPACE - Remove last point",
            "MOUSE CLICK - Move point",
        ]
    );
}

#[test]
fn curve_frame_animates_the_parameter() {
    let mut scene = BezierCurveScene::default();
    scene.update(frame(0, 0, false, None));
    assert_eq!(scene.t(), 505);
    scene.set_animated(false);
    scene.update(frame(0, 0, false, None));
    assert_eq!(scene.t(), 505);
    scene.set_animated(true);
    scene.set_t(998);
    scene.update(frame(0, 0, false, None));
    assert_eq!(scene.t(), 1000);
    scene.update(frame(0, 0, false, None));
    assert_eq!(scene.t(), 995);
    scene.set_t(4000);
    assert_eq!(scene.t(), 1000);
}

#[test]
fn curve_frame_hovers_the_point_under_the_pointer() {
    let mut scene = BezierCurveScene::default();
    scene.update(frame(603, 304, false, None));
    let hovered: Vec<bool> = scene.points().iter().map(|p| p.is_hovered).collect();
    let radii: Vec<i32> = scene.points().iter().map(|p| p.radius).collect();
    assert_eq!(hovered, vec![false, true, false, false]);
    assert_eq!(radii, vec![10, 11, 10, 10]);
    assert!(!scene.has_point_selected());
}

#[test]
fn curve_point_is_dragged_while_the_button_is_down() {
    let mut scene = BezierCurveScene::default();
    // Press on the second point: it is hovered this frame and selected.
    scene.update(frame(603, 304, true, None));
    assert!(scene.has_point_selected());
    assert!(scene.points()[1].is_selected);
    assert_eq!(positions(&scene)[1], (600, 300));
    // Next frame it follows the pointer, however far.
    scene.update(frame(50, 70, true, None));
    assert_eq!(positions(&scene), vec![(300, 600), (50, 70), (900, 300), (1200, 600)]);
    assert!(scene.points()[1].is_hovered);
    // Passing over another point does not select that one.
    scene.update(frame(900, 300, true, None));
    assert_eq!(positions(&scene)[1], (900, 300));
    assert!(!scene.points()[2].is_selected);
    // Release: the point stays where it is, and nothing is selected.
    scene.update(frame(910, 310, false, None));
    assert_eq!(positions(&scene)[1], (910, 310));
    assert!(!scene.has_point_selected());
    assert!(scene.points().iter().all(|p| !p.is_selected));
    scene.update(frame(0, 0, false, None));
    assert_eq!(positions(&scene)[1], (910, 310));
}

#[test]
fn curve_press_on_nothing_selects_nothing() {
    let mut scene = BezierCurveScene::default();
    scene.update(frame(0, 0, true, None));
    assert!(!scene.has_point_selected());
    assert!(scene.points().iter().all(|p| !p.is_selected));
}

#[test]
fn curve_space_adds_a_point_at_the_pointer() {
    let mut scene = BezierCurveScene::default();
    scene.update(frame(40, 50, false, Some(KeyboardKey::Space)));
    assert_eq!(
        scene.points(),
        &vec![
            BasicPoint::new(Vector2::new(300, 600), color_blue()),
            BasicPoint::new(Vector2::new(600, 300), color_light()),
            BasicPoint::new(Vector2::new(900, 300), color_light()),
            BasicPoint::new(Vector2::new(1200, 600), color_light()),
            BasicPoint::new(Vector2::new(40, 50), color_blue()),
        ]
    );
}

#[test]
fn curve_backspace_removes_the_last_point() {
    let mut scene = BezierCurveScene::default();
    scene.update(frame(0, 0, false, Some(KeyboardKey::Backspace)));
    assert_eq!(
        scene.points(),
        &vec![
            BasicPoint::new(Vector2::new(300, 600), color_blue()),
            BasicPoint::new(Vector2::new(600, 300), color_light()),
            BasicPoint::new(Vector2::new(900, 300), color_blue()),
        ]
    );
}

#[test]
fn curve_other_keys_do_nothing() {
    let mut scene = BezierCurveScene::default();
    scene.set_animated(false);
    let before = scene.points().clone();
    scene.update(frame(0, 0, false, Some(KeyboardKey::Enter)));
    scene.update(frame(0, 0, false, Some(KeyboardKey::Other)));
    assert_eq!(scene.points(), &before);
}

#[test]
fn curve_keeps_at_least_two_points() {
    let mut scene = BezierCurveScene::default();
    assert!(scene.remove_last_point());
    assert!(scene.remove_last_point());
    assert_eq!(scene.points().len(), 2);
    assert!(!scene.remove_last_point());
    assert_eq!(
        scene.points(),
        &vec![
            BasicPoint::new(Vector2::new(300, 600), color_blue()),
            BasicPoint::new(Vector2::new(600, 300), color_blue()),
        ]
    );
}

#[test]
fn curve_keeps_at_most_sixty_two_points() {
    let mut scene = BezierCurveScene::default();
    for i in 0..58 {
        assert!(scene.add_point(Vector2::new(i, i)));
    }
    assert_eq!(scene.points().len(), 62);
    let before = scene.points().clone();
    assert!(!scene.add_point(Vector2::new(1, 1)));
    scene.update(frame(-5000, -5000, false, Some(KeyboardKey::Space)));
    assert_eq!(scene.points(), &before);
    // The longest curve is still drawn, on the grid.
    let drawing = scene.draw();
    assert_eq!(drawing.points.len(), 62);
    assert_eq!(drawing.curve.len(), 51);
    assert!(drawing.curve.iter().all(|sample| sample.denominator == 65536));
    assert_eq!(
        drawing.curve[0],
        RationalVector2 { x: 300 * 65536, y: 600 * 65536, denominator: 65536 }
    );
    assert_eq!(
        drawing.curve[50],
        RationalVector2 { x: 57 * 65536, y: 57 * 65536, denominator: 65536 }
    );
    assert_eq!(drawing.construction.unwrap().levels.len(), 60);
}

#[test]
fn curve_is_not_edited_while_a_point_is_dragged() {
    let mut scene = BezierCurveScene::default();
    scene.update(frame(300, 600, true, None));
    assert!(scene.has_point_selected());
    let count = scene.points().len();
    scene.update(frame(300, 600, true, Some(KeyboardKey::Space)));
    scene.update(frame(300, 600, true, Some(KeyboardKey::Backspace)));
    assert_eq!(scene.points().len(), count);
    assert!(!scene.add_point(Vector2::new(0, 0)));
    assert!(!scene.remove_last_point());
}

#[test]
fn curve_key_is_acted_on_in_the_frame_of_the_release() {
    let mut scene = BezierCurveScene::default();
    scene.update(frame(300, 600, true, None));
    scene.update(frame(310, 610, false, Some(KeyboardKey::Space)));
    assert_eq!(
        positions(&scene),
        vec![(310, 610), (600, 300), (900, 300), (1200, 600), (310, 610)]
    );
}

#[test]
fn curve_drawing_follows_the_scene() {
    let mut scene = BezierCurveScene::default();
    let drawing = scene.draw();
    assert_eq!(&drawing.points, scene.points());
    let construction = drawing.construction.unwrap();
    assert_eq!(
        construction.final_point,
        RationalVector2 { x: 750000000000, y: 375000000000, denominator: 1000000000 }
    );
    assert_eq!(construction.levels.len(), 2);
    assert_eq!(drawing.curve.len(), 51);
    scene.set_debug_draw(false);
    let drawing = scene.draw();
    assert!(drawing.construction.is_none());
    assert_eq!(drawing.curve.len(), 51);
}
