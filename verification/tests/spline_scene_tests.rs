use spline_drawer::bezier::{
    cubic_bezier_bounding_box, BasicPoint, ControlPoint, JoinPoint, Point, PointGui,
    RationalRectangle, RationalVector2, SplinePoint,
};
use spline_drawer::colors::Color;
use spline_drawer::scenes::{BezierSplineScene, FrameInput, KeyboardKey, Scene};
use spline_drawer::vector::Vector2;

fn join(x: i32, y: i32, previous: Option<usize>, next: Option<usize>) -> SplinePoint {
    SplinePoint::Join(JoinPoint::new(Vector2::new(x, y), previous, next))
}

fn control(x: i32, y: i32, linked: Option<usize>, anchor: Option<usize>) -> SplinePoint {
    SplinePoint::Control(ControlPoint::new(Vector2::new(x, y), linked, anchor))
}

fn frame(x: i32, y: i32, down: bool, key: Option<KeyboardKey>) -> FrameInput {
    FrameInput { mouse_position: Vector2::new(x, y), mouse_button_down: down, key_pressed: key }
}

fn positions(scene: &BezierSplineScene) -> Vec<(i32, i32)> {
    scene.points().iter().map(|p| (p.get_position().x, p.get_position().y)).collect()
}

fn one_segment() -> Vec<SplinePoint> {
    vec![
        join(300, 600, None, Some(1)),
        control(600, 300, None, Some(0)),
        control(900, 300, None, Some(3)),
        join(1200, 600, Some(2), None),
    ]
}

#[test]
fn spline_scene_starts_with_one_segment() {
    let scene = BezierSplineScene::default();
    assert_eq!(scene.points(), &one_segment());
    assert_eq!(scene.t(), 500);
    assert!(scene.is_animated());
    assert!(scene.is_debug_draw());
    assert!(scene.is_lock_move());
    assert!(!scene.is_draw_bounding_box());
    assert!(!scene.is_closed());
    assert!(!scene.has_point_selected());
}

#[test]
fn spline_scene_title_and_help() {
    let scene = BezierSplineScene::default();
    assert_eq!(scene.get_title(), "Bezier Spline Scene");
    assert!(!scene.has_background());
    assert_eq!(
        scene.help_text(),
        vec![
            "ESC - Go back to main menu",
            "SPACE - Add new cubic Bezier to the spline with the last join at mouse position",
            "BACKSPACE - Remove last cubic Bezier set",
            "MOUSE CLICK - Move point",
            "ENTER - Close path (while close SPACE can no longer be use)",
        ]
    );
}

#[test]
fn appended_segment_continues_the_spline() {
    let mut scene = BezierSplineScene::default();
    assert!(scene.append_segment(Vector2::new(1500, 601)));
    assert_eq!(
        scene.points(),
        &vec![
            join(300, 600, None, Some(1)),
            control(600, 300, None, Some(0)),
            control(900, 300, Some(4), Some(3)),
            join(1200, 600, Some(2), Some(4)),
            control(1500, 900, Some(2), Some(3)),
            control(1350, 600, None, Some(6)),
            join(1500, 601, Some(5), None),
        ]
    );
}

#[test]
fn append_then_remove_restores_the_spline() {
    let mut scene = BezierSplineScene::default();
    assert!(scene.append_segment(Vector2::new(1500, 600)));
    let two = scene.points().clone();
    assert_eq!(two.len(), 7);
    assert!(scene.append_segment(Vector2::new(-80, 45)));
    assert_eq!(scene.points().len(), 10);
    assert!(scene.remove_last_segment());
    assert_eq!(scene.points(), &two);
    assert!(scene.remove_last_segment());
    assert_eq!(scene.points(), &one_segment());
}

#[test]
fn the_only_segment_is_not_removed() {
    let mut scene = BezierSplineScene::default();
    assert!(!scene.remove_last_segment());
    scene.update(frame(0, 0, false, Some(KeyboardKey::Backspace)));
    assert_eq!(scene.points(), &one_segment());
}

#[test]
fn closing_one_segment_adds_two_handles() {
    let mut scene = BezierSplineScene::default();
    assert!(scene.close_loop());
    assert!(scene.is_closed());
    let points = scene.points();
    let n = points.len();
    assert_eq!(n, 6);
    assert_eq!(
        points,
        &vec![
            join(300, 600, Some(5), Some(1)),
            control(600, 300, Some(5), Some(0)),
            control(900, 300, Some(4), Some(3)),
            join(1200, 600, Some(2), Some(4)),
            // Continues the spline past its last join.
            control(1500, 900, Some(2), Some(3)),
            // Made up to arrive at the first join: the first handle mirrored.
            control(0, 900, Some(1), Some(0)),
        ]
    );
    // The closing segment is the window N - 3, N - 2, N - 1, 0.
    assert!(matches!(points[n - 3], SplinePoint::Join(_)));
    assert!(matches!(points[n - 2], SplinePoint::Control(_)));
    assert!(matches!(points[n - 1], SplinePoint::Control(_)));
    assert!(matches!(points[0], SplinePoint::Join(_)));
    let drawings = scene.draw();
    assert_eq!(drawings.len(), 2);
    let closing: Vec<Vector2> = drawings[1].curve.points.iter().map(|p| p.position).collect();
    assert_eq!(
        closing,
        vec![
            Vector2::new(1200, 600),
            Vector2::new(1500, 900),
            Vector2::new(0, 900),
            Vector2::new(300, 600)
        ]
    );
}

#[test]
fn closing_two_segments() {
    let mut scene = BezierSplineScene::default();
    assert!(scene.append_segment(Vector2::new(1500, 600)));
    assert!(scene.close_loop());
    assert_eq!(scene.points().len(), 9);
    assert_eq!(scene.points()[7], control(1650, 600, Some(5), Some(6)));
    assert_eq!(scene.points()[8], control(0, 900, Some(1), Some(0)));
    assert_eq!(scene.points()[6], join(1500, 600, Some(5), Some(7)));
    assert_eq!(scene.points()[5], control(1350, 600, Some(7), Some(6)));
    assert_eq!(scene.draw().len(), 3);
}

#[test]
fn a_closed_loop_is_neither_closed_again_nor_extended() {
    let mut scene = BezierSplineScene::default();
    assert!(scene.close_loop());
    let closed = scene.points().clone();
    assert!(!scene.close_loop());
    assert!(!scene.append_segment(Vector2::new(5, 5)));
    scene.update(frame(0, 0, false, Some(KeyboardKey::Space)));
    scene.update(frame(0, 0, false, Some(KeyboardKey::Enter)));
    assert_eq!(scene.points(), &closed);
    assert!(scene.is_closed());
}

#[test]
fn removing_from_a_loop_opens_it() {
    let mut scene = BezierSplineScene::default();
    assert!(scene.close_loop());
    assert!(scene.remove_last_segment());
    assert!(!scene.is_closed());
    assert_eq!(scene.points(), &one_segment());
    assert!(scene.append_segment(Vector2::new(1500, 600)));
    let two = scene.points().clone();
    assert!(scene.close_loop());
    assert!(scene.remove_last_segment());
    assert_eq!(scene.points(), &two);
    assert!(scene.remove_last_segment());
    assert_eq!(scene.points(), &one_segment());
}

#[test]
fn handles_off_the_canvas_refuse_the_segment() {
    let mut scene = BezierSplineScene::default();
    // Carry the last join so far right that the continuing handle would
    // leave the canvas.
    assert!(scene.drag(3, Vector2::new(i32::MAX - 10, 0), false));
    let before = scene.points().clone();
    assert!(!scene.append_segment(Vector2::new(0, 0)));
    assert!(!scene.close_loop());
    assert_eq!(scene.points(), &before);
    assert!(!scene.is_closed());
    // With the last handle on the far side of the join there is room.
    assert!(scene.drag(2, Vector2::new(i32::MAX, 0), false));
    assert!(scene.append_segment(Vector2::new(0, 0)));
    assert_eq!(scene.points()[4], control(i32::MAX - 20, 0, Some(2), Some(3)));
    assert_eq!(scene.points()[5], control(1073741818, 0, None, Some(6)));
}

#[test]
fn keys_edit_the_spline() {
    let mut scene = BezierSplineScene::default();
    scene.update(frame(1500, 600, false, Some(KeyboardKey::Space)));
    assert_eq!(scene.points().len(), 7);
    assert_eq!(scene.points()[6].get_position(), Vector2::new(1500, 600));
    scene.update(frame(0, 0, false, Some(KeyboardKey::Enter)));
    assert!(scene.is_closed());
    assert_eq!(scene.points().len(), 9);
    scene.update(frame(0, 0, false, Some(KeyboardKey::Other)));
    assert_eq!(scene.points().len(), 9);
    scene.update(frame(0, 0, false, Some(KeyboardKey::Backspace)));
    assert!(!scene.is_closed());
    assert_eq!(scene.points().len(), 7);
    scene.update(frame(0, 0, false, Some(KeyboardKey::Backspace)));
    assert_eq!(scene.points(), &one_segment());
    assert_eq!(scene.t(), 525);
}

#[test]
fn dragged_join_carries_its_handles() {
    let mut scene = BezierSplineScene::default();
    assert!(scene.append_segment(Vector2::new(1500, 600)));
    assert!(scene.drag(3, Vector2::new(1210, 590), true));
    assert_eq!(
        positions(&scene),
        vec![
            (300, 600),
            (600, 300),
            (910, 290),
            (1210, 590),
            (1510, 890),
            (1350, 600),
            (1500, 600)
        ]
    );
    assert!(scene.drag(3, Vector2::new(0, 0), false));
    assert_eq!(positions(&scene)[2..5], [(910, 290), (0, 0), (1510, 890)]);
}

#[test]
fn dragged_handle_mirrors_its_linked_handle() {
    let mut scene = BezierSplineScene::default();
    assert!(scene.append_segment(Vector2::new(1500, 600)));
    assert!(scene.drag(4, Vector2::new(1400, 650), true));
    assert_eq!(positions(&scene)[2..5], [(1000, 550), (1200, 600), (1400, 650)]);
    assert!(scene.drag(2, Vector2::new(1200, 500), true));
    assert_eq!(positions(&scene)[2..5], [(1200, 500), (1200, 600), (1200, 700)]);
}

#[test]
fn dragged_handle_of_a_loop_mirrors_across_the_first_join() {
    let mut scene = BezierSplineScene::default();
    assert!(scene.close_loop());
    assert!(scene.drag(1, Vector2::new(400, 500), true));
    assert_eq!(positions(&scene)[5], (200, 700));
    assert!(scene.drag(0, Vector2::new(310, 610), true));
    assert_eq!(positions(&scene)[0], (310, 610));
    assert_eq!(positions(&scene)[1], (410, 510));
    assert_eq!(positions(&scene)[5], (210, 710));
}

#[test]
fn a_drag_off_the_canvas_moves_nothing() {
    let mut scene = BezierSplineScene::default();
    assert!(scene.drag(2, Vector2::new(i32::MAX, 300), true));
    let before = scene.points().clone();
    assert!(!scene.drag(3, Vector2::new(1201, 600), true));
    assert_eq!(scene.points(), &before);
    assert!(scene.drag(3, Vector2::new(1201, 600), false));
    assert_eq!(positions(&scene)[3], (1201, 600));
    assert_eq!(positions(&scene)[2], (i32::MAX, 300));
}

#[test]
fn spline_point_is_dragged_with_its_neighbours_while_the_button_is_down() {
    let mut scene = BezierSplineScene::default();
    scene.update(frame(1500, 600, false, Some(KeyboardKey::Space)));
    // Press on the middle join.
    scene.update(frame(1202, 603, true, None));
    assert!(scene.has_point_selected());
    assert!(scene.points()[3].is_selected());
    assert_eq!(positions(&scene)[3], (1200, 600));
    // It follows the pointer and its handles go with it.
    scene.update(frame(1250, 640, true, None));
    assert_eq!(
        positions(&scene),
        vec![
            (300, 600),
            (600, 300),
            (950, 340),
            (1250, 640),
            (1550, 940),
            (1350, 600),
            (1500, 600)
        ]
    );
    // Release.
    scene.update(frame(1250, 640, false, None));
    assert!(!scene.has_point_selected());
    assert!(scene.points().iter().all(|p| !p.is_selected()));
    scene.update(frame(0, 0, false, None));
    assert_eq!(positions(&scene)[3], (1250, 640));
}

#[test]
fn spline_point_moves_alone_when_neighbours_are_not_locked() {
    let mut scene = BezierSplineScene::default();
    scene.set_lock_move(false);
    scene.update(frame(1200, 600, true, None));
    scene.update(frame(1000, 100, true, None));
    assert_eq!(positions(&scene), vec![(300, 600), (600, 300), (900, 300), (1000, 100)]);
}

#[test]
fn a_point_carried_under_the_pointer_is_hovered_in_the_same_frame() {
    // The dragged join at index 0 carries the handle at index 1, which is
    // visited after it and is then found under the pointer.
    let mut scene = BezierSplineScene::default();
    scene.update(frame(300, 600, true, None));
    assert!(scene.points()[0].is_selected());
    scene.update(frame(303, 604, true, None));
    assert_eq!(positions(&scene)[1], (603, 304));
    assert!(!scene.points()[1].is_hovered());
    // Put the handle just outside its radius of where the pointer goes next.
    assert!(scene.drag(1, Vector2::new(296, 601), false));
    scene.update(frame(305, 606, true, None));
    // The join moved by (2, 2) and took the handle to (298, 603), within
    // its radius of the pointer.
    assert_eq!(positions(&scene)[1], (298, 603));
    assert!(scene.points()[1].is_hovered());
    assert_eq!(scene.points()[1].get_radius(), 11);
}

#[test]
fn a_point_carried_away_after_its_visit_keeps_its_hover() {
    // The dragged join at index 3 carries the handle at index 2, which was
    // visited before it: that handle was judged where it stood.
    let mut scene = BezierSplineScene::default();
    scene.update(frame(1200, 600, true, None));
    assert!(scene.points()[3].is_selected());
    scene.update(frame(905, 300, true, None));
    assert!(scene.points()[2].is_hovered());
    assert_eq!(positions(&scene)[2], (605, 0));
    assert_eq!(positions(&scene)[3], (905, 300));
}

#[test]
fn spline_is_not_edited_while_a_point_is_dragged() {
    let mut scene = BezierSplineScene::default();
    scene.update(frame(300, 600, true, None));
    assert!(scene.has_point_selected());
    assert!(!scene.append_segment(Vector2::new(0, 0)));
    assert!(!scene.close_loop());
    assert!(!scene.remove_last_segment());
    scene.update(frame(300, 600, true, Some(KeyboardKey::Space)));
    scene.update(frame(300, 600, true, Some(KeyboardKey::Enter)));
    assert_eq!(scene.points().len(), 4);
}

#[test]
fn spline_drawing_has_one_curve_per_segment() {
    let mut scene = BezierSplineScene::default();
    assert!(scene.append_segment(Vector2::new(1500, 600)));
    scene.set_t(250);
    let drawings = scene.draw();
    assert_eq!(drawings.len(), 2);
    let blue = Color { r: 0, g: 121, b: 241, a: 255 };
    let white = Color { r: 255, g: 255, b: 255, a: 255 };
    assert_eq!(
        drawings[0].curve.points,
        vec![
            BasicPoint::new(Vector2::new(300, 600), blue),
            BasicPoint::new(Vector2::new(600, 300), white),
            BasicPoint::new(Vector2::new(900, 300), white),
            BasicPoint::new(Vector2::new(1200, 600), blue),
        ]
    );
    assert_eq!(
        drawings[1].curve.points,
        vec![
            BasicPoint::new(Vector2::new(1200, 600), blue),
            BasicPoint::new(Vector2::new(1500, 900), white),
            BasicPoint::new(Vector2::new(1350, 600), white),
            BasicPoint::new(Vector2::new(1500, 600), blue),
        ]
    );
    let construction = drawings[0].curve.construction.as_ref().unwrap();
    assert_eq!(
        construction.final_point,
        RationalVector2 { x: 525000000000, y: 431250000000, denominator: 1000000000 }
    );
    for drawing in drawings.iter() {
        assert_eq!(drawing.curve.curve.len(), 51);
        assert!(drawing.curve.curve.iter().all(|sample| sample.denominator == 125000));
        assert_eq!(drawing.curve.construction.as_ref().unwrap().levels.len(), 2);
        assert_eq!(drawing.bounding_box, None);
    }
    scene.set_debug_draw(false);
    scene.set_draw_bounding_box(true);
    assert!(scene.is_draw_bounding_box());
    let drawings = scene.draw();
    assert!(drawings.iter().all(|d| d.curve.construction.is_none() && d.curve.curve.len() == 51));
    let unit: i128 = 1 << 87;
    assert_eq!(
        drawings[0].bounding_box,
        Some(RationalRectangle {
            x: 300 * unit,
            y: 375 * unit,
            width: 900 * unit,
            height: 225 * unit,
            denominator: 1 << 87
        })
    );
    assert_eq!(
        drawings[1].bounding_box,
        cubic_bezier_bounding_box(&drawings[1].curve.points).ok()
    );
    assert!(drawings[1].bounding_box.is_some());
}

#[test]
fn a_segment_shrunk_to_a_point_has_no_bounding_box() {
    let mut scene = BezierSplineScene::default();
    scene.set_draw_bounding_box(true);
    for index in 0..4 {
        assert!(scene.drag(index, Vector2::new(50, 50), false));
    }
    let drawings = scene.draw();
    assert_eq!(drawings.len(), 1);
    assert_eq!(drawings[0].bounding_box, None);
    assert_eq!(drawings[0].curve.curve.len(), 51);
}
