use spline_drawer::bezier::graph::{set_constraint, set_position};
use spline_drawer::bezier::{ControlPoint, JoinPoint, OffCanvas, Point, SplinePoint};
use spline_drawer::vector::Vector2;

fn join(x: i32, y: i32, previous: Option<usize>, next: Option<usize>) -> SplinePoint {
    SplinePoint::Join(JoinPoint::new(Vector2::new(x, y), previous, next))
}

fn control(x: i32, y: i32, linked: Option<usize>, anchor: Option<usize>) -> SplinePoint {
    SplinePoint::Control(ControlPoint::new(Vector2::new(x, y), linked, anchor))
}

/// Two segments: join 0, handles 1 and 2, join 3, handles 4 and 5, join 6.
fn two_segments() -> Vec<SplinePoint> {
    vec![
        join(300, 600, None, Some(1)),
        control(600, 300, None, Some(0)),
        control(900, 300, Some(4), Some(3)),
        join(1200, 600, Some(2), Some(4)),
        control(1500, 900, Some(2), Some(3)),
        control(1350, 600, None, Some(6)),
        join(1500, 600, Some(5), None),
    ]
}

fn positions(points: &[SplinePoint]) -> Vec<(i32, i32)> {
    points.iter().map(|p| (p.get_position().x, p.get_position().y)).collect()
}

#[test]
fn moved_join_carries_both_handles() {
    let mut points = two_segments();
    assert_eq!(set_position(&mut points, 3, Vector2::new(1210, 570), true), Ok(()));
    assert_eq!(
        positions(&points),
        vec![
            (300, 600),
            (600, 300),
            (910, 270),
            (1210, 570),
            (1510, 870),
            (1350, 600),
            (1500, 600)
        ]
    );
}

#[test]
fn moved_join_with_one_handle_carries_it() {
    let mut points = two_segments();
    assert_eq!(set_position(&mut points, 0, Vector2::new(0, 0), true), Ok(()));
    assert_eq!(positions(&points)[..3], [(0, 0), (300, -300), (900, 300)]);
    assert_eq!(set_position(&mut points, 6, Vector2::new(1501, 602), true), Ok(()));
    assert_eq!(positions(&points)[4..], [(1500, 900), (1351, 602), (1501, 602)]);
}

#[test]
fn moved_join_without_constraint_moves_alone() {
    let mut points = two_segments();
    let mut expected = two_segments();
    expected[3] = join(0, 0, Some(2), Some(4));
    assert_eq!(set_position(&mut points, 3, Vector2::new(0, 0), false), Ok(()));
    assert_eq!(points, expected);
}

#[test]
fn moved_handle_mirrors_its_linked_handle() {
    let mut points = two_segments();
    assert_eq!(set_position(&mut points, 2, Vector2::new(1000, 500), true), Ok(()));
    assert_eq!(
        positions(&points),
        vec![
            (300, 600),
            (600, 300),
            (1000, 500),
            (1200, 600),
            (1400, 700),
            (1350, 600),
            (1500, 600)
        ]
    );
    assert_eq!(set_position(&mut points, 4, Vector2::new(1200, 0), true), Ok(()));
    assert_eq!(positions(&points)[2], (1200, 1200));
    assert_eq!(positions(&points)[3], (1200, 600));
}

#[test]
fn moved_handle_without_both_relations_moves_alone() {
    let mut points = two_segments();
    let mut expected = two_segments();
    expected[1] = control(1, 2, None, Some(0));
    assert_eq!(set_position(&mut points, 1, Vector2::new(1, 2), true), Ok(()));
    assert_eq!(points, expected);
    expected[5] = control(3, 4, None, Some(6));
    assert_eq!(set_position(&mut points, 5, Vector2::new(3, 4), true), Ok(()));
    assert_eq!(points, expected);
}

#[test]
fn moved_handle_without_constraint_moves_alone() {
    let mut points = two_segments();
    let mut expected = two_segments();
    expected[2] = control(1, 2, Some(4), Some(3));
    assert_eq!(set_position(&mut points, 2, Vector2::new(1, 2), false), Ok(()));
    assert_eq!(points, expected);
}

#[test]
fn a_move_goes_one_hop_only() {
    // Handle 1 is linked to handle 2, which is linked onwards to handle 4.
    let mut points = two_segments();
    set_constraint(&mut points, 1, 0, 2);
    assert_eq!(set_position(&mut points, 1, Vector2::new(500, 500), true), Ok(()));
    assert_eq!(
        positions(&points),
        vec![
            (300, 600),
            (500, 500),
            (100, 700),
            (1200, 600),
            (1500, 900),
            (1350, 600),
            (1500, 600)
        ]
    );
}

#[test]
fn a_move_changes_positions_only() {
    let mut points = two_segments();
    assert_eq!(set_position(&mut points, 3, Vector2::new(1, 1), true), Ok(()));
    let mut expected = two_segments();
    expected[2] = control(900 - 1199, 300 - 599, Some(4), Some(3));
    expected[3] = join(1, 1, Some(2), Some(4));
    expected[4] = control(1500 - 1199, 900 - 599, Some(2), Some(3));
    assert_eq!(points, expected);
}

#[test]
fn a_join_bound_twice_to_one_handle_moves_it_twice() {
    let mut points = vec![join(0, 0, Some(1), Some(1)), control(10, 10, None, Some(0))];
    assert_eq!(set_position(&mut points, 0, Vector2::new(5, 7), true), Ok(()));
    assert_eq!(positions(&points), vec![(5, 7), (20, 24)]);
}

#[test]
fn a_move_off_the_canvas_is_refused_as_a_whole() {
    let mut points = vec![
        join(0, 0, Some(1), Some(2)),
        control(10, 10, None, Some(0)),
        control(i32::MAX - 5, 0, None, Some(0)),
    ];
    let before = points.clone();
    assert_eq!(set_position(&mut points, 0, Vector2::new(6, 0), true), Err(OffCanvas));
    assert_eq!(points, before);
    assert_eq!(set_position(&mut points, 0, Vector2::new(5, 0), true), Ok(()));
    assert_eq!(positions(&points), vec![(5, 0), (15, 10), (i32::MAX, 0)]);
}

#[test]
fn a_mirror_off_the_canvas_is_refused_as_a_whole() {
    let mut points = vec![
        join(i32::MAX - 10, 0, Some(1), Some(2)),
        control(i32::MAX - 20, 0, Some(2), Some(0)),
        control(i32::MAX, 0, Some(1), Some(0)),
    ];
    let before = points.clone();
    assert_eq!(
        set_position(&mut points, 1, Vector2::new(i32::MAX - 21, 0), true),
        Err(OffCanvas)
    );
    assert_eq!(points, before);
    assert_eq!(set_position(&mut points, 1, Vector2::new(i32::MAX - 21, 0), false), Ok(()));
    assert_eq!(positions(&points)[1], (i32::MAX - 21, 0));
}

#[test]
fn set_constraint_in_the_list() {
    let mut points = two_segments();
    set_constraint(&mut points, 6, 1, 0);
    assert_eq!(points[6], join(1500, 600, Some(5), Some(0)));
    set_constraint(&mut points, 5, 0, 1);
    assert_eq!(points[5], control(1350, 600, Some(1), Some(6)));
    let before = points.clone();
    set_constraint(&mut points, 5, 2, 1);
    assert_eq!(points, before);
}
