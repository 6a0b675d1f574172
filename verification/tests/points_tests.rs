use spline_drawer::bezier::points::{ANIMATION_SPEED, POINTS_RADIUS, POINTS_RADIUS_HOVER};
use spline_drawer::bezier::{
    BasicPoint, ControlPoint, ControlPointConstraintID, JoinPoint, JoinPointConstraintID,
    MovableGuiPoint, MovablePoint, Point, PointGui, Propagation, SplinePoint,
};
use spline_drawer::colors::{color_light, Color};
use spline_drawer::vector::{Offset, Vector2};

#[test]
fn radius_constants() {
    assert_eq!(POINTS_RADIUS, 10);
    assert_eq!(POINTS_RADIUS_HOVER, 15);
    assert_eq!(ANIMATION_SPEED, 1);
}

#[test]
fn new_basic_point_is_at_rest() {
    let point = BasicPoint::new(Vector2::new(3, 4), color_light());
    assert_eq!(point.get_position(), Vector2::new(3, 4));
    assert_eq!(point.get_radius(), 10);
    assert_eq!(point.get_color(), color_light());
    assert!(!point.is_selected());
    assert!(!point.is_hovered());
}

#[test]
fn new_join_point_keeps_its_relations() {
    let join = JoinPoint::new(Vector2::new(1, 2), Some(7), None);
    assert_eq!(join.position, Vector2::new(1, 2));
    assert_eq!(join.radius, 10);
    assert_eq!(join.previous_control_point, Some(7));
    assert_eq!(join.next_control_point, None);
    assert!(!join.is_selected && !join.is_hovered);
    assert_eq!(join.get_color(), Color { r: 0, g: 121, b: 241, a: 255 });
}

#[test]
fn new_control_point_keeps_its_relations() {
    let control = ControlPoint::new(Vector2::new(1, 2), None, Some(3));
    assert_eq!(control.position, Vector2::new(1, 2));
    assert_eq!(control.radius, 10);
    assert_eq!(control.linked_control_point, None);
    assert_eq!(control.mirror_join_point, Some(3));
    assert!(!control.is_selected && !control.is_hovered);
    assert_eq!(control.get_color(), Color { r: 255, g: 255, b: 255, a: 255 });
}

#[test]
fn setters_change_one_thing() {
    let mut point = JoinPoint::new(Vector2::new(1, 2), Some(7), Some(8));
    point.set_radius(12);
    point.set_hover_state(true);
    point.set_selected(true);
    assert_eq!(
        point,
        JoinPoint {
            position: Vector2::new(1, 2),
            radius: 12,
            is_selected: true,
            is_hovered: true,
            previous_control_point: Some(7),
            next_control_point: Some(8),
        }
    );
    assert_eq!(point.get_radius(), 12);
    assert!(point.is_hovered());
    assert!(point.is_selected());
}

#[test]
fn hovered_point_grows_step_by_step_and_stops() {
    let mut point = BasicPoint::new(Vector2::new(100, 100), color_light());
    let mouse = Vector2::new(105, 100);
    let mut radii = Vec::new();
    for _ in 0..7 {
        point.udpate_gui(mouse);
        assert!(point.is_hovered());
        radii.push(point.get_radius());
    }
    assert_eq!(radii, vec![11, 12, 13, 14, 15, 15, 15]);
}

#[test]
fn point_left_alone_shrinks_step_by_step_and_stops() {
    let mut point = BasicPoint::new(Vector2::new(100, 100), color_light());
    point.set_radius(15);
    let mouse = Vector2::new(500, 500);
    let mut radii = Vec::new();
    for _ in 0..7 {
        point.udpate_gui(mouse);
        assert!(!point.is_hovered());
        radii.push(point.get_radius());
    }
    assert_eq!(radii, vec![14, 13, 12, 11, 10, 10, 10]);
}

#[test]
fn hover_reaches_exactly_up_to_the_radius() {
    let mut point = BasicPoint::new(Vector2::new(0, 0), color_light());
    point.udpate_gui(Vector2::new(10, 0));
    assert!(!point.is_hovered());
    assert_eq!(point.get_radius(), 10);
    point.udpate_gui(Vector2::new(9, 0));
    assert!(point.is_hovered());
    assert_eq!(point.get_radius(), 11);
    // The disc has grown: the border of before is now inside.
    point.udpate_gui(Vector2::new(10, 0));
    assert!(point.is_hovered());
    assert_eq!(point.get_radius(), 12);
}

#[test]
fn selected_point_counts_as_hovered() {
    let mut point = ControlPoint::new(Vector2::new(0, 0), None, None);
    point.set_selected(true);
    point.udpate_gui(Vector2::new(1000, 1000));
    assert!(point.is_hovered());
    assert_eq!(point.get_radius(), 11);
    assert_eq!(point.position, Vector2::new(0, 0));
}

#[test]
fn radius_out_of_range_snaps_back() {
    let mut point = BasicPoint::new(Vector2::new(0, 0), color_light());
    point.set_radius(40);
    point.udpate_gui(Vector2::new(1, 1));
    assert!(point.is_hovered());
    assert_eq!(point.get_radius(), 15);
    point.set_radius(-3);
    point.udpate_gui(Vector2::new(1000, 1))
    ;
    assert!(!point.is_hovered());
    assert_eq!(point.get_radius(), 10);
}

#[test]
fn update_keeps_everything_else() {
    let mut join = JoinPoint::new(Vector2::new(5, 5), Some(1), Some(2));
    join.udpate_gui(Vector2::new(5, 6));
    assert_eq!(
        join,
        JoinPoint {
            position: Vector2::new(5, 5),
            radius: 11,
            is_selected: false,
            is_hovered: true,
            previous_control_point: Some(1),
            next_control_point: Some(2),
        }
    );
}

#[test]
fn basic_point_moves_alone() {
    let mut point = BasicPoint::new(Vector2::new(5, 5), color_light());
    assert_eq!(point.set_position(Vector2::new(8, 9), true), Propagation::Nothing);
    assert_eq!(point.position, Vector2::new(8, 9));
}

#[test]
fn join_point_asks_its_handles_to_follow() {
    let mut join = JoinPoint::new(Vector2::new(100, 100), Some(4), Some(6));
    let asked = join.set_position(Vector2::new(130, 90), true);
    assert_eq!(join.position, Vector2::new(130, 90));
    assert_eq!(
        asked,
        Propagation::Translate {
            previous: Some(4),
            next: Some(6),
            offset: Offset { dx: -30, dy: 10 },
        }
    );
}

#[test]
fn join_point_without_constraint_asks_nothing() {
    let mut join = JoinPoint::new(Vector2::new(100, 100), Some(4), Some(6));
    assert_eq!(join.set_position(Vector2::new(130, 90), false), Propagation::Nothing);
    assert_eq!(join.position, Vector2::new(130, 90));
}

#[test]
fn control_point_asks_its_linked_handle_to_mirror() {
    let mut control = ControlPoint::new(Vector2::new(0, 0), Some(2), Some(3));
    let asked = control.set_position(Vector2::new(7, 7), true);
    assert_eq!(control.position, Vector2::new(7, 7));
    assert_eq!(asked, Propagation::Mirror { linked: 2, anchor: 3 });
    assert_eq!(control.set_position(Vector2::new(8, 8), false), Propagation::Nothing);
}

#[test]
fn control_point_needs_both_relations_to_mirror() {
    let mut alone = ControlPoint::new(Vector2::new(0, 0), None, Some(3));
    assert_eq!(alone.set_position(Vector2::new(7, 7), true), Propagation::Nothing);
    let mut unanchored = ControlPoint::new(Vector2::new(0, 0), Some(2), None);
    assert_eq!(unanchored.set_position(Vector2::new(7, 7), true), Propagation::Nothing);
    assert_eq!(unanchored.position, Vector2::new(7, 7));
}

#[test]
fn join_constraint_slots() {
    assert_eq!(JoinPointConstraintID::PreviousControlPoint.index(), 0);
    assert_eq!(JoinPointConstraintID::NextControlPoint.index(), 1);
    assert_eq!(JoinPointConstraintID::try_from(0), Ok(JoinPointConstraintID::PreviousControlPoint));
    assert_eq!(JoinPointConstraintID::try_from(1), Ok(JoinPointConstraintID::NextControlPoint));
    assert_eq!(JoinPointConstraintID::try_from(2), Err(()));
    assert_eq!(JoinPointConstraintID::try_from(usize::MAX), Err(()));
}

#[test]
fn control_constraint_slots() {
    assert_eq!(ControlPointConstraintID::LinkedControlPoint.index(), 0);
    assert_eq!(ControlPointConstraintID::MirrorJoinPoint.index(), 1);
    assert_eq!(
        ControlPointConstraintID::try_from(0),
        Ok(ControlPointConstraintID::LinkedControlPoint)
    );
    assert_eq!(ControlPointConstraintID::try_from(1), Ok(ControlPointConstraintID::MirrorJoinPoint));
    assert_eq!(ControlPointConstraintID::try_from(2), Err(()));
}

#[test]
fn set_constraint_binds_the_slot() {
    let mut join = JoinPoint::new(Vector2::new(0, 0), None, None);
    join.set_constraint(1, 5);
    assert_eq!(join.next_control_point, Some(5));
    assert_eq!(join.previous_control_point, None);
    join.set_constraint(0, 9);
    assert_eq!(join.previous_control_point, Some(9));
    let mut control = ControlPoint::new(Vector2::new(0, 0), None, None);
    control.set_constraint(0, 4);
    control.set_constraint(1, 3);
    assert_eq!(control.linked_control_point, Some(4));
    assert_eq!(control.mirror_join_point, Some(3));
}

#[test]
fn set_constraint_ignores_unknown_slots() {
    let mut join = JoinPoint::new(Vector2::new(0, 0), Some(1), None);
    let before = join;
    join.set_constraint(2, 5);
    join.set_constraint(usize::MAX, 5);
    assert_eq!(join, before);
    let mut control = ControlPoint::new(Vector2::new(0, 0), None, Some(1));
    let before = control;
    control.set_constraint(7, 5);
    assert_eq!(control, before);
}

#[test]
fn clear_constraint_unbinds_the_slot() {
    let mut point = SplinePoint::Join(JoinPoint::new(Vector2::new(0, 0), Some(1), Some(2)));
    point.clear_constraint(1);
    assert_eq!(point, SplinePoint::Join(JoinPoint::new(Vector2::new(0, 0), Some(1), None)));
    point.clear_constraint(5);
    assert_eq!(point, SplinePoint::Join(JoinPoint::new(Vector2::new(0, 0), Some(1), None)));
    point.clear_constraint(0);
    assert_eq!(point, SplinePoint::Join(JoinPoint::new(Vector2::new(0, 0), None, None)));
    let mut handle = SplinePoint::Control(ControlPoint::new(Vector2::new(0, 0), Some(1), Some(2)));
    handle.clear_constraint(0);
    assert_eq!(handle, SplinePoint::Control(ControlPoint::new(Vector2::new(0, 0), None, Some(2))));
}

#[test]
fn downcast_keeps_the_looks() {
    let mut join = JoinPoint::new(Vector2::new(3, 4), Some(1), Some(2));
    join.set_radius(13);
    join.set_selected(true);
    assert_eq!(
        join.downcast_basic_point(),
        BasicPoint {
            position: Vector2::new(3, 4),
            radius: 13,
            color: Color { r: 0, g: 121, b: 241, a: 255 },
            is_selected: true,
            is_hovered: false,
        }
    );
    let mut control = ControlPoint::new(Vector2::new(-3, -4), None, None);
    control.set_hover_state(true);
    assert_eq!(
        control.downcast_basic_point(),
        BasicPoint {
            position: Vector2::new(-3, -4),
            radius: 10,
            color: Color { r: 255, g: 255, b: 255, a: 255 },
            is_selected: false,
            is_hovered: true,
        }
    );
}

#[test]
fn spline_point_behaves_as_the_point_inside() {
    let mut point = SplinePoint::Control(ControlPoint::new(Vector2::new(0, 0), Some(2), Some(3)));
    assert_eq!(point.get_position(), Vector2::new(0, 0));
    assert_eq!(point.get_color(), Color { r: 255, g: 255, b: 255, a: 255 });
    point.udpate_gui(Vector2::new(1, 1));
    assert!(point.is_hovered());
    assert_eq!(point.get_radius(), 11);
    assert_eq!(
        point.set_position(Vector2::new(9, 9), true),
        Propagation::Mirror { linked: 2, anchor: 3 }
    );
    point.set_constraint(0, 8);
    point.set_selected(true);
    assert_eq!(
        point,
        SplinePoint::Control(ControlPoint {
            position: Vector2::new(9, 9),
            radius: 11,
            is_selected: true,
            is_hovered: true,
            linked_control_point: Some(8),
            mirror_join_point: Some(3),
        })
    );
    assert_eq!(
        point.downcast_basic_point(),
        BasicPoint {
            position: Vector2::new(9, 9),
            radius: 11,
            color: Color { r: 255, g: 255, b: 255, a: 255 },
            is_selected: true,
            is_hovered: true,
        }
    );
}
