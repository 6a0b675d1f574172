use spline_drawer::bezier::drawing::SAMPLES;
use spline_drawer::bezier::evaluation::{
    best_construction, best_curve_point, de_casteljau, de_casteljau_on_grid, evaluate_on_grid,
    GRID_STEPS, MAX_EXACT_SCALE,
};
use spline_drawer::bezier::{
    draw_bezier, evalute_bezier_curve, BasicPoint, Parameter, RationalVector2,
};
use spline_drawer::colors::color_blue;
use spline_drawer::vector::Vector2;

fn points_at(positions: &[(i32, i32)]) -> Vec<BasicPoint> {
    positions.iter().map(|&(x, y)| BasicPoint::new(Vector2::new(x, y), color_blue())).collect()
}

fn cubic() -> Vec<BasicPoint> {
    points_at(&[(300, 600), (600, 300), (900, 300), (1200, 600)])
}

fn parameter(numerator: u32, denominator: u32) -> Parameter {
    Parameter::new(numerator, denominator).unwrap()
}

#[test]
fn parameter_must_lie_between_zero_and_one() {
    assert_eq!(Parameter::new(1, 2), Some(Parameter { numerator: 1, denominator: 2 }));
    assert_eq!(Parameter::new(0, 1), Some(Parameter { numerator: 0, denominator: 1 }));
    assert_eq!(Parameter::new(7, 7), Some(Parameter { numerator: 7, denominator: 7 }));
    assert_eq!(Parameter::new(8, 7), None);
    assert_eq!(Parameter::new(0, 0), None);
}

#[test]
fn cubic_at_one_half() {
    // The weights are 1/8, 3/8, 3/8, 1/8.
    let value = evalute_bezier_curve(&cubic(), parameter(1, 2)).unwrap();
    assert_eq!(value, RationalVector2 { x: 6000, y: 3000, denominator: 8 });
    assert_eq!(value.x as f64 / value.denominator as f64, 750.0);
    assert_eq!(value.y as f64 / value.denominator as f64, 375.0);
}

#[test]
fn cubic_at_one_half_in_thousandths() {
    let value = evalute_bezier_curve(&cubic(), parameter(500, 1000)).unwrap();
    assert_eq!(
        value,
        RationalVector2 { x: 750000000000, y: 375000000000, denominator: 1000000000 }
    );
}

#[test]
fn cubic_at_one_quarter() {
    let value = evalute_bezier_curve(&cubic(), parameter(1, 4)).unwrap();
    assert_eq!(value, RationalVector2 { x: 33600, y: 27600, denominator: 64 });
}

#[test]
fn curve_starts_at_its_first_point() {
    let value = evalute_bezier_curve(&cubic(), parameter(0, 7)).unwrap();
    assert_eq!(value, RationalVector2 { x: 300 * 343, y: 600 * 343, denominator: 343 });
}

#[test]
fn curve_ends_at_its_last_point() {
    let value = evalute_bezier_curve(&cubic(), parameter(7, 7)).unwrap();
    assert_eq!(value, RationalVector2 { x: 1200 * 343, y: 600 * 343, denominator: 343 });
}

#[test]
fn line_is_interpolated() {
    let line = points_at(&[(-10, 4), (30, -4)]);
    let value = evalute_bezier_curve(&line, parameter(1, 4)).unwrap();
    assert_eq!(value, RationalVector2 { x: 0, y: 8, denominator: 4 });
}

#[test]
fn quartic_with_negative_coordinates() {
    let points = points_at(&[(-5, 7), (10, -20), (3, 3), (100, 50), (-40, 0)]);
    let value = evalute_bezier_curve(&points, parameter(3, 10)).unwrap();
    assert_eq!(value, RationalVector2 { x: 109453, y: -19775, denominator: 10000 });
}

#[test]
fn evaluation_is_exact_up_to_the_largest_scale() {
    let seventeen = points_at(&[(1, 1); 17]);
    let value = evalute_bezier_curve(&seventeen, parameter(1, 50)).unwrap();
    assert_eq!(value.denominator, 50u128.pow(16));
    assert_eq!(value.x, 50i128.pow(16));
    assert!(value.denominator <= MAX_EXACT_SCALE);
    let eighteen = points_at(&[(1, 1); 18]);
    assert_eq!(evalute_bezier_curve(&eighteen, parameter(1, 50)), None);
    assert!(de_casteljau(&eighteen, parameter(1, 50)).is_none());
}

#[test]
fn longest_curve_at_its_ends_and_middle() {
    let positions: Vec<(i32, i32)> = (0..63).map(|i| (i * 10, -i)).collect();
    let points = points_at(&positions);
    let start = evalute_bezier_curve(&points, parameter(0, 1)).unwrap();
    assert_eq!(start, RationalVector2 { x: 0, y: 0, denominator: 1 });
    let end = evalute_bezier_curve(&points, parameter(1, 1)).unwrap();
    assert_eq!(end, RationalVector2 { x: 620, y: -62, denominator: 1 });
    // Evenly spaced control points on a line: the curve runs along it evenly.
    let middle = evalute_bezier_curve(&points, parameter(1, 2)).unwrap();
    assert_eq!(middle.denominator, 1u128 << 62);
    assert_eq!(middle.x, 310i128 << 62);
    assert_eq!(middle.y, -31i128 << 62);
}

#[test]
fn extreme_coordinates_do_not_overflow() {
    let points = points_at(&[(i32::MIN, i32::MAX); 4]);
    let value = evalute_bezier_curve(&points, parameter(1, 1 << 31)).unwrap();
    let scale = 1u128 << 93;
    assert_eq!(value.denominator, scale);
    assert_eq!(value.x, i32::MIN as i128 * scale as i128);
    assert_eq!(value.y, i32::MAX as i128 * scale as i128);
    let construction = de_casteljau(&points, parameter((1 << 31) - 1, 1 << 31)).unwrap();
    assert_eq!(construction.final_point, RationalVector2 {
        x: i32::MIN as i128 * scale as i128,
        y: i32::MAX as i128 * scale as i128,
        denominator: scale,
    });
    // One step further the common denominator is past the largest scale.
    assert_eq!(evalute_bezier_curve(&points, parameter(1, u32::MAX)), None);
}

#[test]
fn construction_of_the_cubic_at_one_quarter() {
    let construction = de_casteljau(&cubic(), parameter(1, 4)).unwrap();
    assert_eq!(construction.levels.len(), 2);
    assert_eq!(
        construction.levels[0],
        vec![
            RationalVector2 { x: 1500, y: 2100, denominator: 4 },
            RationalVector2 { x: 2700, y: 1200, denominator: 4 },
            RationalVector2 { x: 3900, y: 1500, denominator: 4 },
        ]
    );
    assert_eq!(
        construction.levels[1],
        vec![
            RationalVector2 { x: 7200, y: 7500, denominator: 16 },
            RationalVector2 { x: 12000, y: 5100, denominator: 16 },
        ]
    );
    assert_eq!(construction.final_point, RationalVector2 { x: 33600, y: 27600, denominator: 64 });
}

#[test]
fn construction_of_a_line_has_no_levels() {
    let line = points_at(&[(0, 0), (8, 16)]);
    let construction = de_casteljau(&line, parameter(3, 8)).unwrap();
    assert!(construction.levels.is_empty());
    assert_eq!(construction.final_point, RationalVector2 { x: 24, y: 48, denominator: 8 });
}

#[test]
fn construction_levels_shrink_by_one() {
    let points = points_at(&[(0, 0), (1, 5), (2, -5), (3, 9), (4, 0), (5, 5), (6, 1)]);
    let construction = de_casteljau(&points, parameter(2, 5)).unwrap();
    assert_eq!(construction.levels.len(), 5);
    for (l, level) in construction.levels.iter().enumerate() {
        assert_eq!(level.len(), 6 - l);
        for entry in level {
            assert_eq!(entry.denominator, 5u128.pow(l as u32 + 1));
        }
    }
    assert_eq!(construction.levels[4].len(), 2);
}

#[test]
fn both_evaluations_agree() {
    let sets = [
        points_at(&[(300, 600), (600, 300), (900, 300), (1200, 600)]),
        points_at(&[(-5, 7), (10, -20), (3, 3), (100, 50), (-40, 0)]),
        points_at(&[(0, 0), (1000, 1000)]),
        points_at(&[(7, 7), (-7, 7), (-7, -7), (7, -7), (7, 7), (0, 0), (1, 2), (3, 4)]),
    ];
    for points in sets.iter() {
        for denominator in [1u32, 2, 3, 10, 50, 1000] {
            for numerator in 0..=denominator {
                let t = parameter(numerator, denominator);
                let direct = evalute_bezier_curve(points, t).unwrap();
                let construction = de_casteljau(points, t).unwrap();
                assert_eq!(construction.final_point, direct);
            }
        }
    }
}

#[test]
fn drawing_without_a_parameter_has_no_construction() {
    let drawing = draw_bezier(&cubic(), None);
    assert!(drawing.construction.is_none());
    assert_eq!(drawing.points, cubic());
    let curve = drawing.curve;
    assert_eq!(curve.len(), SAMPLES as usize + 1);
    assert_eq!(curve[0], RationalVector2 { x: 300 * 125000, y: 600 * 125000, denominator: 125000 });
    assert_eq!(
        curve[25],
        RationalVector2 { x: 750 * 125000, y: 375 * 125000, denominator: 125000 }
    );
    assert_eq!(
        curve[50],
        RationalVector2 { x: 1200 * 125000, y: 600 * 125000, denominator: 125000 }
    );
}

#[test]
fn drawing_samples_are_curve_points() {
    let points = points_at(&[(-5, 7), (10, -20), (3, 3), (100, 50), (-40, 0)]);
    let drawing = draw_bezier(&points, Some(parameter(3, 10)));
    for (i, sample) in drawing.curve.iter().enumerate() {
        let expected = evalute_bezier_curve(&points, parameter(i as u32, SAMPLES));
        assert_eq!(Some(*sample), expected);
    }
    let construction = drawing.construction.unwrap();
    assert_eq!(
        construction.final_point,
        RationalVector2 { x: 109453, y: -19775, denominator: 10000 }
    );
    assert_eq!(construction.levels.len(), 3);
}

fn eighteen_points() -> Vec<BasicPoint> {
    let positions: Vec<(i32, i32)> = (0..18).map(|i| (i * i - 40 * i, 7 * i - 3)).collect();
    points_at(&positions)
}

#[test]
fn construction_on_the_grid_rounds_every_step_down() {
    let construction = de_casteljau_on_grid(&cubic(), parameter(1, 3));
    assert_eq!(
        construction.levels,
        vec![
            vec![
                RationalVector2 { x: 26214400, y: 32768000, denominator: 65536 },
                RationalVector2 { x: 45875200, y: 19660800, denominator: 65536 },
                RationalVector2 { x: 65536000, y: 26214400, denominator: 65536 },
            ],
            vec![
                RationalVector2 { x: 32768000, y: 28398933, denominator: 65536 },
                RationalVector2 { x: 52428800, y: 21845333, denominator: 65536 },
            ],
        ]
    );
    assert_eq!(
        construction.final_point,
        RationalVector2 { x: 39321600, y: 26214399, denominator: 65536 }
    );
    assert_eq!(evaluate_on_grid(&cubic(), parameter(1, 3)), construction.final_point);
}

#[test]
fn construction_on_the_grid_rounds_negative_values_down() {
    let points = points_at(&[(-5, 7), (10, -20), (3, 3)]);
    let construction = de_casteljau_on_grid(&points, parameter(1, 3));
    assert_eq!(
        construction.levels,
        vec![vec![
            RationalVector2 { x: 0, y: -131072, denominator: 65536 },
            RationalVector2 { x: 502442, y: -808278, denominator: 65536 },
        ]]
    );
    assert_eq!(
        construction.final_point,
        RationalVector2 { x: 167480, y: -356808, denominator: 65536 }
    );
}

#[test]
fn grid_evaluation_of_a_curve_of_high_degree() {
    let points = eighteen_points();
    assert_eq!(GRID_STEPS, 65536);
    assert_eq!(
        evaluate_on_grid(&points, parameter(1, 50)),
        RationalVector2 { x: -861886, y: -40633, denominator: 65536 }
    );
    assert_eq!(
        evaluate_on_grid(&points, parameter(25, 50)),
        RationalVector2 { x: -17268736, y: 3702784, denominator: 65536 }
    );
    assert_eq!(
        evaluate_on_grid(&points, parameter(49, 50)),
        RationalVector2 { x: -25461478, y: 7446184, denominator: 65536 }
    );
}

#[test]
fn grid_evaluation_meets_the_ends_exactly() {
    let points = eighteen_points();
    assert_eq!(
        evaluate_on_grid(&points, parameter(0, 50)),
        RationalVector2 { x: 0, y: -3 * 65536, denominator: 65536 }
    );
    assert_eq!(
        evaluate_on_grid(&points, parameter(50, 50)),
        RationalVector2 { x: -391 * 65536, y: 116 * 65536, denominator: 65536 }
    );
}

#[test]
fn grid_evaluation_is_close_to_the_exact_one() {
    let sets = [
        points_at(&[(300, 600), (600, 300), (900, 300), (1200, 600)]),
        points_at(&[(-5, 7), (10, -20), (3, 3), (100, 50), (-40, 0)]),
        points_at(&[(7, 7), (-7, 7), (-7, -7), (7, -7), (7, 7), (0, 0), (1, 2), (3, 4)]),
        points_at(&[(i32::MIN, i32::MAX), (i32::MAX, i32::MIN), (0, 0)]),
    ];
    for points in sets.iter() {
        let degree = points.len() as i128 - 1;
        for denominator in [1u32, 2, 3, 10, 50, 1000] {
            for numerator in 0..=denominator {
                let t = parameter(numerator, denominator);
                let exact = evalute_bezier_curve(points, t).unwrap();
                let on_grid = evaluate_on_grid(points, t);
                let scale = exact.denominator as i128;
                let behind_x = 65536 * exact.x - scale * on_grid.x;
                let behind_y = 65536 * exact.y - scale * on_grid.y;
                assert!(0 <= behind_x && behind_x <= degree * scale);
                assert!(0 <= behind_y && behind_y <= degree * scale);
            }
        }
    }
}

#[test]
fn grid_evaluation_of_the_longest_curve() {
    let positions: Vec<(i32, i32)> =
        (0..62).map(|i| ((i * 37) % 101 - 50, (i * i) % 97 - 48)).collect();
    let points = points_at(&positions);
    assert_eq!(
        evaluate_on_grid(&points, parameter(500, 1000)),
        RationalVector2 { x: 293693, y: 340214, denominator: 65536 }
    );
    assert_eq!(
        evaluate_on_grid(&points, parameter(7, 50)),
        RationalVector2 { x: 47098, y: -356028, denominator: 65536 }
    );
    let extreme = points_at(&[(i32::MIN, i32::MAX); 62]);
    assert_eq!(
        evaluate_on_grid(&extreme, parameter(u32::MAX - 1, u32::MAX)),
        RationalVector2 {
            x: i32::MIN as i128 * 65536,
            y: i32::MAX as i128 * 65536,
            denominator: 65536
        }
    );
}

#[test]
fn best_evaluation_is_exact_where_it_can_be() {
    let seventeen = points_at(&[(3, 4); 17]);
    assert_eq!(
        best_curve_point(&seventeen, parameter(1, 50)),
        RationalVector2 { x: 3 * 50i128.pow(16), y: 4 * 50i128.pow(16), denominator: 50u128.pow(16) }
    );
    let points = eighteen_points();
    assert_eq!(evalute_bezier_curve(&points, parameter(1, 50)), None);
    assert_eq!(
        best_curve_point(&points, parameter(1, 50)),
        RationalVector2 { x: -861886, y: -40633, denominator: 65536 }
    );
    assert_eq!(
        best_curve_point(&points, parameter(1, 2)),
        evalute_bezier_curve(&points, parameter(1, 2)).unwrap()
    );
    let construction = best_construction(&points, parameter(1, 50));
    assert_eq!(construction.levels.len(), 16);
    assert_eq!(
        construction.final_point,
        RationalVector2 { x: -861886, y: -40633, denominator: 65536 }
    );
    let construction = best_construction(&points, parameter(1, 2));
    assert_eq!(construction.final_point.denominator, 1 << 17);
}

#[test]
fn drawing_goes_on_the_grid_where_it_has_to() {
    // Ten points at thousandths need 1000^9, which fits. At 17 points the
    // samples at fiftieths still fit, the construction at thousandths not.
    let ten = points_at(&[(3, 4); 10]);
    let drawing = draw_bezier(&ten, Some(parameter(1, 1000)));
    assert_eq!(drawing.construction.unwrap().final_point.denominator, 1000u128.pow(9));
    assert!(drawing.curve.iter().all(|sample| sample.denominator == 50u128.pow(9)));
    let seventeen = points_at(&[(3, 4); 17]);
    let drawing = draw_bezier(&seventeen, Some(parameter(1, 1000)));
    assert_eq!(
        drawing.construction.unwrap().final_point,
        RationalVector2 { x: 3 * 65536, y: 4 * 65536, denominator: 65536 }
    );
    assert!(drawing.curve.iter().all(|sample| sample.denominator == 50u128.pow(16)));
    let points = eighteen_points();
    let drawing = draw_bezier(&points, Some(parameter(1, 2)));
    assert_eq!(drawing.construction.unwrap().final_point.denominator, 1 << 17);
    assert_eq!(drawing.curve.len(), 51);
    assert_eq!(drawing.curve[1], RationalVector2 { x: -861886, y: -40633, denominator: 65536 });
    assert_eq!(drawing.curve[50], RationalVector2 { x: -391 * 65536, y: 116 * 65536, denominator: 65536 });
    assert_eq!(drawing.points.len(), 18);
}

#[test]
fn curve_stays_within_the_extent_of_its_control_points() {
    let points = points_at(&[(-5, 7), (10, -20), (3, 3), (100, 50), (-40, 0)]);
    for numerator in 0..=1000 {
        let value = evalute_bezier_curve(&points, parameter(numerator, 1000)).unwrap();
        let scale = value.denominator as i128;
        assert!(-40 * scale <= value.x && value.x <= 100 * scale);
        assert!(-20 * scale <= value.y && value.y <= 50 * scale);
    }
}

#[test]
fn curve_over_points_in_order_on_a_line_stays_between_its_ends() {
    // Four points on one line, in order but unevenly spaced: the box of the
    // two ends holds the whole curve and is touched at both ends.
    let points = points_at(&[(0, 30), (10, 25), (70, -5), (80, -10)]);
    let drawing = draw_bezier(&points, None);
    for sample in drawing.curve.iter() {
        let scale = sample.denominator as i128;
        assert!(0 <= sample.x && sample.x <= 80 * scale);
        assert!(-10 * scale <= sample.y && sample.y <= 30 * scale);
        // On the line x + 2 y = 60.
        assert_eq!(sample.x + 2 * sample.y, 60 * scale);
    }
    assert_eq!(drawing.curve[0].x, 0);
    assert_eq!(drawing.curve[50].x, 80 * drawing.curve[50].denominator as i128);
}

#[test]
fn curve_over_points_out_of_order_on_a_line_leaves_the_box_of_its_ends() {
    let points = points_at(&[(0, 0), (-10, -10), (-10, -10), (1, 1)]);
    let value = evalute_bezier_curve(&points, parameter(1, 2)).unwrap();
    assert_eq!(value, RationalVector2 { x: -59, y: -59, denominator: 8 });
}
