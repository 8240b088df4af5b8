use inkstroke::geom::{check_trace_in_bounds, ControlPoint, Pixel};
use inkstroke::resample::{resample, ResampleError};

fn px(x: i32, y: i32) -> Pixel {
    Pixel { x, y }
}

fn cp(x: i32, y: i32, dx: i32, dy: i32) -> ControlPoint {
    ControlPoint { x, y, dx, dy }
}

#[test]
fn empty_trace_gives_no_points() {
    let trace: Vec<Pixel> = vec![];
    let mut points: Vec<ControlPoint> = Vec::new();
    assert!(resample(&trace, 5, &mut points).is_ok());
    assert!(points.is_empty());
}

#[test]
fn single_sample_gives_one_zero_tangent_point() {
    let trace = vec![px(5, 5)];
    let mut points: Vec<ControlPoint> = Vec::new();
    assert!(resample(&trace, 5, &mut points).is_ok());
    assert_eq!(points, vec![cp(5, 5, 0, 0)]);
}

#[test]
fn two_samples_give_two_zero_tangent_points() {
    let trace = vec![px(1, 2), px(3, 4)];
    let mut points: Vec<ControlPoint> = Vec::new();
    assert!(resample(&trace, 7, &mut points).is_ok());
    assert_eq!(points, vec![cp(1, 2, 0, 0), cp(3, 4, 0, 0)]);
}

#[test]
fn strided_trace_scales_interior_and_keeps_last_unscaled() {
    // One strided point at index 0, then the forced final point: the interior
    // tangent is the forward difference scaled by 6, the final tangent the
    // unscaled backward difference.
    let trace = vec![px(0, 0), px(10, 0), px(20, 0), px(30, 0), px(40, 0)];
    let mut points: Vec<ControlPoint> = Vec::new();
    assert!(resample(&trace, 5, &mut points).is_ok());
    assert_eq!(points, vec![cp(0, 0, 60, 0), cp(40, 0, 10, 0)]);
}

#[test]
fn interval_one_visits_every_interior_index() {
    let trace = vec![px(0, 0), px(2, 0), px(5, 0), px(9, 0)];
    let mut points: Vec<ControlPoint> = Vec::new();
    assert!(resample(&trace, 1, &mut points).is_ok());
    assert_eq!(
        points,
        vec![cp(0, 0, 12, 0), cp(2, 0, 18, 0), cp(5, 0, 24, 0), cp(9, 0, 4, 0)]
    );
}

#[test]
fn interval_not_dividing_length_stops_at_second_to_last() {
    let trace = vec![px(0, 0), px(1, 1), px(2, 4), px(3, 9), px(4, 16), px(5, 25)];
    let mut points: Vec<ControlPoint> = Vec::new();
    assert!(resample(&trace, 4, &mut points).is_ok());
    assert_eq!(
        points,
        vec![cp(0, 0, 6, 6), cp(4, 16, 6, 54), cp(5, 25, 1, 9)]
    );
}

#[test]
fn negative_coordinates_are_handled_exactly() {
    let trace = vec![px(0, 0), px(-7, 3), px(-20, -5), px(-21, -6)];
    let mut points: Vec<ControlPoint> = Vec::new();
    assert!(resample(&trace, 2, &mut points).is_ok());
    assert_eq!(
        points,
        vec![
            cp(0, 0, -42, 18),
            cp(-20, -5, -6, -6),
            cp(-21, -6, -1, -1)
        ]
    );
}

#[test]
fn zero_interval_is_rejected_and_leaves_buffer_untouched() {
    let trace = vec![px(0, 0), px(1, 1), px(2, 2)];
    let mut points = vec![cp(9, 9, 9, 9)];
    let r = resample(&trace, 0, &mut points);
    assert_eq!(r, Err(ResampleError::NonPositiveInterval));
    assert_eq!(points, vec![cp(9, 9, 9, 9)]);
}

#[test]
fn resampling_twice_gives_identical_output() {
    let trace = vec![px(0, 0), px(3, 1), px(7, 2), px(12, 3), px(18, 4)];
    let mut first: Vec<ControlPoint> = Vec::new();
    let mut second: Vec<ControlPoint> = Vec::new();
    assert!(resample(&trace, 2, &mut first).is_ok());
    assert!(resample(&trace, 2, &mut second).is_ok());
    assert_eq!(first, second);
}

#[test]
fn resample_replaces_previous_buffer_contents() {
    let trace = vec![px(5, 5)];
    let mut points = vec![cp(1, 1, 1, 1), cp(2, 2, 2, 2)];
    assert!(resample(&trace, 3, &mut points).is_ok());
    assert_eq!(points, vec![cp(5, 5, 0, 0)]);
}

#[test]
fn bounds_check_accepts_screen_coordinates_and_rejects_huge_ones() {
    assert!(check_trace_in_bounds(&vec![px(0, 0), px(1199, 899)]));
    assert!(check_trace_in_bounds(&vec![px(-100_000_000, 100_000_000)]));
    assert!(!check_trace_in_bounds(&vec![px(0, 0), px(100_000_001, 0)]));
    assert!(!check_trace_in_bounds(&vec![px(0, -100_000_001)]));
}
