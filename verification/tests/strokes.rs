use inkstroke::evaluate::{evaluate, SAMPLES_PER_SEGMENT};
use inkstroke::geom::{ControlPoint, Pixel, RenderPoint};
use inkstroke::resample::{resample, ResampleError};
use inkstroke::stroke::{Page, Rgb, Stroke};

fn px(x: i32, y: i32) -> Pixel {
    Pixel { x, y }
}

const BLACK: Rgb = Rgb { r: 0, g: 0, b: 0 };

#[test]
fn stroke_from_trace_matches_direct_resampling() {
    let trace = vec![px(0, 0), px(10, 0), px(20, 0), px(30, 0), px(40, 0)];
    let stroke = Stroke::from_trace(BLACK, &trace, 5).unwrap();
    let mut points: Vec<ControlPoint> = Vec::new();
    assert!(resample(&trace, 5, &mut points).is_ok());
    assert_eq!(stroke.control_count(), points.len());
    for (i, expected) in points.iter().enumerate() {
        assert_eq!(stroke.control_at(i), *expected);
    }
    assert_eq!(stroke.color(), BLACK);
}

#[test]
fn stroke_rejects_zero_interval() {
    let trace = vec![px(0, 0), px(1, 1)];
    let r = Stroke::from_trace(BLACK, &trace, 0);
    assert!(matches!(r, Err(ResampleError::NonPositiveInterval)));
}

#[test]
fn stroke_evaluation_matches_direct_evaluation() {
    let trace = vec![px(0, 0), px(4, 2), px(9, 7), px(15, 8), px(22, 3)];
    let stroke = Stroke::from_trace(BLACK, &trace, 2).unwrap();
    let mut points: Vec<ControlPoint> = Vec::new();
    assert!(resample(&trace, 2, &mut points).is_ok());
    let mut from_stroke: Vec<RenderPoint> = Vec::new();
    let mut direct: Vec<RenderPoint> = Vec::new();
    stroke.evaluate_into(&mut from_stroke);
    evaluate(&points, &mut direct);
    assert_eq!(from_stroke, direct);
    assert_eq!(from_stroke.len(), (points.len() - 1) * SAMPLES_PER_SEGMENT);
}

#[test]
fn page_appends_strokes_in_order() {
    let red = Rgb { r: 255, g: 0, b: 0 };
    let mut page = Page::new();
    assert_eq!(page.stroke_count(), 0);
    page.push_stroke(Stroke::from_trace(BLACK, &vec![px(1, 1)], 5).unwrap());
    page.push_stroke(Stroke::from_trace(red, &vec![px(2, 2)], 5).unwrap());
    assert_eq!(page.stroke_count(), 2);
    assert_eq!(page.stroke_at(0).color(), BLACK);
    assert_eq!(page.stroke_at(1).color(), red);
    assert_eq!(page.stroke_at(1).control_at(0), ControlPoint { x: 2, y: 2, dx: 0, dy: 0 });
}

#[test]
fn single_point_stroke_evaluates_to_empty_polyline() {
    let stroke = Stroke::from_trace(BLACK, &vec![px(5, 5)], 5).unwrap();
    assert_eq!(stroke.control_count(), 1);
    let mut output: Vec<RenderPoint> = Vec::new();
    stroke.evaluate_into(&mut output);
    assert!(output.is_empty());
}
