//! Persisted strokes and pages: a stroke owns the control-point sequence one
//! completed gesture resampled to, immutable once created; a page is an
//! append-only collection of strokes.

use vstd::prelude::*;
use crate::geom::{ControlPoint, Pixel, RenderPoint, trace_in_bounds};
use crate::resample::{resample, resample_spec, lemma_resample_in_bounds, ResampleError};
use crate::evaluate::{evaluate, evaluate_spec};

verus! {

/// A solid draw color, one channel per byte.
#[derive(Clone, Copy, PartialEq, Eq, Structural, Debug)]
pub struct Rgb {
    pub r: u8,
    pub g: u8,
    pub b: u8,
}

/// One completed gesture: a color and the control points its trace resampled
/// to. The points are populated once at creation and never mutated again.
pub struct Stroke {
    color: Rgb,
    points: Vec<ControlPoint>,
}

impl Stroke {
    /// The control points of the stroke, in order.
    pub closed spec fn points_seq(self) -> Seq<ControlPoint> {
        self.points@
    }

    /// The stroke's draw color.
    pub closed spec fn color_spec(self) -> Rgb {
        self.color
    }

    /// Every stored control point stays inside the bounds the curve
    /// evaluator accepts; established at creation and kept for the stroke's
    /// lifetime.
    #[verifier::type_invariant]
    pub closed spec fn bounded(self) -> bool {
        forall|i: int| 0 <= i < self.points@.len() ==> (#[trigger] self.points@[i]).in_bounds()
    }

    /// Resample a completed raw trace into a new stroke. Rejects a
    /// non-positive interval, as the resampler does.
    pub fn from_trace(color: Rgb, trace: &Vec<Pixel>, interval: u32) -> (r: Result<
        Stroke,
        ResampleError,
    >)
        requires
            trace_in_bounds(trace@),
        ensures
            r is Ok <==> interval >= 1,
            r matches Ok(s) ==> s.points_seq() == resample_spec(trace@, interval as int)
                && s.color_spec() == color,
    {
        let mut points: Vec<ControlPoint> = Vec::new();
        match resample(trace, interval, &mut points) {
            Ok(()) => {
                proof {
                    lemma_resample_in_bounds(trace@, interval as int);
                }
                Ok(Stroke { color, points })
            },
            Err(e) => Err(e),
        }
    }

    /// How many control points the stroke holds.
    pub fn control_count(&self) -> (n: usize)
        ensures
            n == self.points_seq().len(),
    {
        self.points.len()
    }

    /// The control point at index `i`.
    pub fn control_at(&self, i: usize) -> (cp: ControlPoint)
        requires
            i < self.points_seq().len(),
        ensures
            cp == self.points_seq()[i as int],
    {
        self.points[i]
    }

    /// The stroke's draw color.
    pub fn color(&self) -> (c: Rgb)
        ensures
            c == self.color_spec(),
    {
        self.color
    }

    /// Rebuild the stroke's polyline for one redraw pass, appending to
    /// `output`. The stored control points are in bounds by construction, so
    /// any stroke can be evaluated.
    pub fn evaluate_into(&self, output: &mut Vec<RenderPoint>)
        ensures
            final(output)@ == old(output)@ + evaluate_spec(self.points_seq()),
    {
        proof {
            use_type_invariant(self);
        }
        evaluate(&self.points, output)
    }
}

/// An append-only collection of strokes.
pub struct Page {
    strokes: Vec<Stroke>,
}

impl Page {
    /// The strokes of the page, in the order they were appended.
    pub closed spec fn strokes_seq(self) -> Seq<Stroke> {
        self.strokes@
    }

    /// A fresh page with no strokes.
    pub fn new() -> (p: Page)
        ensures
            p.strokes_seq().len() == 0,
    {
        Page { strokes: Vec::new() }
    }

    /// Append one stroke; the strokes already stored are untouched.
    pub fn push_stroke(&mut self, s: Stroke)
        ensures
            final(self).strokes_seq() == old(self).strokes_seq().push(s),
    {
        self.strokes.push(s);
    }

    /// How many strokes the page holds.
    pub fn stroke_count(&self) -> (n: usize)
        ensures
            n == self.strokes_seq().len(),
    {
        self.strokes.len()
    }

    /// The stroke at index `i`.
    pub fn stroke_at(&self, i: usize) -> (s: &Stroke)
        requires
            i < self.strokes_seq().len(),
        ensures
            *s == self.strokes_seq()[i as int],
    {
        &self.strokes[i]
    }
}

} // verus!
