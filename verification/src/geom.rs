//! The plain geometric values the pipeline works on: raw trace pixels,
//! control points carrying a tangent estimate, and rebuilt render points.

use vstd::prelude::*;

verus! {

/// Largest coordinate magnitude the pipeline accepts for a trace pixel or a
/// control-point position. Keeps every intermediate of the resampler and of
/// the curve evaluator inside `i32` / `i64` range.
pub const COORD_BOUND: i32 = 100_000_000;

/// Largest tangent magnitude a control point may carry: the resampler scales
/// a coordinate difference by at most 6, so `12 * COORD_BOUND` covers it.
pub const TANGENT_BOUND: i32 = 1_200_000_000;

/// One raw captured pointer position.
#[derive(Clone, Copy, PartialEq, Eq, Structural, Debug)]
pub struct Pixel {
    pub x: i32,
    pub y: i32,
}

/// A sampled position together with an estimated tangent (velocity) at it.
#[derive(Clone, Copy, PartialEq, Eq, Structural, Debug)]
pub struct ControlPoint {
    pub x: i32,
    pub y: i32,
    pub dx: i32,
    pub dy: i32,
}

/// One point of the polyline the curve evaluator rebuilds.
#[derive(Clone, Copy, PartialEq, Eq, Structural, Debug)]
pub struct RenderPoint {
    pub x: i32,
    pub y: i32,
}

impl Pixel {
    /// Both coordinates lie inside the accepted range.
    pub open spec fn in_bounds(self) -> bool {
        &&& -COORD_BOUND <= self.x <= COORD_BOUND
        &&& -COORD_BOUND <= self.y <= COORD_BOUND
    }
}

impl ControlPoint {
    /// Position and tangent lie inside the ranges the evaluator needs.
    pub open spec fn in_bounds(self) -> bool {
        &&& -COORD_BOUND <= self.x <= COORD_BOUND
        &&& -COORD_BOUND <= self.y <= COORD_BOUND
        &&& -TANGENT_BOUND <= self.dx <= TANGENT_BOUND
        &&& -TANGENT_BOUND <= self.dy <= TANGENT_BOUND
    }
}

/// Every pixel of the trace lies inside the accepted range.
pub open spec fn trace_in_bounds(trace: Seq<Pixel>) -> bool {
    forall|i: int| 0 <= i < trace.len() ==> #[trigger] trace[i].in_bounds()
}

/// Runtime check of `trace_in_bounds`, for callers whose input arrives from
/// outside (a pointer device) and is not known bounded beforehand.
pub fn check_trace_in_bounds(trace: &Vec<Pixel>) -> (ok: bool)
    ensures
        ok <==> trace_in_bounds(trace@),
{
    let n = trace.len();
    let mut i: usize = 0;
    while i < n
        invariant
            0 <= i <= n,
            n == trace@.len(),
            forall|j: int| 0 <= j < i ==> #[trigger] trace@[j].in_bounds(),
        decreases n - i,
    {
        let p = trace[i];
        if p.x < -COORD_BOUND || p.x > COORD_BOUND || p.y < -COORD_BOUND || p.y > COORD_BOUND {
            assert(!trace@[i as int].in_bounds());
            return false;
        }
        assert(trace@[i as int].in_bounds());
        i += 1;
    }
    true
}

} // verus!
