//! Trace resampler: compresses a dense raw pixel trace into a sparse ordered
//! sequence of control points carrying forward-difference tangent estimates.

use vstd::prelude::*;
use vstd::arithmetic::div_mod::{
    lemma_div_pos_is_pos,
    lemma_fundamental_div_mod,
    lemma_mod_division_less_than_divisor,
};
use vstd::arithmetic::mul::{lemma_mul_inequality, lemma_mul_is_commutative};
use crate::geom::{ControlPoint, Pixel, trace_in_bounds};

verus! {

/// The resampler rejects a non-positive stride.
#[derive(Clone, Copy, PartialEq, Eq, Structural, Debug)]
pub enum ResampleError {
    NonPositiveInterval,
}

/// Control point emitted for trace index `i` when striding through the
/// interior of a long trace: the position itself, and the forward difference
/// to the next sample scaled by the fixed tuning factor 6.
pub open spec fn interior_point(trace: Seq<Pixel>, i: int) -> ControlPoint {
    ControlPoint {
        x: trace[i].x,
        y: trace[i].y,
        dx: (6 * (trace[i + 1].x - trace[i].x)) as i32,
        dy: (6 * (trace[i + 1].y - trace[i].y)) as i32,
    }
}

/// Control point always emitted at the very last trace sample: its tangent is
/// the unscaled backward difference from the sample before it.
pub open spec fn last_point(trace: Seq<Pixel>) -> ControlPoint {
    let n = trace.len() as int;
    ControlPoint {
        x: trace[n - 1].x,
        y: trace[n - 1].y,
        dx: (trace[n - 1].x - trace[n - 2].x) as i32,
        dy: (trace[n - 1].y - trace[n - 2].y) as i32,
    }
}

/// How many strided interior points a trace of length `n > 2` yields with a
/// stride of `interval`: one per visited index `0, interval, 2*interval, ...`
/// while the index stays at most `n - 2`.
pub open spec fn strided_count(n: int, interval: int) -> int {
    (n - 2) / interval + 1
}

/// The whole resampler as a function of the trace and the stride.
///
/// A trace of at most two samples maps to one control point per sample with a
/// zero tangent. A longer trace maps to its strided interior points followed
/// by the forced final point at the last sample.
pub open spec fn resample_spec(trace: Seq<Pixel>, interval: int) -> Seq<ControlPoint> {
    if trace.len() <= 2 {
        Seq::new(
            trace.len(),
            |i: int| ControlPoint { x: trace[i].x, y: trace[i].y, dx: 0, dy: 0 },
        )
    } else {
        Seq::new(
            strided_count(trace.len() as int, interval) as nat,
            |k: int| interior_point(trace, k * interval),
        ).push(last_point(trace))
    }
}

/// Resample a raw trace into `points`, replacing its previous contents.
///
/// Rejects a zero stride and then leaves `points` untouched; for a positive
/// stride the output is exactly `resample_spec`, and every emitted control
/// point stays inside the bounds the curve evaluator accepts.
pub fn resample(trace: &Vec<Pixel>, interval: u32, points: &mut Vec<ControlPoint>) -> (r: Result<
    (),
    ResampleError,
>)
    requires
        trace_in_bounds(trace@),
    ensures
        r is Ok <==> interval >= 1,
        interval >= 1 ==> final(points)@ == resample_spec(trace@, interval as int),
        interval == 0 ==> final(points)@ == old(points)@ && r == Result::<
            (),
            ResampleError,
        >::Err(ResampleError::NonPositiveInterval),
{
    if interval == 0 {
        return Err(ResampleError::NonPositiveInterval);
    }
    points.clear();
    let n = trace.len();

    if n <= 2 {
        let mut i: usize = 0;
        while i < n
            invariant
                0 <= i <= n,
                n == trace@.len(),
                points@.len() == i,
                forall|j: int| 0 <= j < i ==> points@[j] == (ControlPoint {
                    x: trace@[j].x,
                    y: trace@[j].y,
                    dx: 0,
                    dy: 0,
                }),
            decreases n - i,
        {
            let p = trace[i];
            points.push(ControlPoint { x: p.x, y: p.y, dx: 0, dy: 0 });
            i += 1;
        }
        proof {
            assert(points@ =~= resample_spec(trace@, interval as int));
        }
        return Ok(());
    }

    let step: usize = interval as usize;
    let count: usize = (n - 2) / step + 1;
    proof {
        lemma_fundamental_div_mod((n - 2) as int, step as int);
        lemma_mod_division_less_than_divisor((n - 2) as int, step as int);
        lemma_mul_is_commutative((n - 2) as int / step as int, step as int);
    }

    let mut k: usize = 0;
    while k < count
        invariant
            1 <= step,
            3 <= n == trace@.len(),
            count == strided_count(n as int, step as int),
            (count - 1) * step <= n - 2,
            0 <= k <= count,
            points@.len() == k,
            trace_in_bounds(trace@),
            forall|j: int| 0 <= j < k ==> points@[j] == interior_point(trace@, j * (step as int)),
        decreases count - k,
    {
        proof {
            lemma_mul_inequality(k as int, count - 1, step as int);
        }
        let i: usize = k * step;
        proof {
            assert(trace@[i as int].in_bounds());
            assert(trace@[i as int + 1].in_bounds());
        }
        let dx: i32 = 6 * (trace[i + 1].x - trace[i].x);
        let dy: i32 = 6 * (trace[i + 1].y - trace[i].y);
        points.push(ControlPoint { x: trace[i].x, y: trace[i].y, dx, dy });
        k += 1;
    }

    proof {
        assert(trace@[n - 1].in_bounds());
        assert(trace@[n - 2].in_bounds());
    }
    let last = trace[n - 1];
    let prev = trace[n - 2];
    points.push(ControlPoint { x: last.x, y: last.y, dx: last.x - prev.x, dy: last.y - prev.y });
    proof {
        assert(points@ =~= resample_spec(trace@, interval as int));
    }
    Ok(())
}

/// Law: a trace of at most two samples resamples to one control point per
/// sample, in order, each at the sample's position and with a zero tangent.
pub proof fn lemma_resample_short(trace: Seq<Pixel>, interval: int)
    requires
        trace.len() <= 2,
    ensures
        resample_spec(trace, interval).len() == trace.len(),
        forall|i: int|
            0 <= i < trace.len() ==> #[trigger] resample_spec(trace, interval)[i]
                == (ControlPoint { x: trace[i].x, y: trace[i].y, dx: 0, dy: 0 }),
{
}

/// Law: a trace of more than two samples resamples to a sequence whose last
/// control point sits exactly at the last trace sample and carries the
/// unscaled backward difference from the sample before it as its tangent.
pub proof fn lemma_resample_last(trace: Seq<Pixel>, interval: int)
    requires
        trace.len() > 2,
        interval >= 1,
        trace_in_bounds(trace),
    ensures
        resample_spec(trace, interval).len() == strided_count(trace.len() as int, interval) + 1,
        resample_spec(trace, interval).last().x == trace.last().x,
        resample_spec(trace, interval).last().y == trace.last().y,
        resample_spec(trace, interval).last().dx as int == trace.last().x - trace[
            trace.len() - 2
        ].x,
        resample_spec(trace, interval).last().dy as int == trace.last().y - trace[
            trace.len() - 2
        ].y,
{
    assert(trace[trace.len() - 1].in_bounds());
    assert(trace[trace.len() - 2].in_bounds());
    assert(resample_spec(trace, interval).last() == last_point(trace));
}

/// Law: in a trace of more than two samples, every non-final control point
/// `k` sits at the strided trace index `k * interval` and carries the forward
/// difference to the next sample scaled by 6 as its tangent.
pub proof fn lemma_resample_interior(trace: Seq<Pixel>, interval: int, k: int)
    requires
        trace.len() > 2,
        interval >= 1,
        trace_in_bounds(trace),
        0 <= k < strided_count(trace.len() as int, interval),
    ensures
        k * interval <= trace.len() - 2,
        resample_spec(trace, interval)[k].x == trace[k * interval].x,
        resample_spec(trace, interval)[k].y == trace[k * interval].y,
        resample_spec(trace, interval)[k].dx as int == 6 * (trace[k * interval + 1].x - trace[
            k * interval
        ].x),
        resample_spec(trace, interval)[k].dy as int == 6 * (trace[k * interval + 1].y - trace[
            k * interval
        ].y),
{
    let n = trace.len() as int;
    lemma_fundamental_div_mod(n - 2, interval);
    lemma_mod_division_less_than_divisor(n - 2, interval);
    lemma_mul_is_commutative((n - 2) / interval, interval);
    lemma_mul_inequality(k, (n - 2) / interval, interval);
    assert(trace[k * interval].in_bounds());
    assert(trace[k * interval + 1].in_bounds());
    assert(resample_spec(trace, interval)[k] == interior_point(trace, k * interval));
}

/// Law: every control point the resampler emits for an in-bounds trace stays
/// inside the bounds the curve evaluator accepts.
pub proof fn lemma_resample_in_bounds(trace: Seq<Pixel>, interval: int)
    requires
        trace_in_bounds(trace),
        interval >= 1,
    ensures
        forall|i: int|
            0 <= i < resample_spec(trace, interval).len()
                ==> (#[trigger] resample_spec(trace, interval)[i]).in_bounds(),
{
    let out = resample_spec(trace, interval);
    if trace.len() <= 2 {
        assert forall|i: int| 0 <= i < out.len() implies (#[trigger] out[i]).in_bounds() by {
            assert(trace[i].in_bounds());
        }
    } else {
        let n = trace.len() as int;
        assert forall|i: int| 0 <= i < out.len() implies (#[trigger] out[i]).in_bounds() by {
            if i < strided_count(n, interval) {
                lemma_resample_interior(trace, interval, i);
                assert(trace[i * interval].in_bounds());
                assert(trace[i * interval + 1].in_bounds());
                assert(out[i] == interior_point(trace, i * interval));
            } else {
                assert(trace[n - 1].in_bounds());
                assert(trace[n - 2].in_bounds());
                assert(out[i] == last_point(trace));
            }
        }
    }
}

/// Law: the resampler never returns an empty sequence for a non-empty trace,
/// and its last control point always sits at the last trace sample.
pub proof fn lemma_resample_keeps_last_sample(trace: Seq<Pixel>, interval: int)
    requires
        trace.len() > 0,
        interval >= 1,
    ensures
        resample_spec(trace, interval).len() > 0,
        resample_spec(trace, interval).last().x == trace.last().x,
        resample_spec(trace, interval).last().y == trace.last().y,
{
    if trace.len() > 2 {
        lemma_div_pos_is_pos(trace.len() - 2, interval);
        assert(resample_spec(trace, interval).last() == last_point(trace));
    }
}

/// Law: the resampler is a pure function of the trace and the interval, so
/// two runs on the same input yield identical control-point sequences.
pub proof fn lemma_resample_deterministic(
    trace: Seq<Pixel>,
    interval: int,
    first: Seq<ControlPoint>,
    second: Seq<ControlPoint>,
)
    requires
        first == resample_spec(trace, interval),
        second == resample_spec(trace, interval),
    ensures
        first == second,
{
}

} // verus!
