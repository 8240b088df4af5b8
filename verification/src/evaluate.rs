//! Curve evaluator: rebuilds a dense polyline from an ordered control-point
//! sequence by evaluating a custom cubic blend on each consecutive pair.
//!
//! The blend samples the parameter at the fixed steps `t = 0, 0.15, ..., 0.90`
//! (the step never reaches 1, so each segment stops just short of its second
//! control point). Every sampled `t` is a multiple of `3/20`, so the whole
//! computation is exact over the integers: a sample is a cubic form in the
//! numerators `a = 3k` and `b = 20 - 3k`, divided by `20^3 = 8000` and rounded
//! toward negative infinity.

use vstd::prelude::*;
use vstd::arithmetic::div_mod::{
    lemma_div_is_ordered,
    lemma_div_multiples_vanish,
    lemma_fundamental_div_mod,
    lemma_fundamental_div_mod_converse_div,
};
use crate::geom::{ControlPoint, RenderPoint, COORD_BOUND, TANGENT_BOUND};

verus! {

/// Number of parameter steps sampled on one segment: `t = 3k/20` for
/// `k = 0, ..., 6`; the next step `21/20` would pass 1.
pub const SAMPLES_PER_SEGMENT: usize = 7;

/// The cubic blend numerator at step `k`, over the four basis coefficients of
/// a segment: with `a = 3k` and `b = 20 - 3k` (the numerators of `t` and
/// `1 - t` over 20), this is `8000 * (t^3*p4 + t^2*u*p3 + t*u^2*p2 + u^3*p1)`.
pub open spec fn basis_mix(p1: int, p2: int, p3: int, p4: int, k: int) -> int {
    let a = 3 * k;
    let b = 20 - 3 * k;
    a * a * a * p4 + a * a * b * p3 + a * b * b * p2 + b * b * b * p1
}

/// One axis of one sampled point: the basis coefficients are `p1 = x0`,
/// `p2 = 3*x0 + v0`, `p3 = 3*x1 - v1`, `p4 = x1`, and the sampled value is
/// the blend floored to an integer (division by the positive 8000 rounds
/// toward negative infinity).
pub open spec fn axis_sample(x0: int, v0: int, x1: int, v1: int, k: int) -> int {
    basis_mix(x0, 3 * x0 + v0, 3 * x1 - v1, x1, k) / 8000
}

/// The sampled render point at step `k` of the segment from `c0` to `c1`.
pub open spec fn sample_point(c0: ControlPoint, c1: ControlPoint, k: int) -> RenderPoint {
    RenderPoint {
        x: axis_sample(c0.x as int, c0.dx as int, c1.x as int, c1.dx as int, k) as i32,
        y: axis_sample(c0.y as int, c0.dy as int, c1.y as int, c1.dy as int, k) as i32,
    }
}

/// All seven samples of one segment, in increasing `t` order.
pub open spec fn segment_samples(c0: ControlPoint, c1: ControlPoint) -> Seq<RenderPoint> {
    Seq::new(SAMPLES_PER_SEGMENT as nat, |k: int| sample_point(c0, c1, k))
}

/// The whole evaluator as a function of the control-point sequence: the
/// segment samples of every consecutive pair, concatenated in order. Fewer
/// than two control points give no segment and an empty polyline.
pub open spec fn evaluate_spec(points: Seq<ControlPoint>) -> Seq<RenderPoint>
    decreases points.len(),
{
    if points.len() < 2 {
        Seq::empty()
    } else {
        evaluate_spec(points.drop_last()) + segment_samples(
            points[points.len() - 2],
            points[points.len() - 1],
        )
    }
}

/// The blend numerator written with folded coefficients, one conjunct per
/// step. With `a` and `b` fixed by `k`, each basis coefficient multiplies a
/// plain literal: `p1` by `b^3`, `p2` by `a*b^2`, `p3` by `a^2*b`, `p4` by
/// `a^3`.
proof fn lemma_mix_cases(p1: int, p2: int, p3: int, p4: int, k: int)
    requires
        0 <= k <= 6,
    ensures
        k == 0 ==> basis_mix(p1, p2, p3, p4, k) == 8000 * p1,
        k == 1 ==> basis_mix(p1, p2, p3, p4, k) == 4913 * p1 + 867 * p2 + 153 * p3 + 27 * p4,
        k == 2 ==> basis_mix(p1, p2, p3, p4, k) == 2744 * p1 + 1176 * p2 + 504 * p3 + 216 * p4,
        k == 3 ==> basis_mix(p1, p2, p3, p4, k) == 1331 * p1 + 1089 * p2 + 891 * p3 + 729 * p4,
        k == 4 ==> basis_mix(p1, p2, p3, p4, k) == 512 * p1 + 768 * p2 + 1152 * p3 + 1728 * p4,
        k == 5 ==> basis_mix(p1, p2, p3, p4, k) == 125 * p1 + 375 * p2 + 1125 * p3 + 3375 * p4,
        k == 6 ==> basis_mix(p1, p2, p3, p4, k) == 8 * p1 + 72 * p2 + 648 * p3 + 5832 * p4,
{
    let a = 3 * k;
    let b = 20 - 3 * k;
    assert(basis_mix(p1, p2, p3, p4, k) == a * a * a * p4 + a * a * b * p3 + a * b * b * p2 + b
        * b * b * p1);
    assert((k == 0 ==> a * a * a * p4 + a * a * b * p3 + a * b * b * p2 + b * b * b * p1 == 8000
        * p1) && (k == 1 ==> a * a * a * p4 + a * a * b * p3 + a * b * b * p2 + b * b * b * p1
        == 4913 * p1 + 867 * p2 + 153 * p3 + 27 * p4) && (k == 2 ==> a * a * a * p4 + a * a * b
        * p3 + a * b * b * p2 + b * b * b * p1 == 2744 * p1 + 1176 * p2 + 504 * p3 + 216 * p4) && (
    k == 3 ==> a * a * a * p4 + a * a * b * p3 + a * b * b * p2 + b * b * b * p1 == 1331 * p1
        + 1089 * p2 + 891 * p3 + 729 * p4) && (k == 4 ==> a * a * a * p4 + a * a * b * p3 + a * b
        * b * p2 + b * b * b * p1 == 512 * p1 + 768 * p2 + 1152 * p3 + 1728 * p4) && (k == 5 ==> a
        * a * a * p4 + a * a * b * p3 + a * b * b * p2 + b * b * b * p1 == 125 * p1 + 375 * p2
        + 1125 * p3 + 3375 * p4) && (k == 6 ==> a * a * a * p4 + a * a * b * p3 + a * b * b * p2
        + b * b * b * p1 == 8 * p1 + 72 * p2 + 648 * p3 + 5832 * p4)) by (nonlinear_arith)
        requires
            a == 3 * k,
            b == 20 - 3 * k,
            0 <= k <= 6,
    ;
}

/// Bound on the blend numerator for in-range basis coefficients; keeps the
/// evaluator inside `i64` and its quotient inside `i32`.
proof fn lemma_mix_bound(p1: int, p2: int, p3: int, p4: int, k: int)
    requires
        0 <= k <= 6,
        -COORD_BOUND <= p1 <= COORD_BOUND,
        -1_500_000_000 <= p2 <= 1_500_000_000,
        -1_500_000_000 <= p3 <= 1_500_000_000,
        -COORD_BOUND <= p4 <= COORD_BOUND,
    ensures
        -5_000_000_000_000 <= basis_mix(p1, p2, p3, p4, k) <= 5_000_000_000_000,
{
    lemma_mix_cases(p1, p2, p3, p4, k);
}

/// Quotient bound for one axis sample of an in-bounds segment.
proof fn lemma_axis_sample_in_range(x0: int, v0: int, x1: int, v1: int, k: int)
    requires
        0 <= k <= 6,
        -COORD_BOUND <= x0 <= COORD_BOUND,
        -COORD_BOUND <= x1 <= COORD_BOUND,
        -TANGENT_BOUND <= v0 <= TANGENT_BOUND,
        -TANGENT_BOUND <= v1 <= TANGENT_BOUND,
    ensures
        -625_000_000 <= axis_sample(x0, v0, x1, v1, k) <= 625_000_000,
{
    lemma_mix_bound(x0, 3 * x0 + v0, 3 * x1 - v1, x1, k);
    let n = basis_mix(x0, 3 * x0 + v0, 3 * x1 - v1, x1, k);
    lemma_div_is_ordered(-5_000_000_000_000, n, 8000);
    lemma_div_is_ordered(n, 5_000_000_000_000, 8000);
}

/// Floor division of the blend numerator by 8000: rounds toward negative
/// infinity, as the spec-level `/` on `int` does for a positive divisor.
fn floor_div_8000(n: i64) -> (q: i64)
    requires
        -5_000_000_000_000 <= n <= 5_000_000_000_000,
    ensures
        q == n as int / 8000,
{
    if n >= 0 {
        let m: u64 = n as u64;
        let qq: u64 = m / 8000;
        qq as i64
    } else {
        let m: u64 = (-n) as u64;
        let qq: u64 = (m + 7999) / 8000;
        proof {
            let mi = m as int;
            let q1 = (mi + 7999) / 8000;
            lemma_fundamental_div_mod(mi + 7999, 8000);
            let r1 = (mi + 7999) % 8000;
            assert(n as int == 8000 * (-q1) + (7999 - r1));
            lemma_fundamental_div_mod_converse_div(n as int, 8000, -q1, 7999 - r1);
        }
        -(qq as i64)
    }
}

/// The blend numerator for one axis at step `k`, computed with the folded
/// per-step coefficients.
fn basis_mix_exec(p1: i64, p2: i64, p3: i64, p4: i64, k: usize) -> (n: i64)
    requires
        k <= 6,
        -COORD_BOUND <= p1 <= COORD_BOUND,
        -1_500_000_000 <= p2 <= 1_500_000_000,
        -1_500_000_000 <= p3 <= 1_500_000_000,
        -COORD_BOUND <= p4 <= COORD_BOUND,
    ensures
        n == basis_mix(p1 as int, p2 as int, p3 as int, p4 as int, k as int),
        -5_000_000_000_000 <= n <= 5_000_000_000_000,
{
    proof {
        lemma_mix_cases(p1 as int, p2 as int, p3 as int, p4 as int, k as int);
    }
    if k == 0 {
        8000 * p1
    } else if k == 1 {
        4913 * p1 + 867 * p2 + 153 * p3 + 27 * p4
    } else if k == 2 {
        2744 * p1 + 1176 * p2 + 504 * p3 + 216 * p4
    } else if k == 3 {
        1331 * p1 + 1089 * p2 + 891 * p3 + 729 * p4
    } else if k == 4 {
        512 * p1 + 768 * p2 + 1152 * p3 + 1728 * p4
    } else if k == 5 {
        125 * p1 + 375 * p2 + 1125 * p3 + 3375 * p4
    } else {
        8 * p1 + 72 * p2 + 648 * p3 + 5832 * p4
    }
}

/// One axis of one sampled point.
fn axis_sample_exec(x0: i32, v0: i32, x1: i32, v1: i32, k: usize) -> (r: i32)
    requires
        k <= 6,
        -COORD_BOUND <= x0 <= COORD_BOUND,
        -COORD_BOUND <= x1 <= COORD_BOUND,
        -TANGENT_BOUND <= v0 <= TANGENT_BOUND,
        -TANGENT_BOUND <= v1 <= TANGENT_BOUND,
    ensures
        r as int == axis_sample(x0 as int, v0 as int, x1 as int, v1 as int, k as int),
{
    let p1: i64 = x0 as i64;
    let p2: i64 = 3 * (x0 as i64) + (v0 as i64);
    let p3: i64 = 3 * (x1 as i64) - (v1 as i64);
    let p4: i64 = x1 as i64;
    let n: i64 = basis_mix_exec(p1, p2, p3, p4, k);
    let q: i64 = floor_div_8000(n);
    proof {
        lemma_axis_sample_in_range(x0 as int, v0 as int, x1 as int, v1 as int, k as int);
    }
    q as i32
}

/// Unfolding step of `evaluate_spec`: the samples of the first `m + 1`
/// control points are those of the first `m`, followed by the samples of the
/// segment from point `m - 1` to point `m`.
proof fn lemma_evaluate_spec_step(points: Seq<ControlPoint>, m: int)
    requires
        1 <= m < points.len(),
    ensures
        evaluate_spec(points.take(m + 1)) == evaluate_spec(points.take(m)) + segment_samples(
            points[m - 1],
            points[m],
        ),
{
    let s = points.take(m + 1);
    assert(s.drop_last() =~= points.take(m));
    assert(s[s.len() - 2] == points[m - 1]);
    assert(s[s.len() - 1] == points[m]);
}

/// Evaluate the cubic blend over every consecutive control-point pair and
/// append the sampled polyline to `output` (the buffer is not cleared, so a
/// caller may accumulate across calls). Fewer than two control points append
/// nothing.
pub fn evaluate(points: &Vec<ControlPoint>, output: &mut Vec<RenderPoint>)
    requires
        forall|i: int| 0 <= i < points@.len() ==> (#[trigger] points@[i]).in_bounds(),
    ensures
        final(output)@ == old(output)@ + evaluate_spec(points@),
{
    let n = points.len();
    if n < 2 {
        proof {
            assert(output@ =~= old(output)@ + evaluate_spec(points@));
        }
        return ;
    }
    let mut i: usize = 0;
    while i < n - 1
        invariant
            2 <= n == points@.len(),
            0 <= i <= n - 1,
            forall|j: int| 0 <= j < points@.len() ==> (#[trigger] points@[j]).in_bounds(),
            output@ == old(output)@ + evaluate_spec(points@.take(i + 1)),
        decreases n - 1 - i,
    {
        let c0 = points[i];
        let c1 = points[i + 1];
        let mut k: usize = 0;
        while k < SAMPLES_PER_SEGMENT
            invariant
                0 <= k <= SAMPLES_PER_SEGMENT,
                2 <= n == points@.len(),
                0 <= i < n - 1,
                c0 == points@[i as int],
                c1 == points@[i as int + 1],
                c0.in_bounds(),
                c1.in_bounds(),
                output@ == old(output)@ + evaluate_spec(points@.take(i + 1)) + Seq::new(
                    k as nat,
                    |j: int| sample_point(c0, c1, j),
                ),
            decreases SAMPLES_PER_SEGMENT - k,
        {
            let rx = axis_sample_exec(c0.x, c0.dx, c1.x, c1.dx, k);
            let ry = axis_sample_exec(c0.y, c0.dy, c1.y, c1.dy, k);
            output.push(RenderPoint { x: rx, y: ry });
            proof {
                lemma_axis_sample_in_range(
                    c0.x as int,
                    c0.dx as int,
                    c1.x as int,
                    c1.dx as int,
                    k as int,
                );
                lemma_axis_sample_in_range(
                    c0.y as int,
                    c0.dy as int,
                    c1.y as int,
                    c1.dy as int,
                    k as int,
                );
                assert(RenderPoint { x: rx, y: ry } == sample_point(c0, c1, k as int));
                assert(output@ =~= old(output)@ + evaluate_spec(points@.take(i + 1)) + Seq::new(
                    (k + 1) as nat,
                    |j: int| sample_point(c0, c1, j),
                ));
            }
            k += 1;
        }
        proof {
            assert(Seq::new(SAMPLES_PER_SEGMENT as nat, |j: int| sample_point(c0, c1, j))
                =~= segment_samples(c0, c1));
            lemma_evaluate_spec_step(points@, i + 1);
            assert(output@ =~= old(output)@ + evaluate_spec(points@.take(i + 2)));
        }
        i += 1;
    }
    proof {
        assert(points@.take(n as int) =~= points@);
    }
}

/// Law: on fewer than two control points the evaluator defines an empty
/// polyline (no segment pair exists), never a fault.
pub proof fn lemma_evaluate_short(points: Seq<ControlPoint>)
    requires
        points.len() < 2,
    ensures
        evaluate_spec(points) == Seq::<RenderPoint>::empty(),
{
}

/// Law: on exactly two control points the evaluator's polyline is the sample
/// sequence of the single segment between them.
pub proof fn lemma_evaluate_pair(c0: ControlPoint, c1: ControlPoint)
    ensures
        evaluate_spec(seq![c0, c1]) == segment_samples(c0, c1),
{
    let s = seq![c0, c1];
    assert(s.drop_last() =~= seq![c0]);
    assert(evaluate_spec(s.drop_last()) + segment_samples(c0, c1) =~= segment_samples(c0, c1));
}

/// Law: the rebuilt polyline holds exactly seven samples per consecutive
/// control-point pair.
pub proof fn lemma_evaluate_len(points: Seq<ControlPoint>)
    ensures
        points.len() < 2 ==> evaluate_spec(points).len() == 0,
        points.len() >= 2 ==> evaluate_spec(points).len() == (SAMPLES_PER_SEGMENT as int) * (
        points.len() - 1),
    decreases points.len(),
{
    if points.len() >= 2 {
        lemma_evaluate_len(points.drop_last());
    }
}

/// Law: the first sample of a segment is exactly the position of its first
/// control point (`t = 0`), whatever the tangents are.
pub proof fn lemma_segment_start(c0: ControlPoint, c1: ControlPoint)
    requires
        c0.in_bounds(),
        c1.in_bounds(),
    ensures
        segment_samples(c0, c1)[0] == (RenderPoint { x: c0.x, y: c0.y }),
{
    lemma_mix_cases(
        c0.x as int,
        3 * c0.x as int + c0.dx as int,
        3 * c1.x as int - c1.dx as int,
        c1.x as int,
        0,
    );
    lemma_mix_cases(
        c0.y as int,
        3 * c0.y as int + c0.dy as int,
        3 * c1.y as int - c1.dy as int,
        c1.y as int,
        0,
    );
    lemma_div_multiples_vanish(c0.x as int, 8000);
    lemma_div_multiples_vanish(c0.y as int, 8000);
}

/// One axis of the straight-line law: with both tangents zero the sampled
/// value moves monotonically from `x0` toward `x1` as the step grows.
proof fn lemma_axis_monotone(x0: int, x1: int, k: int)
    requires
        0 <= k < 6,
        -COORD_BOUND <= x0 <= COORD_BOUND,
        -COORD_BOUND <= x1 <= COORD_BOUND,
    ensures
        x0 <= x1 ==> axis_sample(x0, 0, x1, 0, k) <= axis_sample(x0, 0, x1, 0, k + 1),
        x1 <= x0 ==> axis_sample(x0, 0, x1, 0, k + 1) <= axis_sample(x0, 0, x1, 0, k),
{
    lemma_mix_cases(x0, 3 * x0, 3 * x1, x1, k);
    lemma_mix_cases(x0, 3 * x0, 3 * x1, x1, k + 1);
    let n1 = basis_mix(x0, 3 * x0, 3 * x1, x1, k);
    let n2 = basis_mix(x0, 3 * x0, 3 * x1, x1, k + 1);
    if x0 <= x1 {
        assert(n1 <= n2);
        lemma_div_is_ordered(n1, n2, 8000);
    } else {
        assert(n2 <= n1);
        lemma_div_is_ordered(n2, n1, 8000);
    }
}

/// Law: on a segment whose two control points carry zero tangents, every
/// axis of the sampled polyline moves monotonically from the first position
/// toward the second as `t` increases (the straight-line degenerate case).
pub proof fn lemma_straight_segment_monotone(c0: ControlPoint, c1: ControlPoint, k: int)
    requires
        c0.in_bounds(),
        c1.in_bounds(),
        c0.dx == 0,
        c0.dy == 0,
        c1.dx == 0,
        c1.dy == 0,
        0 <= k < 6,
    ensures
        c0.x <= c1.x ==> segment_samples(c0, c1)[k].x <= segment_samples(c0, c1)[k + 1].x,
        c1.x <= c0.x ==> segment_samples(c0, c1)[k + 1].x <= segment_samples(c0, c1)[k].x,
        c0.y <= c1.y ==> segment_samples(c0, c1)[k].y <= segment_samples(c0, c1)[k + 1].y,
        c1.y <= c0.y ==> segment_samples(c0, c1)[k + 1].y <= segment_samples(c0, c1)[k].y,
{
    lemma_axis_monotone(c0.x as int, c1.x as int, k);
    lemma_axis_monotone(c0.y as int, c1.y as int, k);
    lemma_axis_sample_in_range(c0.x as int, 0, c1.x as int, 0, k);
    lemma_axis_sample_in_range(c0.x as int, 0, c1.x as int, 0, k + 1);
    lemma_axis_sample_in_range(c0.y as int, 0, c1.y as int, 0, k);
    lemma_axis_sample_in_range(c0.y as int, 0, c1.y as int, 0, k + 1);
}

} // verus!
