//! Laws of the curve interpolator and the composer.
//!
//! These public lemmas state, over the exact mathematical specifications,
//! what should hold of the library: interpolation is exact at sample points
//! and linear between them, extrapolation beyond an increasing last segment
//! strictly exceeds the last sample, the incremental cost is never negative
//! and vanishes on empty or non-increasing ranges, and the composer is a
//! function of its inputs.

use vstd::prelude::*;

use crate::car::Car;
use crate::computed::ComputedCarData;
use crate::curve::{incr_cost, points_wf, value_at, MaintenanceDataPoint};
use crate::maintenance::MaintenanceCostData;
use crate::rational::{
    lemma_q_add_congr, lemma_q_div_congr, lemma_q_eq_trans, lemma_q_le_trans, lemma_q_mul_congr,
    lemma_q_ops_wf, lemma_q_sub_congr, lemma_q_zero_sign, q_add, q_div, q_eq, q_le, q_lt, q_mul,
    q_sub, q_wf, q_zero, Q,
};
use crate::settings::SharedSettings;
use crate::tco::compute_spec;

verus! {

/// Sample positions strictly increase along the curve.
pub open spec fn strictly_increasing(data: Seq<MaintenanceDataPoint>) -> bool {
    forall|i: int, j: int| 0 <= i < j < data.len() ==> #[trigger] q_lt(data[i].x@, data[j].x@)
}

/// The value of the segment through `p1` and `p2` at `x`, as the
/// interpolator computes it.
pub open spec fn seg_value(p1: MaintenanceDataPoint, p2: MaintenanceDataPoint, x: Q) -> Q {
    q_add(p1.y@, q_mul(q_div(q_sub(x, p1.x@), q_sub(p2.x@, p1.x@)), q_sub(p2.y@, p1.y@)))
}

/// Adding a zero-numerator term does not change the value.
proof fn lemma_add_zero_num(a: Q, t: Q)
    requires
        t.n == 0,
    ensures
        q_eq(q_add(a, t), a),
{
    assert((a.n * t.d + t.n * a.d) * a.d == a.n * (a.d * t.d)) by (nonlinear_arith)
        requires
            t.n == 0;
}

/// Adding a strictly positive well-formed term strictly increases the value.
proof fn lemma_add_pos(a: Q, t: Q)
    requires
        q_wf(a),
        t.n >= 1,
        t.d >= 1,
    ensures
        q_lt(a, q_add(a, t)),
{
    assert(a.n * (a.d * t.d) < (a.n * t.d + t.n * a.d) * a.d) by (nonlinear_arith)
        requires
            a.d >= 1,
            t.n >= 1,
            t.d >= 1;
}

/// A ray through the origin and a sample passes through the sample.
proof fn lemma_ray_at_anchor(p: MaintenanceDataPoint)
    ensures
        q_eq(q_mul(q_div(p.y@, p.x@), p.x@), p.y@),
{
    let y = p.y@;
    let x = p.x@;
    if x.n >= 0 {
        assert(((y.n * x.d) * x.n) * y.d == y.n * ((y.d * x.n) * x.d)) by (nonlinear_arith);
    } else {
        assert(((-(y.n * x.d)) * x.n) * y.d == y.n * ((-(y.d * x.n)) * x.d)) by (nonlinear_arith);
    }
}

/// A zero-numerator value divided by anything keeps a zero numerator.
proof fn lemma_div_zero_num(z: Q, a: Q)
    requires
        z.n == 0,
    ensures
        q_div(z, a).n == 0,
{
    assert(z.n * a.d == 0 && -(z.n * a.d) == 0) by (nonlinear_arith)
        requires
            z.n == 0;
}

/// A zero-numerator factor makes the product's numerator zero.
proof fn lemma_mul_zero_num(z: Q, a: Q)
    requires
        z.n == 0,
    ensures
        q_mul(z, a).n == 0,
{
    assert(z.n * a.n == 0) by (nonlinear_arith)
        requires
            z.n == 0;
}

/// The segment through two samples passes through the left sample.
proof fn lemma_seg_at_left(p1: MaintenanceDataPoint, p2: MaintenanceDataPoint)
    ensures
        q_eq(seg_value(p1, p2, p1.x@), p1.y@),
{
    let z = q_sub(p1.x@, p1.x@);
    assert(z.n == 0);
    lemma_div_zero_num(z, q_sub(p2.x@, p1.x@));
    lemma_mul_zero_num(q_div(z, q_sub(p2.x@, p1.x@)), q_sub(p2.y@, p1.y@));
    lemma_add_zero_num(p1.y@, q_mul(q_div(z, q_sub(p2.x@, p1.x@)), q_sub(p2.y@, p1.y@)));
}

/// The segment through two samples at distinct positions passes through the
/// right sample.
proof fn lemma_seg_at_right(p1: MaintenanceDataPoint, p2: MaintenanceDataPoint)
    requires
        !q_eq(p1.x@, p2.x@),
    ensures
        q_eq(seg_value(p1, p2, p2.x@), p2.y@),
{
    let aa = q_sub(p2.x@, p1.x@);
    let ratio = q_div(q_sub(p2.x@, p1.x@), aa);
    assert(ratio.n == ratio.d) by {
        if aa.n >= 0 {
            assert(aa.n * aa.d == aa.d * aa.n) by (nonlinear_arith);
        } else {
            assert(-(aa.n * aa.d) == -(aa.d * aa.n)) by (nonlinear_arith);
        }
    }
    let t = q_mul(ratio, q_sub(p2.y@, p1.y@));
    let a = p1.y@.n;
    let b = p1.y@.d;
    let c = p2.y@.n;
    let d = p2.y@.d;
    let r = ratio.n;
    assert(a * (r * (d * b)) == ((a * r) * d) * b) by (nonlinear_arith);
    assert(r * (c * b - a * d) == ((c * r) * b) - ((a * r) * d)) by (nonlinear_arith);
    assert((((c * r) * b) - ((a * r) * d)) * b == ((c * r) * b) * b - ((a * r) * d) * b)
        by (nonlinear_arith);
    assert(a * (r * (d * b)) + (r * (c * b - a * d)) * b == ((c * r) * b) * b);
    assert((((c * r) * b) * b) * d == c * (b * (r * (d * b)))) by (nonlinear_arith);
    assert((a * (r * (d * b)) + (r * (c * b - a * d)) * b) * d == c * (b * (r * (d * b))));
    assert(t.d == r * (d * b));
    assert(t.n == r * (c * b - a * d));
}

/// The extension of the line through `p1` and `p2` passes through `p2`.
proof fn lemma_line_at_anchor(p1: MaintenanceDataPoint, p2: MaintenanceDataPoint, x: Q)
    requires
        q_eq(x, p2.x@),
    ensures
        q_eq(
            q_add(
                p2.y@,
                q_mul(q_div(q_sub(p2.y@, p1.y@), q_sub(p2.x@, p1.x@)), q_sub(x, p2.x@)),
            ),
            p2.y@,
        ),
{
    let run = q_sub(x, p2.x@);
    assert(run.n == 0);
    assert(q_mul(q_div(q_sub(p2.y@, p1.y@), q_sub(p2.x@, p1.x@)), run).n == 0) by {
        assert(q_div(q_sub(p2.y@, p1.y@), q_sub(p2.x@, p1.x@)).n * 0 == 0) by (nonlinear_arith);
    }
    lemma_add_zero_num(p2.y@, q_mul(q_div(q_sub(p2.y@, p1.y@), q_sub(p2.x@, p1.x@)), run));
}

/// The segment value depends only on the value of `x`.
proof fn lemma_seg_value_congr(p1: MaintenanceDataPoint, p2: MaintenanceDataPoint, x: Q, x2: Q)
    requires
        p1.wf(),
        p2.wf(),
        q_wf(x),
        q_wf(x2),
        q_eq(x, x2),
        !q_eq(p1.x@, p2.x@),
    ensures
        q_eq(seg_value(p1, p2, x), seg_value(p1, p2, x2)),
{
    lemma_q_ops_wf(p2.x@, p1.x@);
    assert(q_sub(p2.x@, p1.x@).n != 0);
    lemma_q_sub_congr(x, x2, p1.x@, p1.x@);
    lemma_q_div_congr(q_sub(x, p1.x@), q_sub(x2, p1.x@), q_sub(p2.x@, p1.x@), q_sub(p2.x@, p1.x@));
    lemma_q_mul_congr(
        q_div(q_sub(x, p1.x@), q_sub(p2.x@, p1.x@)),
        q_div(q_sub(x2, p1.x@), q_sub(p2.x@, p1.x@)),
        q_sub(p2.y@, p1.y@),
        q_sub(p2.y@, p1.y@),
    );
    lemma_q_add_congr(
        p1.y@,
        p1.y@,
        q_mul(q_div(q_sub(x, p1.x@), q_sub(p2.x@, p1.x@)), q_sub(p2.y@, p1.y@)),
        q_mul(q_div(q_sub(x2, p1.x@), q_sub(p2.x@, p1.x@)), q_sub(p2.y@, p1.y@)),
    );
}

/// The segment value at `x` between distinct well-formed samples is well
/// formed.
proof fn lemma_seg_value_wf(p1: MaintenanceDataPoint, p2: MaintenanceDataPoint, x: Q)
    requires
        p1.wf(),
        p2.wf(),
        q_wf(x),
        !q_eq(p1.x@, p2.x@),
    ensures
        q_wf(seg_value(p1, p2, x)),
{
    lemma_q_ops_wf(p2.x@, p1.x@);
    assert(q_sub(p2.x@, p1.x@).n != 0);
    lemma_q_ops_wf(x, p1.x@);
    lemma_q_ops_wf(q_sub(x, p1.x@), q_sub(p2.x@, p1.x@));
    lemma_q_ops_wf(p2.y@, p1.y@);
    lemma_q_ops_wf(
        q_div(q_sub(x, p1.x@), q_sub(p2.x@, p1.x@)),
        q_sub(p2.y@, p1.y@),
    );
    lemma_q_ops_wf(
        p1.y@,
        q_mul(q_div(q_sub(x, p1.x@), q_sub(p2.x@, p1.x@)), q_sub(p2.y@, p1.y@)),
    );
}

/// The bracketing scan from `j` on a strictly increasing curve reaches the
/// segment `(i, i + 1)` that brackets `x` and yields its value.
proof fn lemma_scan_linear(data: Seq<MaintenanceDataPoint>, x: Q, i: int, j: int)
    requires
        points_wf(data),
        strictly_increasing(data),
        q_wf(x),
        0 <= j <= i,
        i + 1 < data.len(),
        q_le(data[i].x@, x),
        q_le(x, data[i + 1].x@),
    ensures
        q_eq(crate::curve::scan_at(data, x, j), seg_value(data[i], data[i + 1], x)),
        q_wf(crate::curve::scan_at(data, x, j)),
    decreases i - j,
{
    let p1 = data[j];
    let p2 = data[j + 1];
    assert(data[j].wf() && data[j + 1].wf() && data[i].wf() && data[i + 1].wf());
    assert(q_le(p1.x@, x)) by {
        if j < i {
            assert(q_lt(data[j].x@, data[i].x@));
            lemma_q_le_trans(p1.x@, data[i].x@, x);
        }
    }
    if q_le(x, p2.x@) {
        // The scan stops here.  Either this is the bracketing segment
        // itself, or `x` sits exactly on the shared endpoint of the previous
        // segment.
        assert(!q_eq(p1.x@, p2.x@)) by {
            assert(q_lt(data[j].x@, data[j + 1].x@));
        }
        if j == i {
            lemma_seg_value_wf(p1, p2, x);
        } else {
            // j < i, and x <= x(j+1) <= x(i) <= x, so x == x(j+1) == x(i),
            // which forces j + 1 == i.
            assert(q_le(p2.x@, data[i].x@)) by {
                if j + 1 < i {
                    assert(q_lt(data[j + 1].x@, data[i].x@));
                }
            }
            lemma_q_le_trans(p2.x@, data[i].x@, x);
            assert(q_le(p2.x@, x));
            assert(q_eq(x, p2.x@));
            assert(j + 1 == i) by {
                if j + 1 < i {
                    assert(q_lt(data[j + 1].x@, data[i].x@));
                    lemma_q_le_trans(data[i].x@, x, p2.x@);
                }
            }
            // Both the found segment and the target segment pass through
            // data[i] at this x.
            lemma_seg_value_congr(p1, p2, x, p2.x@);
            lemma_seg_at_right(p1, p2);
            lemma_seg_value_wf(p1, p2, p2.x@);
            lemma_seg_value_wf(p1, p2, x);
            lemma_q_eq_trans(seg_value(p1, p2, x), seg_value(p1, p2, p2.x@), p2.y@);
            assert(!q_eq(data[i].x@, data[i + 1].x@)) by {
                assert(q_lt(data[i].x@, data[i + 1].x@));
            }
            lemma_seg_value_congr(data[i], data[i + 1], x, data[i].x@);
            lemma_seg_at_left(data[i], data[i + 1]);
            lemma_seg_value_wf(data[i], data[i + 1], data[i].x@);
            lemma_q_eq_trans(
                seg_value(data[i], data[i + 1], x),
                seg_value(data[i], data[i + 1], data[i].x@),
                data[i].y@,
            );
            lemma_q_eq_trans(seg_value(p1, p2, x), p2.y@, seg_value(data[i], data[i + 1], x));
        }
    } else {
        lemma_scan_linear(data, x, i, j + 1);
    }
}

/// Interpolation is linear between samples: inside the bracketing segment
/// the curve value is the segment's linear value (P2); at the segment's
/// endpoints that value is the sample value itself.
pub proof fn lemma_value_at_linear(data: Seq<MaintenanceDataPoint>, i: int, x: Q)
    requires
        points_wf(data),
        strictly_increasing(data),
        q_wf(x),
        0 <= i < data.len() - 1,
        q_le(data[i].x@, x),
        q_le(x, data[i + 1].x@),
    ensures
        q_eq(value_at(data, x), seg_value(data[i], data[i + 1], x)),
        q_wf(value_at(data, x)),
{
    let p0 = data[0];
    let pl = data[data.len() - 1];
    assert(data[0].wf() && data[data.len() - 1].wf() && data[i].wf() && data[i + 1].wf());
    assert(!q_eq(data[i].x@, data[i + 1].x@)) by {
        assert(q_lt(data[i].x@, data[i + 1].x@));
    }
    if q_le(x, p0.x@) {
        // Then x0 <= x(i) <= x <= x0, so x == x(i) == x0 and i == 0.
        assert(q_le(p0.x@, data[i].x@)) by {
            if 0 < i {
                assert(q_lt(data[0].x@, data[i].x@));
            }
        }
        lemma_q_le_trans(p0.x@, data[i].x@, x);
        assert(q_eq(x, p0.x@));
        assert(i == 0) by {
            if 0 < i {
                assert(q_lt(data[0].x@, data[i].x@));
                lemma_q_le_trans(data[i].x@, x, p0.x@);
            }
        }
        lemma_seg_value_congr(data[0], data[1], x, p0.x@);
        lemma_seg_at_left(data[0], data[1]);
        lemma_seg_value_wf(data[0], data[1], p0.x@);
        lemma_q_eq_trans(seg_value(data[0], data[1], x), seg_value(data[0], data[1], p0.x@),
            p0.y@);
        if q_eq(p0.x@, q_zero()) {
            assert(value_at(data, x) == p0.y@);
            assert(q_wf(value_at(data, x)));
            lemma_q_eq_trans(value_at(data, x), p0.y@, seg_value(data[0], data[1], x));
        } else {
            lemma_q_mul_congr(q_div(p0.y@, p0.x@), q_div(p0.y@, p0.x@), x, p0.x@);
            lemma_ray_at_anchor(p0);
            crate::rational::lemma_q_zero_sign(p0.x@);
            lemma_q_ops_wf(p0.y@, p0.x@);
            lemma_q_ops_wf(q_div(p0.y@, p0.x@), p0.x@);
            lemma_q_eq_trans(
                q_mul(q_div(p0.y@, p0.x@), x),
                q_mul(q_div(p0.y@, p0.x@), p0.x@),
                p0.y@,
            );
            lemma_q_eq_trans(value_at(data, x), p0.y@, seg_value(data[0], data[1], x));
            lemma_q_ops_wf(q_div(p0.y@, p0.x@), x);
            assert(value_at(data, x) == q_mul(q_div(p0.y@, p0.x@), x));
            assert(q_wf(value_at(data, x)));
        }
    } else if q_le(pl.x@, x) {
        // Then x <= x(i+1) <= x(last) <= x, so x == x(i+1) == x(last) and
        // i + 1 == len - 1; the last-segment line passes through data[i+1].
        assert(q_le(data[i + 1].x@, pl.x@)) by {
            if i + 1 < data.len() - 1 {
                assert(q_lt(data[i + 1].x@, data[data.len() - 1].x@));
            }
        }
        lemma_q_le_trans(x, data[i + 1].x@, pl.x@);
        assert(q_eq(x, pl.x@));
        assert(i + 1 == data.len() - 1) by {
            if i + 1 < data.len() - 1 {
                assert(q_lt(data[i + 1].x@, data[data.len() - 1].x@));
                lemma_q_le_trans(pl.x@, x, data[i + 1].x@);
            }
        }
        let p1 = data[data.len() - 2];
        assert(data[data.len() - 2].wf());
        assert(p1 == data[i] && pl == data[i + 1]);
        lemma_line_at_anchor(p1, pl, x);
        lemma_seg_value_congr(data[i], data[i + 1], x, data[i + 1].x@);
        lemma_seg_at_right(data[i], data[i + 1]);
        lemma_seg_value_wf(data[i], data[i + 1], data[i + 1].x@);
        lemma_q_eq_trans(
            seg_value(data[i], data[i + 1], x),
            seg_value(data[i], data[i + 1], data[i + 1].x@),
            data[i + 1].y@,
        );
        lemma_q_eq_trans(value_at(data, x), pl.y@, seg_value(data[i], data[i + 1], x));
        assert(q_wf(value_at(data, x))) by {
            lemma_q_ops_wf(pl.y@, p1.y@);
            lemma_q_ops_wf(pl.x@, p1.x@);
            assert(q_sub(pl.x@, p1.x@).n != 0) by {
                assert(q_lt(data[i].x@, data[i + 1].x@));
            }
            lemma_q_ops_wf(q_sub(pl.y@, p1.y@), q_sub(pl.x@, p1.x@));
            lemma_q_ops_wf(x, pl.x@);
            lemma_q_ops_wf(
                q_div(q_sub(pl.y@, p1.y@), q_sub(pl.x@, p1.x@)),
                q_sub(x, pl.x@),
            );
            lemma_q_ops_wf(
                pl.y@,
                q_mul(q_div(q_sub(pl.y@, p1.y@), q_sub(pl.x@, p1.x@)), q_sub(x, pl.x@)),
            );
        }
    } else {
        lemma_scan_linear(data, x, i, 0);
        lemma_seg_value_wf(data[i], data[i + 1], x);
    }
}

/// Interpolation is exact at sample points (P1): the curve value at a
/// sample's position is the sample's value.
pub proof fn lemma_value_at_sample(data: Seq<MaintenanceDataPoint>, i: int)
    requires
        points_wf(data),
        strictly_increasing(data),
        0 <= i < data.len(),
    ensures
        q_eq(value_at(data, data[i].x@), data[i].y@),
{
    let x = data[i].x@;
    assert(data[i].wf());
    if i < data.len() - 1 {
        assert(q_lt(data[i].x@, data[i + 1].x@));
        assert(data[i + 1].wf());
        lemma_value_at_linear(data, i, x);
        assert(!q_eq(data[i].x@, data[i + 1].x@));
        lemma_seg_at_left(data[i], data[i + 1]);
        lemma_seg_value_wf(data[i], data[i + 1], x);
        lemma_q_eq_trans(value_at(data, x), seg_value(data[i], data[i + 1], x), data[i].y@);
    } else {
        let p0 = data[0];
        assert(data[0].wf());
        if q_le(x, p0.x@) {
            // With strictly increasing positions this forces i == 0.
            assert(i == 0) by {
                if 0 < i {
                    assert(q_lt(data[0].x@, data[i].x@));
                }
            }
            if q_eq(p0.x@, q_zero()) {
            } else {
                lemma_ray_at_anchor(p0);
            }
        } else {
            // i is the last sample and x is its position.
            assert(q_le(data[data.len() - 1].x@, x));
            if data.len() == 1 {
            } else {
                let p1 = data[data.len() - 2];
                assert(data[data.len() - 2].wf());
                lemma_line_at_anchor(p1, data[i], x);
            }
        }
    }
}

/// Extrapolation continues the trend (P4): beyond the last sample of a curve
/// whose last segment rises, the value strictly exceeds the last sample's
/// value.
pub proof fn lemma_value_at_beyond(data: Seq<MaintenanceDataPoint>, x: Q)
    requires
        points_wf(data),
        strictly_increasing(data),
        data.len() >= 2,
        q_wf(x),
        q_lt(data[data.len() - 1].x@, x),
        q_lt(data[data.len() - 2].y@, data[data.len() - 1].y@),
    ensures
        q_lt(data[data.len() - 1].y@, value_at(data, x)),
{
    let p1 = data[data.len() - 2];
    let p2 = data[data.len() - 1];
    assert(data[0].wf() && data[data.len() - 2].wf() && data[data.len() - 1].wf());
    assert(!q_le(x, data[0].x@)) by {
        assert(q_le(data[0].x@, p2.x@)) by {
            if 0 < data.len() - 1 {
                assert(q_lt(data[0].x@, data[data.len() - 1].x@));
            }
        }
        lemma_q_le_trans(data[0].x@, p2.x@, x);
    }
    assert(q_le(p2.x@, x));
    let dy = q_sub(p2.y@, p1.y@);
    let dx = q_sub(p2.x@, p1.x@);
    let run = q_sub(x, p2.x@);
    assert(q_lt(p1.x@, p2.x@));
    assert(dy.n >= 1 && dx.n >= 1 && run.n >= 1);
    lemma_q_ops_wf(p2.y@, p1.y@);
    lemma_q_ops_wf(p2.x@, p1.x@);
    lemma_q_ops_wf(x, p2.x@);
    let slope = q_div(dy, dx);
    assert(slope.n >= 1 && slope.d >= 1) by (nonlinear_arith)
        requires
            slope.n == dy.n * dx.d,
            slope.d == dy.d * dx.n,
            dy.n >= 1,
            dx.n >= 1,
            dy.d >= 1,
            dx.d >= 1;
    let t = q_mul(slope, run);
    assert(t.n >= 1 && t.d >= 1) by (nonlinear_arith)
        requires
            t.n == slope.n * run.n,
            t.d == slope.d * run.d,
            slope.n >= 1,
            slope.d >= 1,
            run.n >= 1,
            run.d >= 1;
    lemma_add_pos(p2.y@, t);
}

/// Incremental cost is never negative, and is exactly zero on an empty curve
/// or a non-increasing range (P5).
pub proof fn lemma_incr_cost_nonneg(data: Seq<MaintenanceDataPoint>, s: Q, e: Q)
    ensures
        q_le(q_zero(), incr_cost(data, s, e)),
        (data.len() == 0 || q_le(e, s)) ==> incr_cost(data, s, e) == q_zero(),
{
    lemma_q_zero_sign(incr_cost(data, s, e));
    if data.len() == 0 || q_le(e, s) {
    } else {
        let d = q_sub(value_at(data, e), value_at(data, s));
        lemma_q_zero_sign(d);
    }
}

/// The composer is a pure function of its inputs (P10): two results that
/// both satisfy its exact contract on the same inputs are identical,
/// representation and all.
pub proof fn lemma_compute_deterministic(
    car: Car,
    s: SharedSettings,
    m: Map<Seq<char>, MaintenanceCostData>,
    r1: Option<ComputedCarData>,
    r2: Option<ComputedCarData>,
)
    requires
        r1 == compute_spec(car, s, m),
        r2 == compute_spec(car, s, m),
    ensures
        r1 == r2,
{
}

} // verus!
