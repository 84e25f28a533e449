//! Piecewise-linear cumulative cost curves.
//!
//! A curve is an ordered sequence of samples `(x, y)`: cumulative spend `y`
//! from the origin up to position `x`.  [`value_at`] gives the exact
//! mathematical value of the curve at an arbitrary position: linear
//! interpolation between bracketing samples, a ray through the origin before
//! the first sample, and the extension of the last segment beyond the last
//! sample.  The executable [`interpolate_cost`] returns exactly
//! [`value_at_r`]: the reduced representative of that value, or `None` when a
//! step of the computation has no representable or well-defined result.

use vstd::prelude::*;

use crate::rational::{
    lemma_q_add_congr, lemma_q_div_congr, lemma_q_eq_trans, lemma_q_le_congr, lemma_q_mul_congr,
    lemma_q_ops_wf, lemma_q_sign, lemma_q_sub_congr, nadd, ndiv, nmul, nsub, q_add, q_div, q_eq,
    q_le, q_mul, q_sub, q_wf, q_zero, Q, Rat,
};

verus! {

/// One sample of a cumulative cost curve: cumulative cost `y` at position
/// `x` (tens of thousands of distance units, or years).
#[derive(Clone, Copy, Debug, PartialEq, Eq, Structural)]
pub struct MaintenanceDataPoint {
    pub x: Rat,
    pub y: Rat,
}

impl MaintenanceDataPoint {
    /// Both coordinates keep positive denominators.
    pub open spec fn wf(self) -> bool {
        self.x.wf() && self.y.wf()
    }
}

/// Every sample of the curve is well formed.
pub open spec fn points_wf(data: Seq<MaintenanceDataPoint>) -> bool {
    forall|i: int| 0 <= i < data.len() ==> #[trigger] data[i].wf()
}

/// The exact value of the curve at `x`, scanning for the first bracketing
/// pair `(data[i], data[i + 1])` from sample `i` on.
pub open spec fn scan_at(data: Seq<MaintenanceDataPoint>, x: Q, i: int) -> Q
    decreases data.len() - i,
{
    if i < 0 || i + 1 >= data.len() {
        q_zero()
    } else if q_le(data[i].x@, x) && q_le(x, data[i + 1].x@) {
        let p1 = data[i];
        let p2 = data[i + 1];
        if q_eq(p1.x@, p2.x@) {
            p1.y@
        } else {
            q_add(p1.y@, q_mul(q_div(q_sub(x, p1.x@), q_sub(p2.x@, p1.x@)), q_sub(p2.y@, p1.y@)))
        }
    } else {
        scan_at(data, x, i + 1)
    }
}

/// The exact value of the curve at `x`.
///
/// An empty curve is worth `0` everywhere.  At or before the first sample the
/// curve is the ray from the origin through that sample (or the sample's own
/// value when it sits at the origin).  At or after the last sample the curve
/// extends the line through the last two samples (the origin ray again when
/// there is a single sample).  Otherwise the first bracketing pair of samples
/// interpolates linearly.
pub open spec fn value_at(data: Seq<MaintenanceDataPoint>, x: Q) -> Q {
    if data.len() == 0 {
        q_zero()
    } else if q_le(x, data[0].x@) {
        if q_eq(data[0].x@, q_zero()) {
            data[0].y@
        } else {
            q_mul(q_div(data[0].y@, data[0].x@), x)
        }
    } else if q_le(data[data.len() - 1].x@, x) {
        if data.len() == 1 {
            q_mul(q_div(data[0].y@, data[0].x@), x)
        } else {
            let p1 = data[data.len() - 2];
            let p2 = data[data.len() - 1];
            q_add(p2.y@, q_mul(q_div(q_sub(p2.y@, p1.y@), q_sub(p2.x@, p1.x@)), q_sub(x, p2.x@)))
        }
    } else {
        scan_at(data, x, 0)
    }
}

/// The exact incremental cost of the curve over `[s, e]`: zero for an empty
/// curve or a non-increasing range, and otherwise the rise of the curve over
/// the range, clamped to zero from below.
pub open spec fn incr_cost(data: Seq<MaintenanceDataPoint>, s: Q, e: Q) -> Q {
    if data.len() == 0 || q_le(e, s) {
        q_zero()
    } else {
        let d = q_sub(value_at(data, e), value_at(data, s));
        if q_le(d, q_zero()) {
            q_zero()
        } else {
            d
        }
    }
}

/// The incremental cost depends only on the values of its bounds; its own
/// denominator is positive whenever the curve values it reads are well
/// formed.
pub proof fn lemma_incr_cost_congr(data: Seq<MaintenanceDataPoint>, s: Q, e: Q, s2: Q, e2: Q)
    requires
        points_wf(data),
        q_wf(s),
        q_wf(e),
        q_wf(s2),
        q_wf(e2),
        q_eq(s, s2),
        q_eq(e, e2),
        (data.len() != 0 && !q_le(e, s)) ==> q_wf(value_at(data, s)) && q_wf(value_at(data, e)),
    ensures
        q_eq(incr_cost(data, s, e), incr_cost(data, s2, e2)),
        q_wf(incr_cost(data, s, e)),
        q_wf(incr_cost(data, s2, e2)),
{
    lemma_q_le_congr(e, e2, s, s2);
    if data.len() == 0 || q_le(e, s) {
    } else {
        lemma_value_at_congr(data, s, s2);
        lemma_value_at_congr(data, e, e2);
        let vs = value_at(data, s);
        let ve = value_at(data, e);
        let vs2 = value_at(data, s2);
        let ve2 = value_at(data, e2);
        lemma_q_sub_congr(ve, ve2, vs, vs2);
        lemma_q_ops_wf(ve, vs);
        lemma_q_ops_wf(ve2, vs2);
        lemma_q_sign(q_sub(ve, vs), q_sub(ve2, vs2));
        crate::rational::lemma_q_zero_sign(q_sub(ve, vs));
        crate::rational::lemma_q_zero_sign(q_sub(ve2, vs2));
    }
}

/// What the executable code returns for the origin ray at `x`.
pub open spec fn ray_r(p: MaintenanceDataPoint, x: Rat) -> Option<Rat> {
    match ndiv(p.y, p.x) {
        Some(t) => nmul(t, x),
        None => None,
    }
}

/// What the executable code returns for the extension of the line through
/// `p1` and `p2` at `x`.
pub open spec fn line_r(p1: MaintenanceDataPoint, p2: MaintenanceDataPoint, x: Rat) -> Option<
    Rat,
> {
    match nsub(p2.y, p1.y) {
        None => None,
        Some(dy) => match nsub(p2.x, p1.x) {
            None => None,
            Some(dx) => if dx.num == 0 {
                None
            } else {
                match ndiv(dy, dx) {
                    None => None,
                    Some(slope) => match nsub(x, p2.x) {
                        None => None,
                        Some(run) => match nmul(slope, run) {
                            None => None,
                            Some(t) => nadd(p2.y, t),
                        },
                    },
                }
            },
        },
    }
}

/// What the executable code returns for interpolation between `p1` and `p2`
/// at `x`.
pub open spec fn interp_r(p1: MaintenanceDataPoint, p2: MaintenanceDataPoint, x: Rat) -> Option<
    Rat,
> {
    match nsub(x, p1.x) {
        None => None,
        Some(run) => match nsub(p2.x, p1.x) {
            None => None,
            Some(dx) => match ndiv(run, dx) {
                None => None,
                Some(ratio) => match nsub(p2.y, p1.y) {
                    None => None,
                    Some(dy) => match nmul(ratio, dy) {
                        None => None,
                        Some(t) => nadd(p1.y, t),
                    },
                },
            },
        },
    }
}

/// What the executable bracketing scan returns from sample `i` on.
pub open spec fn scan_r(data: Seq<MaintenanceDataPoint>, x: Rat, i: int) -> Option<Rat>
    decreases data.len() - i,
{
    if i < 0 || i + 1 >= data.len() {
        Some(Rat { num: 0, den: 1 })
    } else if q_le(data[i].x@, x@) && q_le(x@, data[i + 1].x@) {
        if q_eq(data[i].x@, data[i + 1].x@) {
            Some(data[i].y)
        } else {
            interp_r(data[i], data[i + 1], x)
        }
    } else {
        scan_r(data, x, i + 1)
    }
}

/// What the executable interpolation returns: the reduced representative of
/// [`value_at`], or `None` when a step of the computation has no
/// representable result or would divide by a zero-width span.
pub open spec fn value_at_r(data: Seq<MaintenanceDataPoint>, x: Rat) -> Option<Rat> {
    if data.len() == 0 {
        Some(Rat { num: 0, den: 1 })
    } else if q_le(x@, data[0].x@) {
        if data[0].x.num == 0 {
            Some(data[0].y)
        } else {
            ray_r(data[0], x)
        }
    } else if q_le(data[data.len() - 1].x@, x@) {
        if data.len() == 1 {
            if data[0].x.num == 0 {
                None
            } else {
                ray_r(data[0], x)
            }
        } else {
            line_r(data[data.len() - 2], data[data.len() - 1], x)
        }
    } else {
        scan_r(data, x, 0)
    }
}

/// A five-factor regrouping of a product.
proof fn lemma_ring5(a: int, b: int, c: int, d: int, e: int) by (nonlinear_arith)
    ensures
        a * (((b * c) * d) * e) == (a * c * d * e) * b,
{
}

/// A positive product stays positive when one well-formed factor is
/// replaced by another.
proof fn lemma_wf_factor_swap(t: int, a: int, b: int) by (nonlinear_arith)
    requires
        a >= 1,
        b >= 1,
        t * a >= 1,
    ensures
        t * b >= 1,
{
}

/// The scan value depends only on the value of `x`, not its representation.
proof fn lemma_scan_at_congr(data: Seq<MaintenanceDataPoint>, x: Q, x2: Q, i: int)
    requires
        points_wf(data),
        q_wf(x),
        q_wf(x2),
        q_eq(x, x2),
    ensures
        q_eq(scan_at(data, x, i), scan_at(data, x2, i)),
        q_wf(scan_at(data, x, i)) ==> q_wf(scan_at(data, x2, i)),
    decreases data.len() - i,
{
    if i < 0 || i + 1 >= data.len() {
    } else {
        let p1 = data[i];
        let p2 = data[i + 1];
        assert(data[i].wf() && data[i + 1].wf());
        lemma_q_le_congr(p1.x@, p1.x@, x, x2);
        lemma_q_le_congr(x, x2, p2.x@, p2.x@);
        if q_le(p1.x@, x) && q_le(x, p2.x@) {
            if q_eq(p1.x@, p2.x@) {
            } else {
                lemma_q_ops_wf(p2.x@, p1.x@);
                assert(q_sub(p2.x@, p1.x@).n != 0);
                let dxn = q_sub(p2.x@, p1.x@).n;
                let w: int = if dxn >= 0 {
                    dxn
                } else {
                    -dxn
                };
                let t = p1.y.den as int * p1.x.den as int * w * (p2.y.den as int * p1.y.den as int);
                let v1 = scan_at(data, x, i);
                let v2 = scan_at(data, x2, i);
                let k = p2.y.den as int * p1.y.den as int;
                let ratio1 = q_div(q_sub(x, p1.x@), q_sub(p2.x@, p1.x@));
                let ratio2 = q_div(q_sub(x2, p1.x@), q_sub(p2.x@, p1.x@));
                if dxn >= 0 {
                    assert(ratio1.d == (x.d * p1.x.den as int) * w);
                    assert(ratio2.d == (x2.d * p1.x.den as int) * w);
                } else {
                    assert(-((x.d * p1.x.den as int) * dxn) == (x.d * p1.x.den as int) * (-dxn))
                        by (nonlinear_arith);
                    assert(-((x2.d * p1.x.den as int) * dxn) == (x2.d * p1.x.den as int) * (-dxn))
                        by (nonlinear_arith);
                    assert(ratio1.d == (x.d * p1.x.den as int) * w);
                    assert(ratio2.d == (x2.d * p1.x.den as int) * w);
                }
                assert(v1.d == p1.y.den as int * (((x.d * p1.x.den as int) * w) * k));
                assert(v2.d == p1.y.den as int * (((x2.d * p1.x.den as int) * w) * k));
                lemma_ring5(p1.y.den as int, x.d, p1.x.den as int, w, k);
                lemma_ring5(p1.y.den as int, x2.d, p1.x.den as int, w, k);
                assert(v1.d == t * x.d && v2.d == t * x2.d);
                if q_wf(v1) {
                    lemma_wf_factor_swap(t, x.d, x2.d);
                }
                lemma_q_sub_congr(x, x2, p1.x@, p1.x@);
                lemma_q_div_congr(q_sub(x, p1.x@), q_sub(x2, p1.x@), q_sub(p2.x@, p1.x@), q_sub(
                    p2.x@,
                    p1.x@,
                ));
                lemma_q_mul_congr(
                    q_div(q_sub(x, p1.x@), q_sub(p2.x@, p1.x@)),
                    q_div(q_sub(x2, p1.x@), q_sub(p2.x@, p1.x@)),
                    q_sub(p2.y@, p1.y@),
                    q_sub(p2.y@, p1.y@),
                );
                lemma_q_add_congr(
                    p1.y@,
                    p1.y@,
                    q_mul(q_div(q_sub(x, p1.x@), q_sub(p2.x@, p1.x@)), q_sub(p2.y@, p1.y@)),
                    q_mul(q_div(q_sub(x2, p1.x@), q_sub(p2.x@, p1.x@)), q_sub(p2.y@, p1.y@)),
                );
            }
        } else {
            lemma_scan_at_congr(data, x, x2, i + 1);
        }
    }
}

/// The curve value depends only on the value of `x`, not its representation.
pub proof fn lemma_value_at_congr(data: Seq<MaintenanceDataPoint>, x: Q, x2: Q)
    requires
        points_wf(data),
        q_wf(x),
        q_wf(x2),
        q_eq(x, x2),
    ensures
        q_eq(value_at(data, x), value_at(data, x2)),
        q_wf(value_at(data, x)) ==> q_wf(value_at(data, x2)),
{
    if data.len() == 0 {
    } else {
        let p0 = data[0];
        let pl = data[data.len() - 1];
        assert(data[0].wf() && data[data.len() - 1].wf());
        lemma_q_le_congr(x, x2, p0.x@, p0.x@);
        lemma_q_le_congr(pl.x@, pl.x@, x, x2);
        if q_le(x, p0.x@) {
            if q_eq(p0.x@, q_zero()) {
            } else {
                lemma_q_mul_congr(q_div(p0.y@, p0.x@), q_div(p0.y@, p0.x@), x, x2);
                if q_wf(value_at(data, x)) {
                    lemma_wf_factor_swap(q_div(p0.y@, p0.x@).d, x.d, x2.d);
                }
            }
        } else if q_le(pl.x@, x) {
            if data.len() == 1 {
                lemma_q_mul_congr(q_div(p0.y@, p0.x@), q_div(p0.y@, p0.x@), x, x2);
                if q_wf(value_at(data, x)) {
                    lemma_wf_factor_swap(q_div(p0.y@, p0.x@).d, x.d, x2.d);
                }
            } else {
                let p1 = data[data.len() - 2];
                assert(data[data.len() - 2].wf());
                let sl = q_div(q_sub(pl.y@, p1.y@), q_sub(pl.x@, p1.x@));
                let t = pl.y.den as int * (sl.d * pl.x.den as int);
                assert(q_wf(value_at(data, x)) ==> q_wf(value_at(data, x2))) by {
                    let v1 = value_at(data, x);
                    let v2 = value_at(data, x2);
                    assert(v1.d == t * x.d && v2.d == t * x2.d) by (nonlinear_arith)
                        requires
                            v1.d == pl.y.den as int * (sl.d * (x.d * pl.x.den as int)),
                            v2.d == pl.y.den as int * (sl.d * (x2.d * pl.x.den as int)),
                            t == pl.y.den as int * (sl.d * pl.x.den as int);
                    if q_wf(v1) {
                        lemma_wf_factor_swap(t, x.d, x2.d);
                    }
                }
                lemma_q_sub_congr(x, x2, pl.x@, pl.x@);
                lemma_q_mul_congr(
                    q_div(q_sub(pl.y@, p1.y@), q_sub(pl.x@, p1.x@)),
                    q_div(q_sub(pl.y@, p1.y@), q_sub(pl.x@, p1.x@)),
                    q_sub(x, pl.x@),
                    q_sub(x2, pl.x@),
                );
                lemma_q_add_congr(
                    pl.y@,
                    pl.y@,
                    q_mul(q_div(q_sub(pl.y@, p1.y@), q_sub(pl.x@, p1.x@)), q_sub(x, pl.x@)),
                    q_mul(q_div(q_sub(pl.y@, p1.y@), q_sub(pl.x@, p1.x@)), q_sub(x2, pl.x@)),
                );
            }
        } else {
            lemma_scan_at_congr(data, x, x2, 0);
        }
    }
}

/// Interpolate the cumulative cost at `x` from an ordered series of samples.
///
/// Returns the exact value of the curve at `x`, reduced; `None` when a step
/// has no representable result or the bracketing span has zero width while
/// the curve demands a ray through it.
#[verifier::loop_isolation(false)]
pub fn interpolate_cost(data: &Vec<MaintenanceDataPoint>, x: Rat) -> (r: Option<Rat>)
    requires
        points_wf(data@),
        x.wf(),
    ensures
        r == value_at_r(data@, x),
        r matches Some(v) ==> v.wf() && q_eq(v@, value_at(data@, x@)) && q_wf(value_at(data@, x@)),
{
    if data.len() == 0 {
        return Some(Rat::zero());
    }
    let first = data[0];
    proof {
        assert(data@[0].wf());
    }
    if x.le(first.x) {
        if first.x.num == 0 {
            proof {
                assert(first == data@[0]);
                crate::rational::lemma_q_zero_sign(first.x@);
                assert(q_le(x@, data@[0].x@));
                assert(q_eq(data@[0].x@, q_zero()));
                assert(data@.len() != 0);
                assert(value_at(data@, x@) == data@[0].y@);
            }
            return Some(first.y);
        }
        proof {
            lemma_q_ops_wf(first.y@, first.x@);
        }
        let t = match first.y.div(first.x) {
            Some(t) => t,
            None => {
                return None;
            },
        };
        let r = t.mul(x);
        proof {
            if r is Some {
                lemma_q_mul_congr(t@, q_div(first.y@, first.x@), x@, x@);
                lemma_q_ops_wf(t@, x@);
                lemma_q_eq_trans(r->Some_0@, q_mul(t@, x@), q_mul(q_div(first.y@, first.x@), x@));
                assert(first == data@[0]);
                crate::rational::lemma_q_zero_sign(first.x@);
                assert(!q_eq(data@[0].x@, q_zero()));
                lemma_q_ops_wf(q_div(first.y@, first.x@), x@);
                assert(value_at(data@, x@) == q_mul(q_div(data@[0].y@, data@[0].x@), x@));
                assert(q_eq(r->Some_0@, value_at(data@, x@)));
            }
        }
        return r;
    }
    let last = data[data.len() - 1];
    proof {
        assert(data@[data@.len() - 1].wf());
    }
    if last.x.le(x) {
        if data.len() == 1 {
            if first.x.num == 0 {
                return None;
            }
            proof {
                lemma_q_ops_wf(first.y@, first.x@);
            }
            let t = match first.y.div(first.x) {
                Some(t) => t,
                None => {
                    return None;
                },
            };
            let r = t.mul(x);
            proof {
                if r is Some {
                    lemma_q_mul_congr(t@, q_div(first.y@, first.x@), x@, x@);
                    lemma_q_ops_wf(t@, x@);
                    lemma_q_eq_trans(
                        r->Some_0@,
                        q_mul(t@, x@),
                        q_mul(q_div(first.y@, first.x@), x@),
                    );
                    assert(first == data@[0] && last == data@[data@.len() - 1]);
                    crate::rational::lemma_q_zero_sign(first.x@);
                    lemma_q_ops_wf(q_div(first.y@, first.x@), x@);
                    assert(data@.len() == 1);
                    assert(!q_le(x@, data@[0].x@) && q_le(data@[data@.len() - 1].x@, x@));
                    assert(value_at(data@, x@) == q_mul(q_div(data@[0].y@, data@[0].x@), x@));
                    assert(q_eq(r->Some_0@, value_at(data@, x@)));
                }
            }
            return r;
        }
        let p1 = data[data.len() - 2];
        let p2 = last;
        proof {
            assert(data@[data@.len() - 2].wf());
        }
        let dy = match p2.y.sub(p1.y) {
            Some(v) => v,
            None => {
                return None;
            },
        };
        let dx = match p2.x.sub(p1.x) {
            Some(v) => v,
            None => {
                return None;
            },
        };
        if dx.num == 0 {
            return None;
        }
        proof {
            lemma_q_ops_wf(p2.x@, p1.x@);
            lemma_q_sign(dx@, q_sub(p2.x@, p1.x@));
            lemma_q_ops_wf(p2.y@, p1.y@);
        }
        let slope = match dy.div(dx) {
            Some(v) => v,
            None => {
                return None;
            },
        };
        let run = match x.sub(p2.x) {
            Some(v) => v,
            None => {
                return None;
            },
        };
        let t = match slope.mul(run) {
            Some(v) => v,
            None => {
                return None;
            },
        };
        let r = p2.y.add(t);
        proof {
            if r is Some {
                let sl = q_div(q_sub(p2.y@, p1.y@), q_sub(p2.x@, p1.x@));
                let rn = q_sub(x@, p2.x@);
                lemma_q_div_congr(dy@, q_sub(p2.y@, p1.y@), dx@, q_sub(p2.x@, p1.x@));
                lemma_q_ops_wf(dy@, dx@);
                lemma_q_eq_trans(slope@, q_div(dy@, dx@), sl);
                lemma_q_ops_wf(x@, p2.x@);
                lemma_q_mul_congr(slope@, sl, run@, rn);
                lemma_q_ops_wf(slope@, run@);
                lemma_q_eq_trans(t@, q_mul(slope@, run@), q_mul(sl, rn));
                lemma_q_add_congr(p2.y@, p2.y@, t@, q_mul(sl, rn));
                lemma_q_ops_wf(p2.y@, t@);
                lemma_q_eq_trans(r->Some_0@, q_add(p2.y@, t@), q_add(p2.y@, q_mul(sl, rn)));
                assert(q_eq(r->Some_0@, value_at(data@, x@)));
                lemma_q_ops_wf(q_sub(p2.y@, p1.y@), q_sub(p2.x@, p1.x@));
                lemma_q_ops_wf(sl, rn);
                lemma_q_ops_wf(p2.y@, q_mul(sl, rn));
                assert(q_wf(value_at(data@, x@)));
            }
        }
        return r;
    }
    let mut i: usize = 0;
    while i + 1 < data.len()
        invariant
            0 <= i,
            i + 1 <= data.len(),
            scan_at(data@, x@, 0) == scan_at(data@, x@, i as int),
            scan_r(data@, x, 0) == scan_r(data@, x, i as int),
        decreases data.len() - i,
    {
        proof {
            assert(data@[i as int].wf() && data@[i as int + 1].wf());
        }
        if data[i].x.le(x) && x.le(data[i + 1].x) {
            let p1 = data[i];
            let p2 = data[i + 1];
            if p1.x.eq_val(p2.x) {
                return Some(p1.y);
            }
            let run = match x.sub(p1.x) {
                Some(v) => v,
                None => {
                    return None;
                },
            };
            let dx = match p2.x.sub(p1.x) {
                Some(v) => v,
                None => {
                    return None;
                },
            };
            proof {
                lemma_q_ops_wf(p2.x@, p1.x@);
                lemma_q_sign(dx@, q_sub(p2.x@, p1.x@));
            }
            let ratio = match run.div(dx) {
                Some(v) => v,
                None => {
                    return None;
                },
            };
            let dy = match p2.y.sub(p1.y) {
                Some(v) => v,
                None => {
                    return None;
                },
            };
            let t = match ratio.mul(dy) {
                Some(v) => v,
                None => {
                    return None;
                },
            };
            let r = p1.y.add(t);
            proof {
                if r is Some {
                    let rt = q_div(q_sub(x@, p1.x@), q_sub(p2.x@, p1.x@));
                    lemma_q_ops_wf(x@, p1.x@);
                    lemma_q_div_congr(run@, q_sub(x@, p1.x@), dx@, q_sub(p2.x@, p1.x@));
                    lemma_q_ops_wf(run@, dx@);
                    lemma_q_eq_trans(ratio@, q_div(run@, dx@), rt);
                    lemma_q_ops_wf(p2.y@, p1.y@);
                    lemma_q_mul_congr(ratio@, rt, dy@, q_sub(p2.y@, p1.y@));
                    lemma_q_ops_wf(ratio@, dy@);
                    lemma_q_eq_trans(t@, q_mul(ratio@, dy@), q_mul(rt, q_sub(p2.y@, p1.y@)));
                    lemma_q_add_congr(p1.y@, p1.y@, t@, q_mul(rt, q_sub(p2.y@, p1.y@)));
                    lemma_q_ops_wf(p1.y@, t@);
                    lemma_q_eq_trans(
                        r->Some_0@,
                        q_add(p1.y@, t@),
                        q_add(p1.y@, q_mul(rt, q_sub(p2.y@, p1.y@))),
                    );
                    assert(scan_at(data@, x@, i as int) == q_add(
                        p1.y@,
                        q_mul(rt, q_sub(p2.y@, p1.y@)),
                    ));
                    assert(q_eq(r->Some_0@, value_at(data@, x@)));
                    lemma_q_ops_wf(q_sub(x@, p1.x@), q_sub(p2.x@, p1.x@));
                    lemma_q_ops_wf(rt, q_sub(p2.y@, p1.y@));
                    lemma_q_ops_wf(p1.y@, q_mul(rt, q_sub(p2.y@, p1.y@)));
                    assert(q_wf(value_at(data@, x@)));
                }
            }
            return r;
        }
        i = i + 1;
    }
    Some(Rat::zero())
}

} // verus!
