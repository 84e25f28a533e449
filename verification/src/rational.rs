//! Exact rational arithmetic.
//!
//! The engine works over exact rationals instead of machine floats, so every
//! derived cost is an exact consequence of the inputs.  An executable value
//! is a [`Rat`]: a 64-bit numerator over a positive 64-bit denominator.  Its
//! mathematical meaning is the ghost pair [`Q`] of unbounded integers.
//!
//! Every arithmetic operation computes the exact result in 128-bit
//! intermediates, divides out the greatest common divisor, and returns the
//! reduced representative, or `None` when even the reduced value does not fit
//! in 64 bits.  The returned representation is pinned exactly by [`norm`], so
//! all operations are deterministic functions of their arguments.

use vstd::prelude::*;

verus! {

/// A mathematical rational: numerator `n` over denominator `d` (ghost only).
pub struct Q {
    pub n: int,
    pub d: int,
}

/// A well-formed `Q` keeps its denominator positive.
pub open spec fn q_wf(q: Q) -> bool {
    q.d >= 1
}

/// Equality of the represented values, by cross multiplication.
pub open spec fn q_eq(a: Q, b: Q) -> bool {
    a.n * b.d == b.n * a.d
}

/// `a <= b` on the represented values (for positive denominators).
pub open spec fn q_le(a: Q, b: Q) -> bool {
    a.n * b.d <= b.n * a.d
}

/// `a < b` on the represented values (for positive denominators).
pub open spec fn q_lt(a: Q, b: Q) -> bool {
    a.n * b.d < b.n * a.d
}

/// The rational `i / 1`.
pub open spec fn q_int(i: int) -> Q {
    Q { n: i, d: 1 }
}

/// The rational zero.
pub open spec fn q_zero() -> Q {
    q_int(0)
}

/// Exact sum.
pub open spec fn q_add(a: Q, b: Q) -> Q {
    Q { n: a.n * b.d + b.n * a.d, d: a.d * b.d }
}

/// Exact difference.
pub open spec fn q_sub(a: Q, b: Q) -> Q {
    Q { n: a.n * b.d - b.n * a.d, d: a.d * b.d }
}

/// Exact product.
pub open spec fn q_mul(a: Q, b: Q) -> Q {
    Q { n: a.n * b.n, d: a.d * b.d }
}

/// Exact quotient; the sign moves to the numerator so that a well-formed
/// divisor with a nonzero numerator yields a well-formed result.
pub open spec fn q_div(a: Q, b: Q) -> Q {
    if b.n >= 0 {
        Q { n: a.n * b.d, d: a.d * b.n }
    } else {
        Q { n: -(a.n * b.d), d: -(a.d * b.n) }
    }
}

/// Magnitude of an integer.
pub open spec fn int_abs(x: int) -> nat {
    if x >= 0 {
        x as nat
    } else {
        (-x) as nat
    }
}

/// Greatest common divisor, by Euclid's recurrence.
pub open spec fn gcd(a: nat, b: nat) -> nat
    decreases b,
{
    if b == 0 {
        a
    } else {
        gcd(b, a % b)
    }
}

/// `f` divides `x` exactly.
pub open spec fn divides(f: nat, x: nat) -> bool {
    exists|k: nat| x == #[trigger] (f * k)
}

/// The reduced representative of `q`: both components divided by their
/// greatest common divisor.
pub open spec fn canon(q: Q) -> Q {
    let g = gcd(int_abs(q.n), int_abs(q.d)) as int;
    if g == 0 {
        q
    } else {
        Q { n: q.n / g, d: q.d / g }
    }
}

/// Whether a reduced value fits the 64-bit representation.
pub open spec fn q_fits(q: Q) -> bool {
    -(i64::MAX as int) <= q.n <= i64::MAX as int && 1 <= q.d <= i64::MAX as int
}

/// An exact rational with a positive denominator, the executable
/// counterpart of [`Q`].
#[derive(Clone, Copy, Debug, PartialEq, Eq, Structural)]
pub struct Rat {
    pub num: i64,
    pub den: i64,
}

impl View for Rat {
    type V = Q;

    open spec fn view(&self) -> Q {
        Q { n: self.num as int, d: self.den as int }
    }
}

/// The `Rat` that represents a fitting reduced `Q`.
pub open spec fn rat_of(q: Q) -> Rat {
    Rat { num: q.n as i64, den: q.d as i64 }
}

/// What every arithmetic operation returns: the reduced representative when
/// it fits in 64 bits, and nothing otherwise.
pub open spec fn norm(q: Q) -> Option<Rat> {
    let c = canon(q);
    if q_fits(c) {
        Some(rat_of(c))
    } else {
        None
    }
}

/// What [`Rat::add`] returns.
pub open spec fn nadd(a: Rat, b: Rat) -> Option<Rat> {
    norm(q_add(a@, b@))
}

/// What [`Rat::sub`] returns.
pub open spec fn nsub(a: Rat, b: Rat) -> Option<Rat> {
    norm(q_sub(a@, b@))
}

/// What [`Rat::mul`] returns.
pub open spec fn nmul(a: Rat, b: Rat) -> Option<Rat> {
    norm(q_mul(a@, b@))
}

/// What [`Rat::div`] returns.
pub open spec fn ndiv(a: Rat, b: Rat) -> Option<Rat> {
    norm(q_div(a@, b@))
}

/// Comparisons against zero read only the numerator.
pub proof fn lemma_q_zero_sign(a: Q) by (nonlinear_arith)
    ensures
        q_eq(a, q_zero()) == (a.n == 0),
        q_eq(q_zero(), a) == (a.n == 0),
        q_le(a, q_zero()) == (a.n <= 0),
        q_le(q_zero(), a) == (a.n >= 0),
        q_lt(a, q_zero()) == (a.n < 0),
        q_lt(q_zero(), a) == (a.n > 0),
{
}

/// The order on well-formed rationals is transitive.
pub proof fn lemma_q_le_trans(a: Q, b: Q, c: Q)
    requires
        q_wf(a),
        q_wf(b),
        q_wf(c),
    ensures
        q_le(a, b) && q_le(b, c) ==> q_le(a, c),
        q_le(a, b) && q_lt(b, c) ==> q_lt(a, c),
        q_lt(a, b) && q_le(b, c) ==> q_lt(a, c),
{
    assert((q_le(a, b) && q_le(b, c) ==> q_le(a, c)) && (q_le(a, b) && q_lt(b, c) ==> q_lt(a, c))
        && (q_lt(a, b) && q_le(b, c) ==> q_lt(a, c))) by (nonlinear_arith)
        requires
            a.d >= 1,
            b.d >= 1,
            c.d >= 1;
}

/// The exact operations keep denominators positive.
pub proof fn lemma_q_ops_wf(a: Q, b: Q)
    requires
        q_wf(a),
        q_wf(b),
    ensures
        q_wf(q_add(a, b)),
        q_wf(q_sub(a, b)),
        q_wf(q_mul(a, b)),
        b.n != 0 ==> q_wf(q_div(a, b)),
{
    assert(a.d * b.d >= 1) by (nonlinear_arith)
        requires
            a.d >= 1,
            b.d >= 1;
    assert(b.n > 0 ==> a.d * b.n >= 1) by (nonlinear_arith)
        requires
            a.d >= 1;
    assert(b.n < 0 ==> -(a.d * b.n) >= 1) by (nonlinear_arith)
        requires
            a.d >= 1;
}

proof fn lemma_gcd_divides(a: nat, b: nat)
    ensures
        divides(gcd(a, b), a),
        divides(gcd(a, b), b),
    decreases b,
{
    if b == 0 {
        assert(a == gcd(a, b) * 1) by (nonlinear_arith)
            requires gcd(a, b) == a;
        assert(b == gcd(a, b) * 0) by (nonlinear_arith)
            requires b == 0;
    } else {
        lemma_gcd_divides(b, a % b);
        let g = gcd(b, a % b);
        let k1 = choose|k: nat| b == #[trigger] (g * k);
        let k2 = choose|k: nat| (a % b) == #[trigger] (g * k);
        vstd::arithmetic::div_mod::lemma_fundamental_div_mod(a as int, b as int);
        assert(a == b * (a as int / b as int) + a % b);
        let quot = a as int / b as int;
        assert(quot >= 0) by {
            vstd::arithmetic::div_mod::lemma_div_pos_is_pos(a as int, b as int);
        }
        assert(a == g * ((k1 * quot + k2) as nat)) by (nonlinear_arith)
            requires
                a == b * quot + (a % b),
                b == g * k1,
                (a % b) == g * k2,
                quot >= 0;
        assert(divides(g, a));
    }
}

proof fn lemma_gcd_pos(a: nat, b: nat)
    requires
        a >= 1 || b >= 1,
    ensures
        gcd(a, b) >= 1,
    decreases b,
{
    if b == 0 {
    } else {
        lemma_gcd_pos(b, a % b);
    }
}

/// Dividing both components of `q` by a positive common divisor is exact and
/// preserves the represented value.
proof fn lemma_exact_div_parts(q: Q, g: int, kn: int, kd: int)
    requires
        g >= 1,
        q.n == g * kn,
        q.d == g * kd,
    ensures
        q.n / g == kn,
        q.d / g == kd,
{
    vstd::arithmetic::div_mod::lemma_div_multiples_vanish(kn, g);
    vstd::arithmetic::div_mod::lemma_div_multiples_vanish(kd, g);
    assert(g * kn == kn * g) by (nonlinear_arith);
    assert(g * kd == kd * g) by (nonlinear_arith);
}

/// The reduced representative is well formed, represents the same value, and
/// is no larger in magnitude than the original.
pub proof fn lemma_canon(q: Q)
    requires
        q_wf(q),
    ensures
        q_wf(canon(q)),
        q_eq(canon(q), q),
        int_abs(canon(q).n) <= int_abs(q.n),
        canon(q).d <= q.d,
{
    let m = int_abs(q.n);
    let dd = int_abs(q.d);
    lemma_gcd_pos(m, dd);
    lemma_gcd_divides(m, dd);
    let g = gcd(m, dd);
    let km = choose|k: nat| m == #[trigger] (g * k);
    let kd = choose|k: nat| dd == #[trigger] (g * k);
    let kn: int = if q.n >= 0 { km as int } else { -(km as int) };
    assert(q.n == g * kn) by (nonlinear_arith)
        requires
            m == g * km,
            m == int_abs(q.n),
            kn == (if q.n >= 0 { km as int } else { -(km as int) }),
            (q.n >= 0 ==> m == q.n) && (q.n < 0 ==> m == -q.n);
    lemma_exact_div_parts(q, g as int, kn, kd as int);
    assert(canon(q) == Q { n: kn, d: kd as int });
    assert(kd >= 1) by (nonlinear_arith)
        requires
            dd == g * kd,
            dd >= 1,
            g >= 1;
    assert(kn * q.d == q.n * kd) by (nonlinear_arith)
        requires
            q.n == g * kn,
            q.d == g * kd,
            g >= 1;
    assert(int_abs(kn) <= int_abs(q.n) && kd <= dd) by (nonlinear_arith)
        requires
            int_abs(q.n) == g * int_abs(kn),
            dd == g * kd,
            g >= 1;
}

/// Values that are `q_eq` with positive denominators have numerators of the
/// same sign.
pub proof fn lemma_q_sign(a: Q, b: Q)
    requires
        q_wf(a),
        q_wf(b),
        q_eq(a, b),
    ensures
        (a.n <= 0) == (b.n <= 0),
        (a.n == 0) == (b.n == 0),
        (a.n < 0) == (b.n < 0),
{
    assert(((a.n <= 0) == (b.n <= 0)) && ((a.n == 0) == (b.n == 0)) && ((a.n < 0) == (b.n < 0)))
        by (nonlinear_arith)
        requires
            a.n * b.d == b.n * a.d,
            a.d >= 1,
            b.d >= 1;
}

/// `q_eq` is transitive when the middle value is well formed.
pub proof fn lemma_q_eq_trans(a: Q, b: Q, c: Q)
    requires
        q_wf(b),
        q_eq(a, b),
        q_eq(b, c),
    ensures
        q_eq(a, c),
{
    assert(a.n * c.d == c.n * a.d) by (nonlinear_arith)
        requires
            a.n * b.d == b.n * a.d,
            b.n * c.d == c.n * b.d,
            b.d >= 1;
}

/// Sums of equal values are equal.
pub proof fn lemma_q_add_congr(a: Q, a2: Q, b: Q, b2: Q)
    requires
        q_eq(a, a2),
        q_eq(b, b2),
    ensures
        q_eq(q_add(a, b), q_add(a2, b2)),
{
    assert((a.n * b.d) * (a2.d * b2.d) == (a.n * a2.d) * (b.d * b2.d)) by (nonlinear_arith);
    assert((a.n * a2.d) * (b.d * b2.d) == (a2.n * a.d) * (b.d * b2.d));
    assert((a2.n * a.d) * (b.d * b2.d) == (a2.n * b2.d) * (a.d * b.d)) by (nonlinear_arith);
    assert((b.n * a.d) * (a2.d * b2.d) == (b.n * b2.d) * (a.d * a2.d)) by (nonlinear_arith);
    assert((b.n * b2.d) * (a.d * a2.d) == (b2.n * b.d) * (a.d * a2.d));
    assert((b2.n * b.d) * (a.d * a2.d) == (b2.n * a2.d) * (a.d * b.d)) by (nonlinear_arith);
    assert((a.n * b.d + b.n * a.d) * (a2.d * b2.d) == (a.n * b.d) * (a2.d * b2.d) + (b.n * a.d)
        * (a2.d * b2.d)) by (nonlinear_arith);
    assert((a2.n * b2.d + b2.n * a2.d) * (a.d * b.d) == (a2.n * b2.d) * (a.d * b.d) + (b2.n * a2.d)
        * (a.d * b.d)) by (nonlinear_arith);
}

/// Differences of equal values are equal.
pub proof fn lemma_q_sub_congr(a: Q, a2: Q, b: Q, b2: Q)
    requires
        q_eq(a, a2),
        q_eq(b, b2),
    ensures
        q_eq(q_sub(a, b), q_sub(a2, b2)),
{
    assert((a.n * b.d) * (a2.d * b2.d) == (a.n * a2.d) * (b.d * b2.d)) by (nonlinear_arith);
    assert((a.n * a2.d) * (b.d * b2.d) == (a2.n * a.d) * (b.d * b2.d));
    assert((a2.n * a.d) * (b.d * b2.d) == (a2.n * b2.d) * (a.d * b.d)) by (nonlinear_arith);
    assert((b.n * a.d) * (a2.d * b2.d) == (b.n * b2.d) * (a.d * a2.d)) by (nonlinear_arith);
    assert((b.n * b2.d) * (a.d * a2.d) == (b2.n * b.d) * (a.d * a2.d));
    assert((b2.n * b.d) * (a.d * a2.d) == (b2.n * a2.d) * (a.d * b.d)) by (nonlinear_arith);
    assert((a.n * b.d - b.n * a.d) * (a2.d * b2.d) == (a.n * b.d) * (a2.d * b2.d) - (b.n * a.d)
        * (a2.d * b2.d)) by (nonlinear_arith);
    assert((a2.n * b2.d - b2.n * a2.d) * (a.d * b.d) == (a2.n * b2.d) * (a.d * b.d) - (b2.n * a2.d)
        * (a.d * b.d)) by (nonlinear_arith);
}

/// Products of equal values are equal.
pub proof fn lemma_q_mul_congr(a: Q, a2: Q, b: Q, b2: Q)
    requires
        q_eq(a, a2),
        q_eq(b, b2),
    ensures
        q_eq(q_mul(a, b), q_mul(a2, b2)),
{
    assert((a.n * b.n) * (a2.d * b2.d) == (a2.n * b2.n) * (a.d * b.d)) by (nonlinear_arith)
        requires
            a.n * a2.d == a2.n * a.d,
            b.n * b2.d == b2.n * b.d;
}

/// Quotients of equal values are equal, for well-formed nonzero divisors.
pub proof fn lemma_q_div_congr(a: Q, a2: Q, b: Q, b2: Q)
    requires
        q_wf(b),
        q_wf(b2),
        b.n != 0,
        q_eq(a, a2),
        q_eq(b, b2),
    ensures
        q_eq(q_div(a, b), q_div(a2, b2)),
{
    assert((b.n > 0) == (b2.n > 0) && b2.n != 0) by (nonlinear_arith)
        requires
            b.n * b2.d == b2.n * b.d,
            b.d >= 1,
            b2.d >= 1,
            b.n != 0;
    assert((a.n * b.d) * (a2.d * b2.n) == (a.n * a2.d) * (b.d * b2.n)) by (nonlinear_arith);
    assert((a.n * a2.d) * (b.d * b2.n) == (a2.n * a.d) * (b.d * b2.n));
    assert((a2.n * a.d) * (b.d * b2.n) == (a2.n * a.d) * (b2.n * b.d)) by (nonlinear_arith);
    assert((a2.n * a.d) * (b2.n * b.d) == (a2.n * a.d) * (b.n * b2.d));
    assert((a2.n * a.d) * (b.n * b2.d) == (a2.n * b2.d) * (a.d * b.n)) by (nonlinear_arith);
    if b.n > 0 {
    } else {
        assert((-(a.n * b.d)) * (-(a2.d * b2.n)) == (a.n * b.d) * (a2.d * b2.n)
            && (-(a2.n * b2.d)) * (-(a.d * b.n)) == (a2.n * b2.d) * (a.d * b.n))
            by (nonlinear_arith);
    }
}

/// The order of equal values agrees, for well-formed operands.
pub proof fn lemma_q_le_congr(a: Q, a2: Q, b: Q, b2: Q)
    requires
        q_wf(a),
        q_wf(a2),
        q_wf(b),
        q_wf(b2),
        q_eq(a, a2),
        q_eq(b, b2),
    ensures
        q_le(a, b) == q_le(a2, b2),
        q_lt(a, b) == q_lt(a2, b2),
{
    assert((a.n * b.d <= b.n * a.d) == (a2.n * b2.d <= b2.n * a2.d)
        && (a.n * b.d < b.n * a.d) == (a2.n * b2.d < b2.n * a2.d)) by (nonlinear_arith)
        requires
            a.n * a2.d == a2.n * a.d,
            b.n * b2.d == b2.n * b.d,
            a.d >= 1,
            a2.d >= 1,
            b.d >= 1,
            b2.d >= 1;
}

impl Rat {
    /// A well-formed rational keeps its denominator positive.
    pub open spec fn wf(self) -> bool {
        self.den >= 1
    }

    /// The rational zero.
    pub fn zero() -> (r: Rat)
        ensures
            r == (Rat { num: 0, den: 1 }),
            r.wf(),
    {
        Rat { num: 0, den: 1 }
    }

    /// The rational `i / 1`.
    pub fn from_int(i: i64) -> (r: Rat)
        ensures
            r == (Rat { num: i, den: 1 }),
            r@ == q_int(i as int),
            r.wf(),
    {
        Rat { num: i, den: 1 }
    }

    /// The reduced rational `num / den`.
    pub fn new(num: i64, den: i64) -> (r: Rat)
        requires
            den >= 1,
            num > i64::MIN,
        ensures
            r@ == canon(Q { n: num as int, d: den as int }),
            q_eq(r@, Q { n: num as int, d: den as int }),
            r.wf(),
    {
        let q = Ghost(Q { n: num as int, d: den as int });
        proof {
            lemma_canon(q@);
            assert(int_abs(canon(q@).n) <= int_abs(q@.n) <= i64::MAX as int);
            assert(q_fits(canon(q@)));
        }
        match rat_reduce(num as i128, den as i128) {
            Some(r) => r,
            None => {
                proof {
                    assert(false);
                }
                Rat { num: 0, den: 1 }
            },
        }
    }

    /// `self <= other` on the represented values.
    pub fn le(self, other: Rat) -> (r: bool)
        requires
            self.wf(),
            other.wf(),
        ensures
            r == q_le(self@, other@),
    {
        proof {
            lemma_i64_mul_in_i128(self.num as int, other.den as int);
            lemma_i64_mul_in_i128(other.num as int, self.den as int);
        }
        (self.num as i128) * (other.den as i128) <= (other.num as i128) * (self.den as i128)
    }

    /// `self < other` on the represented values.
    pub fn lt(self, other: Rat) -> (r: bool)
        requires
            self.wf(),
            other.wf(),
        ensures
            r == q_lt(self@, other@),
    {
        proof {
            lemma_i64_mul_in_i128(self.num as int, other.den as int);
            lemma_i64_mul_in_i128(other.num as int, self.den as int);
        }
        (self.num as i128) * (other.den as i128) < (other.num as i128) * (self.den as i128)
    }

    /// Value equality (not representation equality).
    pub fn eq_val(self, other: Rat) -> (r: bool)
        requires
            self.wf(),
            other.wf(),
        ensures
            r == q_eq(self@, other@),
    {
        proof {
            lemma_i64_mul_in_i128(self.num as int, other.den as int);
            lemma_i64_mul_in_i128(other.num as int, self.den as int);
        }
        (self.num as i128) * (other.den as i128) == (other.num as i128) * (self.den as i128)
    }

    /// Exact sum, reduced; `None` when it does not fit.
    pub fn add(self, other: Rat) -> (r: Option<Rat>)
        requires
            self.wf(),
            other.wf(),
        ensures
            r == norm(q_add(self@, other@)),
            r matches Some(v) ==> v.wf() && q_eq(v@, q_add(self@, other@)),
    {
        proof {
            lemma_num_den_mul(self.num as int, other.den as int);
            lemma_num_den_mul(other.num as int, self.den as int);
            lemma_den_mul_in_i128(self.den as int, other.den as int);
        }
        let n = (self.num as i128) * (other.den as i128) + (other.num as i128) * (self.den as i128);
        let d = (self.den as i128) * (other.den as i128);
        let r = rat_reduce(n, d);
        proof {
            lemma_norm_some(q_add(self@, other@), r);
        }
        r
    }

    /// Exact difference, reduced; `None` when it does not fit.
    pub fn sub(self, other: Rat) -> (r: Option<Rat>)
        requires
            self.wf(),
            other.wf(),
        ensures
            r == norm(q_sub(self@, other@)),
            r matches Some(v) ==> v.wf() && q_eq(v@, q_sub(self@, other@)),
    {
        proof {
            lemma_num_den_mul(self.num as int, other.den as int);
            lemma_num_den_mul(other.num as int, self.den as int);
            lemma_den_mul_in_i128(self.den as int, other.den as int);
        }
        let n = (self.num as i128) * (other.den as i128) - (other.num as i128) * (self.den as i128);
        let d = (self.den as i128) * (other.den as i128);
        let r = rat_reduce(n, d);
        proof {
            lemma_norm_some(q_sub(self@, other@), r);
        }
        r
    }

    /// Exact product, reduced; `None` when it does not fit.
    pub fn mul(self, other: Rat) -> (r: Option<Rat>)
        requires
            self.wf(),
            other.wf(),
        ensures
            r == norm(q_mul(self@, other@)),
            r matches Some(v) ==> v.wf() && q_eq(v@, q_mul(self@, other@)),
    {
        proof {
            lemma_i64_mul_in_i128(self.num as int, other.num as int);
            lemma_den_mul_in_i128(self.den as int, other.den as int);
        }
        let n = (self.num as i128) * (other.num as i128);
        let d = (self.den as i128) * (other.den as i128);
        let r = rat_reduce(n, d);
        proof {
            lemma_norm_some(q_mul(self@, other@), r);
        }
        r
    }

    /// Exact quotient, reduced; `None` when it does not fit.
    pub fn div(self, other: Rat) -> (r: Option<Rat>)
        requires
            self.wf(),
            other.wf(),
            other.num != 0,
        ensures
            r == norm(q_div(self@, other@)),
            r matches Some(v) ==> v.wf() && q_eq(v@, q_div(self@, other@)),
    {
        proof {
            lemma_i64_mul_in_i128(self.num as int, other.den as int);
            lemma_i64_mul_in_i128(self.den as int, other.num as int);
        }
        let n = (self.num as i128) * (other.den as i128);
        let d = (self.den as i128) * (other.num as i128);
        proof {
            assert(d != 0 && (other.num > 0 ==> d >= 1) && (other.num < 0 ==> d <= -1))
                by (nonlinear_arith)
                requires
                    d == (self.den as int) * (other.num as int),
                    self.den >= 1,
                    other.num != 0;
        }
        let r = if other.num > 0 {
            rat_reduce(n, d)
        } else {
            rat_reduce(-n, -d)
        };
        proof {
            lemma_norm_some(q_div(self@, other@), r);
        }
        r
    }
}

/// Products of two 64-bit values stay well inside the 128-bit range.
proof fn lemma_i64_mul_in_i128(a: int, b: int) by (nonlinear_arith)
    requires
        i64::MIN <= a <= i64::MAX,
        i64::MIN <= b <= i64::MAX,
    ensures
        -0x4000_0000_0000_0000_0000_0000_0000_0000 <= a * b
            <= 0x4000_0000_0000_0000_0000_0000_0000_0000,
        (a >= 1 && b >= 1) ==> a * b >= 1,
{
}

/// A numerator times a positive denominator is small enough that two such
/// products can be added or subtracted without leaving the 128-bit range.
proof fn lemma_num_den_mul(a: int, b: int) by (nonlinear_arith)
    requires
        i64::MIN <= a <= i64::MAX,
        1 <= b <= i64::MAX,
    ensures
        -0x3fff_ffff_ffff_ffff_8000_0000_0000_0000 <= a * b
            <= 0x3fff_ffff_ffff_ffff_8000_0000_0000_0000,
{
}

/// Products of two positive 64-bit denominators stay positive and in range.
proof fn lemma_den_mul_in_i128(a: int, b: int) by (nonlinear_arith)
    requires
        1 <= a <= i64::MAX,
        1 <= b <= i64::MAX,
    ensures
        1 <= a * b < 0x4000_0000_0000_0000_0000_0000_0000_0000,
{
}

/// A `norm` result that is `Some` carries the represented value.
proof fn lemma_norm_some(q: Q, r: Option<Rat>)
    requires
        q_wf(q),
        r == norm(q),
    ensures
        r matches Some(v) ==> v.wf() && q_eq(v@, q),
{
    lemma_canon(q);
    if r is Some {
        let v = r->Some_0;
        assert(v@ == canon(q));
    }
}

/// Euclid's algorithm.
fn gcd_u128(a: u128, b: u128) -> (g: u128)
    ensures
        g as nat == gcd(a as nat, b as nat),
{
    let mut x = a;
    let mut y = b;
    while y != 0
        invariant
            gcd(x as nat, y as nat) == gcd(a as nat, b as nat),
        decreases y,
    {
        let r = x % y;
        x = y;
        y = r;
    }
    x
}

/// Reduce the exact fraction `n / d` (with `d >= 1`) and return it when it
/// fits in 64 bits.
pub(crate) fn rat_reduce(n: i128, d: i128) -> (r: Option<Rat>)
    requires
        d >= 1,
        n > i128::MIN,
    ensures
        r == norm(Q { n: n as int, d: d as int }),
{
    let ghost q = Q { n: n as int, d: d as int };
    let neg = n < 0;
    let m: u128 = if neg {
        (-n) as u128
    } else {
        n as u128
    };
    proof {
        lemma_gcd_pos(m as nat, d as nat);
        lemma_gcd_divides(m as nat, d as nat);
    }
    let g: u128 = gcd_u128(m, d as u128);
    let nm: u128 = m / g;
    let dm: u128 = (d as u128) / g;
    proof {
        let gn = g as nat;
        let km = choose|k: nat| m as nat == #[trigger] (gn * k);
        let kd = choose|k: nat| d as nat == #[trigger] (gn * k);
        let kn: int = if neg {
            -(km as int)
        } else {
            km as int
        };
        assert(q.n == (g as int) * kn) by (nonlinear_arith)
            requires
                m as nat == gn * km,
                gn == g as nat,
                kn == (if neg { -(km as int) } else { km as int }),
                (neg ==> q.n == -(m as int)) && (!neg ==> q.n == m as int);
        assert(q.d == (g as int) * (kd as int));
        lemma_exact_div_parts(q, g as int, kn, kd as int);
        assert(canon(q) == Q { n: kn, d: kd as int }) by {
            assert(int_abs(q.n) == m as nat && int_abs(q.d) == d as nat);
        }
        assert((gn * km) / gn == km && (gn * kd) / gn == kd) by {
            vstd::arithmetic::div_mod::lemma_div_multiples_vanish(km as int, gn as int);
            vstd::arithmetic::div_mod::lemma_div_multiples_vanish(kd as int, gn as int);
            assert(gn * km == km * gn) by (nonlinear_arith);
            assert(gn * kd == kd * gn) by (nonlinear_arith);
        }
        assert(nm as nat == km && dm as nat == kd);
        assert(kd >= 1) by (nonlinear_arith)
            requires
                d as nat == gn * kd,
                d >= 1,
                gn >= 1;
        assert(canon(q).n == kn && kn == (if neg { -(nm as int) } else { nm as int }));
        assert(canon(q).d == dm as int && dm >= 1);
        assert(int_abs(canon(q).n) == nm as nat);
    }
    if nm <= (i64::MAX as u128) && dm <= (i64::MAX as u128) {
        let num: i64 = if neg {
            -(nm as i64)
        } else {
            nm as i64
        };
        assert(q_fits(canon(q)));
        assert(num as int == canon(q).n);
        Some(Rat { num, den: dm as i64 })
    } else {
        assert(!q_fits(canon(q)));
        None
    }
}

} // verus!
