//! Parsing of user-entered decimal text into exact rationals.
//!
//! The vehicle record stores its numeric fields as raw text, because the form
//! that feeds it tolerates transiently empty or invalid entries.  The engine
//! alone decides whether a field parses.  Accepted inputs are finite decimal
//! numerals: an optional `+` or `-`, digits with at most one decimal point
//! and at least one digit overall, and an optional `e`/`E` exponent with its
//! own optional sign and at least one digit.  An exponent only shifts the
//! decimal point, so every accepted numeral denotes an exact rational.
//!
//! The grammar and the value are given by [`parse_q`]; the executable parser
//! returns exactly [`parse_norm`], which also accounts for inputs whose exact
//! value cannot be represented in 64 bits.

use vstd::prelude::*;

use crate::rational::{int_abs, lemma_canon, norm, q_eq, q_wf, Q, Rat};

verus! {

/// A decimal digit.
pub open spec fn is_digit(c: char) -> bool {
    48 <= c as u32 <= 57
}

/// The value of a decimal digit.
pub open spec fn digit_val(c: char) -> int {
    c as u32 - 48
}

/// Ten to the `k`.
pub open spec fn pow10(k: nat) -> int
    decreases k,
{
    if k == 0 {
        1
    } else {
        10 * pow10((k - 1) as nat)
    }
}

/// The magnitude of the exponent: a run of at least one digit.
pub open spec fn parse_exp(s: Seq<char>, i: int, seen: bool, k: int) -> Option<int>
    decreases s.len() - i,
{
    if i < 0 || i >= s.len() {
        if seen {
            Some(k)
        } else {
            None
        }
    } else if is_digit(s[i]) {
        parse_exp(s, i + 1, true, k * 10 + digit_val(s[i]))
    } else {
        None
    }
}

/// One step at a time over the numeral: `m` is the value of the significand
/// digits read so far (ignoring the decimal point) and `f` counts the
/// fractional digits.  Returns the significand pair and the signed exponent,
/// or `None` when the text is not a numeral.
pub open spec fn parse_sm(
    s: Seq<char>,
    i: int,
    seen_digit: bool,
    in_frac: bool,
    m: int,
    f: nat,
) -> Option<(int, nat, int)>
    decreases s.len() - i,
{
    if i < 0 || i >= s.len() {
        if seen_digit {
            Some((m, f, 0))
        } else {
            None
        }
    } else if is_digit(s[i]) {
        parse_sm(s, i + 1, true, in_frac, m * 10 + digit_val(s[i]), if in_frac {
            f + 1
        } else {
            f
        })
    } else if s[i] == '.' && !in_frac {
        parse_sm(s, i + 1, seen_digit, true, m, f)
    } else if (s[i] == 'e' || s[i] == 'E') && seen_digit {
        let eneg = i + 1 < s.len() && s[i + 1] == '-';
        let estart: int = if i + 1 < s.len() && (s[i + 1] == '-' || s[i + 1] == '+') {
            i + 2
        } else {
            i + 1
        };
        match parse_exp(s, estart, false, 0) {
            Some(k) => Some((m, f, if eneg {
                -k
            } else {
                k
            })),
            None => None,
        }
    } else {
        None
    }
}

/// The positive part of a signed exponent.
pub open spec fn pos_part(k: int) -> nat {
    if k >= 0 {
        k as nat
    } else {
        0
    }
}

/// The magnitude of the negative part of a signed exponent.
pub open spec fn neg_part(k: int) -> nat {
    if k >= 0 {
        0
    } else {
        (-k) as nat
    }
}

/// The exact rational value of a decimal numeral, or `None` when the text is
/// not one.
pub open spec fn parse_q(s: Seq<char>) -> Option<Q> {
    if s.len() == 0 {
        None
    } else {
        let neg = s[0] == '-';
        let start: int = if s[0] == '-' || s[0] == '+' {
            1
        } else {
            0
        };
        match parse_sm(s, start, false, false, 0, 0) {
            Some((m, f, k)) => Some(
                Q {
                    n: if neg {
                        -(m * pow10(pos_part(k)))
                    } else {
                        m * pow10(pos_part(k))
                    },
                    d: pow10(f + neg_part(k)),
                },
            ),
            None => None,
        }
    }
}

/// What the executable parser returns: the reduced exact value, or `None`
/// when the text is not a numeral or its exact value does not fit.
pub open spec fn parse_norm(s: Seq<char>) -> Option<Rat> {
    match parse_q(s) {
        Some(q) => if int_abs(q.n) <= i128::MAX && q.d <= i128::MAX {
            norm(q)
        } else {
            None
        },
        None => None,
    }
}

proof fn lemma_pow10_pos(k: nat)
    ensures
        pow10(k) >= 1,
    decreases k,
{
    if k > 0 {
        lemma_pow10_pos((k - 1) as nat);
    }
}

proof fn lemma_pow10_mono(a: nat, b: nat)
    requires
        a <= b,
    ensures
        pow10(a) <= pow10(b),
    decreases b,
{
    if a < b {
        lemma_pow10_mono(a, (b - 1) as nat);
        lemma_pow10_pos(a);
        assert(pow10(b) == 10 * pow10((b - 1) as nat));
    }
}

proof fn lemma_pow10_add(a: nat, b: nat)
    ensures
        pow10(a + b) == pow10(a) * pow10(b),
    decreases b,
{
    if b == 0 {
        assert(pow10(a) * 1 == pow10(a)) by (nonlinear_arith);
    } else {
        lemma_pow10_add(a, (b - 1) as nat);
        assert(pow10(a + b) == 10 * pow10((a + b - 1) as nat));
        assert(10 * (pow10(a) * pow10((b - 1) as nat)) == pow10(a) * (10 * pow10(
            (b - 1) as nat,
        ))) by (nonlinear_arith);
    }
}

/// Ten to the thirty-ninth power already exceeds the 128-bit range.
proof fn lemma_pow10_over(k: nat)
    requires
        k >= 39,
    ensures
        pow10(k) > i128::MAX,
{
    reveal_with_fuel(pow10, 41);
    assert(pow10(39) == 1000000000000000000000000000000000000000int);
    lemma_pow10_mono(39, k);
}

/// The significand value and fraction count only grow as the scan proceeds.
proof fn lemma_parse_sm_mono(s: Seq<char>, i: int, seen_digit: bool, in_frac: bool, m: int, f: nat)
    requires
        m >= 0,
    ensures
        parse_sm(s, i, seen_digit, in_frac, m, f) matches Some(r) ==> r.0 >= m && r.1 >= f,
    decreases s.len() - i,
{
    if i < 0 || i >= s.len() {
    } else if is_digit(s[i]) {
        lemma_parse_sm_mono(s, i + 1, true, in_frac, m * 10 + digit_val(s[i]), if in_frac {
            f + 1
        } else {
            f
        });
    } else if s[i] == '.' && !in_frac {
        lemma_parse_sm_mono(s, i + 1, seen_digit, true, m, f);
    }
}

/// A parsed value is a well-formed rational: its denominator is a positive
/// power of ten.
pub proof fn lemma_parse_q_wf(s: Seq<char>)
    ensures
        parse_q(s) matches Some(q) ==> q_wf(q),
{
    if parse_q(s) is Some {
        let start: int = if s[0] == '-' || s[0] == '+' {
            1
        } else {
            0
        };
        let r = parse_sm(s, start, false, false, 0, 0)->Some_0;
        lemma_pow10_pos(r.1 + neg_part(r.2));
    }
}

/// Reduce a parsed numeral whose exact numerator and denominator fit the
/// 128-bit intermediates.
fn finish_parse(num: i128, den: i128, Ghost(s): Ghost<Seq<char>>) -> (r: Option<Rat>)
    requires
        1 <= den,
        -i128::MAX <= num,
        parse_q(s) == Some(Q { n: num as int, d: den as int }),
    ensures
        r == parse_norm(s),
        r matches Some(v) ==> v.wf() && (parse_q(s) matches Some(q) && q_wf(q) && q_eq(v@, q)),
        parse_q(s) is None ==> r is None,
{
    let ghost q = Q { n: num as int, d: den as int };
    proof {
        lemma_canon(q);
        assert(int_abs(q.n) <= i128::MAX && q.d <= i128::MAX);
    }
    let r = crate::rational::rat_reduce(num, den);
    proof {
        if r is Some {
            assert(q_eq(r->Some_0@, q));
        }
    }
    r
}

/// Parse a decimal numeral into an exact reduced rational.
///
/// Returns `None` when the text is not a finite decimal numeral or its exact
/// value does not fit the 64-bit representation.
#[verifier::loop_isolation(false)]
#[verifier::rlimit(60)]
pub fn parse_rat(s: &str) -> (r: Option<Rat>)
    ensures
        r == parse_norm(s@),
        r matches Some(v) ==> v.wf() && (parse_q(s@) matches Some(q) && q_wf(q) && q_eq(v@, q)),
        parse_q(s@) is None ==> r is None,
{
    let n = s.unicode_len();
    if n == 0 {
        return None;
    }
    let c0 = s.get_char(0);
    let neg = c0 == '-';
    let has_sign = c0 == '-' || c0 == '+';
    let start: usize = if has_sign {
        1
    } else {
        0
    };
    let mut i: usize = start;
    let mut seen_digit = false;
    let mut in_frac = false;
    let mut in_exp = false;
    let mut exp_neg = false;
    let mut exp_seen = false;
    let mut m: i128 = 0;
    let mut den: i128 = 1;
    let mut ke: u32 = 0;
    let ghost mut f: nat = 0;
    let ghost mut ktrue: int = 0;
    while i < n
        invariant
            start <= i <= n,
            0 <= m <= i128::MAX,
            1 <= den <= i128::MAX,
            den == pow10(f),
            !in_exp ==> !exp_neg && !exp_seen && ktrue == 0 && ke == 0,
            !in_exp ==> parse_sm(s@, i as int, seen_digit, in_frac, m as int, f) == parse_sm(
                s@,
                start as int,
                false,
                false,
                0,
                0,
            ),
            in_exp ==> seen_digit && ktrue >= 0 && ke as int == (if ktrue <= 100 {
                ktrue
            } else {
                100
            }) && (match parse_exp(s@, i as int, exp_seen, ktrue) {
                None => None,
                Some(kk) => Some(
                    (m as int, f, if exp_neg {
                        -kk
                    } else {
                        kk
                    }),
                ),
            }) == parse_sm(s@, start as int, false, false, 0, 0),
        decreases n - i,
    {
        let c = s.get_char(i);
        let u = c as u32;
        if !in_exp {
            if u >= 48 && u <= 57 {
                let d = (u - 48) as i128;
                let t = (i128::MAX - d) / 10;
                proof {
                    vstd::arithmetic::div_mod::lemma_fundamental_div_mod(i128::MAX - d, 10);
                    lemma_parse_sm_mono(
                        s@,
                        i as int + 1,
                        true,
                        in_frac,
                        m as int * 10 + digit_val(s@[i as int]),
                        if in_frac {
                            f + 1
                        } else {
                            f
                        },
                    );
                }
                if m > t {
                    proof {
                        assert(m as int * 10 + d > i128::MAX) by (nonlinear_arith)
                            requires
                                m as int > t,
                                i128::MAX - d == 10 * t + ((i128::MAX - d) % 10),
                                0 <= (i128::MAX - d) % 10 < 10;
                        let fin = parse_sm(s@, start as int, false, false, 0, 0);
                        assert(fin == parse_sm(
                            s@,
                            i as int + 1,
                            true,
                            in_frac,
                            m as int * 10 + digit_val(s@[i as int]),
                            if in_frac {
                                f + 1
                            } else {
                                f
                            },
                        ));
                        if fin is Some {
                            let (mf, ff, kf) = fin->Some_0;
                            assert(mf > i128::MAX);
                            let q2 = parse_q(s@)->Some_0;
                            lemma_pow10_pos(pos_part(kf));
                            assert(mf * pow10(pos_part(kf)) >= mf) by (nonlinear_arith)
                                requires
                                    mf >= 0,
                                    pow10(pos_part(kf)) >= 1;
                            assert(int_abs(q2.n) == mf * pow10(pos_part(kf)));
                        }
                        assert(parse_norm(s@) is None);
                    }
                    return None;
                }
                proof {
                    assert(m as int * 10 + d <= i128::MAX) by (nonlinear_arith)
                        requires
                            m as int <= t,
                            d >= 0,
                            i128::MAX - d == 10 * t + ((i128::MAX - d) % 10),
                            0 <= (i128::MAX - d) % 10 < 10;
                }
                m = m * 10 + d;
                if in_frac {
                    if den > i128::MAX / 10 {
                        proof {
                            vstd::arithmetic::div_mod::lemma_fundamental_div_mod(
                                i128::MAX as int,
                                10,
                            );
                            assert(pow10(f + 1) > i128::MAX) by (nonlinear_arith)
                                requires
                                    pow10(f + 1) == 10 * pow10(f),
                                    pow10(f) == den as int,
                                    den as int > i128::MAX / 10,
                                    i128::MAX == 10 * (i128::MAX / 10) + i128::MAX % 10,
                                    0 <= i128::MAX % 10 < 10;
                            let fin = parse_sm(s@, start as int, false, false, 0, 0);
                            assert(fin == parse_sm(s@, i as int + 1, true, in_frac, m as int, f + 1));
                            if fin is Some {
                                let (mf, ff, kf) = fin->Some_0;
                                lemma_pow10_mono(f + 1, ff + neg_part(kf));
                                let q2 = parse_q(s@)->Some_0;
                                assert(q2.d == pow10(ff + neg_part(kf)));
                                assert(q2.d > i128::MAX);
                            }
                            assert(parse_norm(s@) is None);
                        }
                        return None;
                    }
                    proof {
                        vstd::arithmetic::div_mod::lemma_fundamental_div_mod(i128::MAX as int, 10);
                        assert(10 * den as int <= i128::MAX) by (nonlinear_arith)
                            requires
                                den as int <= i128::MAX / 10,
                                den >= 1,
                                i128::MAX == 10 * (i128::MAX / 10) + i128::MAX % 10,
                                0 <= i128::MAX % 10 < 10;
                        f = f + 1;
                    }
                    den = den * 10;
                }
                seen_digit = true;
            } else if c == '.' && !in_frac {
                in_frac = true;
            } else if (c == 'e' || c == 'E') && seen_digit {
                let ghost i0 = i as int;
                in_exp = true;
                if i + 1 < n {
                    let c2 = s.get_char(i + 1);
                    if c2 == '-' || c2 == '+' {
                        exp_neg = c2 == '-';
                        i = i + 1;
                    }
                }
                proof {
                    reveal_with_fuel(parse_sm, 2);
                    assert(!is_digit(s@[i0]) && !(s@[i0] == '.' && !in_frac));
                    assert((s@[i0] == 'e' || s@[i0] == 'E') && seen_digit);
                    let eneg_s = i0 + 1 < s@.len() && s@[i0 + 1] == '-';
                    let estart: int = if i0 + 1 < s@.len() && (s@[i0 + 1] == '-' || s@[i0 + 1]
                        == '+') {
                        i0 + 2
                    } else {
                        i0 + 1
                    };
                    assert(parse_sm(s@, i0, seen_digit, in_frac, m as int, f) == (
                    match parse_exp(s@, estart, false, 0) {
                        Some(k) => Some(
                            (m as int, f, if eneg_s {
                                -k
                            } else {
                                k
                            }),
                        ),
                        None => None,
                    }));
                    assert(exp_neg == eneg_s);
                    assert(i as int + 1 == estart);
                }
            } else {
                return None;
            }
        } else {
            if u >= 48 && u <= 57 {
                let d32 = u - 48;
                proof {
                    assert(parse_exp(s@, i as int, exp_seen, ktrue) == parse_exp(
                        s@,
                        i as int + 1,
                        true,
                        ktrue * 10 + digit_val(s@[i as int]),
                    ));
                    ktrue = ktrue * 10 + d32 as int;
                }
                exp_seen = true;
                ke = ke * 10 + d32;
                if ke > 100 {
                    ke = 100;
                }
            } else {
                return None;
            }
        }
        i = i + 1;
    }
    if !in_exp {
        if !seen_digit {
            return None;
        }
        let num: i128 = if neg {
            -m
        } else {
            m
        };
        proof {
            let q = parse_q(s@)->Some_0;
            assert(m as int * pow10(0) == m as int) by (nonlinear_arith)
                requires
                    pow10(0) == 1;
            assert(q.n == num as int && q.d == den as int);
        }
        return finish_parse(num, den, Ghost(s@));
    }
    if !exp_seen {
        return None;
    }
    let ghost fin = parse_sm(s@, start as int, false, false, 0, 0);
    proof {
        assert(fin == Some(
            (m as int, f, if exp_neg {
                -ktrue
            } else {
                ktrue
            }),
        ));
    }
    if !exp_neg {
        // The exponent scales the numerator; the denominator is unchanged.
        let ghost m0 = m as int;
        proof {
            let q = parse_q(s@)->Some_0;
            assert(q.d == pow10(f + 0) && f + 0 == f);
            assert(q.d == den as int);
        }
        if m > 0 && ke >= 39 {
            proof {
                lemma_pow10_over(ktrue as nat);
                assert(m0 * pow10(ktrue as nat) >= pow10(ktrue as nat)) by (nonlinear_arith)
                    requires
                        m0 >= 1,
                        pow10(ktrue as nat) >= 1;
                let q = parse_q(s@)->Some_0;
                assert(int_abs(q.n) == m0 * pow10(ktrue as nat));
                assert(parse_norm(s@) is None);
            }
            return None;
        }
        let mut j: u32 = 0;
        let t: i128 = i128::MAX / 10;
        proof {
            vstd::arithmetic::div_mod::lemma_fundamental_div_mod(i128::MAX as int, 10);
            assert(m as int == m0 * pow10(0)) by (nonlinear_arith)
                requires
                    pow10(0) == 1,
                    m0 == m as int;
            if m > 0 {
                assert(ktrue == ke as int);
            }
            assert(m0 >= 1 ==> ktrue == ke as int);
            assert(m0 == 0 ==> m0 * pow10(ktrue as nat) == 0) by (nonlinear_arith);
        }
        while j < ke
            invariant
                0 <= j <= ke,
                0 <= m <= i128::MAX,
                m as int == m0 * pow10(j as nat),
            decreases ke - j,
        {
            if m > t {
                proof {
                    lemma_pow10_pos(j as nat);
                    assert(m0 >= 1) by (nonlinear_arith)
                        requires
                            m as int == m0 * pow10(j as nat),
                            m as int > t,
                            t >= 1,
                            pow10(j as nat) >= 1;
                    assert(ktrue == ke as int);
                    lemma_pow10_add(j as nat, (ktrue - j) as nat);
                    lemma_pow10_mono(1, (ktrue - j) as nat);
                    assert(pow10(1) == 10 * pow10(0) && pow10(0) == 1);
                    assert(m0 * pow10(ktrue as nat) == (m0 * pow10(j as nat)) * pow10(
                        (ktrue - j) as nat,
                    )) by (nonlinear_arith)
                        requires
                            pow10(ktrue as nat) == pow10(j as nat) * pow10((ktrue - j) as nat);
                    assert(m0 * pow10(ktrue as nat) > i128::MAX) by (nonlinear_arith)
                        requires
                            m0 * pow10(ktrue as nat) == (m0 * pow10(j as nat)) * pow10(
                                (ktrue - j) as nat,
                            ),
                            m0 * pow10(j as nat) == m as int,
                            pow10((ktrue - j) as nat) >= 10,
                            m as int > t,
                            i128::MAX == 10 * t + i128::MAX % 10,
                            0 <= i128::MAX % 10 < 10;
                    let q = parse_q(s@)->Some_0;
                    lemma_pow10_pos(ktrue as nat);
                    assert(m0 * pow10(ktrue as nat) >= 0) by (nonlinear_arith)
                        requires
                            m0 >= 0,
                            pow10(ktrue as nat) >= 1;
                    assert(int_abs(q.n) == m0 * pow10(ktrue as nat));
                    assert(parse_norm(s@) is None);
                }
                return None;
            }
            proof {
                assert(m as int * 10 <= i128::MAX) by (nonlinear_arith)
                    requires
                        m as int <= t,
                        i128::MAX == 10 * t + i128::MAX % 10,
                        0 <= i128::MAX % 10 < 10;
                assert((m0 * pow10(j as nat)) * 10 == m0 * (10 * pow10(j as nat)))
                    by (nonlinear_arith);
                assert(pow10(j as nat + 1) == 10 * pow10(j as nat));
            }
            m = m * 10;
            j = j + 1;
        }
        let num: i128 = if neg {
            -m
        } else {
            m
        };
        proof {
            let q = parse_q(s@)->Some_0;
            if m0 == 0 {
                assert(m as int == 0 && m0 * pow10(ktrue as nat) == 0) by (nonlinear_arith)
                    requires
                        m0 == 0,
                        m as int == m0 * pow10(j as nat);
            } else {
                assert(ktrue == j as int);
            }
            assert(q.n == num as int && q.d == den as int);
        }
        return finish_parse(num, den, Ghost(s@));
    }
    // A negative exponent scales the denominator; the numerator is unchanged.
    proof {
        let q = parse_q(s@)->Some_0;
        assert(m as int * pow10(0) == m as int) by (nonlinear_arith)
            requires
                pow10(0) == 1;
        assert(q.n == (if neg { -(m as int) } else { m as int }));
        assert(q.d == pow10(f + ktrue as nat));
    }
    if ke >= 39 {
        proof {
            lemma_pow10_over(ktrue as nat);
            lemma_pow10_mono(ktrue as nat, f + ktrue as nat);
            let q = parse_q(s@)->Some_0;
            assert(q.d > i128::MAX);
            assert(parse_norm(s@) is None);
        }
        return None;
    }
    let mut j: u32 = 0;
    let t: i128 = i128::MAX / 10;
    proof {
        vstd::arithmetic::div_mod::lemma_fundamental_div_mod(i128::MAX as int, 10);
        assert(ktrue == ke as int);
    }
    while j < ke
        invariant
            0 <= j <= ke,
            1 <= den <= i128::MAX,
            den as int == pow10(f + j as nat),
        decreases ke - j,
    {
        if den > t {
            proof {
                lemma_pow10_add(f + j as nat, (ktrue - j) as nat);
                lemma_pow10_mono(1, (ktrue - j) as nat);
                assert(pow10(1) == 10 * pow10(0) && pow10(0) == 1);
                assert(pow10(f + ktrue as nat) > i128::MAX) by (nonlinear_arith)
                    requires
                        pow10(f + ktrue as nat) == pow10(f + j as nat) * pow10((ktrue - j) as nat),
                        pow10(f + j as nat) == den as int,
                        pow10((ktrue - j) as nat) >= 10,
                        den as int > t,
                        i128::MAX == 10 * t + i128::MAX % 10,
                        0 <= i128::MAX % 10 < 10;
                let q = parse_q(s@)->Some_0;
                assert(q.d > i128::MAX);
                assert(parse_norm(s@) is None);
            }
            return None;
        }
        proof {
            assert(den as int * 10 <= i128::MAX) by (nonlinear_arith)
                requires
                    den as int <= t,
                    i128::MAX == 10 * t + i128::MAX % 10,
                    0 <= i128::MAX % 10 < 10;
            assert(pow10(f + j as nat + 1) == 10 * pow10(f + j as nat));
        }
        den = den * 10;
        j = j + 1;
    }
    let num: i128 = if neg {
        -m
    } else {
        m
    };
    proof {
        let q = parse_q(s@)->Some_0;
        assert(q.n == num as int && q.d == den as int);
    }
    finish_parse(num, den, Ghost(s@))
}

} // verus!
