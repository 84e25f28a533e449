//! The ownership cost composer.
//!
//! [`compute_car_data`] consumes a vehicle record, the shared assumptions,
//! and the maintenance table, validates the required inputs, and derives the
//! full set of ownership-cost figures.  Any parse failure, a non-positive
//! fuel efficiency or annual distance, or a vehicle already past the assumed
//! lifetime distance yields no result.
//!
//! The exact mathematical value of every derived field is given by the
//! `*_q` functions below, over the parsed input values; what the executable
//! composer returns, representation and all, is pinned by [`compute_spec`].

use vstd::prelude::*;

use crate::car::Car;
use crate::computed::ComputedCarData;
use crate::curve::{incr_cost, lemma_incr_cost_congr};
use crate::maintenance::{
    cost_mileage_r, cost_time_r, lemma_mileage_cost_congr, mileage_cost, spec_key,
    MaintenanceCostData, MaintenanceCostDatabase,
};
use crate::parse::{lemma_parse_q_wf, parse_norm, parse_q, parse_rat};
use crate::rational::{
    lemma_q_add_congr, lemma_q_div_congr, lemma_q_eq_trans, lemma_q_mul_congr, lemma_q_ops_wf,
    lemma_q_sign, lemma_q_sub_congr, lemma_q_zero_sign, nadd, ndiv, nmul, nsub, q_add, q_div,
    q_eq, q_int, q_le, q_mul, q_sub, q_wf, q_zero, Q, Rat,
};
use crate::settings::SharedSettings;

verus! {

/// The parsed purchase price.
pub open spec fn purchase_price_q(car: Car) -> Q {
    parse_q(car.purchase_price@)->Some_0
}

/// The parsed current distance.
pub open spec fn mileage_q(car: Car) -> Q {
    parse_q(car.current_mileage@)->Some_0
}

/// The parsed fuel efficiency.
pub open spec fn mpg_q(car: Car) -> Q {
    parse_q(car.mpg@)->Some_0
}

/// The parsed six-month insurance premium.
pub open spec fn insurance_q(car: Car) -> Q {
    parse_q(car.insurance_cost@)->Some_0
}

/// Distance left before the assumed retirement threshold.
pub open spec fn remaining_q(car: Car, s: SharedSettings) -> Q {
    q_sub(s.lifetime_miles@, mileage_q(car))
}

/// Whether the required inputs parse and pass validation: every numeric
/// field is a numeral, fuel efficiency and the assumed annual distance are
/// positive, and some distance remains before the retirement threshold.
pub open spec fn valid_inputs(car: Car, s: SharedSettings) -> bool {
    &&& parse_q(car.purchase_price@) is Some
    &&& parse_q(car.current_mileage@) is Some
    &&& parse_q(car.mpg@) is Some
    &&& parse_q(car.insurance_cost@) is Some
    &&& !q_le(mpg_q(car), q_zero())
    &&& !q_le(s.annual_mileage@, q_zero())
    &&& !q_le(remaining_q(car, s), q_zero())
}

/// Years left, at the assumed annual distance.
pub open spec fn years_q(car: Car, s: SharedSettings) -> Q {
    q_div(remaining_q(car, s), s.annual_mileage@)
}

/// Fuel cost over the remaining life.
pub open spec fn fuel_total_q(car: Car, s: SharedSettings) -> Q {
    q_mul(q_div(remaining_q(car, s), mpg_q(car)), s.average_gas_price@)
}

/// Fuel cost per year.
pub open spec fn fuel_annual_q(car: Car, s: SharedSettings) -> Q {
    q_div(fuel_total_q(car, s), years_q(car, s))
}

/// Insurance cost per year: twice the six-month premium.
pub open spec fn insurance_annual_q(car: Car) -> Q {
    q_mul(insurance_q(car), q_int(2))
}

/// The vehicle's estimated current age, in years: distance so far at the
/// assumed annual distance.
pub open spec fn age_q(car: Car, s: SharedSettings) -> Q {
    q_div(mileage_q(car), s.annual_mileage@)
}

/// The vehicle's estimated age at retirement.
pub open spec fn end_age_q(car: Car, s: SharedSettings) -> Q {
    q_add(age_q(car, s), years_q(car, s))
}

/// The distance at retirement.
pub open spec fn end_mileage_q(car: Car, s: SharedSettings) -> Q {
    q_add(mileage_q(car), remaining_q(car, s))
}

/// Blended maintenance cost over the remaining life: the equal-weight
/// average of the distance-driven and the time-driven estimates, or zero
/// when the table has no data for this make and model.
pub open spec fn maintenance_total_q(
    car: Car,
    s: SharedSettings,
    m: Map<Seq<char>, MaintenanceCostData>,
) -> Q {
    let k = spec_key(car.make@, car.model@);
    if m.contains_key(k) {
        let md = m[k];
        q_div(
            q_add(
                mileage_cost(md.by_mileage@, mileage_q(car), end_mileage_q(car, s)),
                incr_cost(md.by_time@, age_q(car, s), end_age_q(car, s)),
            ),
            q_int(2),
        )
    } else {
        q_zero()
    }
}

/// Maintenance cost per year.
pub open spec fn maintenance_annual_q(
    car: Car,
    s: SharedSettings,
    m: Map<Seq<char>, MaintenanceCostData>,
) -> Q {
    q_div(maintenance_total_q(car, s, m), years_q(car, s))
}

/// Forgone return on the purchase price over the remaining life.
pub open spec fn opportunity_q(car: Car, s: SharedSettings) -> Q {
    q_mul(
        q_mul(purchase_price_q(car), q_div(s.opportunity_cost_rate@, q_int(100))),
        years_q(car, s),
    )
}

/// Total cost of ownership: purchase price, fuel, maintenance, insurance
/// over the remaining years, and opportunity cost.
pub open spec fn total_cost_q(
    car: Car,
    s: SharedSettings,
    m: Map<Seq<char>, MaintenanceCostData>,
) -> Q {
    q_add(
        q_add(
            q_add(q_add(purchase_price_q(car), fuel_total_q(car, s)), maintenance_total_q(
                car,
                s,
                m,
            )),
            q_mul(insurance_annual_q(car), years_q(car, s)),
        ),
        opportunity_q(car, s),
    )
}

/// Total cost of ownership per year.
pub open spec fn annual_cost_q(
    car: Car,
    s: SharedSettings,
    m: Map<Seq<char>, MaintenanceCostData>,
) -> Q {
    q_div(total_cost_q(car, s, m), years_q(car, s))
}

/// What the maintenance step of the composer returns.
pub open spec fn maintenance_r(
    m: Map<Seq<char>, MaintenanceCostData>,
    k: Seq<char>,
    cm: Rat,
    rem: Rat,
    years: Rat,
    annual: Rat,
) -> Option<Rat> {
    if m.contains_key(k) {
        let md = m[k];
        match nadd(cm, rem) {
            None => None,
            Some(endm) => match cost_mileage_r(md.by_mileage@, cm, endm) {
                None => None,
                Some(mc) => match ndiv(cm, annual) {
                    None => None,
                    Some(age) => match nadd(age, years) {
                        None => None,
                        Some(endage) => match cost_time_r(md.by_time@, age, endage) {
                            None => None,
                            Some(tc) => match nadd(mc, tc) {
                                None => None,
                                Some(sum) => ndiv(sum, Rat { num: 2, den: 1 }),
                            },
                        },
                    },
                },
            },
        }
    } else {
        Some(Rat { num: 0, den: 1 })
    }
}

/// The steps of the composer after parsing and validation.
pub open spec fn compute_tail(
    car: Car,
    s: SharedSettings,
    m: Map<Seq<char>, MaintenanceCostData>,
    pp: Rat,
    cm: Rat,
    mpg: Rat,
    ins: Rat,
    rem: Rat,
) -> Option<ComputedCarData> {
    match ndiv(rem, s.annual_mileage) {
        None => None,
        Some(years) => match ndiv(rem, mpg) {
            None => None,
            Some(t1) => match nmul(t1, s.average_gas_price) {
                None => None,
                Some(fuel_total) => match ndiv(fuel_total, years) {
                    None => None,
                    Some(fuel_annual) => match nmul(ins, Rat { num: 2, den: 1 }) {
                        None => None,
                        Some(ins_annual) => match maintenance_r(
                            m,
                            spec_key(car.make@, car.model@),
                            cm,
                            rem,
                            years,
                            s.annual_mileage,
                        ) {
                            None => None,
                            Some(maint_total) => match ndiv(maint_total, years) {
                                None => None,
                                Some(maint_annual) => match ndiv(
                                    s.opportunity_cost_rate,
                                    Rat { num: 100, den: 1 },
                                ) {
                                    None => None,
                                    Some(rate) => match nmul(pp, rate) {
                                        None => None,
                                        Some(t2) => match nmul(t2, years) {
                                            None => None,
                                            Some(opp) => match nadd(pp, fuel_total) {
                                                None => None,
                                                Some(t3) => match nadd(t3, maint_total) {
                                                    None => None,
                                                    Some(t4) => match nmul(ins_annual, years) {
                                                        None => None,
                                                        Some(t5) => match nadd(t4, t5) {
                                                            None => None,
                                                            Some(t6) => match nadd(t6, opp) {
                                                                None => None,
                                                                Some(total) => match ndiv(
                                                                    total,
                                                                    years,
                                                                ) {
                                                                    None => None,
                                                                    Some(annual) => Some(
                                                                        ComputedCarData {
                                                                            remaining_miles: rem,
                                                                            years_remaining: years,
                                                                            fuel_cost_total:
                                                                                fuel_total,
                                                                            fuel_cost_annual:
                                                                                fuel_annual,
                                                                            insurance_cost_annual:
                                                                                ins_annual,
                                                                            maintenance_cost_total:
                                                                                maint_total,
                                                                            maintenance_cost_annual:
                                                                                maint_annual,
                                                                            opportunity_cost: opp,
                                                                            total_cost_of_ownership:
                                                                                total,
                                                                            annual_cost: annual,
                                                                        },
                                                                    ),
                                                                },
                                                            },
                                                        },
                                                    },
                                                },
                                            },
                                        },
                                    },
                                },
                            },
                        },
                    },
                },
            },
        },
    }
}

/// What the composer returns, exactly: parse the four required fields,
/// validate, then derive every figure step by step.
pub open spec fn compute_spec(
    car: Car,
    s: SharedSettings,
    m: Map<Seq<char>, MaintenanceCostData>,
) -> Option<ComputedCarData> {
    match parse_norm(car.purchase_price@) {
        None => None,
        Some(pp) => match parse_norm(car.current_mileage@) {
            None => None,
            Some(cm) => match parse_norm(car.mpg@) {
                None => None,
                Some(mpg) => match parse_norm(car.insurance_cost@) {
                    None => None,
                    Some(ins) => if mpg.num <= 0 || s.annual_mileage.num <= 0 {
                        None
                    } else {
                        match nsub(s.lifetime_miles, cm) {
                            None => None,
                            Some(rem) => if rem.num <= 0 {
                                None
                            } else {
                                compute_tail(car, s, m, pp, cm, mpg, ins, rem)
                            },
                        }
                    },
                },
            },
        },
    }
}

/// Whether every exact value of the projection fits the reduced 64-bit
/// representation, so that validated inputs are owed a result.  This is the
/// one cause of an absent result beyond the input validation itself: the
/// engine computes in exact fixed-width rationals, and an exactly
/// representable result cannot be promised for unboundedly large inputs.
pub open spec fn representable(
    car: Car,
    s: SharedSettings,
    m: Map<Seq<char>, MaintenanceCostData>,
) -> bool {
    valid_inputs(car, s) ==> compute_spec(car, s, m) is Some
}

/// Compute all derived ownership-cost figures from a vehicle record, the
/// shared assumptions, and the maintenance table.
///
/// Returns a result if and only if the required fields parse, fuel
/// efficiency and the assumed annual distance are positive, the vehicle is
/// short of the assumed lifetime distance ([`valid_inputs`]), and every
/// exact intermediate fits the 64-bit reduced representation
/// ([`representable`]).  Nothing else yields an absent result; in
/// particular, missing maintenance data does not.  Every returned figure is
/// exactly the value its `*_q` specification gives.
#[verifier::rlimit(100)]
pub fn compute_car_data(
    car: &Car,
    settings: &SharedSettings,
    maintenance_db: &MaintenanceCostDatabase,
) -> (r: Option<ComputedCarData>)
    requires
        settings.wf(),
        maintenance_db.wf(),
    ensures
        r == compute_spec(*car, *settings, maintenance_db@),
        r is Some <==> valid_inputs(*car, *settings) && representable(
            *car,
            *settings,
            maintenance_db@,
        ),
        r matches Some(c) ==> valid_inputs(*car, *settings) && c.wf() && q_eq(
            c.remaining_miles@,
            remaining_q(*car, *settings),
        ) && q_eq(c.years_remaining@, years_q(*car, *settings)) && q_eq(
            c.fuel_cost_total@,
            fuel_total_q(*car, *settings),
        ) && q_eq(c.fuel_cost_annual@, fuel_annual_q(*car, *settings)) && q_eq(
            c.insurance_cost_annual@,
            insurance_annual_q(*car),
        ) && q_eq(
            c.maintenance_cost_total@,
            maintenance_total_q(*car, *settings, maintenance_db@),
        ) && q_eq(
            c.maintenance_cost_annual@,
            maintenance_annual_q(*car, *settings, maintenance_db@),
        ) && q_eq(c.opportunity_cost@, opportunity_q(*car, *settings)) && q_eq(
            c.total_cost_of_ownership@,
            total_cost_q(*car, *settings, maintenance_db@),
        ) && q_eq(c.annual_cost@, annual_cost_q(*car, *settings, maintenance_db@)),
{
    let ghost m = maintenance_db@;
    let pp = match parse_rat(car.purchase_price.as_str()) {
        Some(v) => v,
        None => {
            return None;
        },
    };
    let cm = match parse_rat(car.current_mileage.as_str()) {
        Some(v) => v,
        None => {
            return None;
        },
    };
    let mpg = match parse_rat(car.mpg.as_str()) {
        Some(v) => v,
        None => {
            return None;
        },
    };
    let ins = match parse_rat(car.insurance_cost.as_str()) {
        Some(v) => v,
        None => {
            return None;
        },
    };
    proof {
        lemma_parse_q_wf(car.purchase_price@);
        lemma_parse_q_wf(car.current_mileage@);
        lemma_parse_q_wf(car.mpg@);
        lemma_parse_q_wf(car.insurance_cost@);
        lemma_q_sign(mpg@, mpg_q(*car));
        lemma_q_zero_sign(mpg@);
        lemma_q_zero_sign(mpg_q(*car));
        lemma_q_zero_sign(settings.annual_mileage@);
    }
    if mpg.num <= 0 || settings.annual_mileage.num <= 0 {
        return None;
    }
    let rem = match settings.lifetime_miles.sub(cm) {
        Some(v) => v,
        None => {
            return None;
        },
    };
    proof {
        lemma_q_sub_congr(settings.lifetime_miles@, settings.lifetime_miles@, cm@, mileage_q(*car));
        lemma_q_ops_wf(settings.lifetime_miles@, cm@);
        lemma_q_eq_trans(rem@, q_sub(settings.lifetime_miles@, cm@), remaining_q(*car, *settings));
        lemma_q_ops_wf(settings.lifetime_miles@, mileage_q(*car));
        lemma_q_sign(rem@, remaining_q(*car, *settings));
        lemma_q_zero_sign(rem@);
        lemma_q_zero_sign(remaining_q(*car, *settings));
    }
    if rem.num <= 0 {
        return None;
    }
    let years = match rem.div(settings.annual_mileage) {
        Some(v) => v,
        None => {
            return None;
        },
    };
    proof {
        lemma_q_div_congr(
            rem@,
            remaining_q(*car, *settings),
            settings.annual_mileage@,
            settings.annual_mileage@,
        );
        lemma_q_ops_wf(rem@, settings.annual_mileage@);
        lemma_q_eq_trans(years@, q_div(rem@, settings.annual_mileage@), years_q(*car, *settings));
        lemma_q_ops_wf(remaining_q(*car, *settings), settings.annual_mileage@);
        assert(q_div(rem@, settings.annual_mileage@).n > 0) by (nonlinear_arith)
            requires
                rem.num > 0,
                settings.annual_mileage.num > 0,
                settings.annual_mileage.den >= 1,
                q_div(rem@, settings.annual_mileage@).n == rem.num as int
                    * settings.annual_mileage.den as int;
        lemma_q_sign(years@, q_div(rem@, settings.annual_mileage@));
    }
    let t1 = match rem.div(mpg) {
        Some(v) => v,
        None => {
            return None;
        },
    };
    let fuel_total = match t1.mul(settings.average_gas_price) {
        Some(v) => v,
        None => {
            return None;
        },
    };
    proof {
        lemma_q_div_congr(rem@, remaining_q(*car, *settings), mpg@, mpg_q(*car));
        lemma_q_ops_wf(rem@, mpg@);
        lemma_q_eq_trans(
            t1@,
            q_div(rem@, mpg@),
            q_div(remaining_q(*car, *settings), mpg_q(*car)),
        );
        lemma_q_mul_congr(
            t1@,
            q_div(remaining_q(*car, *settings), mpg_q(*car)),
            settings.average_gas_price@,
            settings.average_gas_price@,
        );
        lemma_q_ops_wf(t1@, settings.average_gas_price@);
        lemma_q_eq_trans(
            fuel_total@,
            q_mul(t1@, settings.average_gas_price@),
            fuel_total_q(*car, *settings),
        );
    }
    let fuel_annual = match fuel_total.div(years) {
        Some(v) => v,
        None => {
            return None;
        },
    };
    proof {
        lemma_q_div_congr(fuel_total@, fuel_total_q(*car, *settings), years@, years_q(
            *car,
            *settings,
        ));
        lemma_q_ops_wf(fuel_total@, years@);
        lemma_q_eq_trans(fuel_annual@, q_div(fuel_total@, years@), fuel_annual_q(*car, *settings));
    }
    let ins_annual = match ins.mul(Rat::from_int(2)) {
        Some(v) => v,
        None => {
            return None;
        },
    };
    proof {
        lemma_q_mul_congr(ins@, insurance_q(*car), q_int(2), q_int(2));
        lemma_q_ops_wf(ins@, q_int(2));
        lemma_q_eq_trans(ins_annual@, q_mul(ins@, q_int(2)), insurance_annual_q(*car));
    }
    let ghost k = spec_key(car.make@, car.model@);
    let maint_total = match maintenance_db.get(car.make.as_str(), car.model.as_str()) {
        Some(md) => {
            let endm = match cm.add(rem) {
                Some(v) => v,
                None => {
                    return None;
                },
            };
            let mc = match md.cost_for_mileage_range(cm, endm) {
                Some(v) => v,
                None => {
                    return None;
                },
            };
            let age = match cm.div(settings.annual_mileage) {
                Some(v) => v,
                None => {
                    return None;
                },
            };
            let endage = match age.add(years) {
                Some(v) => v,
                None => {
                    return None;
                },
            };
            let tc = match md.cost_for_time_range(age, endage) {
                Some(v) => v,
                None => {
                    return None;
                },
            };
            let sum = match mc.add(tc) {
                Some(v) => v,
                None => {
                    return None;
                },
            };
            let half = match sum.div(Rat::from_int(2)) {
                Some(v) => v,
                None => {
                    return None;
                },
            };
            proof {
                let cmr = mileage_q(*car);
                let remr = remaining_q(*car, *settings);
                lemma_q_add_congr(cm@, cmr, rem@, remr);
                lemma_q_ops_wf(cm@, rem@);
                lemma_q_eq_trans(endm@, q_add(cm@, rem@), end_mileage_q(*car, *settings));
                lemma_q_ops_wf(cmr, remr);
                lemma_mileage_cost_congr(
                    md.by_mileage@,
                    cm@,
                    endm@,
                    cmr,
                    end_mileage_q(*car, *settings),
                );
                lemma_q_eq_trans(
                    mc@,
                    mileage_cost(md.by_mileage@, cm@, endm@),
                    mileage_cost(md.by_mileage@, cmr, end_mileage_q(*car, *settings)),
                );
                lemma_q_div_congr(cm@, cmr, settings.annual_mileage@, settings.annual_mileage@);
                lemma_q_ops_wf(cm@, settings.annual_mileage@);
                lemma_q_eq_trans(age@, q_div(cm@, settings.annual_mileage@), age_q(
                    *car,
                    *settings,
                ));
                lemma_q_ops_wf(cmr, settings.annual_mileage@);
                lemma_q_add_congr(age@, age_q(*car, *settings), years@, years_q(*car, *settings));
                lemma_q_ops_wf(age@, years@);
                lemma_q_eq_trans(endage@, q_add(age@, years@), end_age_q(*car, *settings));
                lemma_q_ops_wf(age_q(*car, *settings), years_q(*car, *settings));
                lemma_incr_cost_congr(
                    md.by_time@,
                    age@,
                    endage@,
                    age_q(*car, *settings),
                    end_age_q(*car, *settings),
                );
                lemma_q_eq_trans(
                    tc@,
                    incr_cost(md.by_time@, age@, endage@),
                    incr_cost(md.by_time@, age_q(*car, *settings), end_age_q(*car, *settings)),
                );
                lemma_q_add_congr(
                    mc@,
                    mileage_cost(md.by_mileage@, cmr, end_mileage_q(*car, *settings)),
                    tc@,
                    incr_cost(md.by_time@, age_q(*car, *settings), end_age_q(*car, *settings)),
                );
                lemma_q_ops_wf(mc@, tc@);
                lemma_q_eq_trans(
                    sum@,
                    q_add(mc@, tc@),
                    q_add(
                        mileage_cost(md.by_mileage@, cmr, end_mileage_q(*car, *settings)),
                        incr_cost(md.by_time@, age_q(*car, *settings), end_age_q(*car, *settings)),
                    ),
                );
                lemma_q_div_congr(
                    sum@,
                    q_add(
                        mileage_cost(md.by_mileage@, cmr, end_mileage_q(*car, *settings)),
                        incr_cost(md.by_time@, age_q(*car, *settings), end_age_q(*car, *settings)),
                    ),
                    q_int(2),
                    q_int(2),
                );
                lemma_q_ops_wf(sum@, q_int(2));
                lemma_q_eq_trans(
                    half@,
                    q_div(sum@, q_int(2)),
                    maintenance_total_q(*car, *settings, m),
                );
            }
            half
        },
        None => Rat::zero(),
    };
    proof {
        assert(maintenance_r(m, k, cm, rem, years, settings.annual_mileage) == Some(maint_total));
        assert(q_eq(maint_total@, maintenance_total_q(*car, *settings, m)));
        assert(q_wf(maintenance_total_q(*car, *settings, m))) by {
            if m.contains_key(k) {
                lemma_q_ops_wf(
                    mileage_cost(m[k].by_mileage@, mileage_q(*car), end_mileage_q(*car, *settings)),
                    incr_cost(m[k].by_time@, age_q(*car, *settings), end_age_q(*car, *settings)),
                );
                lemma_q_ops_wf(
                    q_add(
                        mileage_cost(
                            m[k].by_mileage@,
                            mileage_q(*car),
                            end_mileage_q(*car, *settings),
                        ),
                        incr_cost(
                            m[k].by_time@,
                            age_q(*car, *settings),
                            end_age_q(*car, *settings),
                        ),
                    ),
                    q_int(2),
                );
            }
        }
    }
    let maint_annual = match maint_total.div(years) {
        Some(v) => v,
        None => {
            return None;
        },
    };
    proof {
        lemma_q_div_congr(
            maint_total@,
            maintenance_total_q(*car, *settings, m),
            years@,
            years_q(*car, *settings),
        );
        lemma_q_ops_wf(maint_total@, years@);
        lemma_q_eq_trans(
            maint_annual@,
            q_div(maint_total@, years@),
            maintenance_annual_q(*car, *settings, m),
        );
    }
    let rate = match settings.opportunity_cost_rate.div(Rat::from_int(100)) {
        Some(v) => v,
        None => {
            return None;
        },
    };
    let t2 = match pp.mul(rate) {
        Some(v) => v,
        None => {
            return None;
        },
    };
    let opp = match t2.mul(years) {
        Some(v) => v,
        None => {
            return None;
        },
    };
    proof {
        lemma_q_mul_congr(
            pp@,
            purchase_price_q(*car),
            rate@,
            q_div(settings.opportunity_cost_rate@, q_int(100)),
        );
        lemma_q_ops_wf(pp@, rate@);
        lemma_q_eq_trans(
            t2@,
            q_mul(pp@, rate@),
            q_mul(purchase_price_q(*car), q_div(settings.opportunity_cost_rate@, q_int(100))),
        );
        lemma_q_mul_congr(
            t2@,
            q_mul(purchase_price_q(*car), q_div(settings.opportunity_cost_rate@, q_int(100))),
            years@,
            years_q(*car, *settings),
        );
        lemma_q_ops_wf(t2@, years@);
        lemma_q_eq_trans(opp@, q_mul(t2@, years@), opportunity_q(*car, *settings));
    }
    let t3 = match pp.add(fuel_total) {
        Some(v) => v,
        None => {
            return None;
        },
    };
    let t4 = match t3.add(maint_total) {
        Some(v) => v,
        None => {
            return None;
        },
    };
    let t5 = match ins_annual.mul(years) {
        Some(v) => v,
        None => {
            return None;
        },
    };
    let t6 = match t4.add(t5) {
        Some(v) => v,
        None => {
            return None;
        },
    };
    let total = match t6.add(opp) {
        Some(v) => v,
        None => {
            return None;
        },
    };
    let annual = match total.div(years) {
        Some(v) => v,
        None => {
            return None;
        },
    };
    proof {
        lemma_q_add_congr(pp@, purchase_price_q(*car), fuel_total@, fuel_total_q(*car, *settings));
        lemma_q_ops_wf(pp@, fuel_total@);
        lemma_q_eq_trans(
            t3@,
            q_add(pp@, fuel_total@),
            q_add(purchase_price_q(*car), fuel_total_q(*car, *settings)),
        );
        lemma_q_add_congr(
            t3@,
            q_add(purchase_price_q(*car), fuel_total_q(*car, *settings)),
            maint_total@,
            maintenance_total_q(*car, *settings, m),
        );
        lemma_q_ops_wf(t3@, maint_total@);
        lemma_q_eq_trans(
            t4@,
            q_add(t3@, maint_total@),
            q_add(
                q_add(purchase_price_q(*car), fuel_total_q(*car, *settings)),
                maintenance_total_q(*car, *settings, m),
            ),
        );
        lemma_q_mul_congr(
            ins_annual@,
            insurance_annual_q(*car),
            years@,
            years_q(*car, *settings),
        );
        lemma_q_ops_wf(ins_annual@, years@);
        lemma_q_eq_trans(
            t5@,
            q_mul(ins_annual@, years@),
            q_mul(insurance_annual_q(*car), years_q(*car, *settings)),
        );
        lemma_q_add_congr(
            t4@,
            q_add(
                q_add(purchase_price_q(*car), fuel_total_q(*car, *settings)),
                maintenance_total_q(*car, *settings, m),
            ),
            t5@,
            q_mul(insurance_annual_q(*car), years_q(*car, *settings)),
        );
        lemma_q_ops_wf(t4@, t5@);
        lemma_q_eq_trans(
            t6@,
            q_add(t4@, t5@),
            q_add(
                q_add(
                    q_add(purchase_price_q(*car), fuel_total_q(*car, *settings)),
                    maintenance_total_q(*car, *settings, m),
                ),
                q_mul(insurance_annual_q(*car), years_q(*car, *settings)),
            ),
        );
        lemma_q_add_congr(
            t6@,
            q_add(
                q_add(
                    q_add(purchase_price_q(*car), fuel_total_q(*car, *settings)),
                    maintenance_total_q(*car, *settings, m),
                ),
                q_mul(insurance_annual_q(*car), years_q(*car, *settings)),
            ),
            opp@,
            opportunity_q(*car, *settings),
        );
        lemma_q_ops_wf(t6@, opp@);
        lemma_q_eq_trans(total@, q_add(t6@, opp@), total_cost_q(*car, *settings, m));
        lemma_q_div_congr(total@, total_cost_q(*car, *settings, m), years@, years_q(
            *car,
            *settings,
        ));
        lemma_q_ops_wf(total@, years@);
        lemma_q_eq_trans(annual@, q_div(total@, years@), annual_cost_q(*car, *settings, m));
    }
    Some(
        ComputedCarData {
            remaining_miles: rem,
            years_remaining: years,
            fuel_cost_total: fuel_total,
            fuel_cost_annual: fuel_annual,
            insurance_cost_annual: ins_annual,
            maintenance_cost_total: maint_total,
            maintenance_cost_annual: maint_annual,
            opportunity_cost: opp,
            total_cost_of_ownership: total,
            annual_cost: annual,
        },
    )
}

} // verus!
