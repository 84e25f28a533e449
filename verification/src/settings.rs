//! Shared ownership assumptions, applied to every vehicle.

use vstd::prelude::*;

use crate::rational::Rat;

verus! {

/// The four shared assumptions of the cost projection.  All are exact
/// rationals; the composer validates them at use time.
#[derive(Clone, Copy, Debug, PartialEq, Eq, Structural)]
pub struct SharedSettings {
    /// Opportunity-cost annual rate, in percent.
    pub opportunity_cost_rate: Rat,
    /// Assumed distance driven per year.
    pub annual_mileage: Rat,
    /// Assumed lifetime distance: the retirement threshold.
    pub lifetime_miles: Rat,
    /// Average fuel price per unit.
    pub average_gas_price: Rat,
}

impl SharedSettings {
    /// All four assumptions keep positive denominators.
    pub open spec fn wf(self) -> bool {
        self.opportunity_cost_rate.wf() && self.annual_mileage.wf() && self.lifetime_miles.wf()
            && self.average_gas_price.wf()
    }
}

impl Default for SharedSettings {
    /// The default assumptions: an 8 percent rate, 12000 distance units per
    /// year, a 200000 unit lifetime, and 3.50 per fuel unit.
    fn default() -> (r: SharedSettings)
        ensures
            r.opportunity_cost_rate == (Rat { num: 8, den: 1 }),
            r.annual_mileage == (Rat { num: 12000, den: 1 }),
            r.lifetime_miles == (Rat { num: 200000, den: 1 }),
            r.average_gas_price == (Rat { num: 7, den: 2 }),
            r.wf(),
    {
        SharedSettings {
            opportunity_cost_rate: Rat { num: 8, den: 1 },
            annual_mileage: Rat { num: 12000, den: 1 },
            lifetime_miles: Rat { num: 200000, den: 1 },
            average_gas_price: Rat { num: 7, den: 2 },
        }
    }
}

} // verus!
