//! The derived ownership-cost figures for one vehicle.

use vstd::prelude::*;

use crate::rational::Rat;

verus! {

/// The result of a cost projection.  Every field is derived; the record is
/// produced fresh on every computation and never patched in place.
#[derive(Clone, Copy, Debug, PartialEq, Eq, Structural)]
pub struct ComputedCarData {
    /// Distance left before the assumed retirement threshold.
    pub remaining_miles: Rat,
    /// Years left, at the assumed annual distance.
    pub years_remaining: Rat,
    /// Fuel cost over the remaining life.
    pub fuel_cost_total: Rat,
    /// Fuel cost per year.
    pub fuel_cost_annual: Rat,
    /// Insurance cost per year (twice the six-month premium).
    pub insurance_cost_annual: Rat,
    /// Blended maintenance cost over the remaining life.
    pub maintenance_cost_total: Rat,
    /// Maintenance cost per year.
    pub maintenance_cost_annual: Rat,
    /// Forgone return on the purchase price over the remaining life.
    pub opportunity_cost: Rat,
    /// Total cost of ownership over the remaining life.
    pub total_cost_of_ownership: Rat,
    /// Total cost of ownership per year.
    pub annual_cost: Rat,
}

impl ComputedCarData {
    /// Every figure keeps a positive denominator.
    pub open spec fn wf(self) -> bool {
        self.remaining_miles.wf() && self.years_remaining.wf() && self.fuel_cost_total.wf()
            && self.fuel_cost_annual.wf() && self.insurance_cost_annual.wf()
            && self.maintenance_cost_total.wf() && self.maintenance_cost_annual.wf()
            && self.opportunity_cost.wf() && self.total_cost_of_ownership.wf()
            && self.annual_cost.wf()
    }
}

} // verus!
