//! A vehicle total-cost-of-ownership projection engine.
//!
//! The engine consumes a vehicle record (with the numeric fields kept as raw
//! text, since they come from a form that tolerates incomplete entry), a set
//! of shared assumptions, and an optional pair of per-model maintenance cost
//! curves, and derives lifetime and annualized ownership-cost figures.
//!
//! All quantities are exact rational numbers ([`rational::Rat`]); every
//! arithmetic step either returns the exact reduced value or reports that the
//! value does not fit in the fixed-width representation.

mod car;
mod computed;
mod laws;
mod curve;
mod maintenance;
mod parse;
mod rational;
mod sample_maintenance;
mod settings;
mod tco;

pub use car::Car;
pub use computed::ComputedCarData;
pub use curve::MaintenanceDataPoint;
pub use maintenance::{MaintenanceCostData, MaintenanceCostDatabase};
pub use parse::parse_rat;
pub use rational::Rat;
pub use sample_maintenance::get_sample_maintenance_data;
pub use settings::SharedSettings;
pub use tco::compute_car_data;
