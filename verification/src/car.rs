//! The vehicle record that feeds the cost projection.

use vstd::prelude::*;

verus! {

/// A vehicle as entered in a form: a stable integer id, free-text
/// descriptive fields, and the four fields the projection needs, kept as raw
/// text because the form tolerates transiently empty or invalid entries.
/// The engine alone parses and validates them.
#[derive(Clone, Debug)]
pub struct Car {
    pub id: usize,
    pub make: String,
    pub model: String,
    pub trim: String,
    pub year: String,
    /// Purchase price, as entered.
    pub purchase_price: String,
    /// Current distance traveled, as entered.
    pub current_mileage: String,
    /// Fuel efficiency (distance per fuel unit), as entered.
    pub mpg: String,
    /// Six-month insurance premium, as entered.
    pub insurance_cost: String,
    pub vin: String,
    pub listing_url: String,
    pub notes: String,
}

impl Car {
    /// A fresh record with the given id and every text field empty.
    pub fn new(id: usize) -> (r: Car)
        ensures
            r.id == id,
            r.make@ == Seq::<char>::empty(),
            r.model@ == Seq::<char>::empty(),
            r.trim@ == Seq::<char>::empty(),
            r.year@ == Seq::<char>::empty(),
            r.purchase_price@ == Seq::<char>::empty(),
            r.current_mileage@ == Seq::<char>::empty(),
            r.mpg@ == Seq::<char>::empty(),
            r.insurance_cost@ == Seq::<char>::empty(),
            r.vin@ == Seq::<char>::empty(),
            r.listing_url@ == Seq::<char>::empty(),
            r.notes@ == Seq::<char>::empty(),
    {
        Car {
            id,
            make: String::new(),
            model: String::new(),
            trim: String::new(),
            year: String::new(),
            purchase_price: String::new(),
            current_mileage: String::new(),
            mpg: String::new(),
            insurance_cost: String::new(),
            vin: String::new(),
            listing_url: String::new(),
            notes: String::new(),
        }
    }
}

} // verus!
