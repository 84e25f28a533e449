use car_tco::{
    compute_car_data, get_sample_maintenance_data, parse_rat, Car, MaintenanceCostData,
    MaintenanceCostDatabase, MaintenanceDataPoint, Rat, SharedSettings,
};

fn pt(x: i64, y: i64) -> MaintenanceDataPoint {
    MaintenanceDataPoint { x: Rat::from_int(x), y: Rat::from_int(y) }
}

fn valid_car() -> Car {
    let mut car = Car::new(7);
    car.make = "Toyota".to_string();
    car.model = "Prius".to_string();
    car.purchase_price = "25000".to_string();
    car.current_mileage = "50000".to_string();
    car.mpg = "50".to_string();
    car.insurance_cost = "500".to_string();
    car
}

#[test]
fn parse_accepts_plain_decimals() {
    assert_eq!(parse_rat("25000"), Some(Rat { num: 25000, den: 1 }));
    assert_eq!(parse_rat("3.50"), Some(Rat { num: 7, den: 2 }));
    assert_eq!(parse_rat("-2.5"), Some(Rat { num: -5, den: 2 }));
    assert_eq!(parse_rat("+10"), Some(Rat { num: 10, den: 1 }));
    assert_eq!(parse_rat("3."), Some(Rat { num: 3, den: 1 }));
    assert_eq!(parse_rat(".5"), Some(Rat { num: 1, den: 2 }));
    assert_eq!(parse_rat("0"), Some(Rat { num: 0, den: 1 }));
    assert_eq!(parse_rat("0.000"), Some(Rat { num: 0, den: 1 }));
}

#[test]
fn parse_accepts_exponent_forms() {
    assert_eq!(parse_rat("1e5"), Some(Rat { num: 100000, den: 1 }));
    assert_eq!(parse_rat("2.5e2"), Some(Rat { num: 250, den: 1 }));
    assert_eq!(parse_rat("2.5E2"), Some(Rat { num: 250, den: 1 }));
    assert_eq!(parse_rat("1e+3"), Some(Rat { num: 1000, den: 1 }));
    assert_eq!(parse_rat("1.5e-3"), Some(Rat { num: 3, den: 2000 }));
    assert_eq!(parse_rat("-1e-2"), Some(Rat { num: -1, den: 100 }));
    assert_eq!(parse_rat("5e0"), Some(Rat { num: 5, den: 1 }));
    assert_eq!(parse_rat("7e-0"), Some(Rat { num: 7, den: 1 }));
    // A zero significand absorbs any exponent.
    assert_eq!(parse_rat("0e999999999999999999999"), Some(Rat { num: 0, den: 1 }));
    // Exponents that push the exact value outside 64 bits yield nothing.
    assert_eq!(parse_rat("1e9999"), None);
    assert_eq!(parse_rat("7e-9999"), None);
    assert_eq!(parse_rat("2e40"), None);
}

#[test]
fn parse_rejects_non_numerals() {
    assert_eq!(parse_rat(""), None);
    assert_eq!(parse_rat("."), None);
    assert_eq!(parse_rat("-"), None);
    assert_eq!(parse_rat("abc"), None);
    assert_eq!(parse_rat("1.2.3"), None);
    assert_eq!(parse_rat("12 "), None);
    assert_eq!(parse_rat("1e"), None);
    assert_eq!(parse_rat("1e+"), None);
    assert_eq!(parse_rat("1e--2"), None);
    assert_eq!(parse_rat("e5"), None);
    assert_eq!(parse_rat("1e5x"), None);
    assert_eq!(parse_rat("inf"), None);
    assert_eq!(parse_rat("NaN"), None);
    // More digits than any 128-bit intermediate can hold.
    assert_eq!(parse_rat("99999999999999999999999999999999999999999"), None);
}

#[test]
fn rational_values_are_reduced() {
    assert_eq!(Rat::new(2, 4), Rat { num: 1, den: 2 });
    assert_eq!(Rat::new(-6, 4), Rat { num: -3, den: 2 });
    assert_eq!(Rat::new(0, 7), Rat { num: 0, den: 1 });
    let a = Rat::new(1, 3).add(Rat::new(1, 6)).unwrap();
    assert_eq!(a, Rat { num: 1, den: 2 });
    let b = Rat::new(2, 3).mul(Rat::new(3, 2)).unwrap();
    assert_eq!(b, Rat { num: 1, den: 1 });
    let c = Rat::new(1, 2).sub(Rat::new(1, 2)).unwrap();
    assert_eq!(c, Rat { num: 0, den: 1 });
    let d = Rat::new(1, 2).div(Rat::new(-1, 4)).unwrap();
    assert_eq!(d, Rat { num: -2, den: 1 });
}

#[test]
fn default_settings_match_the_documented_values() {
    let s = SharedSettings::default();
    assert_eq!(s.opportunity_cost_rate, Rat { num: 8, den: 1 });
    assert_eq!(s.annual_mileage, Rat { num: 12000, den: 1 });
    assert_eq!(s.lifetime_miles, Rat { num: 200000, den: 1 });
    assert_eq!(s.average_gas_price, Rat { num: 7, den: 2 });
}

#[test]
fn interpolation_is_exact_at_sample_points() {
    // valueAt(curve, 2) == 200 for [(1,100),(2,200),(3,300)]: the cost from
    // the origin to 20000 distance units is exactly 200.
    let mut data = MaintenanceCostData::new("Any".to_string(), "One".to_string());
    data.by_mileage = vec![pt(1, 100), pt(2, 200), pt(3, 300)];
    let cost = data.cost_for_mileage_range(Rat::from_int(0), Rat::from_int(20000)).unwrap();
    assert_eq!(cost, Rat::from_int(200));
}

#[test]
fn interpolation_is_linear_between_samples() {
    // valueAt(curve, 1.5) == 150.
    let mut data = MaintenanceCostData::new("Any".to_string(), "One".to_string());
    data.by_mileage = vec![pt(1, 100), pt(2, 200), pt(3, 300)];
    let cost = data.cost_for_mileage_range(Rat::from_int(0), Rat::from_int(15000)).unwrap();
    assert_eq!(cost, Rat::from_int(150));
}

#[test]
fn incremental_cost_matches_the_slope() {
    // incrementalCost(curve, 10000, 20000) == 100: one curve unit at $100.
    let mut data = MaintenanceCostData::new("Any".to_string(), "One".to_string());
    data.by_mileage = vec![pt(1, 100), pt(2, 200), pt(3, 300)];
    let cost = data.cost_for_mileage_range(Rat::from_int(10000), Rat::from_int(20000)).unwrap();
    assert_eq!(cost, Rat::from_int(100));
}

#[test]
fn extrapolation_exceeds_the_last_sample() {
    // valueAt at x=3 on [(1,100),(2,200)] continues the trend strictly
    // beyond 200.
    let mut data = MaintenanceCostData::new("Any".to_string(), "One".to_string());
    data.by_mileage = vec![pt(1, 100), pt(2, 200)];
    let cost = data.cost_for_mileage_range(Rat::from_int(0), Rat::from_int(30000)).unwrap();
    assert!(Rat::from_int(200).lt(cost));
    assert_eq!(cost, Rat::from_int(300));
}

#[test]
fn incremental_cost_is_zero_on_empty_or_reversed_ranges() {
    let empty = MaintenanceCostData::new("No".to_string(), "Data".to_string());
    let zero = Rat::from_int(0);
    assert_eq!(empty.cost_for_mileage_range(Rat::from_int(0), Rat::from_int(10000)), Some(zero));
    assert_eq!(empty.cost_for_time_range(Rat::from_int(0), Rat::from_int(5)), Some(zero));

    let mut data = MaintenanceCostData::new("Any".to_string(), "One".to_string());
    data.by_mileage = vec![pt(1, 100), pt(2, 200)];
    data.by_time = vec![pt(1, 100), pt(2, 200)];
    // end <= start
    assert_eq!(data.cost_for_mileage_range(Rat::from_int(20000), Rat::from_int(10000)), Some(zero));
    assert_eq!(data.cost_for_mileage_range(Rat::from_int(10000), Rat::from_int(10000)), Some(zero));
    assert_eq!(data.cost_for_time_range(Rat::from_int(5), Rat::from_int(2)), Some(zero));
    // and never negative, even on a falling curve
    let mut falling = MaintenanceCostData::new("Odd".to_string(), "One".to_string());
    falling.by_mileage = vec![pt(1, 300), pt(2, 100)];
    let cost = falling.cost_for_mileage_range(Rat::from_int(10000), Rat::from_int(20000)).unwrap();
    assert_eq!(cost, zero);
}

#[test]
fn missing_or_invalid_fields_yield_no_result() {
    let db = MaintenanceCostDatabase::default();
    let settings = SharedSettings::default();

    let mut car = valid_car();
    car.mpg = "".to_string();
    assert!(compute_car_data(&car, &settings, &db).is_none());

    let mut car = valid_car();
    car.purchase_price = "not a number".to_string();
    assert!(compute_car_data(&car, &settings, &db).is_none());

    let mut car = valid_car();
    car.insurance_cost = "12..0".to_string();
    assert!(compute_car_data(&car, &settings, &db).is_none());

    // non-positive fuel efficiency is rejected
    let mut car = valid_car();
    car.mpg = "0".to_string();
    assert!(compute_car_data(&car, &settings, &db).is_none());
    car.mpg = "-3".to_string();
    assert!(compute_car_data(&car, &settings, &db).is_none());

    // a non-positive assumed annual distance is rejected
    let car = valid_car();
    let mut bad = settings;
    bad.annual_mileage = Rat::from_int(0);
    assert!(compute_car_data(&car, &bad, &db).is_none());
}

#[test]
fn vehicles_past_their_lifetime_yield_no_result() {
    let db = MaintenanceCostDatabase::default();
    let settings = SharedSettings::default();

    let mut car = valid_car();
    car.current_mileage = "200000".to_string();
    assert!(compute_car_data(&car, &settings, &db).is_none());
    car.current_mileage = "250000".to_string();
    assert!(compute_car_data(&car, &settings, &db).is_none());
    car.current_mileage = "199999".to_string();
    assert!(compute_car_data(&car, &settings, &db).is_some());
}

#[test]
fn projection_is_exact_on_a_full_scenario() {
    let db = get_sample_maintenance_data();
    let settings = SharedSettings::default();
    let car = valid_car();

    let c = compute_car_data(&car, &settings, &db).unwrap();
    assert_eq!(c.remaining_miles, Rat::from_int(150000));
    assert_eq!(c.years_remaining, Rat::new(25, 2));
    assert_eq!(c.fuel_cost_total, Rat::from_int(10500));
    assert_eq!(c.fuel_cost_annual, Rat::from_int(840));
    assert_eq!(c.insurance_cost_annual, Rat::from_int(1000));
    // Mileage: curve value 9500 at 20 units minus 1800 at 5 units is 7700.
    // Time: 25/6 years to 50/3 years on the Prius time curve is 22250/3.
    // Blended: (7700 + 22250/3) / 2 == 22675/3.
    assert_eq!(c.maintenance_cost_total, Rat::new(22675, 3));
    // (22675/3) / (25/2) == 1814/3
    assert_eq!(c.maintenance_cost_annual, Rat::new(1814, 3));
    assert_eq!(c.opportunity_cost, Rat::from_int(25000));
    // 25000 + 10500 + 22675/3 + 12500 + 25000 == 241675/3
    assert_eq!(c.total_cost_of_ownership, Rat::new(241675, 3));
    assert_eq!(c.annual_cost, Rat::new(19334, 3));
}

#[test]
fn projection_without_curve_data_has_zero_maintenance() {
    let db = MaintenanceCostDatabase::default();
    let settings = SharedSettings::default();
    let car = valid_car();

    let c = compute_car_data(&car, &settings, &db).unwrap();
    assert_eq!(c.maintenance_cost_total, Rat::from_int(0));
    assert_eq!(c.maintenance_cost_annual, Rat::from_int(0));
    assert_eq!(c.total_cost_of_ownership, Rat::from_int(73000));
}

#[test]
fn projection_is_idempotent() {
    let db = get_sample_maintenance_data();
    let settings = SharedSettings::default();
    let car = valid_car();

    let first = compute_car_data(&car, &settings, &db);
    let second = compute_car_data(&car, &settings, &db);
    assert_eq!(first, second);
    assert!(first.is_some());
}

#[test]
fn lookup_is_case_insensitive() {
    let db = get_sample_maintenance_data();
    // The table stores "Toyota"/"Prius"; a lookup under any casing finds it.
    assert!(db.get("TOYOTA", "prius").is_some());
    assert!(db.get("toyota", "PRIUS").is_some());
    assert!(db.get("Honda", "Prius").is_none());
}

#[test]
fn database_set_replaces_and_remove_deletes() {
    let mut db = MaintenanceCostDatabase::default();
    let mut first = MaintenanceCostData::new("Make".to_string(), "Model".to_string());
    first.by_mileage = vec![pt(1, 100)];
    db.set(first);
    assert_eq!(db.get("Make", "Model").unwrap().by_mileage.len(), 1);
    assert_eq!(db.get_all_keys().len(), 1);

    let mut second = MaintenanceCostData::new("MAKE".to_string(), "MODEL".to_string());
    second.by_mileage = vec![pt(1, 100), pt(2, 200)];
    db.set(second);
    // Same normalized key: the entry was replaced, not duplicated.
    assert_eq!(db.get("make", "model").unwrap().by_mileage.len(), 2);
    assert_eq!(db.get_all_keys().len(), 1);

    db.remove("Make", "Model");
    assert!(db.get("Make", "Model").is_none());
    assert_eq!(db.get_all_keys().len(), 0);
}

#[test]
fn get_all_keys_lists_every_entry() {
    let db = get_sample_maintenance_data();
    let keys = db.get_all_keys();
    assert_eq!(keys.len(), 2);
    assert!(keys.contains(&("Toyota".to_string(), "Prius".to_string())));
    assert!(keys.contains(&("Ford".to_string(), "F-150".to_string())));
}
