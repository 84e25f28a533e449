use car_tco::{
    compute_car_data, get_sample_maintenance_data, Car, MaintenanceCostData,
    MaintenanceCostDatabase, MaintenanceDataPoint, Rat, SharedSettings,
};

fn pt(x: i64, y: i64) -> MaintenanceDataPoint {
    MaintenanceDataPoint { x: Rat::from_int(x), y: Rat::from_int(y) }
}

#[test]
fn lib_test_maintenance_data_interpolation() {
    let mut data = MaintenanceCostData::new("Toyota".to_string(), "Prius".to_string());

    // Simple linear data: $100 per 10k miles
    data.by_mileage = vec![pt(1, 100), pt(2, 200), pt(3, 300)];

    // Test exact point
    let cost = data.cost_for_mileage_range(Rat::from_int(0), Rat::from_int(10000)).unwrap();
    assert!(cost == Rat::from_int(100), "Expected ~100, got {:?}", cost);

    // Test interpolation
    let cost = data.cost_for_mileage_range(Rat::from_int(0), Rat::from_int(15000)).unwrap();
    assert!(cost == Rat::from_int(150), "Expected ~150, got {:?}", cost);

    // Test range
    let cost = data.cost_for_mileage_range(Rat::from_int(10000), Rat::from_int(20000)).unwrap();
    assert!(cost == Rat::from_int(100), "Expected ~100, got {:?}", cost);
}

#[test]
fn lib_test_maintenance_data_extrapolation() {
    let mut data = MaintenanceCostData::new("Toyota".to_string(), "Prius".to_string());

    data.by_mileage = vec![pt(1, 100), pt(2, 200)];

    // Test extrapolation beyond last point
    let cost = data.cost_for_mileage_range(Rat::from_int(0), Rat::from_int(30000)).unwrap();
    assert!(Rat::from_int(200).lt(cost), "Expected >200, got {:?}", cost);
}

#[test]
fn lib_test_sample_data_exists() {
    let db = get_sample_maintenance_data();

    // Test that Toyota Prius exists
    let prius = db.get("Toyota", "Prius");
    assert!(prius.is_some(), "Toyota Prius should exist in sample data");

    let prius = prius.unwrap();
    assert!(!prius.by_mileage.is_empty(), "Prius should have mileage data");
    assert!(!prius.by_time.is_empty(), "Prius should have time data");

    // Test that Ford F-150 exists
    let f150 = db.get("Ford", "F-150");
    assert!(f150.is_some(), "Ford F-150 should exist in sample data");

    let f150 = f150.unwrap();
    assert!(!f150.by_mileage.is_empty(), "F-150 should have mileage data");
    assert!(!f150.by_time.is_empty(), "F-150 should have time data");

    // Verify F-150 costs more than Prius (trucks typically cost more to maintain)
    let prius_100k =
        prius.cost_for_mileage_range(Rat::from_int(0), Rat::from_int(100000)).unwrap();
    let f150_100k = f150.cost_for_mileage_range(Rat::from_int(0), Rat::from_int(100000)).unwrap();
    assert!(prius_100k.lt(f150_100k), "F-150 should cost more than Prius to maintain");
}

#[test]
fn lib_test_maintenance_cost_calculation_with_car() {
    let db = get_sample_maintenance_data();
    let settings = SharedSettings::default();

    let mut car = Car::new(1);
    car.make = "Toyota".to_string();
    car.model = "Prius".to_string();
    car.purchase_price = "25000".to_string();
    car.current_mileage = "50000".to_string();
    car.mpg = "50".to_string();
    car.insurance_cost = "500".to_string();

    let computed = compute_car_data(&car, &settings, &db);
    assert!(computed.is_some(), "Should compute data for valid car");

    let computed = computed.unwrap();
    assert!(
        Rat::from_int(0).lt(computed.maintenance_cost_total),
        "Should have maintenance costs"
    );
    assert!(
        Rat::from_int(0).lt(computed.maintenance_cost_annual),
        "Should have annual maintenance costs"
    );

    // Maintenance should be included in total
    assert!(
        computed.fuel_cost_total.lt(computed.total_cost_of_ownership),
        "TCO should include more than just fuel"
    );
}

#[test]
fn lib_test_maintenance_cost_50_50_split() {
    let mut data = MaintenanceCostData::new("Test".to_string(), "Car".to_string());

    // Set up simple linear data: $100 per 10k miles / per year
    data.by_mileage = vec![pt(10, 1000), pt(20, 2000)];
    data.by_time = vec![pt(10, 1200), pt(20, 2400)];

    let mut db = MaintenanceCostDatabase::default();
    db.set(data);

    let settings = SharedSettings::default(); // 12k miles/year, 200k lifetime

    let mut car = Car::new(1);
    car.make = "Test".to_string();
    car.model = "Car".to_string();
    car.purchase_price = "10000".to_string();
    car.current_mileage = "0".to_string();
    car.mpg = "30".to_string();
    car.insurance_cost = "500".to_string();

    let computed = compute_car_data(&car, &settings, &db);
    assert!(computed.is_some());

    let computed = computed.unwrap();

    // Car will go from 0 to 200k miles (20.0 x units) and 0 to ~16.67 years
    // Mileage cost: 2000 (20.0 * 100 per unit)
    // Time cost: ~2000 (16.67 * 120 per year)
    // Average: 2000

    // Verify it's using both mileage and time (should be ~2000 for 50/50 split)
    assert!(
        Rat::from_int(1500).lt(computed.maintenance_cost_total)
            && computed.maintenance_cost_total.lt(Rat::from_int(2500)),
        "Maintenance cost should be around 2000 for 50/50 split. Got {:?}",
        computed.maintenance_cost_total
    );
}

#[test]
fn calculations_test_maintenance_data_interpolation() {
    let mut data = MaintenanceCostData::new("Toyota".to_string(), "Prius".to_string());

    data.by_mileage = vec![pt(1, 100), pt(2, 200), pt(3, 300)];

    let cost = data.cost_for_mileage_range(Rat::from_int(0), Rat::from_int(10000)).unwrap();
    assert!(cost == Rat::from_int(100), "Expected ~100, got {:?}", cost);

    let cost = data.cost_for_mileage_range(Rat::from_int(0), Rat::from_int(15000)).unwrap();
    assert!(cost == Rat::from_int(150), "Expected ~150, got {:?}", cost);

    let cost = data.cost_for_mileage_range(Rat::from_int(10000), Rat::from_int(20000)).unwrap();
    assert!(cost == Rat::from_int(100), "Expected ~100, got {:?}", cost);
}

#[test]
fn calculations_test_maintenance_data_extrapolation() {
    let mut data = MaintenanceCostData::new("Toyota".to_string(), "Prius".to_string());

    data.by_mileage = vec![pt(1, 100), pt(2, 200)];

    let cost = data.cost_for_mileage_range(Rat::from_int(0), Rat::from_int(30000)).unwrap();
    assert!(Rat::from_int(200).lt(cost), "Expected >200, got {:?}", cost);
}

#[test]
fn calculations_test_sample_data_exists() {
    let db = get_sample_maintenance_data();

    let prius = db.get("Toyota", "Prius");
    assert!(prius.is_some(), "Toyota Prius should exist in sample data");

    let prius = prius.unwrap();
    assert!(!prius.by_mileage.is_empty(), "Prius should have mileage data");
    assert!(!prius.by_time.is_empty(), "Prius should have time data");

    let f150 = db.get("Ford", "F-150");
    assert!(f150.is_some(), "Ford F-150 should exist in sample data");

    let f150 = f150.unwrap();
    assert!(!f150.by_mileage.is_empty(), "F-150 should have mileage data");
    assert!(!f150.by_time.is_empty(), "F-150 should have time data");

    let prius_100k =
        prius.cost_for_mileage_range(Rat::from_int(0), Rat::from_int(100000)).unwrap();
    let f150_100k = f150.cost_for_mileage_range(Rat::from_int(0), Rat::from_int(100000)).unwrap();
    assert!(prius_100k.lt(f150_100k), "F-150 should cost more than Prius to maintain");
}

#[test]
fn calculations_test_maintenance_cost_calculation_with_car() {
    let db = get_sample_maintenance_data();
    let settings = SharedSettings::default();

    let mut car = Car::new(1);
    car.make = "Toyota".to_string();
    car.model = "Prius".to_string();
    car.purchase_price = "25000".to_string();
    car.current_mileage = "50000".to_string();
    car.mpg = "50".to_string();
    car.insurance_cost = "500".to_string();

    let computed = compute_car_data(&car, &settings, &db);
    assert!(computed.is_some(), "Should compute data for valid car");

    let computed = computed.unwrap();
    assert!(
        Rat::from_int(0).lt(computed.maintenance_cost_total),
        "Should have maintenance costs"
    );
    assert!(
        Rat::from_int(0).lt(computed.maintenance_cost_annual),
        "Should have annual maintenance costs"
    );
    assert!(
        computed.fuel_cost_total.lt(computed.total_cost_of_ownership),
        "TCO should include more than just fuel"
    );
}

#[test]
fn calculations_test_maintenance_cost_50_50_split() {
    let mut data = MaintenanceCostData::new("Test".to_string(), "Car".to_string());

    data.by_mileage = vec![pt(10, 1000), pt(20, 2000)];
    data.by_time = vec![pt(10, 1200), pt(20, 2400)];

    let mut db = MaintenanceCostDatabase::default();
    db.set(data);

    let settings = SharedSettings::default();

    let mut car = Car::new(1);
    car.make = "Test".to_string();
    car.model = "Car".to_string();
    car.purchase_price = "10000".to_string();
    car.current_mileage = "0".to_string();
    car.mpg = "30".to_string();
    car.insurance_cost = "500".to_string();

    let computed = compute_car_data(&car, &settings, &db);
    assert!(computed.is_some());

    let computed = computed.unwrap();
    assert!(
        Rat::from_int(1500).lt(computed.maintenance_cost_total)
            && computed.maintenance_cost_total.lt(Rat::from_int(2500)),
        "Maintenance cost should be around 2000 for 50/50 split. Got {:?}",
        computed.maintenance_cost_total
    );
}
