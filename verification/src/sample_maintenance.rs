//! Sample maintenance cost data for a pair of popular vehicles.

use vstd::prelude::*;
use vstd::string::*;

use crate::curve::MaintenanceDataPoint;
use crate::maintenance::{
    ascii_lowered, is_ascii_seq, lower_of, spec_key, MaintenanceCostData, MaintenanceCostDatabase,
};
use crate::rational::Rat;

verus! {

/// A curve sample at integer coordinates.
pub open spec fn sample_pt(x: i64, y: i64) -> MaintenanceDataPoint {
    MaintenanceDataPoint { x: Rat { num: x, den: 1 }, y: Rat { num: y, den: 1 } }
}

/// The sample Prius distance curve: cumulative cost per tens of thousands of
/// distance units.
pub open spec fn prius_mileage_points() -> Seq<MaintenanceDataPoint> {
    seq![
        sample_pt(1, 350),
        sample_pt(2, 700),
        sample_pt(3, 1100),
        sample_pt(4, 1450),
        sample_pt(5, 1800),
        sample_pt(6, 2300),
        sample_pt(7, 2700),
        sample_pt(8, 3100),
        sample_pt(9, 3650),
        sample_pt(10, 4100),
        sample_pt(12, 5200),
        sample_pt(15, 6800),
        sample_pt(20, 9500),
    ]
}

/// The sample Prius time curve: cumulative cost per year.
pub open spec fn prius_time_points() -> Seq<MaintenanceDataPoint> {
    seq![
        sample_pt(1, 420),
        sample_pt(2, 840),
        sample_pt(3, 1320),
        sample_pt(4, 1740),
        sample_pt(5, 2160),
        sample_pt(6, 2760),
        sample_pt(7, 3240),
        sample_pt(8, 3720),
        sample_pt(9, 4380),
        sample_pt(10, 4920),
        sample_pt(12, 6240),
        sample_pt(15, 8160),
    ]
}

/// The sample F-150 distance curve.
pub open spec fn f150_mileage_points() -> Seq<MaintenanceDataPoint> {
    seq![
        sample_pt(1, 500),
        sample_pt(2, 1000),
        sample_pt(3, 1600),
        sample_pt(4, 2150),
        sample_pt(5, 2700),
        sample_pt(6, 3400),
        sample_pt(7, 4000),
        sample_pt(8, 4600),
        sample_pt(9, 5350),
        sample_pt(10, 6000),
        sample_pt(12, 7600),
        sample_pt(15, 10000),
        sample_pt(20, 14000),
    ]
}

/// The sample F-150 time curve.
pub open spec fn f150_time_points() -> Seq<MaintenanceDataPoint> {
    seq![
        sample_pt(1, 600),
        sample_pt(2, 1200),
        sample_pt(3, 1920),
        sample_pt(4, 2580),
        sample_pt(5, 3240),
        sample_pt(6, 4080),
        sample_pt(7, 4800),
        sample_pt(8, 5520),
        sample_pt(9, 6420),
        sample_pt(10, 7200),
        sample_pt(12, 9120),
        sample_pt(15, 12000),
    ]
}

/// The sample table, pinned entry by entry: exactly two records, under two
/// distinct normalized keys, each holding the sample curves above.
pub open spec fn is_sample_db(m: Map<Seq<char>, MaintenanceCostData>) -> bool {
    let kp = spec_key("Toyota"@, "Prius"@);
    let kf = spec_key("Ford"@, "F-150"@);
    &&& kp != kf
    &&& m.dom() == set![kp, kf]
    &&& m[kp].make@ == "Toyota"@
    &&& m[kp].model@ == "Prius"@
    &&& m[kp].by_mileage@ == prius_mileage_points()
    &&& m[kp].by_time@ == prius_time_points()
    &&& m[kf].make@ == "Ford"@
    &&& m[kf].model@ == "F-150"@
    &&& m[kf].by_mileage@ == f150_mileage_points()
    &&& m[kf].by_time@ == f150_time_points()
}

/// A curve sample at integer coordinates.
fn pt(x: i64, y: i64) -> (r: MaintenanceDataPoint)
    ensures
        r == sample_pt(x, y),
        r.wf(),
{
    MaintenanceDataPoint { x: Rat { num: x, den: 1 }, y: Rat { num: y, den: 1 } }
}

/// Sample maintenance cost data based on typical costs for popular vehicles:
/// cumulative maintenance spend over distance and over time.
///
/// The returned table holds exactly the Toyota Prius and Ford F-150 records
/// with the sample curves, as [`is_sample_db`] pins down.
pub fn get_sample_maintenance_data() -> (db: MaintenanceCostDatabase)
    ensures
        db.wf(),
        is_sample_db(db@),
        db@.contains_key(spec_key("Toyota"@, "Prius"@)),
        db@.contains_key(spec_key("Ford"@, "F-150"@)),
        db@[spec_key("Toyota"@, "Prius"@)].by_mileage@.len() > 0,
        db@[spec_key("Toyota"@, "Prius"@)].by_time@.len() > 0,
        db@[spec_key("Ford"@, "F-150"@)].by_mileage@.len() > 0,
        db@[spec_key("Ford"@, "F-150"@)].by_time@.len() > 0,
{
    proof {
        reveal_strlit("Toyota");
        reveal_strlit("Prius");
        reveal_strlit("Ford");
        reveal_strlit("F-150");
        reveal_strlit("_");
        assert(is_ascii_seq("Toyota"@));
        assert(is_ascii_seq("Prius"@));
        assert(is_ascii_seq("Ford"@));
        assert(is_ascii_seq("F-150"@));
    }
    let mut db = MaintenanceCostDatabase::default();

    // Toyota Prius: known for reliability and lower maintenance costs.
    let mut prius = MaintenanceCostData::new(String::from_str("Toyota"), String::from_str("Prius"));

    // By distance (x in tens of thousands of units): oil changes, filters,
    // tire rotations, brake pads, fluids, with periodic major services.
    let mut bm: Vec<MaintenanceDataPoint> = Vec::new();
    bm.push(pt(1, 350));
    bm.push(pt(2, 700));
    bm.push(pt(3, 1100));
    bm.push(pt(4, 1450));
    bm.push(pt(5, 1800));
    bm.push(pt(6, 2300));
    bm.push(pt(7, 2700));
    bm.push(pt(8, 3100));
    bm.push(pt(9, 3650));
    bm.push(pt(10, 4100));
    bm.push(pt(12, 5200));
    bm.push(pt(15, 6800));
    bm.push(pt(20, 9500));
    proof {
        assert(bm@ =~= prius_mileage_points());
    }
    prius.by_mileage = bm;

    // By time (x in years).
    let mut bt: Vec<MaintenanceDataPoint> = Vec::new();
    bt.push(pt(1, 420));
    bt.push(pt(2, 840));
    bt.push(pt(3, 1320));
    bt.push(pt(4, 1740));
    bt.push(pt(5, 2160));
    bt.push(pt(6, 2760));
    bt.push(pt(7, 3240));
    bt.push(pt(8, 3720));
    bt.push(pt(9, 4380));
    bt.push(pt(10, 4920));
    bt.push(pt(12, 6240));
    bt.push(pt(15, 8160));
    proof {
        assert(bt@ =~= prius_time_points());
    }
    prius.by_time = bt;

    db.set(prius);

    // Ford F-150: a popular truck with higher maintenance costs.
    let mut f150 = MaintenanceCostData::new(String::from_str("Ford"), String::from_str("F-150"));

    let mut fm: Vec<MaintenanceDataPoint> = Vec::new();
    fm.push(pt(1, 500));
    fm.push(pt(2, 1000));
    fm.push(pt(3, 1600));
    fm.push(pt(4, 2150));
    fm.push(pt(5, 2700));
    fm.push(pt(6, 3400));
    fm.push(pt(7, 4000));
    fm.push(pt(8, 4600));
    fm.push(pt(9, 5350));
    fm.push(pt(10, 6000));
    fm.push(pt(12, 7600));
    fm.push(pt(15, 10000));
    fm.push(pt(20, 14000));
    proof {
        assert(fm@ =~= f150_mileage_points());
    }
    f150.by_mileage = fm;

    let mut ft: Vec<MaintenanceDataPoint> = Vec::new();
    ft.push(pt(1, 600));
    ft.push(pt(2, 1200));
    ft.push(pt(3, 1920));
    ft.push(pt(4, 2580));
    ft.push(pt(5, 3240));
    ft.push(pt(6, 4080));
    ft.push(pt(7, 4800));
    ft.push(pt(8, 5520));
    ft.push(pt(9, 6420));
    ft.push(pt(10, 7200));
    ft.push(pt(12, 9120));
    ft.push(pt(15, 12000));
    proof {
        assert(ft@ =~= f150_time_points());
    }
    f150.by_time = ft;

    db.set(f150);

    proof {
        let kp = spec_key("Toyota"@, "Prius"@);
        let kf = spec_key("Ford"@, "F-150"@);
        // The two normalized keys have different lengths, so the second
        // entry does not displace the first.
        assert(lower_of("Toyota"@).len() == 6 && lower_of("Prius"@).len() == 5);
        assert(lower_of("Ford"@).len() == 4 && lower_of("F-150"@).len() == 5);
        assert(kp.len() == 12 && kf.len() == 10);
        assert(kp != kf);
        assert(db@.dom() =~= set![kp, kf]);
    }
    db
}

} // verus!
