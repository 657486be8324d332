// Unit tests for the per-aircraft state, the classifier, the store
// operations and the small helpers.

use interceptiondetector::{
    aircraft_is_on_ground, alt_number, in_bbox, prune, started_far_apart, upsert, Ac,
    AircraftRecord, Altitude, Bounds, Class, Error,
};

fn full_record(hex: u32, lat: i64, lon: i64, speed_ckt: i64, geo_alt_ft: i32) -> AircraftRecord {
    AircraftRecord {
        hex,
        lat: Some(lat),
        lon: Some(lon),
        ground_speed: Some(speed_ckt),
        geometric_altitude: Some(geo_alt_ft),
        barometric_altitude: None,
        seen_pos: Some(5),
    }
}

#[test]
fn new_fills_all_fields() {
    let rec = full_record(0x4010ee, 1_000_000, 2_000_000, 45_000, 30_000);
    let ac = Ac::new(1_000, &rec).unwrap();
    assert_eq!(ac.hex, 0x4010ee);
    assert_eq!(ac.coords.len(), 1);
    assert_eq!(ac.coords[0].time, 1_000);
    assert_eq!(ac.coords[0].lon, 2_000_000);
    assert_eq!(ac.coords[0].lat, 1_000_000);
    assert_eq!(ac.max_speed, 45_000);
    assert_eq!(ac.cur_speed, 45_000);
    assert_eq!(ac.cur_alt, 30_000);
    assert!(!ac.is_on_ground);
    // Fast on creation: the fast timestamp is backdated by the fix age.
    assert_eq!(ac.time_seen_fast, Some(995));
    assert_eq!(ac.fast_count, 1);
    assert_eq!(ac.seen, 995);
}

#[test]
fn new_slow_aircraft_has_no_fast_state() {
    let rec = full_record(0x4010ee, 0, 0, 20_000, 30_000);
    let ac = Ac::new(1_000, &rec).unwrap();
    assert_eq!(ac.time_seen_fast, None);
    assert_eq!(ac.fast_count, 0);
}

#[test]
fn new_rejects_missing_fields() {
    let mut rec = full_record(1, 0, 0, 20_000, 30_000);
    rec.lat = None;
    assert!(matches!(Ac::new(1_000, &rec), Err(Error::AircraftMissingData(_))));
    let mut rec = full_record(1, 0, 0, 20_000, 30_000);
    rec.ground_speed = None;
    assert!(matches!(Ac::new(1_000, &rec), Err(Error::AircraftMissingData(_))));
    let mut rec = full_record(1, 0, 0, 20_000, 30_000);
    rec.geometric_altitude = None;
    assert!(matches!(Ac::new(1_000, &rec), Err(Error::AircraftMissingData(_))));
    let mut rec = full_record(1, 0, 0, 20_000, 30_000);
    rec.seen_pos = None;
    assert!(matches!(Ac::new(1_000, &rec), Err(Error::AircraftMissingData(_))));
}

#[test]
fn error_message_is_kept() {
    let e = Error::JsonLoadError(String::from("bad header"));
    assert_eq!(e.message().as_str(), "bad header");
    let e = Error::ParallelMapError(String::from("worker exited"));
    assert_eq!(e.message().as_str(), "worker exited");
    let e = Error::AircraftMissingData(String::from("no position"));
    assert_eq!(e.message().as_str(), "no position");
}

#[test]
fn update_caps_history_at_forty() {
    let rec = full_record(7, 0, 0, 20_000, 10_000);
    let mut ac = Ac::new(0, &rec).unwrap();
    for i in 1..=45i64 {
        ac.update(i * 15, &full_record(7, i, i, 20_000, 10_000));
    }
    assert_eq!(ac.coords.len(), 40);
    // The six oldest entries have been dropped.
    assert_eq!(ac.coords[0].time, 6 * 15);
    assert_eq!(ac.coords[39].time, 45 * 15);
}

#[test]
fn update_keeps_maximum_speed_and_fast_count() {
    let rec = full_record(7, 0, 0, 41_000, 10_000);
    let mut ac = Ac::new(0, &rec).unwrap();
    ac.update(15, &full_record(7, 0, 0, 50_000, 10_000));
    assert_eq!(ac.max_speed, 50_000);
    assert_eq!(ac.fast_count, 2);
    assert_eq!(ac.time_seen_fast, Some(15));
    ac.update(30, &full_record(7, 0, 0, 20_000, 10_000));
    // Slowing down keeps the maximum, the count and the fast timestamp.
    assert_eq!(ac.max_speed, 50_000);
    assert_eq!(ac.cur_speed, 20_000);
    assert_eq!(ac.fast_count, 2);
    assert_eq!(ac.time_seen_fast, Some(15));
    assert!(ac.max_speed >= ac.cur_speed);
}

#[test]
fn update_altitude_falls_back_through_barometric() {
    let rec = full_record(7, 0, 0, 20_000, 10_000);
    let mut ac = Ac::new(0, &rec).unwrap();
    // Geometric altitude absent: barometric wins.
    let mut r = full_record(7, 0, 0, 20_000, 0);
    r.geometric_altitude = None;
    r.barometric_altitude = Some(Altitude::Feet(9_000));
    ac.update(15, &r);
    assert_eq!(ac.cur_alt, 9_000);
    // Barometric "ground" counts as zero feet.
    let mut r = full_record(7, 0, 0, 20_000, 0);
    r.geometric_altitude = None;
    r.barometric_altitude = Some(Altitude::OnGround);
    ac.update(30, &r);
    assert_eq!(ac.cur_alt, 0);
    // Both absent: the altitude is left unchanged.
    let mut r = full_record(7, 0, 0, 20_000, 0);
    r.geometric_altitude = None;
    ac.update(45, &r);
    assert_eq!(ac.cur_alt, 0);
}

#[test]
fn update_without_fix_age_keeps_seen() {
    let rec = full_record(7, 0, 0, 20_000, 10_000);
    let mut ac = Ac::new(100, &rec).unwrap();
    assert_eq!(ac.seen, 95);
    let mut r = full_record(7, 0, 0, 20_000, 10_000);
    r.seen_pos = None;
    ac.update(200, &r);
    assert_eq!(ac.seen, 95);
}

#[test]
fn classifier_speed_boundaries() {
    let now = 1_000;
    // Exactly 400 kt is not fast, and over 350 kt is no target either.
    let ac = Ac::new(now, &full_record(1, 0, 0, 40_000, 10_000)).unwrap();
    assert_eq!(ac.class(now), Class::Other);
    // Exactly 80 kt is no target; just above is.
    let ac = Ac::new(now, &full_record(1, 0, 0, 8_000, 10_000)).unwrap();
    assert_eq!(ac.class(now), Class::Other);
    let ac = Ac::new(now, &full_record(1, 0, 0, 8_001, 10_000)).unwrap();
    assert_eq!(ac.class(now), Class::Target);
    // Just under 350 kt is a target; exactly 350 kt is not.
    let ac = Ac::new(now, &full_record(1, 0, 0, 34_999, 10_000)).unwrap();
    assert_eq!(ac.class(now), Class::Target);
    let ac = Ac::new(now, &full_record(1, 0, 0, 35_000, 10_000)).unwrap();
    assert_eq!(ac.class(now), Class::Other);
}

#[test]
fn classifier_interceptor_requirements() {
    let now = 10_000;
    let rec = full_record(1, 0, 0, 45_000, 10_000);
    let mut ac = Ac::new(0, &rec).unwrap();
    for i in 1..=10i64 {
        ac.update(i, &rec);
    }
    // Eleven fast updates, seen fast just now: an interceptor.
    ac.update(now, &rec);
    assert_eq!(ac.fast_count, 12);
    assert_eq!(ac.class(now), Class::Interceptor);
    // Within the three-minute timeout it stays one, afterwards not.
    assert_eq!(ac.class(now + 179), Class::Interceptor);
    assert_eq!(ac.class(now + 180), Class::Other);
}

#[test]
fn classifier_grounded_aircraft_is_other() {
    let now = 200;
    let mut rec = full_record(1, 0, 0, 45_000, 10_000);
    rec.barometric_altitude = Some(Altitude::OnGround);
    let mut ac = Ac::new(0, &rec).unwrap();
    for i in 1..=11i64 {
        ac.update(i * 15, &rec);
    }
    // Twelve fast updates, the last only 35 seconds ago: only the ground
    // flag keeps this from being an interceptor.
    assert_eq!(ac.fast_count, 12);
    assert!(ac.is_on_ground);
    assert_eq!(ac.class(now), Class::Other);
    // A geometric altitude under 500 ft also counts as on the ground.
    let low = full_record(1, 0, 0, 20_000, 499);
    let ac = Ac::new(now, &low).unwrap();
    assert!(ac.is_on_ground);
    assert_eq!(ac.class(now), Class::Other);
}

#[test]
fn classifier_is_pure() {
    let now = 1_000;
    let ac = Ac::new(now, &full_record(1, 0, 0, 20_000, 10_000)).unwrap();
    assert_eq!(ac.class(now), ac.class(now));
}

#[test]
fn alt_number_maps_ground_to_zero() {
    assert_eq!(alt_number(Altitude::OnGround), 0);
    assert_eq!(alt_number(Altitude::Feet(37_000)), 37_000);
    assert_eq!(alt_number(Altitude::Feet(-100)), -100);
}

#[test]
fn on_ground_rules() {
    let mut rec = full_record(1, 0, 0, 1_000, 10_000);
    assert!(!aircraft_is_on_ground(&rec));
    rec.barometric_altitude = Some(Altitude::OnGround);
    assert!(aircraft_is_on_ground(&rec));
    let mut rec = full_record(1, 0, 0, 1_000, 499);
    assert!(aircraft_is_on_ground(&rec));
    rec.geometric_altitude = None;
    rec.barometric_altitude = Some(Altitude::Feet(100));
    assert!(!aircraft_is_on_ground(&rec));
}

#[test]
fn upsert_updates_or_appends() {
    let mut tbl: Vec<Ac> = Vec::new();
    let i = upsert(&mut tbl, 100, &full_record(1, 0, 0, 20_000, 10_000));
    assert_eq!((i, tbl.len()), (0, 1));
    let i = upsert(&mut tbl, 115, &full_record(2, 0, 0, 30_000, 20_000));
    assert_eq!((i, tbl.len()), (1, 2));
    let i = upsert(&mut tbl, 130, &full_record(1, 1, 1, 25_000, 11_000));
    assert_eq!((i, tbl.len()), (0, 2));
    assert_eq!(tbl[0].cur_speed, 25_000);
    assert_eq!(tbl[0].coords.len(), 2);
    assert_eq!(tbl[1].cur_speed, 30_000);
}

#[test]
fn prune_removes_only_stale_entries() {
    let mut tbl: Vec<Ac> = Vec::new();
    upsert(&mut tbl, 0, &full_record(1, 0, 0, 20_000, 10_000));
    upsert(&mut tbl, 500, &full_record(2, 0, 0, 20_000, 10_000));
    // At 595 the first entry is 600 seconds old (its fix age was 5).
    prune(&mut tbl, 595);
    assert_eq!(tbl.len(), 1);
    assert_eq!(tbl[0].hex, 2);
    prune(&mut tbl, 2_000);
    assert_eq!(tbl.len(), 0);
}

#[test]
fn far_apart_history_check() {
    // Two degrees of separation at the start: far apart.
    let a = Ac::new(0, &full_record(1, 0, 0, 45_000, 10_000)).unwrap();
    let b = Ac::new(0, &full_record(2, 0, 2_000_000, 20_000, 10_000)).unwrap();
    assert!(started_far_apart(&a, &b));
    // A fifth of a degree (about 22 km) is still over ten miles; a
    // hundredth (about 1.1 km) is not.
    let c = Ac::new(0, &full_record(3, 0, 200_000, 20_000, 10_000)).unwrap();
    assert!(started_far_apart(&a, &c));
    let d = Ac::new(0, &full_record(4, 0, 10_000, 20_000, 10_000)).unwrap();
    assert!(!started_far_apart(&a, &d));
}

#[test]
fn far_apart_uses_closest_history_entries() {
    // Both aircraft end up close, but when the younger one first
    // appeared they were two degrees apart.
    let mut a = Ac::new(0, &full_record(1, 0, 0, 45_000, 10_000)).unwrap();
    for i in 1..=10i64 {
        a.update(i * 15, &full_record(1, 0, 0, 45_000, 10_000));
    }
    let mut b = Ac::new(150, &full_record(2, 0, 2_000_000, 20_000, 10_000)).unwrap();
    b.update(165, &full_record(2, 0, 1_000, 20_000, 10_000));
    a.update(165, &full_record(1, 0, 0, 45_000, 10_000));
    assert!(started_far_apart(&a, &b));
}

#[test]
fn bounding_box_filter() {
    let b = Bounds { min_lat: -1_000_000, min_lon: -2_000_000, max_lat: 1_000_000, max_lon: 2_000_000 };
    let inside = full_record(1, 0, 0, 1_000, 10_000);
    let outside = full_record(2, 1_500_000, 0, 1_000, 10_000);
    let mut no_pos = full_record(3, 0, 0, 1_000, 10_000);
    no_pos.lat = None;
    assert!(in_bbox(&None, &inside));
    assert!(in_bbox(&None, &no_pos));
    assert!(in_bbox(&Some(b), &inside));
    assert!(!in_bbox(&Some(b), &outside));
    assert!(!in_bbox(&Some(b), &no_pos));
    // The boundary itself is inside.
    let edge = full_record(4, 1_000_000, 2_000_000, 1_000, 10_000);
    assert!(in_bbox(&Some(b), &edge));
}
