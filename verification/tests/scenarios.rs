// End-to-end scenarios driving the per-tick driver over synthetic
// snapshots. Coordinates are microdegrees, speeds hundredths of a knot,
// times seconds.

use interceptiondetector::{
    process_adsbx_response, AircraftRecord, Altitude, Response, State,
};

const T0: i64 = 1_000_000;
const TICK_SECS: i64 = 15;
const HEX_A: u32 = 0xabc123;
const HEX_B: u32 = 0xdef456;

fn record(
    hex: u32,
    lat: i64,
    lon: i64,
    speed_ckt: i64,
    geo_alt_ft: i32,
    baro: Option<Altitude>,
) -> AircraftRecord {
    AircraftRecord {
        hex,
        lat: Some(lat),
        lon: Some(lon),
        ground_speed: Some(speed_ckt),
        geometric_altitude: Some(geo_alt_ft),
        barometric_altitude: baro,
        seen_pos: Some(0),
    }
}

// Interceptor A holds position at the origin; target B approaches from two
// degrees east. B's longitude per tick, newest last: far until the last
// tick, where it sits about 250 m east of A.
fn approach_lon(tick: usize) -> i64 {
    if tick < 11 {
        2_000_000 - (tick as i64) * 100_000
    } else {
        2_250
    }
}

fn run_approach(
    ticks: usize,
    b_speed_ckt: i64,
    b_alt_ft: i32,
    a_speed_ckt: i64,
    a_baro: Option<Altitude>,
    b_lon: fn(usize) -> i64,
) -> State {
    let mut state = State::new();
    for tick in 0..ticks {
        let now = T0 + (tick as i64) * TICK_SECS;
        let response = Response {
            now,
            aircraft: vec![
                record(HEX_A, 0, 0, a_speed_ckt, 20_000, Some(Altitude::Feet(20_000))),
                record(HEX_B, 0, b_lon(tick), b_speed_ckt, b_alt_ft, Some(Altitude::Feet(b_alt_ft))),
            ],
        };
        let response = if a_baro.is_some() {
            let mut r = response;
            r.aircraft[0].barometric_altitude = a_baro;
            r
        } else {
            response
        };
        process_adsbx_response(&mut state, &response).unwrap();
    }
    state
}

#[test]
fn minimal_positive_interception() {
    let state = run_approach(12, 32_000, 20_100, 45_000, None, approach_lon);
    assert_eq!(state.interceptions.len(), 1);
    let ev = &state.interceptions[0];
    assert_eq!(ev.interceptor.hex, HEX_A);
    assert_eq!(ev.target.hex, HEX_B);
    assert_eq!(ev.vertical_separation_ft, 100);
    assert_eq!(ev.time, T0 + 11 * TICK_SECS);
    // 0.00225 degrees of longitude at the equator is close to 250 m.
    assert!(24_000 < ev.lateral_separation_cm && ev.lateral_separation_cm < 26_000);
}

#[test]
fn repeated_pair_within_window_deduplicated() {
    // Four extra ticks at the same separation: still exactly one event.
    let mut state = State::new();
    for tick in 0..16 {
        let now = T0 + (tick as i64) * TICK_SECS;
        let lon = if tick < 11 { approach_lon(tick) } else { 2_250 };
        let response = Response {
            now,
            aircraft: vec![
                record(HEX_A, 0, 0, 45_000, 20_000, Some(Altitude::Feet(20_000))),
                record(HEX_B, 0, lon, 32_000, 20_100, Some(Altitude::Feet(20_100))),
            ],
        };
        process_adsbx_response(&mut state, &response).unwrap();
    }
    assert_eq!(state.interceptions.len(), 1);
}

#[test]
fn reprocessing_same_snapshot_adds_no_event() {
    let mut state = run_approach(12, 32_000, 20_100, 45_000, None, approach_lon);
    assert_eq!(state.interceptions.len(), 1);
    let now = T0 + 11 * TICK_SECS;
    let response = Response {
        now,
        aircraft: vec![
            record(HEX_A, 0, 0, 45_000, 20_000, Some(Altitude::Feet(20_000))),
            record(HEX_B, 0, 2_250, 32_000, 20_100, Some(Altitude::Feet(20_100))),
        ],
    };
    process_adsbx_response(&mut state, &response).unwrap();
    assert_eq!(state.interceptions.len(), 1);
}

#[test]
fn altitude_gate_rejects() {
    // 600 ft of vertical separation is over the 500 ft gate.
    let state = run_approach(12, 32_000, 20_600, 45_000, None, approach_lon);
    assert_eq!(state.interceptions.len(), 0);
}

#[test]
fn speed_match_gate_rejects() {
    // 200 kt of difference against the interceptor's 450 kt is over the
    // 150 kt gate.
    let state = run_approach(12, 25_000, 20_100, 45_000, None, approach_lon);
    assert_eq!(state.interceptions.len(), 0);
}

#[test]
fn started_together_rejects() {
    // B sits 220 m east of A for the whole run: every instantaneous gate
    // passes eventually, but the pair never was ten miles apart.
    let state = run_approach(12, 32_000, 20_100, 45_000, None, |_| 2_000);
    assert_eq!(state.interceptions.len(), 0);
}

#[test]
fn slow_interceptor_rejects() {
    // 395 kt never crosses the 400 kt interceptor threshold.
    let state = run_approach(12, 32_000, 20_100, 39_500, None, approach_lon);
    assert_eq!(state.interceptions.len(), 0);
}

#[test]
fn on_ground_interceptor_rejects() {
    // A reports itself on the ground barometrically despite its numbers.
    let state = run_approach(
        12,
        32_000,
        20_100,
        45_000,
        Some(Altitude::OnGround),
        approach_lon,
    );
    assert_eq!(state.interceptions.len(), 0);
}

#[test]
fn counters_track_targets_and_candidate_pairs() {
    let state = run_approach(12, 32_000, 20_100, 45_000, None, approach_lon);
    // B classifies as a target on every one of the twelve ticks.
    assert_eq!(state.num_ac_indexed, 12);
    // Only the final tick brings B inside the planar prefilter.
    assert_eq!(state.num_ac_processed, 1);
}

#[test]
fn several_pairs_emit_in_one_tick() {
    // Two interceptors and two targets all end up close together; every
    // interceptor-target pair passes the gates, in whatever order the
    // index yields them.
    let a1: u32 = 0xa00001;
    let a2: u32 = 0xa00002;
    let b1: u32 = 0xb00001;
    let b2: u32 = 0xb00002;
    let mut state = State::new();
    for tick in 0..12usize {
        let now = T0 + (tick as i64) * TICK_SECS;
        let (lon_b1, lon_b2) = if tick < 11 {
            (2_000_000 - (tick as i64) * 100_000, 2_100_000 - (tick as i64) * 100_000)
        } else {
            (2_250, 3_000)
        };
        let response = Response {
            now,
            aircraft: vec![
                record(a1, 0, 0, 45_000, 20_000, Some(Altitude::Feet(20_000))),
                record(a2, 0, 1_000, 45_000, 20_000, Some(Altitude::Feet(20_000))),
                record(b1, 0, lon_b1, 32_000, 20_100, Some(Altitude::Feet(20_100))),
                record(b2, 0, lon_b2, 32_000, 20_100, Some(Altitude::Feet(20_100))),
            ],
        };
        process_adsbx_response(&mut state, &response).unwrap();
    }
    assert_eq!(state.interceptions.len(), 4);
    let mut pairs: Vec<(u32, u32)> = state
        .interceptions
        .iter()
        .map(|e| (e.interceptor.hex, e.target.hex))
        .collect();
    pairs.sort();
    assert_eq!(pairs, vec![(a1, b1), (a1, b2), (a2, b1), (a2, b2)]);
}

#[test]
fn duplicate_hex_records_update_one_entry() {
    let mut state = State::new();
    let mut second = record(HEX_A, 0, 100, 20_000, 10_000, None);
    second.ground_speed = Some(21_000);
    let response = Response {
        now: T0,
        aircraft: vec![record(HEX_A, 0, 0, 20_000, 10_000, None), second],
    };
    process_adsbx_response(&mut state, &response).unwrap();
    assert_eq!(state.aircraft.len(), 1);
    assert_eq!(state.aircraft[0].coords.len(), 2);
    assert_eq!(state.aircraft[0].cur_speed, 21_000);
    assert_eq!(state.aircraft[0].coords[1].lon, 100);
}

#[test]
fn stale_aircraft_are_pruned() {
    let mut state = State::new();
    let r1 = Response {
        now: T0,
        aircraft: vec![record(HEX_A, 0, 0, 20_000, 10_000, None)],
    };
    process_adsbx_response(&mut state, &r1).unwrap();
    assert_eq!(state.aircraft.len(), 1);
    // Ten minutes later the aircraft has aged out and only B remains.
    let r2 = Response {
        now: T0 + 600,
        aircraft: vec![record(HEX_B, 0, 0, 20_000, 10_000, None)],
    };
    process_adsbx_response(&mut state, &r2).unwrap();
    assert_eq!(state.aircraft.len(), 1);
    assert_eq!(state.aircraft[0].hex, HEX_B);
}

#[test]
fn incomplete_records_are_skipped() {
    let mut state = State::new();
    let mut rec = record(HEX_A, 0, 0, 20_000, 10_000, None);
    rec.ground_speed = None;
    let response = Response { now: T0, aircraft: vec![rec] };
    process_adsbx_response(&mut state, &response).unwrap();
    assert_eq!(state.aircraft.len(), 0);
}
