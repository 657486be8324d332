//! The input data model: one snapshot (`Response`) holds a tick timestamp and
//! a list of per-aircraft records, each carrying only the fields the
//! detection core consumes.
//!
//! Coordinates are microdegrees, speeds hundredths of a knot, altitudes feet,
//! times seconds. The decoder that turns raw snapshot bytes into these values
//! lives outside the library.

use vstd::prelude::*;

verus! {

/// Latest moment the core accepts as a tick time, in seconds.
pub const MAX_TICK_SECS: i64 = 4_000_000_000;

/// Largest magnitude accepted for a coordinate, in microdegrees.
pub const MAX_COORD_MICRODEG: i64 = 180_000_000;

/// Largest magnitude accepted for a ground speed, in hundredths of a knot.
pub const MAX_SPEED_CKT: i64 = 10_000_000;

/// Largest accepted position-fix age, in seconds.
pub const MAX_SEEN_POS_SECS: i64 = 1_000_000_000;

/// A reported altitude: either explicitly on the ground or a height in feet.
#[derive(Debug, Clone, Copy, PartialEq, Eq, Structural)]
pub enum Altitude {
    OnGround,
    Feet(i32),
}

/// The fields of one aircraft entry of a snapshot, as decoded.
///
/// Every field except `hex` may be absent from the raw data.
#[derive(Debug, Clone)]
pub struct AircraftRecord {
    /// The 24-bit ICAO transponder address identifying the aircraft.
    pub hex: u32,
    /// Latitude in microdegrees.
    pub lat: Option<i64>,
    /// Longitude in microdegrees.
    pub lon: Option<i64>,
    /// Ground speed in hundredths of a knot.
    pub ground_speed: Option<i64>,
    /// Geometric altitude in feet.
    pub geometric_altitude: Option<i32>,
    /// Barometric altitude, which may report "on ground".
    pub barometric_altitude: Option<Altitude>,
    /// Seconds between the position fix and the tick timestamp.
    pub seen_pos: Option<i64>,
}

/// One snapshot: a tick timestamp and the aircraft seen at that tick.
#[derive(Debug, Clone)]
pub struct Response {
    /// The tick time, in seconds.
    pub now: i64,
    /// The aircraft entries, in snapshot order.
    pub aircraft: Vec<AircraftRecord>,
}

/// A tick time the core's arithmetic can handle.
pub open spec fn tick_in_range(now: i64) -> bool {
    0 <= now <= MAX_TICK_SECS
}

/// Every present field of the record lies within the core's working ranges.
pub open spec fn record_in_range(rec: AircraftRecord) -> bool {
    &&& (rec.lat matches Some(v) ==> -MAX_COORD_MICRODEG <= v <= MAX_COORD_MICRODEG)
    &&& (rec.lon matches Some(v) ==> -MAX_COORD_MICRODEG <= v <= MAX_COORD_MICRODEG)
    &&& (rec.ground_speed matches Some(v) ==> -MAX_SPEED_CKT <= v <= MAX_SPEED_CKT)
    &&& (rec.seen_pos matches Some(v) ==> 0 <= v <= MAX_SEEN_POS_SECS)
}

/// A record that carries all five fields required to create or update
/// per-aircraft state, each within the working ranges.
pub open spec fn record_usable(rec: AircraftRecord) -> bool {
    &&& record_in_range(rec)
    &&& rec.lat is Some
    &&& rec.lon is Some
    &&& rec.ground_speed is Some
    &&& rec.geometric_altitude is Some
    &&& rec.seen_pos is Some
}

impl AircraftRecord {
    /// Whether the record carries all fields required to create or update
    /// per-aircraft state, each within the core's working ranges.
    pub fn is_usable(&self) -> (r: bool)
        ensures
            r == record_usable(*self),
    {
        let lat_ok = match self.lat {
            Some(v) => -MAX_COORD_MICRODEG <= v && v <= MAX_COORD_MICRODEG,
            None => false,
        };
        let lon_ok = match self.lon {
            Some(v) => -MAX_COORD_MICRODEG <= v && v <= MAX_COORD_MICRODEG,
            None => false,
        };
        let spd_ok = match self.ground_speed {
            Some(v) => -MAX_SPEED_CKT <= v && v <= MAX_SPEED_CKT,
            None => false,
        };
        let seen_ok = match self.seen_pos {
            Some(v) => 0 <= v && v <= MAX_SEEN_POS_SECS,
            None => false,
        };
        lat_ok && lon_ok && spd_ok && seen_ok && self.geometric_altitude.is_some()
    }
}

/// What `alt_number` returns: on-ground counts as zero feet.
pub open spec fn spec_alt_number(alt: Altitude) -> i32 {
    match alt {
        Altitude::OnGround => 0,
        Altitude::Feet(ft) => ft,
    }
}

/// Turns an altitude into a number of feet, mapping "on ground" to zero.
pub fn alt_number(alt: Altitude) -> (r: i32)
    ensures
        r == spec_alt_number(alt),
{
    match alt {
        Altitude::OnGround => 0,
        Altitude::Feet(ft) => ft,
    }
}

/// What `aircraft_is_on_ground` returns: the barometric altitude explicitly
/// says "ground", or the geometric altitude is below 500 feet.
pub open spec fn spec_on_ground(rec: AircraftRecord) -> bool {
    ||| rec.barometric_altitude == Some(Altitude::OnGround)
    ||| (rec.geometric_altitude matches Some(alt) && alt < 500)
}

/// Whether an aircraft record reports the aircraft on, or very close to,
/// the ground.
pub fn aircraft_is_on_ground(rec: &AircraftRecord) -> (r: bool)
    ensures
        r == spec_on_ground(*rec),
{
    let baro_ground = match rec.barometric_altitude {
        Some(Altitude::OnGround) => true,
        _ => false,
    };
    let geom_low = match rec.geometric_altitude {
        Some(alt) => alt < 500,
        None => false,
    };
    baro_ground || geom_low
}

} // verus!
