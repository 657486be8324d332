//! Rolling per-aircraft state and the classifier.
//!
//! An [`Ac`] accumulates what the core has seen of one aircraft: a bounded
//! position history, current and maximum speed, altitude, and how recently
//! and how often it has been seen above the interceptor speed threshold.
//! The classifier is a pure function of that state and the tick time.

use vstd::prelude::*;

use crate::error::Error;
use crate::snapshot::{
    record_in_range, record_usable, spec_alt_number, spec_on_ground, tick_in_range, AircraftRecord,
    Altitude, MAX_COORD_MICRODEG, MAX_SEEN_POS_SECS, MAX_SPEED_CKT, MAX_TICK_SECS,
};

verus! {

use vstd::string::StringExecFns;

/// Speed above which an aircraft counts as fast, in hundredths of a knot.
pub const INTERCEPTOR_MIN_SPEED_CKT: i64 = 40_000;

/// Upper speed bound for a potential target, in hundredths of a knot.
pub const TARGET_MAX_SPEED_CKT: i64 = 35_000;

/// Lower speed bound for a potential target, in hundredths of a knot.
pub const TARGET_MIN_SPEED_CKT: i64 = 8_000;

/// Seconds after its last fast tick during which an aircraft may still be
/// classified as an interceptor.
pub const INTERCEPTOR_TIMEOUT_SECS: i64 = 180;

/// Number of position entries kept per aircraft.
pub const MAX_COORDS: usize = 40;

/// One timestamped position: seconds, and microdegrees of longitude and
/// latitude.
#[derive(Debug, Clone, Copy, PartialEq, Eq, Structural)]
pub struct TimedPos {
    pub time: i64,
    pub lon: i64,
    pub lat: i64,
}

/// The classification of an aircraft at a tick.
#[derive(Debug, Clone, PartialEq, Eq, Structural)]
pub enum Class {
    /// Possible interceptor.
    Interceptor,
    /// Possible target.
    Target,
    /// Neither interceptor nor target.
    Other,
}

/// State kept for each aircraft across ticks.
#[derive(Debug)]
pub struct Ac {
    /// The 24-bit ICAO transponder address.
    pub hex: u32,
    /// Position history, newest last, at most [`MAX_COORDS`] entries.
    pub coords: Vec<TimedPos>,
    /// Highest ground speed seen so far, in hundredths of a knot.
    pub max_speed: i64,
    /// Ground speed at the latest update, in hundredths of a knot.
    pub cur_speed: i64,
    /// Altitude at the latest update, in feet.
    pub cur_alt: i32,
    /// Whether the latest update reported the aircraft on the ground.
    pub is_on_ground: bool,
    /// The last tick at which the aircraft exceeded the interceptor speed.
    pub time_seen_fast: Option<i64>,
    /// How many updates reported a speed above the interceptor threshold.
    pub fast_count: u32,
    /// When the aircraft was last seen: tick time minus position-fix age.
    pub seen: i64,
}

/// The mathematical value of an [`Ac`].
pub struct AcView {
    pub hex: u32,
    pub coords: Seq<TimedPos>,
    pub max_speed: i64,
    pub cur_speed: i64,
    pub cur_alt: i32,
    pub is_on_ground: bool,
    pub time_seen_fast: Option<i64>,
    pub fast_count: u32,
    pub seen: i64,
}

impl View for Ac {
    type V = AcView;

    open spec fn view(&self) -> AcView {
        AcView {
            hex: self.hex,
            coords: self.coords@,
            max_speed: self.max_speed,
            cur_speed: self.cur_speed,
            cur_alt: self.cur_alt,
            is_on_ground: self.is_on_ground,
            time_seen_fast: self.time_seen_fast,
            fast_count: self.fast_count,
            seen: self.seen,
        }
    }
}

/// A position whose coordinates and timestamp lie in the core's working
/// ranges.
pub open spec fn pos_in_range(p: TimedPos) -> bool {
    &&& -MAX_COORD_MICRODEG <= p.lon <= MAX_COORD_MICRODEG
    &&& -MAX_COORD_MICRODEG <= p.lat <= MAX_COORD_MICRODEG
    &&& 0 <= p.time <= MAX_TICK_SECS
}

impl AcView {
    /// Well-formedness of per-aircraft state: a non-empty, bounded position
    /// history with in-range, time-ordered entries; speeds in range with the
    /// maximum dominating the current one; and in-range timestamps.
    pub open spec fn wf(self) -> bool {
        &&& 1 <= self.coords.len() <= MAX_COORDS
        &&& forall|i: int| 0 <= i < self.coords.len() ==> pos_in_range(#[trigger] self.coords[i])
        &&& forall|i: int, j: int|
            0 <= i <= j < self.coords.len() ==> self.coords[i].time <= self.coords[j].time
        &&& -MAX_SPEED_CKT <= self.cur_speed <= self.max_speed <= MAX_SPEED_CKT
        &&& -MAX_SEEN_POS_SECS <= self.seen <= MAX_TICK_SECS
        &&& (self.time_seen_fast matches Some(t) ==> -MAX_SEEN_POS_SECS <= t <= MAX_TICK_SECS)
    }

    /// The newest recorded position.
    pub open spec fn cur_pos(self) -> TimedPos {
        self.coords.last()
    }

    /// The oldest recorded position.
    pub open spec fn oldest_pos(self) -> TimedPos {
        self.coords[0]
    }
}

/// The classification of aircraft state `ac` at tick time `now`.
///
/// An aircraft is an interceptor when it has been seen fast within the
/// interceptor timeout, has more than ten fast updates, and is airborne; it
/// is a target when its current speed lies strictly between the target
/// bounds and it is airborne. Interceptor takes precedence.
pub open spec fn spec_class(ac: AcView, now: i64) -> Class {
    if ac.time_seen_fast matches Some(tsf) && now - tsf < INTERCEPTOR_TIMEOUT_SECS
        && ac.fast_count > 10 && !ac.is_on_ground {
        Class::Interceptor
    } else if TARGET_MIN_SPEED_CKT < ac.cur_speed < TARGET_MAX_SPEED_CKT && !ac.is_on_ground {
        Class::Target
    } else {
        Class::Other
    }
}

/// `fast_count` after one more fast update: incremented, saturating at the
/// type's maximum.
pub open spec fn spec_bump_fast_count(c: u32) -> u32 {
    if c < u32::MAX {
        (c + 1) as u32
    } else {
        c
    }
}

/// The position history after appending `p`: the oldest entry is dropped
/// once the history exceeds its capacity.
pub open spec fn spec_push_capped(s: Seq<TimedPos>, p: TimedPos) -> Seq<TimedPos> {
    let t = s.push(p);
    if t.len() > MAX_COORDS {
        t.skip(1)
    } else {
        t
    }
}

/// The state created from a usable record at tick time `now`.
pub open spec fn spec_new_ac(now: i64, rec: AircraftRecord) -> AcView
    recommends
        record_usable(rec),
        tick_in_range(now),
{
    let spd = rec.ground_speed->Some_0;
    let fast = spd > INTERCEPTOR_MIN_SPEED_CKT;
    AcView {
        hex: rec.hex,
        coords: seq![
            TimedPos { time: now, lon: rec.lon->Some_0, lat: rec.lat->Some_0 },
        ],
        max_speed: spd,
        cur_speed: spd,
        cur_alt: rec.geometric_altitude->Some_0,
        is_on_ground: spec_on_ground(rec),
        time_seen_fast: if fast {
            Some((now - rec.seen_pos->Some_0) as i64)
        } else {
            None
        },
        fast_count: if fast {
            1
        } else {
            0
        },
        seen: (now - rec.seen_pos->Some_0) as i64,
    }
}

/// The state after updating `ac` with record `rec` at tick time `now`.
///
/// Each present field updates its part of the state; each absent field
/// leaves the previous value in place, except that the on-ground flag is
/// recomputed from the record alone, and the altitude falls back from
/// geometric through barometric to the previous value.
pub open spec fn spec_update_ac(ac: AcView, now: i64, rec: AircraftRecord) -> AcView
    recommends
        record_in_range(rec),
        tick_in_range(now),
{
    let a1 = match rec.ground_speed {
        Some(spd) => {
            let fast = spd > INTERCEPTOR_MIN_SPEED_CKT;
            AcView {
                cur_speed: spd,
                max_speed: if spd > ac.max_speed {
                    spd
                } else {
                    ac.max_speed
                },
                time_seen_fast: if fast {
                    Some(now)
                } else {
                    ac.time_seen_fast
                },
                fast_count: if fast {
                    spec_bump_fast_count(ac.fast_count)
                } else {
                    ac.fast_count
                },
                ..ac
            }
        },
        None => ac,
    };
    let a2 = AcView {
        cur_alt: match rec.geometric_altitude {
            Some(alt) => alt,
            None => match rec.barometric_altitude {
                Some(baro) => spec_alt_number(baro),
                None => ac.cur_alt,
            },
        },
        is_on_ground: spec_on_ground(rec),
        ..a1
    };
    let a3 = match rec.seen_pos {
        Some(sp) => AcView { seen: (now - sp) as i64, ..a2 },
        None => a2,
    };
    match (rec.lon, rec.lat) {
        (Some(lon), Some(lat)) => AcView {
            coords: spec_push_capped(a3.coords, TimedPos { time: now, lon, lat }),
            ..a3
        },
        _ => a3,
    }
}

/// Copies a position history.
fn copy_positions(v: &Vec<TimedPos>) -> (r: Vec<TimedPos>)
    ensures
        r@ == v@,
{
    let mut r: Vec<TimedPos> = Vec::new();
    let mut i: usize = 0;
    while i < v.len()
        invariant
            i <= v.len(),
            r@ == v@.take(i as int),
        decreases v.len() - i,
    {
        r.push(v[i]);
        i = i + 1;
        assert(r@ =~= v@.take(i as int));
    }
    assert(r@ =~= v@);
    r
}

impl Clone for Ac {
    /// A clone carries exactly the same state.
    fn clone(&self) -> (r: Self)
        ensures
            r@ == self@,
    {
        Ac {
            hex: self.hex,
            coords: copy_positions(&self.coords),
            max_speed: self.max_speed,
            cur_speed: self.cur_speed,
            cur_alt: self.cur_alt,
            is_on_ground: self.is_on_ground,
            time_seen_fast: self.time_seen_fast,
            fast_count: self.fast_count,
            seen: self.seen,
        }
    }
}

impl Ac {
    /// Creates per-aircraft state from the first usable record.
    ///
    /// Succeeds exactly on records carrying latitude, longitude, ground
    /// speed, geometric altitude and position-fix age, all within the
    /// working ranges; any other record yields the missing-data error and
    /// no state.
    pub fn new(now: i64, rec: &AircraftRecord) -> (r: Result<Ac, Error>)
        requires
            tick_in_range(now),
        ensures
            record_usable(*rec) ==> (r matches Ok(ac) && ac@ == spec_new_ac(now, *rec)
                && ac@.wf()),
            !record_usable(*rec) ==> r matches Err(Error::AircraftMissingData(_)),
    {
        let (lon, lat) = match (rec.lon, rec.lat) {
            (Some(lon), Some(lat)) => (lon, lat),
            _ => {
                return Err(Error::AircraftMissingData(String::from_str(
                    "aircraft record is missing position data",
                )));
            },
        };
        let spd = match rec.ground_speed {
            Some(spd) => spd,
            None => {
                return Err(Error::AircraftMissingData(String::from_str(
                    "aircraft record is missing ground speed data",
                )));
            },
        };
        let alt = match rec.geometric_altitude {
            Some(alt) => alt,
            None => {
                return Err(Error::AircraftMissingData(String::from_str(
                    "aircraft record is missing geometric altitude",
                )));
            },
        };
        let seen_pos = match rec.seen_pos {
            Some(sp) => sp,
            None => {
                return Err(Error::AircraftMissingData(String::from_str(
                    "aircraft record is missing position-fix age",
                )));
            },
        };
        if lon < -MAX_COORD_MICRODEG || lon > MAX_COORD_MICRODEG || lat < -MAX_COORD_MICRODEG
            || lat > MAX_COORD_MICRODEG || spd < -MAX_SPEED_CKT || spd > MAX_SPEED_CKT
            || seen_pos < 0 || seen_pos > MAX_SEEN_POS_SECS {
            return Err(Error::AircraftMissingData(String::from_str(
                "aircraft record field out of range",
            )));
        }
        let is_fast = spd > INTERCEPTOR_MIN_SPEED_CKT;
        let mut coords: Vec<TimedPos> = Vec::new();
        coords.push(TimedPos { time: now, lon, lat });
        Ok(Ac {
            hex: rec.hex,
            coords,
            max_speed: spd,
            cur_speed: spd,
            cur_alt: alt,
            is_on_ground: crate::snapshot::aircraft_is_on_ground(rec),
            time_seen_fast: if is_fast {
                Some(now - seen_pos)
            } else {
                None
            },
            fast_count: if is_fast {
                1
            } else {
                0
            },
            seen: now - seen_pos,
        })
    }

    /// Updates the state from the latest record for this aircraft.
    ///
    /// The position history stays bounded, the fast-update count and the
    /// maximum speed never decrease, and the maximum speed still dominates
    /// the current speed.
    pub fn update(&mut self, now: i64, rec: &AircraftRecord)
        requires
            old(self)@.wf(),
            tick_in_range(now),
            record_in_range(*rec),
            old(self)@.cur_pos().time <= now,
        ensures
            final(self)@ == spec_update_ac(old(self)@, now, *rec),
            final(self)@.wf(),
            final(self)@.hex == old(self)@.hex,
            final(self)@.coords.len() <= MAX_COORDS,
            final(self)@.fast_count >= old(self)@.fast_count,
            final(self)@.max_speed >= old(self)@.max_speed,
            final(self)@.max_speed >= final(self)@.cur_speed,
    {
        if let Some(spd) = rec.ground_speed {
            self.cur_speed = spd;
            if spd > self.max_speed {
                self.max_speed = spd;
            }
            if spd > INTERCEPTOR_MIN_SPEED_CKT {
                self.time_seen_fast = Some(now);
                if self.fast_count < u32::MAX {
                    self.fast_count = self.fast_count + 1;
                }
            }
        }
        self.cur_alt = match rec.geometric_altitude {
            Some(alt) => alt,
            None => match rec.barometric_altitude {
                Some(baro) => crate::snapshot::alt_number(baro),
                None => self.cur_alt,
            },
        };
        self.is_on_ground = crate::snapshot::aircraft_is_on_ground(rec);
        if let Some(sp) = rec.seen_pos {
            self.seen = now - sp;
        }
        if let (Some(lon), Some(lat)) = (rec.lon, rec.lat) {
            self.coords.push(TimedPos { time: now, lon, lat });
            if self.coords.len() > MAX_COORDS {
                self.coords.remove(0);
                assert(self@.coords =~= spec_update_ac(old(self)@, now, *rec).coords);
            }
        }
        assert(self@ =~= spec_update_ac(old(self)@, now, *rec)) by {
            assert(self@.coords =~= spec_update_ac(old(self)@, now, *rec).coords);
        }
    }

    /// The classification of this aircraft at tick time `now`.
    pub fn class(&self, now: i64) -> (r: Class)
        requires
            self@.wf(),
            tick_in_range(now),
        ensures
            r == spec_class(self@, now),
    {
        if let Some(tsf) = self.time_seen_fast {
            if now - tsf < INTERCEPTOR_TIMEOUT_SECS && self.fast_count > 10 && !self.is_on_ground {
                return Class::Interceptor;
            }
        }
        if TARGET_MIN_SPEED_CKT < self.cur_speed && self.cur_speed < TARGET_MAX_SPEED_CKT
            && !self.is_on_ground {
            return Class::Target;
        }
        Class::Other
    }

    /// The aircraft's most recent position.
    pub fn cur_coords(&self) -> (r: &TimedPos)
        requires
            self@.coords.len() >= 1,
        ensures
            *r == self@.cur_pos(),
    {
        &self.coords[self.coords.len() - 1]
    }

    /// The aircraft's oldest recorded position.
    pub fn oldest_coords(&self) -> (r: &TimedPos)
        requires
            self@.coords.len() >= 1,
        ensures
            *r == self@.oldest_pos(),
    {
        &self.coords[0]
    }
}

/// The classifier is a pure function: equal aircraft state and equal tick
/// time give equal classifications.
pub proof fn lemma_class_pure(ac1: AcView, ac2: AcView, t1: i64, t2: i64)
    requires
        ac1 == ac2,
        t1 == t2,
    ensures
        spec_class(ac1, t1) == spec_class(ac2, t2),
{
}

/// An aircraft classified as an interceptor has been seen fast within the
/// interceptor timeout, has more than ten fast updates, and is airborne.
pub proof fn lemma_interceptor_class(ac: AcView, now: i64)
    requires
        spec_class(ac, now) is Interceptor,
    ensures
        ac.time_seen_fast is Some,
        now - ac.time_seen_fast->Some_0 < INTERCEPTOR_TIMEOUT_SECS,
        ac.fast_count > 10,
        !ac.is_on_ground,
{
}

} // verus!
