//! The interception engine: per-tick state, gates, deduplication and the
//! event log.
//!
//! [`State`] carries the aircraft table, two diagnostic counters and the
//! append-only log of [`Interception`] events across ticks.
//! [`process_adsbx_response`] drives one tick: it folds a snapshot into the
//! table, prunes stale aircraft, classifies, joins interceptors against
//! targets through the spatial index, applies the gates, and records
//! deduplicated events.

use vstd::prelude::*;

use crate::aircraft::{
    spec_class, spec_new_ac, spec_update_ac, Ac, AcView, Class, TimedPos, MAX_COORDS,
};
use crate::error::Error;
use crate::geodesy::{haversine_cm, haversine_distance_cm, spec_sq_dist};
use crate::snapshot::{
    record_usable, tick_in_range, AircraftRecord, Response, MAX_TICK_SECS,
};
use crate::spatial::{build_target_index, index_points, locate_within_sq_dist};

verus! {

use vstd::pervasive::unreached;

/// Largest lateral separation of an interception, in centimetres (500 m).
pub const MAX_LATERAL_SEPARATION_CM: u64 = 50_000;

/// Largest vertical separation of an interception, in feet.
pub const MAX_VERTICAL_SEPARATION_FT: i64 = 500;

/// Largest speed difference of an interception, in hundredths of a knot.
pub const SPEED_MATCH_CKT: i64 = 15_000;

/// How recently a target must have been seen, in seconds.
pub const TARGET_RECENCY_SECS: i64 = 60;

/// Age beyond which an aircraft leaves the state table, in seconds.
pub const STALE_SECS: i64 = 600;

/// Window within which a repeated pair is a duplicate, in seconds.
pub const DEDUP_WINDOW_SECS: i64 = 600;

/// Distance two aircraft must once have had between them, in centimetres
/// (ten miles).
pub const FAR_APART_MIN_CM: u64 = 1_609_340;

/// The prefilter bound of the spatial index: the square of half a nautical
/// mile expressed in degrees at sixty nautical miles per degree, in squared
/// microdegrees.
pub const MAX_PREFILTER_SQ_MICRODEG2: i64 = 69_444_444;

/// One detected interception, holding copies of both aircraft states at
/// detection time.
#[derive(Debug, Clone)]
pub struct Interception {
    /// The fast-moving aircraft.
    pub interceptor: Ac,
    /// The intercepted aircraft.
    pub target: Ac,
    /// The tick at which the pair passed the gates, in seconds.
    pub time: i64,
    /// Great-circle separation at detection, in centimetres.
    pub lateral_separation_cm: u64,
    /// Altitude difference at detection, in feet.
    pub vertical_separation_ft: i32,
}

/// The mathematical value of an [`Interception`].
pub struct InterceptionView {
    pub interceptor: AcView,
    pub target: AcView,
    pub time: i64,
    pub lateral_separation_cm: u64,
    pub vertical_separation_ft: i32,
}

impl View for Interception {
    type V = InterceptionView;

    open spec fn view(&self) -> InterceptionView {
        InterceptionView {
            interceptor: self.interceptor@,
            target: self.target@,
            time: self.time,
            lateral_separation_cm: self.lateral_separation_cm,
            vertical_separation_ft: self.vertical_separation_ft,
        }
    }
}

/// The state kept across snapshots.
pub struct State {
    /// The live aircraft, with pairwise distinct hex codes.
    pub aircraft: Vec<Ac>,
    /// How many target aircraft the ticks have produced for indexing.
    pub num_ac_indexed: usize,
    /// How many interceptor-candidate pairs have been examined.
    pub num_ac_processed: usize,
    /// Every interception found so far, in order of detection.
    pub interceptions: Vec<Interception>,
    /// The time of the latest processed tick, in seconds.
    pub last_tick: Ghost<i64>,
}

/// The mathematical value of a [`State`].
pub struct StateView {
    pub aircraft: Seq<AcView>,
    pub num_ac_indexed: usize,
    pub num_ac_processed: usize,
    pub interceptions: Seq<InterceptionView>,
    pub last_tick: i64,
}

/// The values of a sequence of aircraft states.
pub open spec fn ac_views(s: Seq<Ac>) -> Seq<AcView> {
    Seq::new(s.len(), |i: int| s[i]@)
}

/// The values of a sequence of interceptions.
pub open spec fn event_views(s: Seq<Interception>) -> Seq<InterceptionView> {
    Seq::new(s.len(), |i: int| s[i]@)
}

impl View for State {
    type V = StateView;

    open spec fn view(&self) -> StateView {
        StateView {
            aircraft: ac_views(self.aircraft@),
            num_ac_indexed: self.num_ac_indexed,
            num_ac_processed: self.num_ac_processed,
            interceptions: event_views(self.interceptions@),
            last_tick: self.last_tick@,
        }
    }
}

/// Two interceptions concern the same ordered pair of aircraft.
pub open spec fn same_pair(a: InterceptionView, b: InterceptionView) -> bool {
    a.interceptor.hex == b.interceptor.hex && a.target.hex == b.target.hex
}

impl InterceptionView {
    /// Well-formedness of a recorded interception: both aircraft states are
    /// well formed and distinct, and the separations lie under the gates'
    /// bounds.
    pub open spec fn wf(self) -> bool {
        &&& self.interceptor.wf()
        &&& self.target.wf()
        &&& self.interceptor.hex != self.target.hex
        &&& 0 <= self.time <= MAX_TICK_SECS
        &&& self.lateral_separation_cm < MAX_LATERAL_SEPARATION_CM
        &&& 0 <= self.vertical_separation_ft < MAX_VERTICAL_SEPARATION_FT
    }
}

impl StateView {
    /// Well-formedness of the cross-tick state: every aircraft is well
    /// formed, no newer than the latest tick, and hex codes are pairwise
    /// distinct; the event log is well formed, its times never decrease,
    /// and events for the same pair are at least the deduplication window
    /// apart.
    pub open spec fn wf(self) -> bool {
        &&& tick_in_range(self.last_tick)
        &&& forall|i: int|
            0 <= i < self.aircraft.len() ==> (#[trigger] self.aircraft[i]).wf()
        &&& forall|i: int|
            0 <= i < self.aircraft.len()
                ==> (#[trigger] self.aircraft[i]).cur_pos().time <= self.last_tick
        &&& forall|i: int, j: int|
            0 <= i < j < self.aircraft.len() ==> self.aircraft[i].hex != self.aircraft[j].hex
        &&& forall|n: int|
            0 <= n < self.interceptions.len() ==> (#[trigger] self.interceptions[n]).wf()
        &&& forall|n: int|
            0 <= n < self.interceptions.len()
                ==> (#[trigger] self.interceptions[n]).time <= self.last_tick
        &&& forall|m: int, n: int|
            0 <= m <= n < self.interceptions.len()
                ==> self.interceptions[m].time <= self.interceptions[n].time
        &&& forall|m: int, n: int|
            0 <= m < n < self.interceptions.len() && same_pair(
                self.interceptions[m],
                self.interceptions[n],
            ) ==> self.interceptions[n].time - self.interceptions[m].time >= DEDUP_WINDOW_SECS
    }
}

impl State {
    /// A fresh state: no aircraft, no events, zeroed counters.
    pub fn new() -> (s: State)
        ensures
            s@.wf(),
            s@.aircraft.len() == 0,
            s@.interceptions.len() == 0,
            s@.num_ac_indexed == 0,
            s@.num_ac_processed == 0,
            s@.last_tick == 0,
    {
        State {
            aircraft: Vec::new(),
            num_ac_indexed: 0,
            num_ac_processed: 0,
            interceptions: Vec::new(),
            last_tick: Ghost(0i64),
        }
    }
}

impl Default for State {
    /// The default state is the fresh state.
    fn default() -> (s: State)
        ensures
            s@.wf(),
            s@.aircraft.len() == 0,
            s@.interceptions.len() == 0,
            s@.num_ac_indexed == 0,
            s@.num_ac_processed == 0,
            s@.last_tick == 0,
    {
        State::new()
    }
}

/// The absolute value.
pub open spec fn spec_abs(x: int) -> int {
    if x < 0 {
        -x
    } else {
        x
    }
}

/// Whether the log already holds an event for the pair within the
/// deduplication window ending at `now`.
pub open spec fn spec_dup(
    events: Seq<InterceptionView>,
    ihex: u32,
    thex: u32,
    now: i64,
) -> bool {
    exists|n: int|
        0 <= n < events.len() && (#[trigger] events[n]).interceptor.hex == ihex
            && events[n].target.hex == thex && events[n].time > now - DEDUP_WINDOW_SECS
}

/// The loose planar prefilter of the spatial join: the squared planar
/// distance between the two current positions is within the index bound.
pub open spec fn spec_prefilter(i: AcView, t: AcView) -> bool {
    spec_sq_dist(
        t.cur_pos().lon,
        t.cur_pos().lat,
        i.cur_pos().lon,
        i.cur_pos().lat,
    ) <= MAX_PREFILTER_SQ_MICRODEG2
}

/// The great-circle separation of the two current positions, in
/// centimetres.
pub open spec fn spec_lateral_cm(i: AcView, t: AcView) -> u64 {
    haversine_cm(t.cur_pos().lon, t.cur_pos().lat, i.cur_pos().lon, i.cur_pos().lat)
}

/// The altitude difference, in feet.
pub open spec fn spec_alt_diff(i: AcView, t: AcView) -> int {
    spec_abs(t.cur_alt - i.cur_alt)
}

/// The entry of `s` whose timestamp is closest to `ts`, earliest first on
/// ties.
pub open spec fn closest_pos(s: Seq<TimedPos>, ts: i64) -> TimedPos
    recommends
        s.len() >= 1,
    decreases s.len(),
{
    if s.len() <= 1 {
        s[0]
    } else {
        let rest = closest_pos(s.skip(1), ts);
        if spec_abs(s[0].time - ts) <= spec_abs(rest.time - ts) {
            s[0]
        } else {
            rest
        }
    }
}

/// The reference time of the history comparison: the later of the two
/// oldest timestamps.
pub open spec fn spec_comparison_time(i: AcView, t: AcView) -> i64 {
    if i.oldest_pos().time >= t.oldest_pos().time {
        i.oldest_pos().time
    } else {
        t.oldest_pos().time
    }
}

/// Whether the two aircraft were once far apart: at the positions closest
/// in time to the comparison time, their great-circle distance exceeded ten
/// miles.
pub open spec fn spec_started_far_apart(i: AcView, t: AcView) -> bool {
    let ts = spec_comparison_time(i, t);
    let a = closest_pos(i.coords, ts);
    let b = closest_pos(t.coords, ts);
    haversine_cm(a.lon, a.lat, b.lon, b.lat) > FAR_APART_MIN_CM
}

/// All gates an interceptor-target pair must pass at tick `now`: lateral
/// separation under 500 m, speeds within 150 kt, altitudes within 500 ft, a
/// target seen within the last minute, a history that started far apart,
/// and distinct aircraft.
pub open spec fn spec_gates(i: AcView, t: AcView, now: i64) -> bool {
    &&& spec_lateral_cm(i, t) < MAX_LATERAL_SEPARATION_CM
    &&& spec_abs(t.cur_speed - i.cur_speed) < SPEED_MATCH_CKT
    &&& spec_alt_diff(i, t) < MAX_VERTICAL_SEPARATION_FT
    &&& now - t.seen < TARGET_RECENCY_SECS
    &&& spec_started_far_apart(i, t)
    &&& i.hex != t.hex
}

/// The event recorded for a pair that passed the gates at tick `now`.
pub open spec fn spec_event(i: AcView, t: AcView, now: i64) -> InterceptionView
    recommends
        spec_gates(i, t, now),
{
    InterceptionView {
        interceptor: i,
        target: t,
        time: now,
        lateral_separation_cm: spec_lateral_cm(i, t),
        vertical_separation_ft: spec_alt_diff(i, t) as i32,
    }
}

/// Unfolds `closest_pos` over a suffix of the sequence.
proof fn lemma_closest_unfold(s: Seq<TimedPos>, i: int, ts: i64)
    requires
        0 <= i < s.len() - 1,
    ensures
        closest_pos(s.skip(i), ts) == ({
            let rest = closest_pos(s.skip(i + 1), ts);
            if spec_abs(s[i].time - ts) <= spec_abs(rest.time - ts) {
                s[i]
            } else {
                rest
            }
        }),
{
    assert(s.skip(i).len() == s.len() - i);
    assert(s.skip(i)[0] == s[i]);
    assert(s.skip(i).skip(1) =~= s.skip(i + 1));
}

/// The entry of `v` whose timestamp is closest to `ts`, earliest first on
/// ties.
fn closest_coord(v: &Vec<TimedPos>, ts: i64) -> (r: TimedPos)
    requires
        v@.len() >= 1,
        0 <= ts <= MAX_TICK_SECS,
        forall|i: int| 0 <= i < v@.len() ==> 0 <= (#[trigger] v@[i]).time <= MAX_TICK_SECS,
    ensures
        r == closest_pos(v@, ts),
{
    let mut i: usize = v.len() - 1;
    let mut best = v[i];
    assert(v@.skip(i as int) =~= seq![v@[i as int]]);
    while i > 0
        invariant
            0 <= i < v@.len(),
            0 <= ts <= MAX_TICK_SECS,
            forall|k: int| 0 <= k < v@.len() ==> 0 <= (#[trigger] v@[k]).time <= MAX_TICK_SECS,
            best == closest_pos(v@.skip(i as int), ts),
        decreases i,
    {
        i = i - 1;
        proof {
            lemma_closest_unfold(v@, i as int, ts);
        }
        let d_new = v[i].time - ts;
        let d_new = if d_new < 0 {
            -d_new
        } else {
            d_new
        };
        let d_best = best.time - ts;
        let d_best = if d_best < 0 {
            -d_best
        } else {
            d_best
        };
        if d_new <= d_best {
            best = v[i];
        }
    }
    assert(v@.skip(0) =~= v@);
    best
}

/// The position in the table of the aircraft with the given hex code, or
/// `-1` when the table holds none.
pub open spec fn spec_hex_index(tbl: Seq<AcView>, hex: u32) -> int
    decreases tbl.len(),
{
    if tbl.len() == 0 {
        -1
    } else if tbl[0].hex == hex {
        0
    } else {
        let r = spec_hex_index(tbl.skip(1), hex);
        if r < 0 {
            -1
        } else {
            r + 1
        }
    }
}

/// `spec_hex_index` finds the first entry with the given hex code, and `-1`
/// exactly when there is none.
proof fn lemma_hex_index_props(tbl: Seq<AcView>, hex: u32)
    ensures
        spec_hex_index(tbl, hex) == -1 || 0 <= spec_hex_index(tbl, hex) < tbl.len(),
        spec_hex_index(tbl, hex) == -1 ==> forall|m: int|
            0 <= m < tbl.len() ==> (#[trigger] tbl[m]).hex != hex,
        spec_hex_index(tbl, hex) >= 0 ==> tbl[spec_hex_index(tbl, hex)].hex == hex,
        spec_hex_index(tbl, hex) >= 0 ==> forall|m: int|
            0 <= m < spec_hex_index(tbl, hex) ==> (#[trigger] tbl[m]).hex != hex,
    decreases tbl.len(),
{
    if tbl.len() == 0 {
    } else if tbl[0].hex == hex {
    } else {
        lemma_hex_index_props(tbl.skip(1), hex);
        let r = spec_hex_index(tbl.skip(1), hex);
        if r == -1 {
            assert forall|m: int| 0 <= m < tbl.len() implies (#[trigger] tbl[m]).hex != hex by {
                if m > 0 {
                    assert(tbl.skip(1)[m - 1] == tbl[m]);
                }
            }
        } else {
            assert(tbl[r + 1] == tbl.skip(1)[r]);
            assert forall|m: int| 0 <= m < r + 1 implies (#[trigger] tbl[m]).hex != hex by {
                if m > 0 {
                    assert(tbl.skip(1)[m - 1] == tbl[m]);
                }
            }
        }
    }
}

/// The table after folding in one usable record: the entry with the
/// record's hex code is updated, or a new entry is appended.
pub open spec fn spec_upsert(tbl: Seq<AcView>, now: i64, rec: AircraftRecord) -> Seq<AcView>
    recommends
        record_usable(rec),
{
    let k = spec_hex_index(tbl, rec.hex);
    if k >= 0 {
        tbl.update(k, crate::aircraft::spec_update_ac(tbl[k], now, rec))
    } else {
        tbl.push(crate::aircraft::spec_new_ac(now, rec))
    }
}

/// The entry that folding in the record produced.
pub open spec fn spec_upserted_ac(tbl: Seq<AcView>, now: i64, rec: AircraftRecord) -> AcView
    recommends
        record_usable(rec),
{
    let k = spec_hex_index(tbl, rec.hex);
    if k >= 0 {
        crate::aircraft::spec_update_ac(tbl[k], now, rec)
    } else {
        crate::aircraft::spec_new_ac(now, rec)
    }
}

/// What one snapshot makes of the table: the table after folding in every
/// usable record, and the interceptors and targets classified along the
/// way, each in record order.
pub struct ScanResult {
    pub table: Seq<AcView>,
    pub interceptors: Seq<AcView>,
    pub targets: Seq<AcView>,
}

/// Folds the snapshot's records into the table in order, classifying each
/// record's aircraft right after its upsert, as the per-tick driver does.
/// Records lacking a required field, or carrying one out of range, are
/// skipped.
pub open spec fn spec_scan(tbl: Seq<AcView>, now: i64, recs: Seq<AircraftRecord>) -> ScanResult
    decreases recs.len(),
{
    if recs.len() == 0 {
        ScanResult { table: tbl, interceptors: Seq::empty(), targets: Seq::empty() }
    } else {
        let rec = recs[0];
        if record_usable(rec) {
            let ac = spec_upserted_ac(tbl, now, rec);
            let rest = spec_scan(spec_upsert(tbl, now, rec), now, recs.skip(1));
            ScanResult {
                table: rest.table,
                interceptors: if spec_class(ac, now) is Interceptor {
                    seq![ac] + rest.interceptors
                } else {
                    rest.interceptors
                },
                targets: if spec_class(ac, now) is Target {
                    seq![ac] + rest.targets
                } else {
                    rest.targets
                },
            }
        } else {
            spec_scan(tbl, now, recs.skip(1))
        }
    }
}

/// Unfolds `spec_scan` at position `j` of the record sequence.
proof fn lemma_scan_unfold(tbl: Seq<AcView>, now: i64, recs: Seq<AircraftRecord>, j: int)
    requires
        0 <= j < recs.len(),
    ensures
        ({
            let rec = recs[j];
            let full = spec_scan(tbl, now, recs.skip(j));
            if record_usable(rec) {
                let ac = spec_upserted_ac(tbl, now, rec);
                let rest = spec_scan(spec_upsert(tbl, now, rec), now, recs.skip(j + 1));
                full.table == rest.table && full.interceptors == (if spec_class(ac, now)
                    is Interceptor {
                    seq![ac] + rest.interceptors
                } else {
                    rest.interceptors
                }) && full.targets == (if spec_class(ac, now) is Target {
                    seq![ac] + rest.targets
                } else {
                    rest.targets
                })
            } else {
                full == spec_scan(tbl, now, recs.skip(j + 1))
            }
        }),
{
    assert(recs.skip(j).len() == recs.len() - j);
    assert(recs.skip(j)[0] == recs[j]);
    assert(recs.skip(j).skip(1) =~= recs.skip(j + 1));
}

/// The table with every stale entry removed: an entry stays exactly when
/// it was seen within the staleness window before `now`.
pub open spec fn spec_prune(tbl: Seq<AcView>, now: i64) -> Seq<AcView>
    decreases tbl.len(),
{
    if tbl.len() == 0 {
        tbl
    } else {
        let rest = spec_prune(tbl.skip(1), now);
        if now - tbl[0].seen < STALE_SECS {
            seq![tbl[0]] + rest
        } else {
            rest
        }
    }
}

/// Unfolds `spec_prune` at position `j` of the table.
proof fn lemma_prune_unfold(tbl: Seq<AcView>, now: i64, j: int)
    requires
        0 <= j < tbl.len(),
    ensures
        spec_prune(tbl.skip(j), now) == (if now - tbl[j].seen < STALE_SECS {
            seq![tbl[j]] + spec_prune(tbl.skip(j + 1), now)
        } else {
            spec_prune(tbl.skip(j + 1), now)
        }),
{
    assert(tbl.skip(j).len() == tbl.len() - j);
    assert(tbl.skip(j)[0] == tbl[j]);
    assert(tbl.skip(j).skip(1) =~= tbl.skip(j + 1));
}

/// Saturating addition into the counters' type.
pub open spec fn spec_sat_add(a: usize, b: int) -> usize
    recommends
        b >= 0,
{
    if a + b <= usize::MAX {
        (a + b) as usize
    } else {
        usize::MAX
    }
}

/// Saturation composes: adding in two steps is adding the sum.
proof fn lemma_sat_add_assoc(a: usize, x: int, y: int)
    requires
        x >= 0,
        y >= 0,
    ensures
        spec_sat_add(spec_sat_add(a, x), y) == spec_sat_add(a, x + y),
{
}

/// Saturating addition of counters.
fn sat_add(a: usize, b: usize) -> (r: usize)
    ensures
        r == spec_sat_add(a, b as int),
{
    match a.checked_add(b) {
        Some(x) => x,
        None => usize::MAX,
    }
}

/// The target positions near an interceptor's current position, by slot in
/// the target list, under the planar prefilter.
pub open spec fn spec_near_set(tgts: Seq<AcView>, i: AcView) -> Set<int> {
    Set::new(|j: int| 0 <= j < tgts.len() && spec_prefilter(i, tgts[j]))
}

/// How many interceptor-target candidate pairs the spatial join yields: for
/// each interceptor, the number of targets within the prefilter bound.
pub open spec fn spec_processed_count(ints: Seq<AcView>, tgts: Seq<AcView>) -> nat
    decreases ints.len(),
{
    if ints.len() == 0 {
        0
    } else {
        spec_near_set(tgts, ints[0]).len() + spec_processed_count(ints.skip(1), tgts)
    }
}

/// Unfolds `spec_processed_count` at position `k` of the interceptor list.
proof fn lemma_processed_unfold(ints: Seq<AcView>, tgts: Seq<AcView>, k: int)
    requires
        0 <= k < ints.len(),
    ensures
        spec_processed_count(ints.skip(k), tgts) == spec_near_set(tgts, ints[k]).len()
            + spec_processed_count(ints.skip(k + 1), tgts),
{
    assert(ints.skip(k).len() == ints.len() - k);
    assert(ints.skip(k)[0] == ints[k]);
    assert(ints.skip(k).skip(1) =~= ints.skip(k + 1));
}

/// The first position in the table of the aircraft with the given hex
/// code.
fn find_by_hex(tbl: &Vec<Ac>, hex: u32) -> (r: Option<usize>)
    ensures
        r matches Some(k) ==> spec_hex_index(ac_views(tbl@), hex) == k,
        r is None ==> spec_hex_index(ac_views(tbl@), hex) == -1,
{
    proof {
        lemma_hex_index_props(ac_views(tbl@), hex);
    }
    let mut i: usize = 0;
    while i < tbl.len()
        invariant
            i <= tbl@.len(),
            forall|m: int| 0 <= m < i ==> ac_views(tbl@)[m].hex != hex,
            spec_hex_index(ac_views(tbl@), hex) == -1 || 0 <= spec_hex_index(
                ac_views(tbl@),
                hex,
            ) < tbl@.len(),
            spec_hex_index(ac_views(tbl@), hex) == -1 ==> forall|m: int|
                0 <= m < tbl@.len() ==> ac_views(tbl@)[m].hex != hex,
            spec_hex_index(ac_views(tbl@), hex) >= 0 ==> ac_views(tbl@)[spec_hex_index(
                ac_views(tbl@),
                hex,
            )].hex == hex,
            spec_hex_index(ac_views(tbl@), hex) >= 0 ==> forall|m: int|
                0 <= m < spec_hex_index(ac_views(tbl@), hex) ==> ac_views(tbl@)[m].hex != hex,
        decreases tbl@.len() - i,
    {
        if tbl[i].hex == hex {
            proof {
                assert(ac_views(tbl@)[i as int].hex == hex);
                let idx = spec_hex_index(ac_views(tbl@), hex);
                if idx == -1 {
                    assert(ac_views(tbl@)[i as int].hex != hex);
                } else if idx < i {
                    assert(ac_views(tbl@)[idx].hex != hex);
                } else if idx > i {
                    assert(ac_views(tbl@)[i as int].hex != hex);
                }
            }
            return Some(i);
        }
        i = i + 1;
    }
    None
}

/// Whether the log already holds an event for the pair within the
/// deduplication window ending at `now`.
fn log_has_recent_pair(events: &Vec<Interception>, ihex: u32, thex: u32, now: i64) -> (r: bool)
    requires
        tick_in_range(now),
    ensures
        r == spec_dup(event_views(events@), ihex, thex, now),
{
    let mut n: usize = 0;
    while n < events.len()
        invariant
            n <= events@.len(),
            tick_in_range(now),
            forall|m: int|
                0 <= m < n ==> !((#[trigger] event_views(events@)[m]).interceptor.hex == ihex
                    && event_views(events@)[m].target.hex == thex && event_views(events@)[m].time
                    > now - DEDUP_WINDOW_SECS),
        decreases events@.len() - n,
    {
        let e = &events[n];
        if e.interceptor.hex == ihex && e.target.hex == thex && e.time > now - DEDUP_WINDOW_SECS {
            assert(event_views(events@)[n as int].interceptor.hex == ihex);
            return true;
        }
        n = n + 1;
    }
    false
}

/// Folds one usable record into the aircraft table: the entry with the
/// record's hex code is updated in place, or a new entry is appended. Hands
/// back the position of the touched entry.
pub fn upsert(tbl: &mut Vec<Ac>, now: i64, rec: &AircraftRecord) -> (idx: usize)
    requires
        tick_in_range(now),
        record_usable(*rec),
        forall|i: int| 0 <= i < old(tbl)@.len() ==> (#[trigger] ac_views(old(tbl)@)[i]).wf(),
        forall|i: int|
            0 <= i < old(tbl)@.len() ==> (#[trigger] ac_views(old(tbl)@)[i]).cur_pos().time
                <= now,
        forall|i: int, j: int|
            0 <= i < j < old(tbl)@.len() ==> ac_views(old(tbl)@)[i].hex != ac_views(
                old(tbl)@,
            )[j].hex,
    ensures
        ac_views(final(tbl)@) == spec_upsert(ac_views(old(tbl)@), now, *rec),
        idx < final(tbl)@.len(),
        ac_views(final(tbl)@)[idx as int] == spec_upserted_ac(ac_views(old(tbl)@), now, *rec),
        forall|i: int| 0 <= i < final(tbl)@.len() ==> (#[trigger] ac_views(final(tbl)@)[i]).wf(),
        forall|i: int|
            0 <= i < final(tbl)@.len() ==> (#[trigger] ac_views(final(tbl)@)[i]).cur_pos().time
                <= now,
        forall|i: int, j: int|
            0 <= i < j < final(tbl)@.len() ==> ac_views(final(tbl)@)[i].hex != ac_views(
                final(tbl)@,
            )[j].hex,
{
    proof {
        lemma_hex_index_props(ac_views(tbl@), rec.hex);
    }
    match find_by_hex(tbl, rec.hex) {
        Some(k) => {
            let mut ac = tbl[k].clone();
            ac.update(now, rec);
            tbl[k] = ac;
            assert(ac_views(tbl@) =~= spec_upsert(ac_views(old(tbl)@), now, *rec));
            k
        },
        None => {
            let ac = match Ac::new(now, rec) {
                Ok(ac) => ac,
                Err(_) => unreached(),
            };
            tbl.push(ac);
            assert(ac_views(tbl@) =~= spec_upsert(ac_views(old(tbl)@), now, *rec));
            tbl.len() - 1
        },
    }
}

/// Removes every aircraft not seen within the staleness window before
/// `now`; all other entries stay, in order.
pub fn prune(tbl: &mut Vec<Ac>, now: i64)
    requires
        tick_in_range(now),
        forall|i: int| 0 <= i < old(tbl)@.len() ==> (#[trigger] ac_views(old(tbl)@)[i]).wf(),
        forall|i: int|
            0 <= i < old(tbl)@.len() ==> (#[trigger] ac_views(old(tbl)@)[i]).cur_pos().time
                <= now,
        forall|i: int, j: int|
            0 <= i < j < old(tbl)@.len() ==> ac_views(old(tbl)@)[i].hex != ac_views(
                old(tbl)@,
            )[j].hex,
    ensures
        ac_views(final(tbl)@) == spec_prune(ac_views(old(tbl)@), now),
        forall|i: int|
            0 <= i < final(tbl)@.len() ==> now - (#[trigger] ac_views(final(tbl)@)[i]).seen
                < STALE_SECS,
        forall|i: int| 0 <= i < final(tbl)@.len() ==> (#[trigger] ac_views(final(tbl)@)[i]).wf(),
        forall|i: int|
            0 <= i < final(tbl)@.len() ==> (#[trigger] ac_views(final(tbl)@)[i]).cur_pos().time
                <= now,
        forall|i: int, j: int|
            0 <= i < j < final(tbl)@.len() ==> ac_views(final(tbl)@)[i].hex != ac_views(
                final(tbl)@,
            )[j].hex,
{
    let ghost full = ac_views(tbl@);
    let mut kept: Vec<Ac> = Vec::new();
    assert(full.skip(0) =~= full);
    assert(ac_views(kept@) =~= Seq::<AcView>::empty());
    assert(ac_views(kept@) + spec_prune(full.skip(0), now) =~= spec_prune(full, now));
    let mut i: usize = 0;
    while i < tbl.len()
        invariant
            i <= tbl@.len(),
            tick_in_range(now),
            full == ac_views(tbl@),
            forall|m: int| 0 <= m < full.len() ==> (#[trigger] full[m]).wf(),
            forall|m: int| 0 <= m < full.len() ==> (#[trigger] full[m]).cur_pos().time <= now,
            forall|m: int, n: int| 0 <= m < n < full.len() ==> full[m].hex != full[n].hex,
            spec_prune(full, now) == ac_views(kept@) + spec_prune(full.skip(i as int), now),
            forall|k: int|
                0 <= k < kept@.len() ==> now - (#[trigger] ac_views(kept@)[k]).seen < STALE_SECS,
            forall|k: int| 0 <= k < kept@.len() ==> (#[trigger] ac_views(kept@)[k]).wf(),
            forall|k: int|
                0 <= k < kept@.len() ==> (#[trigger] ac_views(kept@)[k]).cur_pos().time <= now,
            forall|m: int, n: int|
                0 <= m < n < kept@.len() ==> ac_views(kept@)[m].hex != ac_views(kept@)[n].hex,
            forall|k: int| #![trigger ac_views(kept@)[k]]
                0 <= k < kept@.len() ==> exists|j: int|
                    0 <= j < i && ac_views(kept@)[k] == #[trigger] full[j],
        decreases tbl@.len() - i,
    {
        proof {
            lemma_prune_unfold(full, now, i as int);
        }
        if now - tbl[i].seen < STALE_SECS {
            let ghost old_kept = kept@;
            kept.push(tbl[i].clone());
            assert(ac_views(kept@) =~= ac_views(old_kept).push(full[i as int]));
            assert(spec_prune(full, now) =~= ac_views(kept@) + spec_prune(
                full.skip(i as int + 1),
                now,
            ));
            proof {
                assert forall|m: int, n: int|
                    0 <= m < n < kept@.len() implies ac_views(kept@)[m].hex != ac_views(
                    kept@,
                )[n].hex by {
                    if n == kept@.len() - 1 {
                        let j = choose|j: int|
                            0 <= j < i && ac_views(kept@)[m] == #[trigger] full[j];
                        assert(ac_views(kept@)[n] == full[i as int]);
                        assert(full[j].hex != full[i as int].hex);
                    }
                }
                assert forall|k: int| #![trigger ac_views(kept@)[k]]
                    0 <= k < kept@.len() implies exists|j: int|
                    0 <= j < i + 1 && ac_views(kept@)[k] == #[trigger] full[j] by {
                    if k == kept@.len() - 1 {
                        assert(ac_views(kept@)[k] == full[i as int]);
                    } else {
                        let j = choose|j: int|
                            0 <= j < i && ac_views(kept@)[k] == #[trigger] full[j];
                        assert(ac_views(kept@)[k] == full[j]);
                    }
                }
            }
        }
        i = i + 1;
    }
    assert(full.skip(tbl@.len() as int) =~= Seq::empty());
    assert(ac_views(kept@) =~= ac_views(kept@) + spec_prune(full.skip(tbl@.len() as int), now));
    *tbl = kept;
}

/// What one tick makes of the state's aircraft table and classes: the scan
/// of the snapshot's records over the pre-state table.
pub open spec fn spec_tick_scan(pre: StateView, response: Response) -> ScanResult {
    spec_scan(pre.aircraft, response.now, response.aircraft@)
}

/// A newly appended event is sound: it was recorded at this tick, it was no
/// duplicate of any event before it, and it is the event of an
/// interceptor-target pair of this tick that passed the prefilter and every
/// gate.
pub open spec fn spec_new_event_ok(
    events: Seq<InterceptionView>,
    n: int,
    ints: Seq<AcView>,
    tgts: Seq<AcView>,
    now: i64,
) -> bool {
    &&& events[n].time == now
    &&& !spec_dup(events.take(n), events[n].interceptor.hex, events[n].target.hex, now)
    &&& exists|k: int, j: int|
        #![trigger ints[k], tgts[j]]
        0 <= k < ints.len() && 0 <= j < tgts.len() && events[n] == spec_event(
            ints[k],
            tgts[j],
            now,
        ) && spec_prefilter(ints[k], tgts[j]) && spec_gates(ints[k], tgts[j], now)
}

/// One tick only appends events, and every appended event is sound.
pub open spec fn spec_events_sound(
    pre_events: Seq<InterceptionView>,
    post_events: Seq<InterceptionView>,
    ints: Seq<AcView>,
    tgts: Seq<AcView>,
    now: i64,
) -> bool {
    &&& post_events.len() >= pre_events.len()
    &&& post_events.take(pre_events.len() as int) == pre_events
    &&& forall|n: int|
        pre_events.len() <= n < post_events.len() ==> spec_new_event_ok(
            post_events,
            n,
            ints,
            tgts,
            now,
        )
}

/// The log records the pair at this tick, at or after position `from`.
pub open spec fn spec_pair_recorded(
    events: Seq<InterceptionView>,
    from: int,
    ihex: u32,
    thex: u32,
    now: i64,
) -> bool {
    exists|n: int|
        from <= n < events.len() && (#[trigger] events[n]).interceptor.hex == ihex
            && events[n].target.hex == thex && events[n].time == now
}

/// One tick emits every owed event: each interceptor-target pair of the
/// tick that passes the prefilter and every gate, and has no event within
/// the deduplication window already, is recorded at this tick.
pub open spec fn spec_events_complete(
    pre_events: Seq<InterceptionView>,
    post_events: Seq<InterceptionView>,
    ints: Seq<AcView>,
    tgts: Seq<AcView>,
    now: i64,
) -> bool {
    forall|k: int, j: int|
        #![trigger ints[k], tgts[j]]
        0 <= k < ints.len() && 0 <= j < tgts.len() && spec_prefilter(ints[k], tgts[j])
            && spec_gates(ints[k], tgts[j], now) && !spec_dup(
            pre_events,
            ints[k].hex,
            tgts[j].hex,
            now,
        ) ==> spec_pair_recorded(
            post_events,
            pre_events.len() as int,
            ints[k].hex,
            tgts[j].hex,
            now,
        )
}

/// Whether the two aircraft were more than ten miles apart at the moment,
/// chosen from their histories, closest to the later of their oldest
/// timestamps. On equally close moments the earlier entry decides.
pub fn started_far_apart(fast_mover: &Ac, target: &Ac) -> (r: bool)
    requires
        fast_mover@.wf(),
        target@.wf(),
    ensures
        r == spec_started_far_apart(fast_mover@, target@),
{
    let oldest_fm = fast_mover.oldest_coords().time;
    let oldest_t = target.oldest_coords().time;
    let ts = if oldest_fm >= oldest_t {
        oldest_fm
    } else {
        oldest_t
    };
    let a = closest_coord(&fast_mover.coords, ts);
    let b = closest_coord(&target.coords, ts);
    let d = haversine_distance_cm(a.lon, a.lat, b.lon, b.lat);
    d > FAR_APART_MIN_CM
}

/// Drives one tick of the detector.
///
/// The snapshot's records are folded into the aircraft table in order and
/// each touched aircraft is classified; stale aircraft are then pruned.
/// When any interceptor is present, a spatial index is built over the
/// targets' current positions, each interceptor is joined against the
/// targets within the planar prefilter bound, and every pair that passes
/// the gates and is no duplicate within the deduplication window is
/// appended to the event log. Snapshots must arrive in time order. The
/// call always succeeds; the `Result` leaves room for fatal conditions.
#[verifier::loop_isolation(false)]
#[verifier::rlimit(60)]
pub fn process_adsbx_response(state: &mut State, response: &Response) -> (r: Result<(), Error>)
    requires
        old(state)@.wf(),
        tick_in_range(response.now),
        response.now >= old(state)@.last_tick,
    ensures
        r is Ok,
        final(state)@.wf(),
        final(state)@.last_tick == response.now,
        final(state)@.aircraft == spec_prune(
            spec_tick_scan(old(state)@, *response).table,
            response.now,
        ),
        forall|i: int|
            0 <= i < final(state)@.aircraft.len() ==> response.now - (#[trigger] final(state)@.aircraft[i]).seen
                < STALE_SECS,
        final(state)@.num_ac_indexed == spec_sat_add(
            old(state)@.num_ac_indexed,
            spec_tick_scan(old(state)@, *response).targets.len() as int,
        ),
        final(state)@.num_ac_processed == spec_sat_add(
            old(state)@.num_ac_processed,
            spec_processed_count(
                spec_tick_scan(old(state)@, *response).interceptors,
                spec_tick_scan(old(state)@, *response).targets,
            ) as int,
        ),
        spec_events_sound(
            old(state)@.interceptions,
            final(state)@.interceptions,
            spec_tick_scan(old(state)@, *response).interceptors,
            spec_tick_scan(old(state)@, *response).targets,
            response.now,
        ),
        spec_events_complete(
            old(state)@.interceptions,
            final(state)@.interceptions,
            spec_tick_scan(old(state)@, *response).interceptors,
            spec_tick_scan(old(state)@, *response).targets,
            response.now,
        ),
{
    let now = response.now;
    let ghost recs = response.aircraft@;
    let ghost scan0 = spec_tick_scan(old(state)@, *response);
    let ghost pre_events = old(state)@.interceptions;

    // Fold the snapshot's records into the table, classifying as we go.
    let mut fast_movers: Vec<Ac> = Vec::new();
    let mut potential_tois: Vec<Ac> = Vec::new();
    proof {
        assert(recs.skip(0) =~= recs);
        assert(ac_views(fast_movers@) =~= Seq::<AcView>::empty());
        assert(ac_views(potential_tois@) =~= Seq::<AcView>::empty());
        assert(ac_views(fast_movers@) + spec_scan(
            ac_views(state.aircraft@),
            now,
            recs.skip(0),
        ).interceptors =~= spec_scan(ac_views(state.aircraft@), now, recs).interceptors);
        assert(ac_views(potential_tois@) + spec_scan(
            ac_views(state.aircraft@),
            now,
            recs.skip(0),
        ).targets =~= spec_scan(ac_views(state.aircraft@), now, recs).targets);
    }
    let mut ridx: usize = 0;
    while ridx < response.aircraft.len()
        invariant
            ridx <= recs.len(),
            forall|i: int|
                0 <= i < state.aircraft@.len() ==> (#[trigger] ac_views(state.aircraft@)[i]).wf(),
            forall|i: int|
                0 <= i < state.aircraft@.len() ==> (#[trigger] ac_views(
                    state.aircraft@,
                )[i]).cur_pos().time <= now,
            forall|i: int, j: int|
                0 <= i < j < state.aircraft@.len() ==> ac_views(state.aircraft@)[i].hex
                    != ac_views(state.aircraft@)[j].hex,
            scan0.table == spec_scan(
                ac_views(state.aircraft@),
                now,
                recs.skip(ridx as int),
            ).table,
            scan0.interceptors == ac_views(fast_movers@) + spec_scan(
                ac_views(state.aircraft@),
                now,
                recs.skip(ridx as int),
            ).interceptors,
            scan0.targets == ac_views(potential_tois@) + spec_scan(
                ac_views(state.aircraft@),
                now,
                recs.skip(ridx as int),
            ).targets,
            forall|k: int|
                0 <= k < fast_movers@.len() ==> (#[trigger] ac_views(fast_movers@)[k]).wf(),
            forall|k: int|
                0 <= k < potential_tois@.len() ==> (#[trigger] ac_views(potential_tois@)[k]).wf(),
            state.num_ac_indexed == old(state).num_ac_indexed,
            state.num_ac_processed == old(state).num_ac_processed,
            state.interceptions@ == old(state).interceptions@,
            state.last_tick@ == old(state).last_tick@,
        decreases recs.len() - ridx,
    {
        proof {
            lemma_scan_unfold(ac_views(state.aircraft@), now, recs, ridx as int);
        }
        let rec = &response.aircraft[ridx];
        if rec.is_usable() {
            let ghost tbl_before = ac_views(state.aircraft@);
            let ghost rest_ints = spec_scan(
                spec_upsert(tbl_before, now, recs[ridx as int]),
                now,
                recs.skip(ridx as int + 1),
            ).interceptors;
            let ghost rest_tgts = spec_scan(
                spec_upsert(tbl_before, now, recs[ridx as int]),
                now,
                recs.skip(ridx as int + 1),
            ).targets;
            let idx = upsert(&mut state.aircraft, now, rec);
            let ghost ac_v = spec_upserted_ac(tbl_before, now, recs[ridx as int]);
            assert(ac_views(state.aircraft@)[idx as int] == ac_v);
            let cls = state.aircraft[idx].class(now);
            match cls {
                Class::Interceptor => {
                    let ghost before = fast_movers@;
                    let cl = state.aircraft[idx].clone();
                    fast_movers.push(cl);
                    proof {
                        assert(ac_views(fast_movers@) =~= ac_views(before).push(ac_v));
                        assert(ac_views(before).push(ac_v) + rest_ints =~= ac_views(before) + (
                        seq![ac_v] + rest_ints));
                    }
                },
                Class::Target => {
                    let ghost before = potential_tois@;
                    let cl = state.aircraft[idx].clone();
                    potential_tois.push(cl);
                    proof {
                        assert(ac_views(potential_tois@) =~= ac_views(before).push(ac_v));
                        assert(ac_views(before).push(ac_v) + rest_tgts =~= ac_views(before) + (
                        seq![ac_v] + rest_tgts));
                    }
                },
                Class::Other => {},
            }
        }
        ridx = ridx + 1;
    }
    proof {
        assert(recs.skip(recs.len() as int) =~= Seq::<AircraftRecord>::empty());
        assert(scan0.interceptors =~= ac_views(fast_movers@));
        assert(scan0.targets =~= ac_views(potential_tois@));
    }

    // Count the targets produced for the index, then remove stale
    // aircraft.
    state.num_ac_indexed = sat_add(state.num_ac_indexed, potential_tois.len());
    prune(&mut state.aircraft, now);
    state.last_tick = Ghost(now);

    if fast_movers.len() == 0 {
        proof {
            assert(event_views(state.interceptions@) =~= pre_events);
            assert(event_views(state.interceptions@).take(pre_events.len() as int)
                =~= pre_events);
            assert(spec_processed_count(scan0.interceptors, scan0.targets) == 0);
        }
        return Ok(());
    }

    // Build the spatial index over the targets' current positions.
    let ghost ints = scan0.interceptors;
    let ghost tgts = scan0.targets;
    let ghost entry_processed = state.num_ac_processed;

    let mut points: Vec<(i64, i64)> = Vec::new();
    let mut pi: usize = 0;
    while pi < potential_tois.len()
        invariant
            pi <= potential_tois@.len(),
            points@.len() == pi,
            forall|j: int|
                0 <= j < pi ==> #[trigger] points@[j] == (
                    tgts[j].cur_pos().lon,
                    tgts[j].cur_pos().lat,
                ),
        decreases potential_tois@.len() - pi,
    {
        assert(potential_tois@[pi as int]@ == tgts[pi as int]);
        let p = potential_tois[pi].cur_coords();
        points.push((p.lon, p.lat));
        pi = pi + 1;
    }
    let index = build_target_index(&points);

    // Join each interceptor against the targets near it.
    let ghost acs_final = state.aircraft@;
    let ghost idx_final = state.num_ac_indexed;
    proof {
        assert(ints.skip(0) =~= ints);
    }
    let mut k: usize = 0;
    while k < fast_movers.len()
        invariant
            k <= fast_movers@.len(),
            state.aircraft@ == acs_final,
            state.num_ac_indexed == idx_final,
            state.last_tick@ == now,
            spec_sat_add(
                state.num_ac_processed,
                spec_processed_count(ints.skip(k as int), tgts) as int,
            ) == spec_sat_add(entry_processed, spec_processed_count(ints, tgts) as int),
            event_views(state.interceptions@).len() >= pre_events.len(),
            event_views(state.interceptions@).take(pre_events.len() as int) == pre_events,
            forall|n: int|
                pre_events.len() <= n < event_views(state.interceptions@).len()
                    ==> spec_new_event_ok(event_views(state.interceptions@), n, ints, tgts, now),
            forall|n: int|
                0 <= n < event_views(state.interceptions@).len() ==> (#[trigger] event_views(
                    state.interceptions@,
                )[n]).wf(),
            forall|n: int|
                0 <= n < event_views(state.interceptions@).len() ==> (#[trigger] event_views(
                    state.interceptions@,
                )[n]).time <= now,
            forall|m2: int, n2: int|
                0 <= m2 <= n2 < event_views(state.interceptions@).len() ==> event_views(
                    state.interceptions@,
                )[m2].time <= event_views(state.interceptions@)[n2].time,
            forall|m2: int, n2: int|
                0 <= m2 < n2 < event_views(state.interceptions@).len() && same_pair(
                    event_views(state.interceptions@)[m2],
                    event_views(state.interceptions@)[n2],
                ) ==> event_views(state.interceptions@)[n2].time - event_views(
                    state.interceptions@,
                )[m2].time >= DEDUP_WINDOW_SECS,
            forall|k2: int, j: int|
                #![trigger ints[k2], tgts[j]]
                0 <= k2 < k && 0 <= j < tgts.len() && spec_prefilter(ints[k2], tgts[j])
                    && spec_gates(ints[k2], tgts[j], now) && !spec_dup(
                    pre_events,
                    ints[k2].hex,
                    tgts[j].hex,
                    now,
                ) ==> spec_pair_recorded(
                    event_views(state.interceptions@),
                    pre_events.len() as int,
                    ints[k2].hex,
                    tgts[j].hex,
                    now,
                ),
        decreases fast_movers@.len() - k,
    {
        proof {
            lemma_processed_unfold(ints, tgts, k as int);
        }
        let fm = &fast_movers[k];
        assert(fm@ == ints[k as int]);
        let c = *fm.cur_coords();
        assert(c == ints[k as int].cur_pos());
        proof {
            assert forall|j: int| index_points(index).dom().contains(j) implies {
                let p = #[trigger] index_points(index)[j];
                -crate::snapshot::MAX_COORD_MICRODEG <= p.0 <= crate::snapshot::MAX_COORD_MICRODEG
                    && -crate::snapshot::MAX_COORD_MICRODEG <= p.1
                    <= crate::snapshot::MAX_COORD_MICRODEG
            } by {
                assert(points@[j] == (tgts[j].cur_pos().lon, tgts[j].cur_pos().lat));
                assert(tgts[j].wf());
                assert(tgts[j].coords[tgts[j].coords.len() - 1] == tgts[j].cur_pos());
            }
        }
        let cands = locate_within_sq_dist(&index, c.lon, c.lat, MAX_PREFILTER_SQ_MICRODEG2);
        proof {
            assert forall|mi: int| 0 <= mi < cands@.len() implies 0 <= #[trigger] cands@[mi]
                < tgts.len() && spec_prefilter(ints[k as int], tgts[cands@[mi] as int]) by {
                assert(index_points(index).dom().contains(cands@[mi] as int));
                assert(points@[cands@[mi] as int] == (
                    tgts[cands@[mi] as int].cur_pos().lon,
                    tgts[cands@[mi] as int].cur_pos().lat,
                ));
            }
        }
        let ghost processed_at_k = state.num_ac_processed;
        let mut m: usize = 0;
        while m < cands.len()
            invariant
                m <= cands@.len(),
                state.aircraft@ == acs_final,
                state.num_ac_indexed == idx_final,
                state.last_tick@ == now,
                state.num_ac_processed == spec_sat_add(processed_at_k, m as int),
                event_views(state.interceptions@).len() >= pre_events.len(),
                event_views(state.interceptions@).take(pre_events.len() as int) == pre_events,
                forall|n: int|
                    pre_events.len() <= n < event_views(state.interceptions@).len()
                        ==> spec_new_event_ok(
                        event_views(state.interceptions@),
                        n,
                        ints,
                        tgts,
                        now,
                    ),
                forall|n: int|
                    0 <= n < event_views(state.interceptions@).len() ==> (#[trigger] event_views(
                        state.interceptions@,
                    )[n]).wf(),
                forall|n: int|
                    0 <= n < event_views(state.interceptions@).len() ==> (#[trigger] event_views(
                        state.interceptions@,
                    )[n]).time <= now,
                forall|m2: int, n2: int|
                    0 <= m2 <= n2 < event_views(state.interceptions@).len() ==> event_views(
                        state.interceptions@,
                    )[m2].time <= event_views(state.interceptions@)[n2].time,
                forall|m2: int, n2: int|
                    0 <= m2 < n2 < event_views(state.interceptions@).len() && same_pair(
                        event_views(state.interceptions@)[m2],
                        event_views(state.interceptions@)[n2],
                    ) ==> event_views(state.interceptions@)[n2].time - event_views(
                        state.interceptions@,
                    )[m2].time >= DEDUP_WINDOW_SECS,
                forall|k2: int, j: int|
                    #![trigger ints[k2], tgts[j]]
                    0 <= k2 < k && 0 <= j < tgts.len() && spec_prefilter(ints[k2], tgts[j])
                        && spec_gates(ints[k2], tgts[j], now) && !spec_dup(
                        pre_events,
                        ints[k2].hex,
                        tgts[j].hex,
                        now,
                    ) ==> spec_pair_recorded(
                        event_views(state.interceptions@),
                        pre_events.len() as int,
                        ints[k2].hex,
                        tgts[j].hex,
                        now,
                    ),
                forall|mi: int|
                    0 <= mi < m && spec_gates(
                        ints[k as int],
                        tgts[#[trigger] cands@[mi] as int],
                        now,
                    ) && !spec_dup(
                        pre_events,
                        ints[k as int].hex,
                        tgts[cands@[mi] as int].hex,
                        now,
                    ) ==> spec_pair_recorded(
                        event_views(state.interceptions@),
                        pre_events.len() as int,
                        ints[k as int].hex,
                        tgts[cands@[mi] as int].hex,
                        now,
                    ),
            decreases cands@.len() - m,
        {
            let j = cands[m];
            assert(0 <= j < potential_tois@.len() && spec_prefilter(
                ints[k as int],
                tgts[j as int],
            ));
            state.num_ac_processed = sat_add(state.num_ac_processed, 1);
            proof {
                lemma_sat_add_assoc(processed_at_k, m as int, 1);
            }
            let target = &potential_tois[j];
            assert(target@ == tgts[j as int]);
            let t_pos = *target.cur_coords();
            assert(t_pos == tgts[j as int].cur_pos());
            let d_cm = haversine_distance_cm(t_pos.lon, t_pos.lat, c.lon, c.lat);
            let ad = target.cur_alt as i64 - fm.cur_alt as i64;
            let alt_diff = if ad < 0 {
                -ad
            } else {
                ad
            };
            let sd = target.cur_speed - fm.cur_speed;
            let spd_diff = if sd < 0 {
                -sd
            } else {
                sd
            };
            let far = started_far_apart(fm, target);
            let pass = d_cm < MAX_LATERAL_SEPARATION_CM && spd_diff < SPEED_MATCH_CKT
                && alt_diff < MAX_VERTICAL_SEPARATION_FT && now - target.seen
                < TARGET_RECENCY_SECS && fm.hex != target.hex && far;
            proof {
                assert(d_cm == spec_lateral_cm(ints[k as int], tgts[j as int]));
                assert(spd_diff == spec_abs(
                    tgts[j as int].cur_speed - ints[k as int].cur_speed,
                ));
                assert(alt_diff == spec_alt_diff(ints[k as int], tgts[j as int]));
                assert(far == spec_started_far_apart(ints[k as int], tgts[j as int]));
                assert(pass == spec_gates(ints[k as int], tgts[j as int], now));
            }
            if pass {
                if !log_has_recent_pair(&state.interceptions, fm.hex, target.hex, now) {
                    let ghost evsb = event_views(state.interceptions@);
                    let ghost nn = evsb.len() as int;
                    let ev = Interception {
                        interceptor: fm.clone(),
                        target: target.clone(),
                        time: now,
                        lateral_separation_cm: d_cm,
                        vertical_separation_ft: alt_diff as i32,
                    };
                    let ghost evv = ev@;
                    state.interceptions.push(ev);
                    proof {
                        let evs = event_views(state.interceptions@);
                        assert(evs =~= evsb.push(evv));
                        assert(evv.interceptor == ints[k as int]);
                        assert(evv.target == tgts[j as int]);
                        assert(evv == spec_event(ints[k as int], tgts[j as int], now));
                        assert(evs.take(pre_events.len() as int) =~= evsb.take(
                            pre_events.len() as int,
                        ));
                        assert(evs.take(nn) =~= evsb);
                        assert(evv.wf());
                        assert(spec_new_event_ok(evs, nn, ints, tgts, now)) by {
                            assert(0 <= (k as int) < ints.len() && 0 <= (j as int) < tgts.len()
                                && evs[nn] == spec_event(ints[k as int], tgts[j as int], now)
                                && spec_prefilter(ints[k as int], tgts[j as int]) && spec_gates(
                                ints[k as int],
                                tgts[j as int],
                                now,
                            ));
                        }
                        assert forall|n2: int|
                            pre_events.len() <= n2 < evs.len() implies spec_new_event_ok(
                            evs,
                            n2,
                            ints,
                            tgts,
                            now,
                        ) by {
                            if n2 < nn {
                                lemma_new_event_ok_push(evsb, evv, n2, ints, tgts, now);
                                assert(evsb.push(evv) =~= evs);
                            }
                        }
                        assert forall|m2: int|
                            0 <= m2 < nn && same_pair(evs[m2], evs[nn]) implies evs[nn].time
                            - evs[m2].time >= DEDUP_WINDOW_SECS by {
                            assert(evs[m2] == evsb[m2]);
                            assert(!(evsb[m2].interceptor.hex == evv.interceptor.hex
                                && evsb[m2].target.hex == evv.target.hex && evsb[m2].time > now
                                - DEDUP_WINDOW_SECS));
                        }
                        assert forall|k2: int, j2: int|
                            #![trigger ints[k2], tgts[j2]]
                            0 <= k2 < k && 0 <= j2 < tgts.len() && spec_prefilter(
                                ints[k2],
                                tgts[j2],
                            ) && spec_gates(ints[k2], tgts[j2], now) && !spec_dup(
                                pre_events,
                                ints[k2].hex,
                                tgts[j2].hex,
                                now,
                            ) implies spec_pair_recorded(
                            evs,
                            pre_events.len() as int,
                            ints[k2].hex,
                            tgts[j2].hex,
                            now,
                        ) by {
                            lemma_recorded_monotone(
                                evsb,
                                evs,
                                pre_events.len() as int,
                                ints[k2].hex,
                                tgts[j2].hex,
                                now,
                            );
                        }
                        assert forall|mi: int|
                            0 <= mi < m + 1 && spec_gates(
                                ints[k as int],
                                tgts[#[trigger] cands@[mi] as int],
                                now,
                            ) && !spec_dup(
                                pre_events,
                                ints[k as int].hex,
                                tgts[cands@[mi] as int].hex,
                                now,
                            ) implies spec_pair_recorded(
                            evs,
                            pre_events.len() as int,
                            ints[k as int].hex,
                            tgts[cands@[mi] as int].hex,
                            now,
                        ) by {
                            if mi < m {
                                lemma_recorded_monotone(
                                    evsb,
                                    evs,
                                    pre_events.len() as int,
                                    ints[k as int].hex,
                                    tgts[cands@[mi] as int].hex,
                                    now,
                                );
                            } else {
                                assert(cands@[mi] == j);
                                assert(pre_events.len() <= nn < evs.len()
                                    && evs[nn].interceptor.hex == ints[k as int].hex
                                    && evs[nn].target.hex == tgts[j as int].hex && evs[nn].time
                                    == now);
                            }
                        }
                    }
                } else {
                    proof {
                        let evs = event_views(state.interceptions@);
                        if !spec_dup(pre_events, ints[k as int].hex, tgts[j as int].hex, now) {
                            let n0 = choose|n: int|
                                0 <= n < evs.len() && (#[trigger] evs[n]).interceptor.hex
                                    == fm@.hex && evs[n].target.hex == target@.hex && evs[n].time
                                    > now - DEDUP_WINDOW_SECS;
                            if n0 < pre_events.len() {
                                assert(evs.take(pre_events.len() as int)[n0] == evs[n0]);
                                assert(pre_events[n0].interceptor.hex == ints[k as int].hex
                                    && pre_events[n0].target.hex == tgts[j as int].hex
                                    && pre_events[n0].time > now - DEDUP_WINDOW_SECS);
                                assert(false);
                            } else {
                                assert(spec_new_event_ok(evs, n0, ints, tgts, now));
                                assert(evs[n0].time == now);
                                assert(spec_pair_recorded(
                                    evs,
                                    pre_events.len() as int,
                                    ints[k as int].hex,
                                    tgts[j as int].hex,
                                    now,
                                ));
                            }
                        }
                    }
                }
            }
            m = m + 1;
        }
        // Account for this interceptor's candidates and close its
        // completeness obligation.
        proof {
            let pred = |j: int|
                spec_sq_dist(
                    index_points(index)[j].0,
                    index_points(index)[j].1,
                    c.lon,
                    c.lat,
                ) <= MAX_PREFILTER_SQ_MICRODEG2;
            assert(index_points(index).dom().filter(pred) =~= spec_near_set(
                tgts,
                ints[k as int],
            ));
            assert(cands@.len() == spec_near_set(tgts, ints[k as int]).len());
            lemma_sat_add_assoc(
                processed_at_k,
                spec_near_set(tgts, ints[k as int]).len() as int,
                spec_processed_count(ints.skip(k as int + 1), tgts) as int,
            );
            assert forall|j: int|
                #![trigger tgts[j]]
                0 <= j < tgts.len() && spec_prefilter(ints[k as int], tgts[j]) && spec_gates(
                    ints[k as int],
                    tgts[j],
                    now,
                ) && !spec_dup(
                    pre_events,
                    ints[k as int].hex,
                    tgts[j].hex,
                    now,
                ) implies spec_pair_recorded(
                event_views(state.interceptions@),
                pre_events.len() as int,
                ints[k as int].hex,
                tgts[j].hex,
                now,
            ) by {
                assert(index_points(index).dom().contains(j));
                assert(points@[j] == (tgts[j].cur_pos().lon, tgts[j].cur_pos().lat));
                assert(spec_sq_dist(
                    index_points(index)[j].0,
                    index_points(index)[j].1,
                    c.lon,
                    c.lat,
                ) <= MAX_PREFILTER_SQ_MICRODEG2);
                assert(cands@.contains(j as usize));
                let mi = choose|mi: int| 0 <= mi < cands@.len() && cands@[mi] == j as usize;
                assert(cands@[mi] as int == j);
            }
        }
        k = k + 1;
    }
    proof {
        assert(ints.skip(fast_movers@.len() as int) =~= Seq::<AcView>::empty());
        assert(spec_processed_count(ints.skip(fast_movers@.len() as int), tgts) == 0);
        assert(ints.len() == fast_movers@.len());
        assert(ints.len() != 0);
    }
    Ok(())
}

/// Every aircraft of a well-formed state keeps at most the bounded number
/// of positions, and its maximum speed dominates its current speed.
pub proof fn lemma_aircraft_invariants(s: StateView, i: int)
    requires
        s.wf(),
        0 <= i < s.aircraft.len(),
    ensures
        s.aircraft[i].coords.len() <= MAX_COORDS,
        s.aircraft[i].max_speed >= s.aircraft[i].cur_speed,
{
}

/// Every recorded event of a well-formed state lies strictly under the
/// lateral and vertical separation bounds of the gates.
pub proof fn lemma_event_separation(s: StateView, n: int)
    requires
        s.wf(),
        0 <= n < s.interceptions.len(),
    ensures
        s.interceptions[n].lateral_separation_cm < MAX_LATERAL_SEPARATION_CM,
        0 <= s.interceptions[n].vertical_separation_ft < MAX_VERTICAL_SEPARATION_FT,
{
}

/// Any two events of a well-formed state for the same interceptor-target
/// pair are at least the deduplication window apart.
pub proof fn lemma_dedup_spacing(s: StateView, m: int, n: int)
    requires
        s.wf(),
        0 <= m < n < s.interceptions.len(),
        same_pair(s.interceptions[m], s.interceptions[n]),
    ensures
        s.interceptions[n].time - s.interceptions[m].time >= DEDUP_WINDOW_SECS,
{
}

/// Processing a snapshot again at the same tick time records no second
/// event for any pair the earlier processing already recorded at that
/// time: the deduplication window covers the repeat.
///
/// `mid_events` is the log after the first processing, `post_events` the
/// log after the repeat, relating as the per-tick driver ensures.
pub proof fn lemma_same_tick_pair_not_repeated(
    mid_events: Seq<InterceptionView>,
    post_events: Seq<InterceptionView>,
    ints: Seq<AcView>,
    tgts: Seq<AcView>,
    now: i64,
    m: int,
    n: int,
)
    requires
        spec_events_sound(mid_events, post_events, ints, tgts, now),
        0 <= m < mid_events.len(),
        mid_events[m].time == now,
        mid_events.len() <= n < post_events.len(),
    ensures
        !same_pair(post_events[n], mid_events[m]),
{
    if same_pair(post_events[n], mid_events[m]) {
        assert(spec_new_event_ok(post_events, n, ints, tgts, now));
        assert(post_events.take(mid_events.len() as int)[m] == mid_events[m]);
        assert(post_events.take(n)[m] == post_events[m]);
        assert(spec_dup(
            post_events.take(n),
            post_events[n].interceptor.hex,
            post_events[n].target.hex,
            now,
        )) by {
            assert(post_events.take(n)[m].interceptor.hex == post_events[n].interceptor.hex
                && post_events.take(n)[m].target.hex == post_events[n].target.hex
                && post_events.take(n)[m].time > now - DEDUP_WINDOW_SECS);
        }
    }
}

/// Whether the table holds an aircraft with the given hex code.
pub open spec fn table_has_hex(tbl: Seq<AcView>, h: u32) -> bool {
    spec_hex_index(tbl, h) >= 0
}

/// The fast-update count of the table's aircraft with the given hex code.
pub open spec fn fast_count_of(tbl: Seq<AcView>, h: u32) -> u32
    recommends
        table_has_hex(tbl, h),
{
    tbl[spec_hex_index(tbl, h)].fast_count
}

/// Replacing an entry by one with the same hex code moves no hex index.
proof fn lemma_hex_index_update(tbl: Seq<AcView>, k: int, x: AcView, h: u32)
    requires
        0 <= k < tbl.len(),
        x.hex == tbl[k].hex,
    ensures
        spec_hex_index(tbl.update(k, x), h) == spec_hex_index(tbl, h),
    decreases tbl.len(),
{
    let upd = tbl.update(k, x);
    if k == 0 {
        if tbl[0].hex != h {
            assert(upd.skip(1) =~= tbl.skip(1));
        }
    } else {
        assert(upd[0] == tbl[0]);
        if tbl[0].hex != h {
            assert(upd.skip(1) =~= tbl.skip(1).update(k - 1, x));
            lemma_hex_index_update(tbl.skip(1), k - 1, x, h);
        }
    }
}

/// Appending an entry moves no hex index that already exists.
proof fn lemma_hex_index_push(tbl: Seq<AcView>, x: AcView, h: u32)
    requires
        spec_hex_index(tbl, h) >= 0,
    ensures
        spec_hex_index(tbl.push(x), h) == spec_hex_index(tbl, h),
    decreases tbl.len(),
{
    let p = tbl.push(x);
    assert(p[0] == tbl[0]);
    if tbl[0].hex != h {
        assert(p.skip(1) =~= tbl.skip(1).push(x));
        lemma_hex_index_push(tbl.skip(1), x, h);
    }
}

/// One update never lowers the fast-update count and keeps the hex code.
proof fn lemma_update_ac_fast_count(ac: AcView, now: i64, rec: AircraftRecord)
    ensures
        spec_update_ac(ac, now, rec).fast_count >= ac.fast_count,
        spec_update_ac(ac, now, rec).hex == ac.hex,
{
}

/// One upsert never lowers the fast-update count of an aircraft already in
/// the table.
proof fn lemma_upsert_fast_count(tbl: Seq<AcView>, now: i64, rec: AircraftRecord, h: u32)
    requires
        record_usable(rec),
        table_has_hex(tbl, h),
    ensures
        table_has_hex(spec_upsert(tbl, now, rec), h),
        fast_count_of(spec_upsert(tbl, now, rec), h) >= fast_count_of(tbl, h),
{
    lemma_hex_index_props(tbl, rec.hex);
    lemma_hex_index_props(tbl, h);
    let k = spec_hex_index(tbl, rec.hex);
    if k >= 0 {
        let x = spec_update_ac(tbl[k], now, rec);
        lemma_update_ac_fast_count(tbl[k], now, rec);
        lemma_hex_index_update(tbl, k, x, h);
        if h == rec.hex {
            assert(fast_count_of(spec_upsert(tbl, now, rec), h) == x.fast_count);
        } else {
            assert(tbl[spec_hex_index(tbl, h)].hex == h);
            assert(spec_hex_index(tbl, h) != k);
        }
    } else {
        lemma_hex_index_push(tbl, spec_new_ac(now, rec), h);
    }
}

/// A whole scan never lowers the fast-update count of an aircraft already
/// in the table.
proof fn lemma_scan_fast_count(tbl: Seq<AcView>, now: i64, recs: Seq<AircraftRecord>, h: u32)
    requires
        table_has_hex(tbl, h),
    ensures
        table_has_hex(spec_scan(tbl, now, recs).table, h),
        fast_count_of(spec_scan(tbl, now, recs).table, h) >= fast_count_of(tbl, h),
    decreases recs.len(),
{
    if recs.len() == 0 {
    } else if record_usable(recs[0]) {
        lemma_upsert_fast_count(tbl, now, recs[0], h);
        lemma_scan_fast_count(spec_upsert(tbl, now, recs[0]), now, recs.skip(1), h);
    } else {
        lemma_scan_fast_count(tbl, now, recs.skip(1), h);
    }
}

/// A scan keeps the table's hex codes pairwise distinct.
proof fn lemma_scan_unique(tbl: Seq<AcView>, now: i64, recs: Seq<AircraftRecord>)
    requires
        forall|i: int, j: int| 0 <= i < j < tbl.len() ==> tbl[i].hex != tbl[j].hex,
    ensures
        forall|i: int, j: int|
            0 <= i < j < spec_scan(tbl, now, recs).table.len() ==> spec_scan(
                tbl,
                now,
                recs,
            ).table[i].hex != spec_scan(tbl, now, recs).table[j].hex,
    decreases recs.len(),
{
    if recs.len() == 0 {
    } else if record_usable(recs[0]) {
        lemma_hex_index_props(tbl, recs[0].hex);
        let k = spec_hex_index(tbl, recs[0].hex);
        let up = spec_upsert(tbl, now, recs[0]);
        if k >= 0 {
            lemma_update_ac_fast_count(tbl[k], now, recs[0]);
            assert(forall|i: int| 0 <= i < up.len() ==> up[i].hex == tbl[i].hex);
        } else {
            assert(forall|i: int| 0 <= i < tbl.len() ==> up[i].hex == tbl[i].hex);
            assert(up[tbl.len() as int].hex == recs[0].hex);
        }
        lemma_scan_unique(up, now, recs.skip(1));
    } else {
        lemma_scan_unique(tbl, now, recs.skip(1));
    }
}

/// Every pruned entry comes from the table.
proof fn lemma_prune_membership(tbl: Seq<AcView>, now: i64)
    ensures
        forall|k: int| #![trigger spec_prune(tbl, now)[k]]
            0 <= k < spec_prune(tbl, now).len() ==> exists|i: int|
                0 <= i < tbl.len() && spec_prune(tbl, now)[k] == #[trigger] tbl[i],
    decreases tbl.len(),
{
    if tbl.len() == 0 {
    } else {
        lemma_prune_membership(tbl.skip(1), now);
        let rest = spec_prune(tbl.skip(1), now);
        let pr = spec_prune(tbl, now);
        assert forall|k: int| #![trigger pr[k]] 0 <= k < pr.len() implies exists|i: int|
            0 <= i < tbl.len() && pr[k] == #[trigger] tbl[i] by {
            if now - tbl[0].seen < STALE_SECS {
                if k == 0 {
                    assert(pr[k] == tbl[0]);
                } else {
                    assert(pr[k] == rest[k - 1]);
                    let i0 = choose|i: int|
                        0 <= i < tbl.skip(1).len() && rest[k - 1] == #[trigger] tbl.skip(1)[i];
                    assert(pr[k] == tbl[i0 + 1]);
                }
            } else {
                assert(pr[k] == rest[k]);
                let i0 = choose|i: int|
                    0 <= i < tbl.skip(1).len() && rest[k] == #[trigger] tbl.skip(1)[i];
                assert(pr[k] == tbl[i0 + 1]);
            }
        }
    }
}

/// Pruning keeps a surviving aircraft's entry exactly as it was.
proof fn lemma_prune_entry(tbl: Seq<AcView>, now: i64, h: u32)
    requires
        forall|i: int, j: int| 0 <= i < j < tbl.len() ==> tbl[i].hex != tbl[j].hex,
        table_has_hex(spec_prune(tbl, now), h),
    ensures
        table_has_hex(tbl, h),
        fast_count_of(spec_prune(tbl, now), h) == fast_count_of(tbl, h),
{
    let pr = spec_prune(tbl, now);
    lemma_hex_index_props(pr, h);
    lemma_hex_index_props(tbl, h);
    lemma_prune_membership(tbl, now);
    let kp = spec_hex_index(pr, h);
    assert(pr[kp].hex == h);
    let i0 = choose|i: int| 0 <= i < tbl.len() && pr[kp] == #[trigger] tbl[i];
    assert(tbl[i0].hex == h);
    let kt = spec_hex_index(tbl, h);
    assert(kt >= 0);
    assert(tbl[kt].hex == h);
    if i0 < kt {
        assert(tbl[i0].hex != tbl[kt].hex);
    } else if kt < i0 {
        assert(tbl[kt].hex != tbl[i0].hex);
    }
    assert(pr[kp] == tbl[kt]);
}

/// Across one processed tick, an aircraft that stays in the table never
/// loses fast-update count: the count is monotone non-decreasing.
pub proof fn lemma_fast_count_monotone(pre: StateView, response: Response, h: u32)
    requires
        pre.wf(),
        table_has_hex(pre.aircraft, h),
        table_has_hex(spec_prune(spec_tick_scan(pre, response).table, response.now), h),
    ensures
        fast_count_of(spec_prune(spec_tick_scan(pre, response).table, response.now), h)
            >= fast_count_of(pre.aircraft, h),
{
    lemma_scan_fast_count(pre.aircraft, response.now, response.aircraft@, h);
    lemma_scan_unique(pre.aircraft, response.now, response.aircraft@);
    lemma_prune_entry(spec_tick_scan(pre, response).table, response.now, h);
}

/// An event recorded for a pair stays recorded when the log only grows.
proof fn lemma_recorded_monotone(
    evsb: Seq<InterceptionView>,
    evs: Seq<InterceptionView>,
    from: int,
    ihex: u32,
    thex: u32,
    now: i64,
)
    requires
        0 <= from,
        evsb.len() <= evs.len(),
        forall|n: int| 0 <= n < evsb.len() ==> evs[n] == evsb[n],
        spec_pair_recorded(evsb, from, ihex, thex, now),
    ensures
        spec_pair_recorded(evs, from, ihex, thex, now),
{
    assert(exists|n: int|
        from <= n < evsb.len() && (#[trigger] evsb[n]).interceptor.hex == ihex
            && evsb[n].target.hex == thex && evsb[n].time == now);
    let n = choose|n: int|
        from <= n < evsb.len() && (#[trigger] evsb[n]).interceptor.hex == ihex
            && evsb[n].target.hex == thex && evsb[n].time == now;
    assert(evs[n].interceptor.hex == ihex && evs[n].target.hex == thex && evs[n].time == now);
}

/// A sound appended event stays sound when one more event is appended.
proof fn lemma_new_event_ok_push(
    evsb: Seq<InterceptionView>,
    evv: InterceptionView,
    n2: int,
    ints: Seq<AcView>,
    tgts: Seq<AcView>,
    now: i64,
)
    requires
        0 <= n2 < evsb.len(),
        spec_new_event_ok(evsb, n2, ints, tgts, now),
    ensures
        spec_new_event_ok(evsb.push(evv), n2, ints, tgts, now),
{
    let evs = evsb.push(evv);
    assert(evs[n2] == evsb[n2]);
    assert(evs.take(n2) =~= evsb.take(n2));
    assert(exists|k: int, j: int|
        #![trigger ints[k], tgts[j]]
        0 <= k < ints.len() && 0 <= j < tgts.len() && evsb[n2] == spec_event(ints[k], tgts[j], now)
            && spec_prefilter(ints[k], tgts[j]) && spec_gates(ints[k], tgts[j], now));
    let (k, j) = choose|k: int, j: int|
        #![trigger ints[k], tgts[j]]
        0 <= k < ints.len() && 0 <= j < tgts.len() && evsb[n2] == spec_event(ints[k], tgts[j], now)
            && spec_prefilter(ints[k], tgts[j]) && spec_gates(ints[k], tgts[j], now);
    assert(0 <= k < ints.len() && 0 <= j < tgts.len() && evs[n2] == spec_event(ints[k], tgts[j], now)
        && spec_prefilter(ints[k], tgts[j]) && spec_gates(ints[k], tgts[j], now));
}

} // verus!
