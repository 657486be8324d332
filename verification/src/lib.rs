//! Detection of apparent aircraft interceptions in ADS-B surveillance data.
//!
//! The library ingests time-ordered snapshots of aircraft states, keeps a
//! rolling per-aircraft state table, classifies each aircraft as a possible
//! interceptor, a possible target, or neither, joins the two classes through
//! a spatial index, applies geometric, kinematic and temporal gates, and
//! records deduplicated interception events.
//!
//! All quantities are modelled as plain integers: coordinates in microdegrees,
//! ground speeds in hundredths of a knot, altitudes in feet, times in seconds,
//! and distances in centimetres.

pub mod aircraft;
pub mod bounds;
pub mod engine;
pub mod error;
pub mod geodesy;
pub mod loader;
pub mod snapshot;
pub mod spatial;

pub use aircraft::{Ac, Class, TimedPos};
pub use bounds::{in_bbox, Bounds};
pub use engine::{process_adsbx_response, prune, started_far_apart, upsert, Interception, State};
pub use error::Error;
pub use loader::{LoadOutcome, ReorderBuffer};
pub use snapshot::{aircraft_is_on_ground, alt_number, AircraftRecord, Altitude, Response};
