//! Bounding boxes for filtering aircraft to a region of interest.

use vstd::prelude::*;

use crate::snapshot::AircraftRecord;

verus! {

/// A latitude/longitude bounding box, in microdegrees.
#[derive(Debug, Clone, Copy, PartialEq, Eq, Structural)]
pub struct Bounds {
    pub min_lat: i64,
    pub min_lon: i64,
    pub max_lat: i64,
    pub max_lon: i64,
}

/// What `in_bbox` returns: without a box every record passes; with one, a
/// record passes exactly when it carries a position inside the box.
pub open spec fn spec_in_bbox(bbox: Option<Bounds>, rec: AircraftRecord) -> bool {
    match bbox {
        None => true,
        Some(b) => match (rec.lat, rec.lon) {
            (Some(lat), Some(lon)) => b.min_lat <= lat <= b.max_lat && b.min_lon <= lon
                <= b.max_lon,
            _ => false,
        },
    }
}

/// Whether the record's position lies in the bounding box, or there is no
/// bounding box. A record without a position never lies in a box.
pub fn in_bbox(bbox: &Option<Bounds>, rec: &AircraftRecord) -> (r: bool)
    ensures
        r == spec_in_bbox(*bbox, *rec),
{
    match bbox {
        None => true,
        Some(b) => match (rec.lat, rec.lon) {
            (Some(lat), Some(lon)) => {
                b.min_lat <= lat && lat <= b.max_lat && b.min_lon <= lon && lon <= b.max_lon
            },
            _ => false,
        },
    }
}

} // verus!
