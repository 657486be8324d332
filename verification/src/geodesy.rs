//! Distances between coordinates.
//!
//! The precise great-circle distance comes from the geo crate's Haversine
//! implementation, reached through one trusted wrapper; the loose planar
//! prefilter distance is the library's own arithmetic.

use vstd::prelude::*;

verus! {

/// The great-circle distance in centimetres between two points given in
/// microdegrees of longitude and latitude, as the geo crate's Haversine
/// implementation computes it. The result is a function of the four
/// coordinates alone.
pub uninterp spec fn haversine_cm(lon1: i64, lat1: i64, lon2: i64, lat2: i64) -> u64;

/// Relies on geo's `Haversine.distance`: the great-circle distance in metres
/// between two longitude/latitude points on the mean-radius sphere, a pure
/// function of the two coordinate pairs. The wrapper converts microdegrees
/// to degrees on the way in and metres to centimetres on the way out,
/// through num_traits conversions.
#[verifier::external_body]
pub fn haversine_distance_cm(lon1: i64, lat1: i64, lon2: i64, lat2: i64) -> (r: u64)
    ensures
        r == haversine_cm(lon1, lat1, lon2, lat2),
{
    let scale = num_traits::ToPrimitive::to_f64(&1_000_000_i64).unwrap_or_default();
    let x1 = num_traits::ToPrimitive::to_f64(&lon1).unwrap_or_default() / scale;
    let y1 = num_traits::ToPrimitive::to_f64(&lat1).unwrap_or_default() / scale;
    let x2 = num_traits::ToPrimitive::to_f64(&lon2).unwrap_or_default() / scale;
    let y2 = num_traits::ToPrimitive::to_f64(&lat2).unwrap_or_default() / scale;
    let metres = geo::Distance::distance(&geo::Haversine, geo::Point::new(x1, y1), geo::Point::new(x2, y2));
    let hundred = num_traits::ToPrimitive::to_f64(&100_i64).unwrap_or_default();
    num_traits::ToPrimitive::to_u64(&(metres * hundred)).unwrap_or_default()
}

/// The squared planar distance between two points, treating coordinate
/// differences as Cartesian. This is the loose prefilter metric of the
/// spatial index; the precise Haversine check follows it.
pub open spec fn spec_sq_dist(lon1: i64, lat1: i64, lon2: i64, lat2: i64) -> int {
    (lon1 - lon2) * (lon1 - lon2) + (lat1 - lat2) * (lat1 - lat2)
}

} // verus!
