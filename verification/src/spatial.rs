//! The per-tick spatial index over potential targets.
//!
//! The index is rstar's R-tree, built once per tick over the targets'
//! current positions and queried with a squared planar distance bound. Each
//! stored element is a position together with the slot number it was given
//! at build time; queries hand back slot numbers.

use vstd::prelude::*;

use crate::geodesy::spec_sq_dist;
use crate::snapshot::MAX_COORD_MICRODEG;

verus! {

/// A bulk-loaded spatial index over target positions, rebuilt every tick.
///
/// Values of this type come only from [`build_target_index`], which stores
/// each given point under its slot number.
#[verifier::external_body]
pub struct TargetIndex {
    tree: rstar::RTree<rstar::primitives::GeomWithData<[i64; 2], usize>>,
}

/// What the index holds: a map from slot number to the stored position, in
/// microdegrees of longitude and latitude.
pub uninterp spec fn index_points(t: TargetIndex) -> Map<int, (i64, i64)>;

/// Relies on rstar's `RTree::bulk_load`: the tree holds exactly the given
/// elements. Slot `j` holds the `j`-th point, with `j` as its data.
#[verifier::external_body]
pub fn build_target_index(points: &Vec<(i64, i64)>) -> (t: TargetIndex)
    ensures
        index_points(t) == Map::new(|j: int| 0 <= j < points@.len(), |j: int| points@[j]),
{
    let elems = points
        .iter()
        .enumerate()
        .map(|(j, p)| rstar::primitives::GeomWithData::new([p.0, p.1], j))
        .collect();
    TargetIndex { tree: rstar::RTree::bulk_load(elems) }
}

/// Relies on rstar's `RTree::locate_within_distance`: it yields, once each,
/// exactly the stored elements whose squared planar distance from the query
/// point is at most the bound. The wrapper hands out their slot numbers.
#[verifier::external_body]
pub fn locate_within_sq_dist(t: &TargetIndex, lon: i64, lat: i64, r2: i64) -> (res: Vec<usize>)
    requires
        0 <= r2 <= 1_000_000_000_000,
        -MAX_COORD_MICRODEG <= lon <= MAX_COORD_MICRODEG,
        -MAX_COORD_MICRODEG <= lat <= MAX_COORD_MICRODEG,
        forall|j: int|
            index_points(*t).dom().contains(j) ==> {
                let p = #[trigger] index_points(*t)[j];
                -MAX_COORD_MICRODEG <= p.0 <= MAX_COORD_MICRODEG
                    && -MAX_COORD_MICRODEG <= p.1 <= MAX_COORD_MICRODEG
            },
    ensures
        forall|k: int|
            0 <= k < res@.len() ==> index_points(*t).dom().contains(#[trigger] res@[k] as int)
                && spec_sq_dist(
                index_points(*t)[res@[k] as int].0,
                index_points(*t)[res@[k] as int].1,
                lon,
                lat,
            ) <= r2,
        forall|j: int|
            index_points(*t).dom().contains(j) && spec_sq_dist(
                #[trigger] index_points(*t)[j].0,
                index_points(*t)[j].1,
                lon,
                lat,
            ) <= r2 ==> res@.contains(j as usize),
        res@.no_duplicates(),
        res@.len() == index_points(*t).dom().filter(
            |j: int|
                spec_sq_dist(index_points(*t)[j].0, index_points(*t)[j].1, lon, lat) <= r2,
        ).len(),
{
    t.tree.locate_within_distance([lon, lat], r2).map(|g| g.data).collect()
}

} // verus!
