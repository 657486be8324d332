//! The error type shared by the snapshot loader and the detection core.

use vstd::prelude::*;

verus! {

/// What can go wrong while loading snapshots or reading aircraft records.
#[derive(Debug, Clone)]
pub enum Error {
    /// An aircraft record lacked a field that the requested operation needs.
    AircraftMissingData(String),
    /// A snapshot file could not be read, decompressed or decoded.
    JsonLoadError(String),
    /// A worker of the parallel snapshot loader failed.
    ParallelMapError(String),
}

impl Error {
    /// The diagnostic text carried by the error.
    pub fn message(&self) -> (r: &String)
        ensures
            *self matches Error::AircraftMissingData(m) ==> r@ == m@,
            *self matches Error::JsonLoadError(m) ==> r@ == m@,
            *self matches Error::ParallelMapError(m) ==> r@ == m@,
    {
        match self {
            Error::AircraftMissingData(m) => m,
            Error::JsonLoadError(m) => m,
            Error::ParallelMapError(m) => m,
        }
    }
}

} // verus!
