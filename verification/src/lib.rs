//! Resource-table subsystem of a bulk asset archive: an in-memory model of the
//! cross-referenced metadata tables, a loader that materializes them from a
//! decompressed byte buffer, and a re-serializer that emits a functionally
//! equivalent set of tables with all inter-table indices remapped to compacted
//! index spaces.

use vstd::prelude::*;

pub mod archive;
pub mod bytes;
pub mod data;
pub mod emit;
pub mod err;
pub mod hash;
pub mod index;
pub mod laws;
pub mod lookup;
pub mod outside;
pub mod reserialize;
pub mod resource;
pub mod serialization;

verus! {

/// Number of locales a localized record fans out over.
pub const LOCALE_COUNT: u32 = 14;

/// Number of regions a regional record fans out over.
pub const REGION_COUNT: u32 = 5;

/// The locales a localized record fans out over, plus the marker for none.
#[derive(Debug, Copy, Clone, PartialEq, Eq, Structural)]
pub enum Locale {
    Japanese,
    UsEnglish,
    UsFrench,
    UsSpanish,
    EuEnglish,
    EuFrench,
    EuSpanish,
    German,
    Dutch,
    Italian,
    Russian,
    Korean,
    Chinese,
    Taiwanese,
    Invalid,
}

/// The regions a regional record fans out over, plus the marker for none.
#[derive(Debug, Copy, Clone, PartialEq, Eq, Structural)]
pub enum Region {
    Japan,
    NorthAmerica,
    Europe,
    Korea,
    China,
    Invalid,
}

} // verus!
