use vstd::prelude::*;
use crate::date::Date;

verus! {

/// One soil-moisture observation. `lat`, `lon` and `moisture` are IEEE-754
/// double-precision values carried as their 64-bit patterns, so that equality
/// on them is exact bit equality; the boundary that speaks floating point
/// converts with `f64::to_bits` / `f64::from_bits`. Under that convention the
/// bit patterns of `0.0` and `-0.0` are distinct keys, and the store's match
/// on coordinates is exact, not a spatial tolerance.
#[derive(Clone, Copy, PartialEq, Eq, Structural, Debug)]
pub struct SoilMoistureRecord {
    pub date: Date,
    pub lat: u64,
    pub lon: u64,
    pub moisture: u64,
}

impl SoilMoistureRecord {
    /// The identity of a record in the store: a second record with the same
    /// key replaces the first.
    pub open spec fn key(self) -> (Date, u64, u64) {
        (self.date, self.lat, self.lon)
    }
}

/// A range/point query: exact-match coordinate filters and an inclusive
/// closed date range.
#[derive(Clone, Copy, PartialEq, Eq, Structural, Debug)]
pub struct MoistureQuery {
    pub lat: u64,
    pub lon: u64,
    pub start_date: Date,
    pub end_date: Date,
}

impl MoistureQuery {
    /// A record answers the query when its coordinates equal the filters
    /// exactly and its date falls inside the closed range.
    pub open spec fn matches_spec(self, r: SoilMoistureRecord) -> bool {
        &&& r.lat == self.lat
        &&& r.lon == self.lon
        &&& self.start_date.le_spec(r.date)
        &&& r.date.le_spec(self.end_date)
    }

    pub fn matches(&self, r: &SoilMoistureRecord) -> (b: bool)
        ensures
            b == self.matches_spec(*r),
    {
        r.lat == self.lat && r.lon == self.lon && self.start_date.le(&r.date) && r.date.le(
            &self.end_date,
        )
    }
}

} // verus!
