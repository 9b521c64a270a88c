//! The time series of metrics kept in the database; points in time are
//! seconds since the Unix epoch.
use vstd::prelude::*;

verus! {

/// A series of counts.
#[derive(Debug, Clone)]
pub struct TimeSeries {
    pub points: Vec<(i64, i32)>,
}

/// A series of pull request ages: p0, p50, p100 and mean, in days.
#[derive(Debug, Clone)]
pub struct TupleTimeSeries {
    pub points: Vec<(i64, i64, i64, i64, i64)>,
}

/// A series of counts per rule number.
#[derive(Debug, Clone)]
#[allow(non_camel_case_types)]
pub struct i64BasedTimeSeries {
    pub points: Vec<(i64, Vec<(i64, usize)>)>,
}

/// A series of counts per text (audience).
#[derive(Debug, Clone)]
pub struct StringBasedTimeSeries {
    pub points: Vec<(i64, Vec<(String, usize)>)>,
}

} // verus!
