//! The journey as it is submitted.

use vstd::prelude::*;

verus! {

/// One submitted fix. `latitude` and `longitude` are bit patterns of IEEE 754 doubles,
/// `timestamp` counts milliseconds since the Unix epoch.
#[derive(Clone, Debug)]
pub struct PointInput {
    pub id: String,
    pub latitude: u64,
    pub longitude: u64,
    pub timestamp: i64,
    pub gps_trace_id: String,
}

/// The fixes that one user submitted.
#[derive(Clone, Debug)]
pub struct TraceInput {
    pub id: String,
    pub user_id: Option<String>,
    pub points: Vec<PointInput>,
}

/// A submitted journey. The two times count milliseconds since the Unix epoch.
#[derive(Clone, Debug)]
pub struct JourneyInput {
    pub start_time: Option<i64>,
    pub end_time: Option<i64>,
    pub driver_id: Option<String>,
    pub passenger_id: Option<String>,
    pub gps_trace: Vec<TraceInput>,
}

} // verus!
