//! The verdict on a journey.

use crate::error::{message_of, JourneyValidationError};
use crate::point::PointWithId;
use vstd::prelude::*;

verus! {

/// A rejection, told in words.
#[derive(Clone, Debug, Default)]
pub struct OutputError {
    pub cancel_reason: String,
}

/// A point as the verdict shows it. `latitude` and `longitude` are bit patterns of IEEE 754
/// doubles, `timestamp` counts milliseconds since the Unix epoch.
#[derive(Clone, Debug)]
pub struct PointOutput {
    pub id: String,
    pub timestamp: i64,
    pub latitude: u64,
    pub longitude: u64,
}

/// The identifier of a trace and the identifiers of its points, in order.
#[derive(Clone, Debug)]
pub struct TraceOutput {
    pub id: String,
    pub points: Vec<String>,
}

/// The simplified traces of both parties.
#[derive(Clone, Debug)]
pub struct TracesOutput {
    pub driver_trace: TraceOutput,
    pub passenger_trace: TraceOutput,
}

/// An accepted journey. `common_distance` is in millimetres, `average_confidence` in
/// millionths.
#[derive(Clone, Debug)]
pub struct OutputSuccess {
    pub common_distance: u64,
    pub common_start_point: PointOutput,
    pub common_end_point: PointOutput,
    pub average_confidence: u32,
    pub traces: TracesOutput,
}

/// The verdict.
#[derive(Clone, Debug, Default)]
pub enum Output {
    Error(OutputError),
    Success(OutputSuccess),
    #[default]
    Empty,
}

impl PointOutput {
    /// What the verdict shows of `point`: everything but its owner.
    pub open spec fn of(point: PointWithId) -> PointOutput {
        PointOutput {
            id: point.id,
            timestamp: point.timestamp,
            latitude: point.y,
            longitude: point.x,
        }
    }

    /// What the verdict shows of `value`.
    pub fn from(value: &PointWithId) -> (out: PointOutput)
        ensures
            out == PointOutput::of(*value),
    {
        PointOutput {
            id: value.id.clone(),
            timestamp: value.timestamp,
            longitude: value.x,
            latitude: value.y,
        }
    }
}

impl Output {
    /// The rejection with the message of `value` as its reason.
    pub fn from(value: JourneyValidationError) -> (out: Output)
        ensures
            out matches Output::Error(error) && error.cancel_reason@ == message_of(value@),
    {
        Output::Error(OutputError { cancel_reason: value.message() })
    }
}

} // verus!
