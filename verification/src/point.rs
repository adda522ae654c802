//! A single GPS fix.

use crate::input::PointInput;
use vstd::prelude::*;

verus! {

/// One fix of one trace.
///
/// `x` and `y` are the bit patterns of the longitude and of the latitude, both IEEE 754
/// doubles in degrees. `timestamp` counts milliseconds since the Unix epoch, UTC.
#[derive(Clone, Debug)]
pub struct PointWithId {
    pub id: String,
    pub x: u64,
    pub y: u64,
    pub trace_id: String,
    pub timestamp: i64,
}

/// The fix that a submitted point stands for.
pub open spec fn point_of(input: PointInput) -> PointWithId {
    PointWithId {
        id: input.id,
        x: input.longitude,
        y: input.latitude,
        trace_id: input.gps_trace_id,
        timestamp: input.timestamp,
    }
}

/// The identifiers of a sequence of points, in order.
pub open spec fn ids(points: Seq<PointWithId>) -> Seq<Seq<char>> {
    Seq::new(points.len(), |i: int| points[i].id@)
}

/// The owning trace of each point of a sequence, in order.
pub open spec fn owners(points: Seq<PointWithId>) -> Seq<Seq<char>> {
    Seq::new(points.len(), |i: int| points[i].trace_id@)
}

/// Milliseconds between two instants, whichever comes first.
pub open spec fn ms_delta(a: i64, b: i64) -> int {
    if a >= b {
        a - b
    } else {
        b - a
    }
}

impl PointWithId {
    /// The fix that a submitted point stands for.
    pub fn from(value: &PointInput) -> (point: PointWithId)
        ensures
            point == point_of(*value),
    {
        PointWithId {
            id: value.id.clone(),
            trace_id: value.gps_trace_id.clone(),
            timestamp: value.timestamp,
            x: value.longitude,
            y: value.latitude,
        }
    }

    /// Milliseconds between this fix and `other`, whichever came first.
    pub fn get_ms_delta_with(&self, other: &PointWithId) -> (delta: u64)
        ensures
            delta == ms_delta(self.timestamp, other.timestamp),
    {
        if self.timestamp >= other.timestamp {
            ((self.timestamp as i128) - (other.timestamp as i128)) as u64
        } else {
            ((other.timestamp as i128) - (self.timestamp as i128)) as u64
        }
    }

    /// Whether both fixes have exactly the same coordinates.
    pub fn same_place(&self, other: &PointWithId) -> (same: bool)
        ensures
            same == (self.x == other.x && self.y == other.y),
    {
        self.x == other.x && self.y == other.y
    }

    /// Whether both fixes belong to the same trace.
    pub fn same_owner(&self, other: &PointWithId) -> (same: bool)
        ensures
            same == (self.trace_id@ == other.trace_id@),
    {
        self.trace_id == other.trace_id
    }

    /// A copy of this fix, equal to it in every field.
    pub fn duplicate(&self) -> (copy: PointWithId)
        ensures
            copy == *self,
    {
        PointWithId {
            id: self.id.clone(),
            x: self.x,
            y: self.y,
            trace_id: self.trace_id.clone(),
            timestamp: self.timestamp,
        }
    }
}

} // verus!
