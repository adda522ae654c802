//! A journey of a driver and a passenger, and the verdict on it.
//!
//! A journey is checked in a fixed order, and the first check that fails decides: the
//! edges of the two traces (their length, the time between their first and between their
//! last fixes, the service region), the common route, its length, and at last the
//! confidence that both traces are one path.

use crate::error::{message_of, says, JourneyValidationError, Rejection};
use crate::input::{JourneyInput, TraceInput};
use crate::measure::{
    confidence_spec, Survey, MAX_DELTA_IN_MILLISECONDS, MAX_DISTANCE, MIN_DISTANCE,
};
use crate::order::sort_by_time;
use crate::output::{Output, OutputSuccess, TraceOutput, TracesOutput};
use crate::point::{ms_delta, PointWithId};
use crate::trace::{common_ground, points_of, rehydrated, Trace};
use vstd::prelude::*;

verus! {

/// The traces of the two parties of a journey.
#[derive(Debug)]
pub struct Journey {
    pub driver_trace: Trace,
    pub passenger_trace: Trace,
}

/// Which of the four edge points lie inside the service region: the first and the last
/// point of each trace, as [`Trace::get_edges`] gives them.
#[derive(Clone, Copy, Debug)]
pub struct EdgesInRegion {
    pub driver_start: bool,
    pub driver_end: bool,
    pub passenger_start: bool,
    pub passenger_end: bool,
}

/// All that was measured of a journey on the globe.
#[derive(Clone, Debug)]
pub struct Evidence {
    /// Membership of the four edge points in the service region.
    pub edges: EdgesInRegion,
    /// The legs between the points of both traces, merged as [`Trace::merged_with`]
    /// merges them.
    pub survey: Survey,
    /// The vertices that simplification left of the driver's trace.
    pub driver_simplified: Vec<(u64, u64)>,
    /// The vertices that simplification left of the passenger's trace.
    pub passenger_simplified: Vec<(u64, u64)>,
    /// The Fréchet distance between the two simplified traces.
    pub frechet: u64,
    /// The scale the Fréchet distance is held against, in the same unit.
    pub scale: u64,
}

/// The place of the first of the traces from `from` onwards that `user` submitted.
pub open spec fn trace_of(traces: Seq<TraceInput>, user: Seq<char>, from: int) -> Option<int>
    decreases traces.len() - from,
{
    if from < 0 || from >= traces.len() {
        None
    } else if traces[from].user_id matches Some(owner) && owner@ == user {
        Some(from)
    } else {
        trace_of(traces, user, from + 1)
    }
}

/// Why a submitted journey does not name two parties with a trace each, if it does not.
pub open spec fn parties_rejection(input: JourneyInput) -> Option<Rejection> {
    if input.driver_id.is_none() {
        Some(Rejection::MissingDriver)
    } else if input.passenger_id.is_none() {
        Some(Rejection::MissingPassenger)
    } else if input.passenger_id.unwrap()@ == input.driver_id.unwrap()@ {
        Some(Rejection::InvalidPassenger)
    } else if trace_of(input.gps_trace@, input.driver_id.unwrap()@, 0).is_none() {
        Some(Rejection::MissingTrace("driver"@))
    } else if trace_of(input.gps_trace@, input.passenger_id.unwrap()@, 0).is_none() {
        Some(Rejection::MissingTrace("passenger"@))
    } else {
        None
    }
}

/// The trace of the driver in a submitted journey that names its parties.
pub open spec fn driver_of(input: JourneyInput) -> TraceInput {
    input.gps_trace@[trace_of(input.gps_trace@, input.driver_id.unwrap()@, 0).unwrap()]
}

/// The trace of the passenger in a submitted journey that names its parties.
pub open spec fn passenger_of(input: JourneyInput) -> TraceInput {
    input.gps_trace@[trace_of(input.gps_trace@, input.passenger_id.unwrap()@, 0).unwrap()]
}

/// Why a submitted journey has not the shape of a journey, if it has not.
pub open spec fn shape_rejection(input: JourneyInput) -> Option<Rejection> {
    if input.start_time.is_none() {
        Some(Rejection::MissingStartTime)
    } else if input.end_time.is_none() {
        Some(Rejection::MissingEndTime)
    } else if parties_rejection(input).is_some() {
        parties_rejection(input)
    } else if driver_of(input).points@.len() < 2 {
        Some(Rejection::EmptyTrace("driver"@))
    } else if passenger_of(input).points@.len() < 2 {
        Some(Rejection::EmptyTrace("passenger"@))
    } else {
        None
    }
}

/// Why the edges of the two traces rule the journey out, if they do.
pub open spec fn edges_rejection(
    driver: Seq<PointWithId>,
    passenger: Seq<PointWithId>,
    edges: EdgesInRegion,
) -> Option<Rejection> {
    if driver.len() < 2 {
        Some(Rejection::EmptyTrace("driver"@))
    } else if passenger.len() < 2 {
        Some(Rejection::EmptyTrace("passenger"@))
    } else if ms_delta(driver[0].timestamp, passenger[0].timestamp)
        > MAX_DELTA_IN_MILLISECONDS {
        Some(Rejection::TimestampsDeltaTooBig("start"@))
    } else if ms_delta(driver.last().timestamp, passenger.last().timestamp)
        > MAX_DELTA_IN_MILLISECONDS {
        Some(Rejection::TimestampsDeltaTooBig("end"@))
    } else if !(edges.driver_start || edges.driver_end || edges.passenger_start
        || edges.passenger_end) {
        Some(Rejection::NotInFrance)
    } else {
        None
    }
}

/// Why a common distance, in millimetres, is not plausible, if it is not.
pub open spec fn distance_rejection(distance: u64) -> Option<Rejection> {
    if distance < MIN_DISTANCE {
        Some(Rejection::InvalidDistance("short"@))
    } else if distance > MAX_DISTANCE {
        Some(Rejection::InvalidDistance("long"@))
    } else {
        None
    }
}

/// Tells whether a common distance, in millimetres, lies between the shortest and the
/// longest that are accepted, both included.
pub fn check_distance(distance: u64) -> (checked: Result<(), JourneyValidationError>)
    ensures
        match checked {
            Ok(_) => distance_rejection(distance).is_none(),
            Err(error) => distance_rejection(distance) == Some(error@),
        },
{
    if distance < MIN_DISTANCE {
        Err(JourneyValidationError::InvalidDistance(String::from_str("short")))
    } else if distance > MAX_DISTANCE {
        Err(JourneyValidationError::InvalidDistance(String::from_str("long")))
    } else {
        Ok(())
    }
}

impl JourneyInput {
    /// The first of the traces that the user submitted, if there is any.
    pub fn get_user_trace(&self, user_id: &str) -> (found: Option<&TraceInput>)
        ensures
            match found {
                Some(trace) => trace_of(self.gps_trace@, user_id@, 0) matches Some(at)
                    && *trace == self.gps_trace@[at],
                None => trace_of(self.gps_trace@, user_id@, 0).is_none(),
            },
    {
        let mut i: usize = 0;
        while i < self.gps_trace.len()
            invariant
                i <= self.gps_trace@.len(),
                trace_of(self.gps_trace@, user_id@, 0) == trace_of(
                    self.gps_trace@,
                    user_id@,
                    i as int,
                ),
            decreases self.gps_trace.len() - i,
        {
            let owned: bool = match &self.gps_trace[i].user_id {
                Some(owner) => says(owner, user_id),
                None => false,
            };
            if owned {
                return Some(&self.gps_trace[i]);
            }
            i += 1;
        }
        None
    }

    /// The trace of the driver and the trace of the passenger. Both users must be named
    /// and differ, and each must have submitted a trace; of several traces of one user
    /// the first counts.
    pub fn get_traces(&self) -> (found: Result<
        (&TraceInput, &TraceInput),
        JourneyValidationError,
    >)
        ensures
            match found {
                Ok(traces) => parties_rejection(*self).is_none() && *traces.0 == driver_of(*self)
                    && *traces.1 == passenger_of(*self),
                Err(error) => parties_rejection(*self) == Some(error@),
            },
    {
        let driver_id = match &self.driver_id {
            Some(id) => id,
            None => {
                return Err(JourneyValidationError::MissingDriver);
            },
        };
        let passenger_id = match &self.passenger_id {
            Some(id) => id,
            None => {
                return Err(JourneyValidationError::MissingPassenger);
            },
        };
        if *passenger_id == *driver_id {
            return Err(JourneyValidationError::InvalidPassenger);
        }
        let driver_trace = match self.get_user_trace(driver_id.as_str()) {
            Some(trace) => trace,
            None => {
                return Err(JourneyValidationError::MissingTrace(String::from_str("driver")));
            },
        };
        let passenger_trace = match self.get_user_trace(passenger_id.as_str()) {
            Some(trace) => trace,
            None => {
                return Err(JourneyValidationError::MissingTrace(String::from_str("passenger")));
            },
        };
        Ok((driver_trace, passenger_trace))
    }
}

/// Why a journey with these points of the driver and of the passenger is rejected under
/// the evidence, if it is: the first of the checks that fails decides.
pub open spec fn rejection_of(
    driver: Seq<PointWithId>,
    passenger: Seq<PointWithId>,
    evidence: Evidence,
) -> Option<Rejection> {
    match edges_rejection(driver, passenger, evidence.edges) {
        Some(rejection) => Some(rejection),
        None => match common_ground(driver, passenger, evidence.survey) {
            None => Some(Rejection::NoCommonPoints),
            Some(ground) => distance_rejection(ground.distance as u64),
        },
    }
}

/// Whether `success` is what a journey with these traces is accepted as under the
/// evidence: the common distance and the two ends of the common route, the confidence,
/// and of each simplified trace the identifiers of its points.
pub open spec fn is_acceptance(
    driver_id: String,
    driver: Seq<PointWithId>,
    passenger_id: String,
    passenger: Seq<PointWithId>,
    evidence: Evidence,
    success: OutputSuccess,
) -> bool {
    let ground = common_ground(driver, passenger, evidence.survey).unwrap();
    let driver_kept = rehydrated(
        driver_id,
        driver,
        evidence.driver_simplified@,
        evidence.driver_simplified@.len() as int,
    );
    let passenger_kept = rehydrated(
        passenger_id,
        passenger,
        evidence.passenger_simplified@,
        evidence.passenger_simplified@.len() as int,
    );
    &&& success.common_distance == ground.distance
    &&& MIN_DISTANCE <= success.common_distance <= MAX_DISTANCE
    &&& success.common_start_point == ground.start
    &&& success.common_end_point == ground.end
    &&& success.average_confidence == confidence_spec(evidence.frechet, evidence.scale)
    &&& success.traces.driver_trace.id == driver_id
    &&& success.traces.driver_trace.points@.len() == driver_kept.len()
    &&& forall|i: int|
        0 <= i < driver_kept.len() ==> success.traces.driver_trace.points@[i]
            == driver_kept[i].id
    &&& success.traces.passenger_trace.id == passenger_id
    &&& success.traces.passenger_trace.points@.len() == passenger_kept.len()
    &&& forall|i: int|
        0 <= i < passenger_kept.len() ==> success.traces.passenger_trace.points@[i]
            == passenger_kept[i].id
}

/// Why a submitted journey is rejected under the evidence, if it is: for its shape, or
/// as the journey it stands for.
pub open spec fn input_rejection(input: JourneyInput, evidence: Evidence) -> Option<Rejection> {
    match shape_rejection(input) {
        Some(rejection) => Some(rejection),
        None => rejection_of(
            sort_by_time(points_of(driver_of(input).points@)),
            sort_by_time(points_of(passenger_of(input).points@)),
            evidence,
        ),
    }
}

/// Whether `success` is what a submitted journey is accepted as under the evidence.
pub open spec fn is_input_acceptance(
    input: JourneyInput,
    evidence: Evidence,
    success: OutputSuccess,
) -> bool {
    is_acceptance(
        driver_of(input).id,
        sort_by_time(points_of(driver_of(input).points@)),
        passenger_of(input).id,
        sort_by_time(points_of(passenger_of(input).points@)),
        evidence,
        success,
    )
}

impl Journey {
    /// Why the journey is rejected under the evidence, if it is.
    pub open spec fn rejection(&self, evidence: &Evidence) -> Option<Rejection> {
        rejection_of(self.driver_trace.points@, self.passenger_trace.points@, *evidence)
    }

    /// Whether `success` is what this journey is accepted as under the evidence.
    pub open spec fn accepted_as(&self, evidence: &Evidence, success: OutputSuccess) -> bool {
        is_acceptance(
            self.driver_trace.id,
            self.driver_trace.points@,
            self.passenger_trace.id,
            self.passenger_trace.points@,
            *evidence,
            success,
        )
    }

    /// Each trace has two points or more, in ascending order of time.
    pub open spec fn is_well_formed(&self) -> bool {
        &&& self.driver_trace.points@.len() >= 2
        &&& self.passenger_trace.points@.len() >= 2
        &&& self.driver_trace.is_sorted()
        &&& self.passenger_trace.is_sorted()
    }

    /// Whether `made` is the journey that the well-shaped `journey` stands for: its traces
    /// are the first trace of the driver and the first trace of the passenger, each in
    /// ascending order of time.
    pub open spec fn stands_for(made: Journey, journey: JourneyInput) -> bool {
        &&& made.driver_trace.id == driver_of(journey).id
        &&& made.driver_trace.points@ == sort_by_time(points_of(driver_of(journey).points@))
        &&& made.passenger_trace.id == passenger_of(journey).id
        &&& made.passenger_trace.points@ == sort_by_time(
            points_of(passenger_of(journey).points@),
        )
    }

    /// The journey that a submitted journey stands for. Both times and both users must
    /// be given, the users must differ, and each must have submitted a trace of two
    /// points or more; of several traces of one user the first counts.
    pub fn try_from(journey: JourneyInput) -> (made: Result<Journey, JourneyValidationError>)
        ensures
            match made {
                Ok(made) => {
                    &&& shape_rejection(journey).is_none()
                    &&& Journey::stands_for(made, journey)
                    &&& made.is_well_formed()
                },
                Err(error) => shape_rejection(journey) == Some(error@),
            },
    {
        if journey.start_time.is_none() {
            return Err(JourneyValidationError::MissingStartTime);
        }
        if journey.end_time.is_none() {
            return Err(JourneyValidationError::MissingEndTime);
        }
        let (driver_trace, passenger_trace) = match journey.get_traces() {
            Ok(traces) => traces,
            Err(error) => {
                return Err(error);
            },
        };
        if driver_trace.points.len() < 2 {
            return Err(JourneyValidationError::EmptyTrace(String::from_str("driver")));
        }
        if passenger_trace.points.len() < 2 {
            return Err(JourneyValidationError::EmptyTrace(String::from_str("passenger")));
        }
        Ok(
            Journey {
                driver_trace: Trace::from(driver_trace),
                passenger_trace: Trace::from(passenger_trace),
            },
        )
    }

    /// Checks the edges of the two traces: each trace has two points or more, the first
    /// fixes of the two lie no more than [`MAX_DELTA_IN_MILLISECONDS`] apart and so do the
    /// last, and one of the four edge points at least lies inside the service region. The
    /// edges of a trace are its first and its last point as the trace holds them; in a
    /// well-formed journey these are its earliest and its latest.
    pub fn validate_edges(&self, edges: &EdgesInRegion) -> (checked: Result<
        (),
        JourneyValidationError,
    >)
        ensures
            match checked {
                Ok(_) => edges_rejection(
                    self.driver_trace.points@,
                    self.passenger_trace.points@,
                    *edges,
                ).is_none(),
                Err(error) => edges_rejection(
                    self.driver_trace.points@,
                    self.passenger_trace.points@,
                    *edges,
                ) == Some(error@),
            },
    {
        if self.driver_trace.points.len() < 2 {
            return Err(JourneyValidationError::EmptyTrace(String::from_str("driver")));
        }
        if self.passenger_trace.points.len() < 2 {
            return Err(JourneyValidationError::EmptyTrace(String::from_str("passenger")));
        }
        let (driver_start, driver_end) = self.driver_trace.get_edges();
        let (passenger_start, passenger_end) = self.passenger_trace.get_edges();
        if driver_start.get_ms_delta_with(passenger_start) > MAX_DELTA_IN_MILLISECONDS {
            return Err(JourneyValidationError::TimestampsDeltaTooBig(String::from_str("start")));
        }
        if driver_end.get_ms_delta_with(passenger_end) > MAX_DELTA_IN_MILLISECONDS {
            return Err(JourneyValidationError::TimestampsDeltaTooBig(String::from_str("end")));
        }
        if !(edges.driver_start || edges.driver_end || edges.passenger_start
            || edges.passenger_end) {
            return Err(JourneyValidationError::NotInFrance);
        }
        Ok(())
    }

    /// The verdict on the journey under the evidence: what it is accepted as, or the
    /// first reason to reject it.
    pub fn verdict(&self, evidence: &Evidence) -> (verdict: Result<
        OutputSuccess,
        JourneyValidationError,
    >)
        ensures
            match verdict {
                Ok(success) => self.rejection(evidence).is_none() && self.accepted_as(
                    evidence,
                    success,
                ),
                Err(error) => self.rejection(evidence) == Some(error@),
            },
    {
        match self.validate_edges(&evidence.edges) {
            Err(error) => {
                return Err(error);
            },
            Ok(_) => {},
        }
        let common = match self.driver_trace.common_trace_with(
            &self.passenger_trace,
            &evidence.survey,
        ) {
            Ok(common) => common,
            Err(error) => {
                return Err(error);
            },
        };
        match check_distance(common.common_distance) {
            Err(error) => {
                return Err(error);
            },
            Ok(_) => {},
        }
        let driver_trace = self.driver_trace.simplified(&evidence.driver_simplified);
        let passenger_trace = self.passenger_trace.simplified(&evidence.passenger_simplified);
        let average_confidence = driver_trace.confidence_with(
            &passenger_trace,
            evidence.frechet,
            evidence.scale,
        );
        Ok(
            OutputSuccess {
                average_confidence,
                traces: TracesOutput {
                    passenger_trace: TraceOutput::from(passenger_trace),
                    driver_trace: TraceOutput::from(driver_trace),
                },
                common_distance: common.common_distance,
                common_start_point: common.common_start_point,
                common_end_point: common.common_end_point,
            },
        )
    }

    /// The verdict on the journey under the evidence, a rejection told in words.
    pub fn validate(&self, evidence: &Evidence) -> (out: Output)
        ensures
            match self.rejection(evidence) {
                Some(rejection) => out matches Output::Error(error) && error.cancel_reason@
                    == message_of(rejection),
                None => out matches Output::Success(success) && self.accepted_as(
                    evidence,
                    success,
                ),
            },
    {
        match self.verdict(evidence) {
            Ok(success) => Output::Success(success),
            Err(error) => Output::from(error),
        }
    }
}

} // verus!
