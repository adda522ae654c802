//! The verdict on a submitted journey in one call.

use crate::error::{says, JourneyValidationError, Rejection};
use crate::input::JourneyInput;
use crate::journey::{input_rejection, is_input_acceptance, Evidence, Journey};
use crate::output::OutputSuccess;
use vstd::prelude::*;

verus! {

/// A rejection: `success` is false, and `reason` says why.
#[derive(Debug)]
pub enum ValidateReturnError {
    Error { success: bool, reason: &'static str },
}

/// An acceptance: `success` is true, and `data` is what the journey was accepted as.
#[derive(Debug)]
pub enum ValidateReturnSuccess<T> {
    Success { success: bool, data: T },
}

/// A rejection or an acceptance.
#[derive(Debug)]
pub enum ValidateReturn<T> {
    Error(ValidateReturnError),
    Success(ValidateReturnSuccess<T>),
}

/// The reason given for a rejection.
pub open spec fn reason_of(rejection: Rejection) -> Seq<char> {
    match rejection {
        Rejection::MissingStartTime => "Missing startTime"@,
        Rejection::MissingEndTime => "Missing endTime"@,
        Rejection::MissingDriver => "Driver not found"@,
        Rejection::MissingPassenger => "Passenger not found"@,
        Rejection::InvalidPassenger => "Driver cannot be passenger"@,
        Rejection::NoCommonPoints => "No common points"@,
        Rejection::MissingTrace(role) => if role == "driver"@ {
            "Driver trace not found"@
        } else if role == "passenger"@ {
            "Passenger trace not found"@
        } else {
            "Trace not found"@
        },
        Rejection::EmptyTrace(role) => if role == "driver"@ {
            "Driver trace is empty"@
        } else if role == "passenger"@ {
            "Passenger trace is empty"@
        } else {
            "Trace is empty"@
        },
        Rejection::TimestampsDeltaTooBig(edge) => if edge == "start"@ {
            "Start points timestamps are too far apart"@
        } else if edge == "end"@ {
            "End points timestamps are too far apart"@
        } else {
            "Timestamps are too far apart"@
        },
        Rejection::NotInFrance => "Not in France"@,
        Rejection::InvalidDistance(side) => if side == "short"@ {
            "distance too short"@
        } else if side == "long"@ {
            "distance too long"@
        } else {
            "distance not plausible"@
        },
    }
}

impl JourneyValidationError {
    /// The reason given for this rejection.
    pub fn reason(&self) -> (reason: &'static str)
        ensures
            reason@ == reason_of(self@),
    {
        match self {
            JourneyValidationError::MissingStartTime => "Missing startTime",
            JourneyValidationError::MissingEndTime => "Missing endTime",
            JourneyValidationError::MissingDriver => "Driver not found",
            JourneyValidationError::MissingPassenger => "Passenger not found",
            JourneyValidationError::InvalidPassenger => "Driver cannot be passenger",
            JourneyValidationError::NoCommonPoints => "No common points",
            JourneyValidationError::MissingTrace(role) => if says(role, "driver") {
                "Driver trace not found"
            } else if says(role, "passenger") {
                "Passenger trace not found"
            } else {
                "Trace not found"
            },
            JourneyValidationError::EmptyTrace(role) => if says(role, "driver") {
                "Driver trace is empty"
            } else if says(role, "passenger") {
                "Passenger trace is empty"
            } else {
                "Trace is empty"
            },
            JourneyValidationError::TimestampsDeltaTooBig(edge) => if says(edge, "start") {
                "Start points timestamps are too far apart"
            } else if says(edge, "end") {
                "End points timestamps are too far apart"
            } else {
                "Timestamps are too far apart"
            },
            JourneyValidationError::NotInFrance => "Not in France",
            JourneyValidationError::InvalidDistance(side) => if says(side, "short") {
                "distance too short"
            } else if says(side, "long") {
                "distance too long"
            } else {
                "distance not plausible"
            },
        }
    }
}

fn refused(reason: &'static str) -> (out: ValidateReturn<OutputSuccess>)
    ensures
        out == ValidateReturn::<OutputSuccess>::Error(
            ValidateReturnError::Error { success: false, reason },
        ),
{
    ValidateReturn::Error(ValidateReturnError::Error { success: false, reason })
}

/// The verdict on a submitted journey under the evidence.
///
/// The journey is first given its shape, as [`Journey::try_from`] does, and then judged,
/// as [`Journey::verdict`] does; the first reason to reject it is told. The evidence is
/// that of the journey which the submitted one stands for. Whatever is submitted, there
/// is a verdict.
pub fn validate_journey(journey: Option<JourneyInput>, evidence: &Evidence) -> (out: ValidateReturn<
    OutputSuccess,
>)
    ensures
        match journey {
            None => out == ValidateReturn::<OutputSuccess>::Error(
                ValidateReturnError::Error { success: false, reason: "Journey not found" },
            ),
            Some(input) => match input_rejection(input, *evidence) {
                Some(rejection) => {
                    &&& out matches ValidateReturn::Error(
                        ValidateReturnError::Error { success, reason },
                    )
                    &&& !success
                    &&& reason@ == reason_of(rejection)
                },
                None => {
                    &&& out matches ValidateReturn::Success(
                        ValidateReturnSuccess::Success { success, data },
                    )
                    &&& success
                    &&& is_input_acceptance(input, *evidence, data)
                },
            },
        },
{
    let input = match journey {
        Some(input) => input,
        None => {
            return refused("Journey not found");
        },
    };
    let made = match Journey::try_from(input) {
        Ok(made) => made,
        Err(error) => {
            return refused(error.reason());
        },
    };
    match made.verdict(evidence) {
        Ok(data) => ValidateReturn::Success(ValidateReturnSuccess::Success { success: true, data }),
        Err(error) => refused(error.reason()),
    }
}

} // verus!
