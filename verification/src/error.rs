//! Why a journey is rejected.

use vstd::prelude::*;

verus! {

/// The reasons for which a journey is not accepted as a shared trip.
///
/// The text carried by `MissingTrace` and `EmptyTrace` names the role, `driver` or
/// `passenger`; that of `TimestampsDeltaTooBig` names the edge, `start` or `end`; that of
/// `InvalidDistance` says `short` or `long`.
#[derive(Clone, Debug, PartialEq, Eq)]
pub enum JourneyValidationError {
    MissingStartTime,
    MissingEndTime,
    MissingDriver,
    MissingPassenger,
    InvalidPassenger,
    NoCommonPoints,
    MissingTrace(String),
    EmptyTrace(String),
    TimestampsDeltaTooBig(String),
    NotInFrance,
    InvalidDistance(String),
}

/// The mathematical content of a [`JourneyValidationError`].
pub enum Rejection {
    MissingStartTime,
    MissingEndTime,
    MissingDriver,
    MissingPassenger,
    InvalidPassenger,
    NoCommonPoints,
    MissingTrace(Seq<char>),
    EmptyTrace(Seq<char>),
    TimestampsDeltaTooBig(Seq<char>),
    NotInFrance,
    InvalidDistance(Seq<char>),
}

impl View for JourneyValidationError {
    type V = Rejection;

    open spec fn view(&self) -> Rejection {
        match self {
            JourneyValidationError::MissingStartTime => Rejection::MissingStartTime,
            JourneyValidationError::MissingEndTime => Rejection::MissingEndTime,
            JourneyValidationError::MissingDriver => Rejection::MissingDriver,
            JourneyValidationError::MissingPassenger => Rejection::MissingPassenger,
            JourneyValidationError::InvalidPassenger => Rejection::InvalidPassenger,
            JourneyValidationError::NoCommonPoints => Rejection::NoCommonPoints,
            JourneyValidationError::MissingTrace(role) => Rejection::MissingTrace(role@),
            JourneyValidationError::EmptyTrace(role) => Rejection::EmptyTrace(role@),
            JourneyValidationError::TimestampsDeltaTooBig(edge) => Rejection::TimestampsDeltaTooBig(
                edge@,
            ),
            JourneyValidationError::NotInFrance => Rejection::NotInFrance,
            JourneyValidationError::InvalidDistance(side) => Rejection::InvalidDistance(side@),
        }
    }
}

/// The sentence that tells a person why the journey was rejected.
pub open spec fn message_of(rejection: Rejection) -> Seq<char> {
    match rejection {
        Rejection::MissingStartTime => "Missing startTime"@,
        Rejection::MissingEndTime => "Missing endTime"@,
        Rejection::MissingDriver => "Missing driver"@,
        Rejection::MissingPassenger => "Missing passenger"@,
        Rejection::InvalidPassenger => "Driver is passenger"@,
        Rejection::NoCommonPoints => "No common points"@,
        Rejection::MissingTrace(role) => "Missing "@ + role + " trace"@,
        Rejection::EmptyTrace(role) => "Empty "@ + role + " trace"@,
        Rejection::TimestampsDeltaTooBig(edge) => if edge == "start"@ {
            "Start points timestamps are too far apart"@
        } else if edge == "end"@ {
            "End points timestamps are too far apart"@
        } else {
            "Timestamps of the "@ + edge + " points are too far apart"@
        },
        Rejection::NotInFrance => "Not in France"@,
        Rejection::InvalidDistance(side) => "Distance too "@ + side,
    }
}

/// Whether the text is the given word.
pub fn says(text: &String, word: &str) -> (same: bool)
    ensures
        same == (text@ == word@),
{
    *text == String::from_str(word)
}

/// `before`, `middle` and `after` put together.
fn framed(before: &str, middle: &str, after: &str) -> (text: String)
    ensures
        text@ == before@ + middle@ + after@,
{
    let mut text = String::from_str(before);
    text.append(middle);
    text.append(after);
    text
}

impl JourneyValidationError {
    /// The sentence that tells a person why the journey was rejected.
    pub fn message(&self) -> (text: String)
        ensures
            text@ == message_of(self@),
    {
        match self {
            JourneyValidationError::MissingStartTime => String::from_str("Missing startTime"),
            JourneyValidationError::MissingEndTime => String::from_str("Missing endTime"),
            JourneyValidationError::MissingDriver => String::from_str("Missing driver"),
            JourneyValidationError::MissingPassenger => String::from_str("Missing passenger"),
            JourneyValidationError::InvalidPassenger => String::from_str("Driver is passenger"),
            JourneyValidationError::NoCommonPoints => String::from_str("No common points"),
            JourneyValidationError::MissingTrace(role) => framed("Missing ", role.as_str(), " trace"),
            JourneyValidationError::EmptyTrace(role) => framed("Empty ", role.as_str(), " trace"),
            JourneyValidationError::TimestampsDeltaTooBig(edge) => if says(edge, "start") {
                String::from_str("Start points timestamps are too far apart")
            } else if says(edge, "end") {
                String::from_str("End points timestamps are too far apart")
            } else {
                framed("Timestamps of the ", edge.as_str(), " points are too far apart")
            },
            JourneyValidationError::NotInFrance => String::from_str("Not in France"),
            JourneyValidationError::InvalidDistance(side) => {
                let text = framed("Distance too ", side.as_str(), "");
                proof {
                    reveal_strlit("");
                    assert("Distance too "@ + side@ + ""@ =~= "Distance too "@ + side@);
                }
                text
            },
        }
    }
}

} // verus!
