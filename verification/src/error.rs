//! The error taxonomy of the engine and of the remote-service boundary.

use vstd::prelude::*;
use crate::mv::FiveInRowMove;

verus! {

/// A failure at the transport boundary. The surrounding application maps
/// the concrete transport errors onto these tags before handing them to
/// the engine.
#[derive(Debug, Clone, Copy, PartialEq, Eq, Structural)]
pub enum FetchError {
    ApiErr,
    JsonErr,
    TimeError,
    ParseError,
    RivalTimeoutError,
    FinishedUnexpectedly,
    Invalid,
}

/// An error of the engine or of the game it is playing.
#[derive(Debug, Clone, Copy, PartialEq, Eq, Structural)]
pub enum Error {
    /// The move claims an occupied cell.
    IncorrectMove(FiveInRowMove),
    /// The search produced no suggestion.
    NoSuggestionAvailable,
    /// A graft path was not found in the suggestion tree.
    SuggestionComputationError,
    /// The opponent did not move in time.
    TimeoutError,
    /// The service reported the game finished mid-flow.
    FinishedUnexpectedly,
    /// Malformed state or a missing handle.
    Invalid,
    /// Any other transport-level failure.
    ApiError(FetchError),
}

impl Error {
    /// How a transport failure appears to the engine.
    pub open spec fn from_fetch_spec(e: FetchError) -> Error {
        match e {
            FetchError::RivalTimeoutError => Error::TimeoutError,
            FetchError::FinishedUnexpectedly => Error::FinishedUnexpectedly,
            FetchError::Invalid => Error::Invalid,
            _ => Error::ApiError(e),
        }
    }
}

impl From<FetchError> for Error {
    fn from(e: FetchError) -> (r: Error) {
        match e {
            FetchError::RivalTimeoutError => Error::TimeoutError,
            FetchError::FinishedUnexpectedly => Error::FinishedUnexpectedly,
            FetchError::Invalid => Error::Invalid,
            _ => Error::ApiError(e),
        }
    }
}

impl vstd::std_specs::convert::FromSpecImpl<FetchError> for Error {
    open spec fn obeys_from_spec() -> bool {
        true
    }

    open spec fn from_spec(e: FetchError) -> Error {
        Error::from_fetch_spec(e)
    }
}

} // verus!
