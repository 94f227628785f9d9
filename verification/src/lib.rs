//! Core of a programming-contest judge: submission lifecycle, output
//! comparison, score aggregation, and contest ranking.
//!
//! The crate holds the decision logic only. Reading files, spawning
//! compilers, HTTP and the record store are its callers' business; they
//! hand plain values in and take plain values back.

use vstd::prelude::*;

pub mod compare;
pub mod config;
pub mod contest;
pub mod job;
pub mod rank;
pub mod text;
pub mod timestamp;
pub mod user;
pub mod wire;

verus! {

/// The error taxonomy of the public operations.
///
/// Compilation and execution failures are not errors: they are verdicts
/// on the job, returned with a normal success response.
#[derive(Clone, Copy, PartialEq, Eq, Structural, Debug)]
pub enum ApiError {
    /// A referenced id (job, contest, user, problem, language) is unknown.
    NotFound,
    /// Ids that do not belong to the referenced contest, or a malformed request.
    InvalidArgument,
    /// An operation on a job in the wrong state (re-judge while not
    /// Finished, delete while not Queueing).
    InvalidState,
    /// The contest's submission cap is reached.
    RateLimit,
}

impl ApiError {
    /// The numeric code of the wire contract.
    pub fn code(&self) -> (r: i32)
        ensures
            r == match *self {
                ApiError::InvalidArgument => 1i32,
                ApiError::InvalidState => 2i32,
                ApiError::NotFound => 3i32,
                ApiError::RateLimit => 4i32,
            },
    {
        match *self {
            ApiError::InvalidArgument => 1,
            ApiError::InvalidState => 2,
            ApiError::NotFound => 3,
            ApiError::RateLimit => 4,
        }
    }

    /// The reason tag of the wire contract.
    pub fn reason(&self) -> (r: &'static str)
        ensures
            r@ == self.reason_spec(),
    {
        proof {
            reveal_strlit("ERR_INVALID_ARGUMENT");
            reveal_strlit("ERR_INVALID_STATE");
            reveal_strlit("ERR_NOT_FOUND");
            reveal_strlit("ERR_RATE_LIMIT");
        }
        match *self {
            ApiError::InvalidArgument => "ERR_INVALID_ARGUMENT",
            ApiError::InvalidState => "ERR_INVALID_STATE",
            ApiError::NotFound => "ERR_NOT_FOUND",
            ApiError::RateLimit => "ERR_RATE_LIMIT",
        }
    }

    pub open spec fn reason_spec(self) -> Seq<char> {
        match self {
            ApiError::InvalidArgument => "ERR_INVALID_ARGUMENT"@,
            ApiError::InvalidState => "ERR_INVALID_STATE"@,
            ApiError::NotFound => "ERR_NOT_FOUND"@,
            ApiError::RateLimit => "ERR_RATE_LIMIT"@,
        }
    }
}

} // verus!
