//! The kinds of failure that an operation of the engine can end in.

use vstd::prelude::*;

verus! {

/// Why an operation failed.
#[derive(Clone, Copy, Debug, PartialEq, Eq, Structural)]
pub enum MatchError {
    /// A price that is no number, a negative amount, a user id without
    /// characters.
    InvalidArgument,
    /// The balance does not cover the debit.
    InsufficientCredits,
    /// No ask survived the pipeline.
    NoMatch,
    /// The provider could not be reached, or sent what cannot be read.
    UpstreamError,
    /// The index store could not be reached.
    BackendUnavailable,
    /// What should not happen: a number beyond what a decimal holds.
    Internal,
}

/// The status with which a failure is reported to a client.
#[derive(Clone, Copy, Debug, PartialEq, Eq, Structural)]
pub enum RpcStatus {
    InvalidArgument,
    FailedPrecondition,
    NotFound,
    Internal,
}

impl MatchError {
    /// The status that reports this failure: a bad argument, a failed
    /// precondition for missing credits, not found for no match, and an
    /// internal error for everything else.
    pub open spec fn spec_rpc_status(self) -> RpcStatus {
        match self {
            MatchError::InvalidArgument => RpcStatus::InvalidArgument,
            MatchError::InsufficientCredits => RpcStatus::FailedPrecondition,
            MatchError::NoMatch => RpcStatus::NotFound,
            MatchError::UpstreamError => RpcStatus::Internal,
            MatchError::BackendUnavailable => RpcStatus::Internal,
            MatchError::Internal => RpcStatus::Internal,
        }
    }

    /// The status that reports this failure to a client.
    pub fn rpc_status(&self) -> (status: RpcStatus)
        ensures
            status == self.spec_rpc_status(),
    {
        match self {
            MatchError::InvalidArgument => RpcStatus::InvalidArgument,
            MatchError::InsufficientCredits => RpcStatus::FailedPrecondition,
            MatchError::NoMatch => RpcStatus::NotFound,
            MatchError::UpstreamError => RpcStatus::Internal,
            MatchError::BackendUnavailable => RpcStatus::Internal,
            MatchError::Internal => RpcStatus::Internal,
        }
    }
}

} // verus!
