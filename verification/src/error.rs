//! The ways a run can end without a digest.

use vstd::prelude::*;

verus! {

/// Why a run stopped, or why a request could not be addressed.
#[derive(Debug, Clone, Copy, PartialEq, Eq, Structural)]
pub enum PipelineError {
    /// No access token was configured.
    MissingToken,
    /// The account has no workspace to list projects of.
    NoWorkspace,
    /// A request failed in transport, or its body could not be understood.
    RequestFailed,
    /// A reply of a kind that the run was not waiting for.
    UnexpectedReply,
    /// The clock reading has no day before it that can be written as a date.
    TimeOutOfRange,
}

} // verus!
