//! What can go wrong in a trace.

use vstd::prelude::*;
use crate::signature::Signature;

verus! {

/// The field of a transfer instruction that could not be used.
#[derive(Clone, Copy, Debug, PartialEq, Eq, Structural)]
pub enum MalformedTransfer {
    /// The instruction names no source account.
    Source,
    /// The instruction names no destination account.
    Destination,
    /// The instruction carries no amount, or one that is not a number.
    Amount,
}

/// Why a trace, or one branch of it, stopped.
#[derive(Debug)]
pub enum TraceError {
    /// The depth bound or the fan-out bound is out of range.
    InvalidConfiguration,
    /// A signature or an address that cannot be decoded.
    InvalidInput,
    /// The ledger did not answer within the retry budget.
    RemoteUnavailable { cause: String },
    /// A transfer instruction of a transaction could not be decoded.
    MalformedInstruction { signature: Signature, index: usize },
}

/// A `TraceError` as a mathematical value.
pub enum TraceErrorView {
    InvalidConfiguration,
    InvalidInput,
    RemoteUnavailable { cause: Seq<char> },
    MalformedInstruction { signature: Seq<u8>, index: nat },
}

impl View for TraceError {
    type V = TraceErrorView;

    open spec fn view(&self) -> TraceErrorView {
        match *self {
            TraceError::InvalidConfiguration => TraceErrorView::InvalidConfiguration,
            TraceError::InvalidInput => TraceErrorView::InvalidInput,
            TraceError::RemoteUnavailable { cause } => TraceErrorView::RemoteUnavailable {
                cause: cause@,
            },
            TraceError::MalformedInstruction { signature, index } => {
                TraceErrorView::MalformedInstruction { signature: signature@, index: index as nat }
            },
        }
    }
}

impl Clone for TraceError {
    fn clone(&self) -> (copy: TraceError)
        ensures
            copy@ == self@,
    {
        match self {
            TraceError::InvalidConfiguration => TraceError::InvalidConfiguration,
            TraceError::InvalidInput => TraceError::InvalidInput,
            TraceError::RemoteUnavailable { cause } => TraceError::RemoteUnavailable {
                cause: cause.clone(),
            },
            TraceError::MalformedInstruction { signature, index } => {
                TraceError::MalformedInstruction { signature: *signature, index: *index }
            },
        }
    }
}

impl TraceError {
    /// A sentence for logs and messages.
    pub fn describe(&self) -> (text: &'static str)
        ensures
            text@ == describe_error(self@),
    {
        match self {
            TraceError::InvalidConfiguration => "invalid configuration: depth must be 1 to 10 and fan-out 1 to 20",
            TraceError::InvalidInput => "invalid input: not a signature or an address",
            TraceError::RemoteUnavailable { .. } => "remote unavailable: retries exhausted",
            TraceError::MalformedInstruction { .. } => "malformed instruction: a transfer could not be decoded",
        }
    }
}

/// The sentence that `TraceError::describe` gives for an error.
pub open spec fn describe_error(error: TraceErrorView) -> Seq<char> {
    match error {
        TraceErrorView::InvalidConfiguration => "invalid configuration: depth must be 1 to 10 and fan-out 1 to 20"@,
        TraceErrorView::InvalidInput => "invalid input: not a signature or an address"@,
        TraceErrorView::RemoteUnavailable { .. } => "remote unavailable: retries exhausted"@,
        TraceErrorView::MalformedInstruction { .. } => "malformed instruction: a transfer could not be decoded"@,
    }
}

/// An error inside one branch of a trace: the signature that was being
/// explored, and what went wrong there.
#[derive(Debug)]
pub struct BranchFailure {
    pub signature: Signature,
    pub error: TraceError,
}

/// A `BranchFailure` as a mathematical value.
pub struct BranchFailureView {
    pub signature: Seq<u8>,
    pub error: TraceErrorView,
}

impl View for BranchFailure {
    type V = BranchFailureView;

    open spec fn view(&self) -> BranchFailureView {
        BranchFailureView { signature: self.signature@, error: self.error@ }
    }
}

} // verus!
