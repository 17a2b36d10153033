//! The ways in which a call can fail.

use vstd::prelude::*;

verus! {

/// The kinds of failure. Two of them are faults of the program that must
/// stop it rather than be handled: `OutOfMemory` and `ContractViolation`.
#[derive(Debug, Clone, Copy, PartialEq, Eq, Structural)]
pub enum Error {
    /// The pool cannot serve a request. It never will: nothing is given back
    /// to a pool.
    OutOfMemory,
    /// A request carried a malformed argument. Sending it again cannot help.
    InvalidArg,
    /// The destination cannot take the message now. The sender tries again
    /// at the next occasion.
    NeedsRetry,
    /// A call was made that the protocol rules out.
    ContractViolation,
    /// Any other failure that a remote party reported.
    Other,
}

impl Error {
    /// Whether the failure is a fault of the program itself.
    pub fn is_fatal(&self) -> (fatal: bool)
        ensures
            fatal == (*self == Error::OutOfMemory || *self == Error::ContractViolation),
    {
        match self {
            Error::OutOfMemory => true,
            Error::ContractViolation => true,
            _ => false,
        }
    }
}

} // verus!
