//! Errors of the fusion runtime.
use vstd::prelude::*;

verus! {

/// Why a request to the fusion runtime failed.
#[derive(Clone, Copy, Debug, PartialEq, Eq, Structural)]
pub enum FusionError {
    /// A rule of the runtime was broken by the caller, such as registering an
    /// optimization whose defining sequence is empty.
    InvariantViolation,
    /// The backend cannot execute the requested operation or optimization.
    UnsupportedOperation,
}

} // verus!
