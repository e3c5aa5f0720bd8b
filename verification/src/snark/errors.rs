//! Errors of the proof system.

use vstd::prelude::*;

verus! {

/// Why a proof could not be built or used.
#[derive(Clone, Copy, Debug, PartialEq, Eq, Structural)]
pub enum SNARKError {
    /// A per-instance vector does not have as many entries as the batch has
    /// instances.
    BatchSizeMismatch,
}

/// Why a byte string could not be decoded.
#[derive(Clone, Copy, Debug, PartialEq, Eq, Structural)]
pub enum SerializationError {
    /// The input ends before the value does.
    NotEnoughBytes,
    /// The bytes spell no value, or one that fails validation.
    InvalidData,
    /// A count on the wire does not fit the integers of this machine.
    IncompatibleTarget,
}

} // verus!
