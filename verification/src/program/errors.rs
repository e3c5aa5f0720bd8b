//! Errors of operations on program data.

use vstd::prelude::*;

verus! {

/// Why an operation on program data was refused.
#[derive(Clone, Copy, Debug, PartialEq, Eq, Structural)]
pub enum ProgramError {
    /// The operation is not defined for this value.
    IllegalOperation,
    /// The network's hash function refused its input.
    HashFailed,
    /// The upper bits of a field element are not zero.
    UpperBitsNotZero,
    /// The bytes spell no value of the type.
    InvalidEncoding,
}

} // verus!
