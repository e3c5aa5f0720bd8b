//! Errors raised while a circuit is synthesized.

use vstd::prelude::*;

verus! {

/// What can go wrong while constraints are generated.
#[derive(Clone, Copy, Debug, PartialEq, Eq, Structural)]
pub enum SynthesisError {
    /// A variable was allocated without a value.
    AssignmentMissing,
    /// A lookup constraint names a table that was never registered.
    LookupTableMissing,
    /// The referenced table has no entry for the inputs, or maps them to
    /// another output.
    LookupValueMissing,
}

} // verus!
