//! The commitment of a solution to the coinbase puzzle.

use crate::snark::codec::{Canonical, Compress, Reader, Validate};
use crate::snark::commitment::Commitment;
use crate::snark::errors::SerializationError;
use vstd::prelude::*;

verus! {

/// A commitment to the polynomial of a prover solution.
#[derive(Clone, Copy, Debug, PartialEq, Eq, Structural, Hash)]
pub struct PuzzleCommitment {
    /// The commitment.
    pub commitment: Commitment,
}

impl PuzzleCommitment {
    /// The puzzle commitment that holds `commitment`.
    pub fn new(commitment: Commitment) -> (r: PuzzleCommitment)
        ensures
            r.commitment == commitment,
    {
        PuzzleCommitment { commitment }
    }

    /// Appends the 48 bytes of the short encoding of the commitment to
    /// `writer`.
    pub fn write_le(&self, writer: &mut Vec<u8>)
        ensures
            final(writer)@ == old(writer)@ + self.commitment.encoding(true),
    {
        let _ = self.commitment.serialize_with_mode(writer, Compress::Yes);
    }

    /// Reads the puzzle commitment from the front of `reader`: 48 bytes that
    /// have to stand for a point of the group.
    pub fn read_le(reader: &mut Reader) -> (r: Result<PuzzleCommitment, SerializationError>)
        ensures
            match Commitment::decoding(old(reader)@, true, true) {
                Ok((commitment, used)) => r == Ok::<PuzzleCommitment, SerializationError>(
                    PuzzleCommitment { commitment },
                ) && final(reader)@ == old(reader)@.skip(used as int),
                Err(e) => r == Err::<PuzzleCommitment, SerializationError>(e),
            },
            r is Ok ==> r.unwrap().commitment.valid(),
    {
        match Commitment::deserialize_with_mode(reader, Compress::Yes, Validate::Yes) {
            Ok(commitment) => Ok(PuzzleCommitment::new(commitment)),
            Err(e) => Err(e),
        }
    }
}

} // verus!
