//! The leaves of the Merkle tree of a transaction.

use crate::field::Field;
use crate::program::bits::ToBits;
use vstd::prelude::*;

verus! {

/// A leaf of the Merkle tree of a transaction.
#[derive(Clone, Copy, Debug, PartialEq, Eq, Structural)]
pub struct TransactionLeaf {
    /// The variant of the leaf.
    pub variant: u8,
    /// The index of the leaf.
    pub index: u16,
    /// The ID that the leaf holds.
    pub id: Field,
}

impl TransactionLeaf {
    /// The leaf with the given parts.
    pub fn new(variant: u8, index: u16, id: Field) -> (r: TransactionLeaf)
        ensures
            r == (TransactionLeaf { variant, index, id }),
    {
        TransactionLeaf { variant, index, id }
    }
}

impl ToBits for TransactionLeaf {
    /// The leaf as `variant || index || ID`, each in little-endian bits.
    open spec fn bits_le(&self) -> Seq<bool> {
        self.variant.bits_le() + self.index.bits_le() + self.id.bits_le()
    }

    /// The leaf as `variant || index || ID`, each in big-endian bits.
    open spec fn bits_be(&self) -> Seq<bool> {
        self.variant.bits_be() + self.index.bits_be() + self.id.bits_be()
    }

    fn to_bits_le(&self) -> (r: Vec<bool>) {
        let mut bits = self.variant.to_bits_le();
        let index = self.index.to_bits_le();
        bits.extend_from_slice(index.as_slice());
        let id = self.id.to_bits_le();
        bits.extend_from_slice(id.as_slice());
        assert(bits@ =~= self.bits_le());
        bits
    }

    fn to_bits_be(&self) -> (r: Vec<bool>) {
        let mut bits = self.variant.to_bits_be();
        let index = self.index.to_bits_be();
        bits.extend_from_slice(index.as_slice());
        let id = self.id.to_bits_be();
        bits.extend_from_slice(id.as_slice());
        assert(bits@ =~= self.bits_be());
        bits
    }
}

} // verus!
