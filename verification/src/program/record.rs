//! Records: an owner, named entries, and a nonce.

use crate::field::Field;
use crate::program::bits::ToBits;
use crate::program::equal::Equal;
use crate::program::errors::ProgramError;
use crate::program::identifier::{Identifier, ProgramID};
use crate::program::network::Network;
use crate::program::plaintext::{Ciphertext, Plaintext};
use vstd::prelude::*;

verus! {

/// One entry of a record. A constant or public entry is readable by
/// everyone; a private entry is a `Private`, which is a plaintext in a record
/// that its owner holds and a ciphertext in a record on the ledger.
#[derive(Clone, Debug, PartialEq, Eq)]
pub enum Entry<Private> {
    /// A constant entry.
    Constant(Plaintext),
    /// A publicly-visible entry.
    Public(Plaintext),
    /// A private entry.
    Private(Private),
}

impl<Private: ToBits> ToBits for Entry<Private> {
    /// Two bits that name the variant (constant `00`, public `01`, private
    /// `10`), then the little-endian bits of what the entry holds.
    open spec fn bits_le(&self) -> Seq<bool> {
        match self {
            Entry::Constant(plaintext) => seq![false, false] + plaintext.bits_le(),
            Entry::Public(plaintext) => seq![false, true] + plaintext.bits_le(),
            Entry::Private(private) => seq![true, false] + private.bits_le(),
        }
    }

    /// Two bits that name the variant (constant `00`, public `01`, private
    /// `10`), then the big-endian bits of what the entry holds.
    open spec fn bits_be(&self) -> Seq<bool> {
        match self {
            Entry::Constant(plaintext) => seq![false, false] + plaintext.bits_be(),
            Entry::Public(plaintext) => seq![false, true] + plaintext.bits_be(),
            Entry::Private(private) => seq![true, false] + private.bits_be(),
        }
    }

    fn to_bits_le(&self) -> (r: Vec<bool>) {
        let mut bits_le: Vec<bool> = Vec::new();
        match self {
            Entry::Constant(plaintext) => {
                bits_le.push(false);
                bits_le.push(false);
                let more = plaintext.to_bits_le();
                bits_le.extend_from_slice(more.as_slice());
                assert(bits_le@ =~= seq![false, false] + plaintext.bits_le());
            },
            Entry::Public(plaintext) => {
                bits_le.push(false);
                bits_le.push(true);
                let more = plaintext.to_bits_le();
                bits_le.extend_from_slice(more.as_slice());
                assert(bits_le@ =~= seq![false, true] + plaintext.bits_le());
            },
            Entry::Private(private) => {
                bits_le.push(true);
                bits_le.push(false);
                let more = private.to_bits_le();
                bits_le.extend_from_slice(more.as_slice());
                assert(bits_le@ =~= seq![true, false] + private.bits_le());
            },
        }
        bits_le
    }

    fn to_bits_be(&self) -> (r: Vec<bool>) {
        let mut bits_be: Vec<bool> = Vec::new();
        match self {
            Entry::Constant(plaintext) => {
                bits_be.push(false);
                bits_be.push(false);
                let more = plaintext.to_bits_be();
                bits_be.extend_from_slice(more.as_slice());
                assert(bits_be@ =~= seq![false, false] + plaintext.bits_be());
            },
            Entry::Public(plaintext) => {
                bits_be.push(false);
                bits_be.push(true);
                let more = plaintext.to_bits_be();
                bits_be.extend_from_slice(more.as_slice());
                assert(bits_be@ =~= seq![false, true] + plaintext.bits_be());
            },
            Entry::Private(private) => {
                bits_be.push(true);
                bits_be.push(false);
                let more = private.to_bits_be();
                bits_be.extend_from_slice(more.as_slice());
                assert(bits_be@ =~= seq![true, false] + private.bits_be());
            },
        }
        bits_be
    }
}

impl<Private: Equal> Equal for Entry<Private> {
    /// Entries are equal when they are of the same variant and hold equal
    /// values.
    open spec fn equals(&self, other: &Self) -> bool {
        match (self, other) {
            (Entry::Constant(a), Entry::Constant(b)) => a.equals(b),
            (Entry::Public(a), Entry::Public(b)) => a.equals(b),
            (Entry::Private(a), Entry::Private(b)) => a.equals(b),
            _ => false,
        }
    }

    fn is_equal(&self, other: &Self) -> (r: bool) {
        match (self, other) {
            (Entry::Constant(a), Entry::Constant(b)) => a.is_equal(b),
            (Entry::Public(a), Entry::Public(b)) => a.is_equal(b),
            (Entry::Private(a), Entry::Private(b)) => a.is_equal(b),
            (Entry::Constant(_), _) | (Entry::Public(_), _) | (Entry::Private(_), _) => false,
        }
    }

    fn is_not_equal(&self, other: &Self) -> (r: bool) {
        match (self, other) {
            (Entry::Constant(a), Entry::Constant(b)) => a.is_not_equal(b),
            (Entry::Public(a), Entry::Public(b)) => a.is_not_equal(b),
            (Entry::Private(a), Entry::Private(b)) => a.is_not_equal(b),
            (Entry::Constant(_), _) | (Entry::Public(_), _) | (Entry::Private(_), _) => true,
        }
    }
}

/// A record. `Private` is what its private entries hold.
#[derive(Clone, Debug, PartialEq, Eq)]
pub struct Record<Private> {
    /// The address of the owner, by its x-coordinate.
    pub owner: Field,
    /// The named entries, in their declared order.
    pub data: Vec<(Identifier, Entry<Private>)>,
    /// The nonce, by its x-coordinate.
    pub nonce: Field,
}

/// The bits of named entries: for each, the name and then the entry.
pub open spec fn data_bits_le<Private: ToBits>(data: Seq<(Identifier, Entry<Private>)>) -> Seq<bool>
    decreases data.len(),
{
    if data.len() == 0 {
        Seq::empty()
    } else {
        data_bits_le(data.drop_last()) + data.last().0.bits_le() + data.last().1.bits_le()
    }
}

/// The big-endian bits of named entries: for each, the name and then the
/// entry.
pub open spec fn data_bits_be<Private: ToBits>(data: Seq<(Identifier, Entry<Private>)>) -> Seq<bool>
    decreases data.len(),
{
    if data.len() == 0 {
        Seq::empty()
    } else {
        data_bits_be(data.drop_last()) + data.last().0.bits_be() + data.last().1.bits_be()
    }
}

impl<Private: ToBits> ToBits for Record<Private> {
    /// The owner, the named entries, and the nonce.
    open spec fn bits_le(&self) -> Seq<bool> {
        self.owner.bits_le() + data_bits_le(self.data@) + self.nonce.bits_le()
    }

    /// The owner, the named entries, and the nonce.
    open spec fn bits_be(&self) -> Seq<bool> {
        self.owner.bits_be() + data_bits_be(self.data@) + self.nonce.bits_be()
    }

    fn to_bits_le(&self) -> (r: Vec<bool>) {
        let mut bits = self.owner.to_bits_le();
        let ghost head = bits@;
        let mut i: usize = 0;
        assert(self.data@.take(0) =~= Seq::empty());
        assert(head + Seq::<bool>::empty() =~= head);
        while i < self.data.len()
            invariant
                i <= self.data@.len(),
                bits@ == head + data_bits_le(self.data@.take(i as int)),
            decreases self.data@.len() - i,
        {
            let name = self.data[i].0.to_bits_le();
            let entry = self.data[i].1.to_bits_le();
            bits.extend_from_slice(name.as_slice());
            bits.extend_from_slice(entry.as_slice());
            proof {
                let prefix = self.data@.take(i + 1);
                assert(prefix.drop_last() =~= self.data@.take(i as int));
                assert(prefix.last() == self.data@[i as int]);
                assert(bits@ =~= head + data_bits_le(prefix));
            }
            i += 1;
        }
        assert(self.data@.take(i as int) =~= self.data@);
        let nonce = self.nonce.to_bits_le();
        bits.extend_from_slice(nonce.as_slice());
        bits
    }

    fn to_bits_be(&self) -> (r: Vec<bool>) {
        let mut bits = self.owner.to_bits_be();
        let ghost head = bits@;
        let mut i: usize = 0;
        assert(self.data@.take(0) =~= Seq::empty());
        assert(head + Seq::<bool>::empty() =~= head);
        while i < self.data.len()
            invariant
                i <= self.data@.len(),
                bits@ == head + data_bits_be(self.data@.take(i as int)),
            decreases self.data@.len() - i,
        {
            let name = self.data[i].0.to_bits_be();
            let entry = self.data[i].1.to_bits_be();
            bits.extend_from_slice(name.as_slice());
            bits.extend_from_slice(entry.as_slice());
            proof {
                let prefix = self.data@.take(i + 1);
                assert(prefix.drop_last() =~= self.data@.take(i as int));
                assert(prefix.last() == self.data@[i as int]);
                assert(bits@ =~= head + data_bits_be(prefix));
            }
            i += 1;
        }
        assert(self.data@.take(i as int) =~= self.data@);
        let nonce = self.nonce.to_bits_be();
        bits.extend_from_slice(nonce.as_slice());
        bits
    }
}

impl<Private: Equal> Equal for Record<Private> {
    /// Records are equal when their owners and nonces are, and their entries
    /// agree name by name and value by value.
    open spec fn equals(&self, other: &Self) -> bool {
        &&& self.owner@ == other.owner@
        &&& self.nonce@ == other.nonce@
        &&& self.data@.len() == other.data@.len()
        &&& forall|i: int|
            0 <= i < self.data@.len() ==> (#[trigger] self.data@[i]).0 == other.data@[i].0
                && self.data@[i].1.equals(&other.data@[i].1)
    }

    fn is_equal(&self, other: &Self) -> (r: bool) {
        if self.owner.is_not_equal(&other.owner) || self.nonce.is_not_equal(&other.nonce)
            || self.data.len() != other.data.len() {
            return false;
        }
        let mut i: usize = 0;
        while i < self.data.len()
            invariant
                i <= self.data@.len(),
                self.data@.len() == other.data@.len(),
                forall|j: int|
                    0 <= j < i ==> (#[trigger] self.data@[j]).0 == other.data@[j].0
                        && self.data@[j].1.equals(&other.data@[j].1),
            decreases self.data@.len() - i,
        {
            if self.data[i].0.is_not_equal(&other.data[i].0) || self.data[i].1.is_not_equal(
                &other.data[i].1,
            ) {
                assert(!(self.data@[i as int].0 == other.data@[i as int].0
                    && self.data@[i as int].1.equals(&other.data@[i as int].1)));
                return false;
            }
            i += 1;
        }
        true
    }

    fn is_not_equal(&self, other: &Self) -> (r: bool) {
        !self.is_equal(other)
    }
}

impl Record<Plaintext> {
    /// Returns the record commitment: the BHP hash of
    /// `program_id || record_name || record`, each in little-endian bits.
    pub fn to_commitment<N: Network>(&self, program_id: &ProgramID, record_name: &Identifier) -> (r:
        Result<Field, ProgramError>)
        ensures
            match N::bhp1024(program_id.bits_le() + record_name.bits_le() + self.bits_le()) {
                Some(hash) => r is Ok && r.unwrap()@ == hash,
                None => r == Err::<Field, ProgramError>(ProgramError::HashFailed),
            },
    {
        let mut input = program_id.to_bits_le();
        let name = record_name.to_bits_le();
        input.extend_from_slice(name.as_slice());
        let record = self.to_bits_le();
        input.extend_from_slice(record.as_slice());
        assert(input@ =~= program_id.bits_le() + record_name.bits_le() + self.bits_le());
        match N::hash_bhp1024(&input) {
            Some(hash) => Ok(hash),
            None => Err(ProgramError::HashFailed),
        }
    }
}

impl Record<Ciphertext> {
    /// An encrypted record has no commitment: the call is always refused.
    pub fn to_commitment<N: Network>(&self, _program_id: &ProgramID, _record_name: &Identifier) -> (r:
        Result<Field, ProgramError>)
        ensures
            r == Err::<Field, ProgramError>(ProgramError::IllegalOperation),
    {
        Err(ProgramError::IllegalOperation)
    }
}

} // verus!
