//! Bit encodings.

use crate::field::{bits_le, Field, MODULUS_BITS};
use vstd::prelude::*;

verus! {

/// Values with a canonical bit encoding in both bit orders.
pub trait ToBits {
    /// The encoding, least significant bit of each component first.
    spec fn bits_le(&self) -> Seq<bool>;

    /// The encoding, most significant bit of each component first.
    spec fn bits_be(&self) -> Seq<bool>;

    /// Returns [`Self::bits_le`].
    fn to_bits_le(&self) -> (r: Vec<bool>)
        ensures
            r@ == self.bits_le(),
    ;

    /// Returns [`Self::bits_be`].
    fn to_bits_be(&self) -> (r: Vec<bool>)
        ensures
            r@ == self.bits_be(),
    ;
}

/// The `n` low bits of `value`, least significant first.
pub fn low_bits_le(value: u64, n: usize) -> (r: Vec<bool>)
    requires
        n <= 64,
    ensures
        r@ == bits_le(value as nat, n as nat),
{
    let mut bits: Vec<bool> = Vec::new();
    let mut rest = value;
    let mut i: usize = 0;
    assert(bits@ + bits_le(value as nat, n as nat) =~= bits_le(value as nat, n as nat));
    while i < n
        invariant
            i <= n <= 64,
            bits@.len() == i,
            bits@ + bits_le(rest as nat, (n - i) as nat) == bits_le(value as nat, n as nat),
        decreases n - i,
    {
        let bit = rest & 1 == 1;
        let half = rest >> 1;
        proof {
            assert((rest & 1 == 1) == (rest % 2 == 1)) by (bit_vector);
            assert(rest >> 1 == rest / 2) by (bit_vector);
            let tail = bits_le(half as nat, (n - i - 1) as nat);
            assert(bits@.push(bit) + tail =~= bits@ + (seq![bit] + tail));
        }
        bits.push(bit);
        rest = half;
        i += 1;
    }
    assert(bits@ + Seq::<bool>::empty() =~= bits@);
    bits
}

/// The bits in the opposite order.
pub fn reversed(bits: &Vec<bool>) -> (r: Vec<bool>)
    ensures
        r@ == bits@.reverse(),
{
    let mut out: Vec<bool> = Vec::new();
    let mut i: usize = bits.len();
    while i > 0
        invariant
            i <= bits@.len(),
            out@.len() == bits@.len() - i,
            forall|j: int| 0 <= j < out@.len() ==> out@[j] == bits@[bits@.len() - 1 - j],
        decreases i,
    {
        i -= 1;
        out.push(bits[i]);
    }
    assert(out@ =~= bits@.reverse());
    out
}

impl ToBits for u8 {
    open spec fn bits_le(&self) -> Seq<bool> {
        bits_le(*self as nat, 8)
    }

    open spec fn bits_be(&self) -> Seq<bool> {
        bits_le(*self as nat, 8).reverse()
    }

    fn to_bits_le(&self) -> (r: Vec<bool>) {
        low_bits_le(*self as u64, 8)
    }

    fn to_bits_be(&self) -> (r: Vec<bool>) {
        reversed(&low_bits_le(*self as u64, 8))
    }
}

impl ToBits for u16 {
    open spec fn bits_le(&self) -> Seq<bool> {
        bits_le(*self as nat, 16)
    }

    open spec fn bits_be(&self) -> Seq<bool> {
        bits_le(*self as nat, 16).reverse()
    }

    fn to_bits_le(&self) -> (r: Vec<bool>) {
        low_bits_le(*self as u64, 16)
    }

    fn to_bits_be(&self) -> (r: Vec<bool>) {
        reversed(&low_bits_le(*self as u64, 16))
    }
}

impl ToBits for u32 {
    open spec fn bits_le(&self) -> Seq<bool> {
        bits_le(*self as nat, 32)
    }

    open spec fn bits_be(&self) -> Seq<bool> {
        bits_le(*self as nat, 32).reverse()
    }

    fn to_bits_le(&self) -> (r: Vec<bool>) {
        low_bits_le(*self as u64, 32)
    }

    fn to_bits_be(&self) -> (r: Vec<bool>) {
        reversed(&low_bits_le(*self as u64, 32))
    }
}

impl ToBits for Field {
    open spec fn bits_le(&self) -> Seq<bool> {
        bits_le(self@, MODULUS_BITS as nat)
    }

    open spec fn bits_be(&self) -> Seq<bool> {
        bits_le(self@, MODULUS_BITS as nat).reverse()
    }

    fn to_bits_le(&self) -> (r: Vec<bool>) {
        Field::to_bits_le(self)
    }

    fn to_bits_be(&self) -> (r: Vec<bool>) {
        Field::to_bits_be(self)
    }
}

/// The encodings of the elements of `fields`, one after the other.
pub open spec fn fields_bits_le(fields: Seq<Field>) -> Seq<bool>
    decreases fields.len(),
{
    if fields.len() == 0 {
        Seq::empty()
    } else {
        fields_bits_le(fields.drop_last()) + fields.last().bits_le()
    }
}

/// The big-endian encodings of the elements of `fields`, one after the other.
pub open spec fn fields_bits_be(fields: Seq<Field>) -> Seq<bool>
    decreases fields.len(),
{
    if fields.len() == 0 {
        Seq::empty()
    } else {
        fields_bits_be(fields.drop_last()) + fields.last().bits_be()
    }
}

/// Returns [`fields_bits_le`].
pub fn fields_to_bits_le(fields: &Vec<Field>) -> (r: Vec<bool>)
    ensures
        r@ == fields_bits_le(fields@),
{
    let mut bits: Vec<bool> = Vec::new();
    let mut i: usize = 0;
    assert(fields@.take(0) =~= Seq::empty());
    while i < fields.len()
        invariant
            i <= fields@.len(),
            bits@ == fields_bits_le(fields@.take(i as int)),
        decreases fields@.len() - i,
    {
        let more = fields[i].to_bits_le();
        bits.extend_from_slice(more.as_slice());
        proof {
            assert(fields@.take(i + 1).drop_last() =~= fields@.take(i as int));
        }
        i += 1;
    }
    assert(fields@.take(i as int) =~= fields@);
    bits
}

/// Returns [`fields_bits_be`].
pub fn fields_to_bits_be(fields: &Vec<Field>) -> (r: Vec<bool>)
    ensures
        r@ == fields_bits_be(fields@),
{
    let mut bits: Vec<bool> = Vec::new();
    let mut i: usize = 0;
    assert(fields@.take(0) =~= Seq::empty());
    while i < fields.len()
        invariant
            i <= fields@.len(),
            bits@ == fields_bits_be(fields@.take(i as int)),
        decreases fields@.len() - i,
    {
        let more = fields[i].to_bits_be();
        bits.extend_from_slice(more.as_slice());
        proof {
            assert(fields@.take(i + 1).drop_last() =~= fields@.take(i as int));
        }
        i += 1;
    }
    assert(fields@.take(i as int) =~= fields@);
    bits
}

} // verus!
