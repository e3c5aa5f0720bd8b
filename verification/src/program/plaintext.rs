//! Plaintexts and ciphertexts, and the encryption that turns one into the
//! other.

use crate::field::{bits_le, field_add, Field};
use crate::program::bits::{fields_bits_be, fields_bits_le, fields_to_bits_be, fields_to_bits_le, ToBits};
use crate::program::equal::{fields_equal, Equal};
use crate::program::group::{scalar_mul, Address, Scalar};
use crate::program::network::Network;
use crate::r1cs::constraint_checker::values;
use vstd::prelude::*;

verus! {

/// A plaintext, held as the field elements that encode it.
#[derive(Clone, Debug, PartialEq, Eq)]
pub struct Plaintext {
    fields: Vec<Field>,
}

/// A ciphertext: one field element for each field element of the plaintext.
#[derive(Clone, Debug, PartialEq, Eq)]
pub struct Ciphertext {
    fields: Vec<Field>,
}

impl View for Plaintext {
    type V = Seq<nat>;

    closed spec fn view(&self) -> Seq<nat> {
        values(self.fields@)
    }
}

impl View for Ciphertext {
    type V = Seq<nat>;

    closed spec fn view(&self) -> Seq<nat> {
        values(self.fields@)
    }
}

/// The element-wise sums of `plaintext` and `randomizers`.
pub open spec fn masked(plaintext: Seq<nat>, randomizers: Seq<nat>) -> Seq<nat>
    recommends
        plaintext.len() == randomizers.len(),
{
    Seq::new(plaintext.len(), |i: int| field_add(plaintext[i], randomizers[i]))
}

impl Ciphertext {
    /// The ciphertext that consists of `fields`.
    pub fn from_fields(fields: Vec<Field>) -> (r: Ciphertext)
        ensures
            r@ == values(fields@),
    {
        Ciphertext { fields }
    }

    /// The field elements of the ciphertext.
    pub fn to_fields(&self) -> (r: Vec<Field>)
        ensures
            values(r@) == self@,
    {
        copy_fields(&self.fields)
    }
}

impl Plaintext {
    /// The plaintext that `fields` encode.
    pub fn from_fields(fields: Vec<Field>) -> (r: Plaintext)
        ensures
            r@ == values(fields@),
    {
        Plaintext { fields }
    }

    /// The field elements that encode the plaintext.
    pub fn to_fields(&self) -> (r: Vec<Field>)
        ensures
            values(r@) == self@,
    {
        copy_fields(&self.fields)
    }

    /// The number of randomizers that encrypting the plaintext takes: one for
    /// each field element. `None` where that number does not fit 16 bits.
    pub fn num_randomizers(&self) -> (r: Option<u16>)
        ensures
            r is Some <==> self@.len() <= u16::MAX,
            r is Some ==> r.unwrap() == self@.len(),
    {
        let n = self.fields.len();
        if n <= 0xffff {
            Some(n as u16)
        } else {
            None
        }
    }

    /// Encrypts the plaintext under the given randomizers: each field element
    /// is masked by adding the randomizer at its position.
    pub fn encrypt_with_randomizers(&self, randomizers: &Vec<Field>) -> (r: Ciphertext)
        requires
            randomizers@.len() == self@.len(),
        ensures
            r@ == masked(self@, values(randomizers@)),
    {
        let mut out: Vec<Field> = Vec::new();
        let mut i: usize = 0;
        while i < self.fields.len()
            invariant
                i <= self.fields@.len(),
                randomizers@.len() == self.fields@.len(),
                out@.len() == i,
                forall|j: int|
                    0 <= j < i ==> (#[trigger] out@[j])@ == field_add(
                        self.fields@[j]@,
                        randomizers@[j]@,
                    ),
            decreases self.fields@.len() - i,
        {
            out.push(self.fields[i].add(&randomizers[i]));
            i += 1;
        }
        let r = Ciphertext::from_fields(out);
        assert(r@ =~= masked(self@, values(randomizers@)));
        r
    }

    /// Encrypts the plaintext to `address` under `randomizer`: the plaintext
    /// view key is the x-coordinate of the address multiplied by the
    /// randomizer.
    pub fn encrypt<N: Network>(&self, address: &Address, randomizer: Scalar) -> (r: Ciphertext)
        requires
            self@.len() <= u16::MAX,
        ensures
            r@ == masked(
                self@,
                N::psd8_many(
                    seq![
                        N::encryption_domain_value(),
                        scalar_mul(address.0.x(), address.0.y(), randomizer@).0,
                    ],
                    self@.len(),
                ),
            ),
    {
        let plaintext_view_key = address.to_group().mul(&randomizer).to_x_coordinate();
        self.encrypt_symmetric::<N>(plaintext_view_key)
    }

    /// Encrypts the plaintext under the plaintext view key: the randomizers
    /// are the Poseidon hash of the encryption domain and the key.
    pub fn encrypt_symmetric<N: Network>(&self, plaintext_view_key: Field) -> (r: Ciphertext)
        requires
            self@.len() <= u16::MAX,
        ensures
            r@ == masked(
                self@,
                N::psd8_many(
                    seq![N::encryption_domain_value(), plaintext_view_key@],
                    self@.len(),
                ),
            ),
    {
        let num_randomizers = self.fields.len() as u16;
        let mut input: Vec<Field> = Vec::new();
        input.push(N::encryption_domain());
        input.push(plaintext_view_key);
        assert(values(input@) =~= seq![N::encryption_domain_value(), plaintext_view_key@]);
        let randomizers = N::hash_many_psd8(&input, num_randomizers);
        self.encrypt_with_randomizers(&randomizers)
    }
}

impl Equal for Plaintext {
    open spec fn equals(&self, other: &Self) -> bool {
        self@ == other@
    }

    fn is_equal(&self, other: &Self) -> (r: bool) {
        fields_equal(&self.fields, &other.fields)
    }

    fn is_not_equal(&self, other: &Self) -> (r: bool) {
        !fields_equal(&self.fields, &other.fields)
    }
}

impl Equal for Ciphertext {
    open spec fn equals(&self, other: &Self) -> bool {
        self@ == other@
    }

    fn is_equal(&self, other: &Self) -> (r: bool) {
        fields_equal(&self.fields, &other.fields)
    }

    fn is_not_equal(&self, other: &Self) -> (r: bool) {
        !fields_equal(&self.fields, &other.fields)
    }
}

impl ToBits for Plaintext {
    closed spec fn bits_le(&self) -> Seq<bool> {
        fields_bits_le(self.fields@)
    }

    closed spec fn bits_be(&self) -> Seq<bool> {
        fields_bits_be(self.fields@)
    }

    fn to_bits_le(&self) -> (r: Vec<bool>) {
        fields_to_bits_le(&self.fields)
    }

    fn to_bits_be(&self) -> (r: Vec<bool>) {
        fields_to_bits_be(&self.fields)
    }
}

impl ToBits for Ciphertext {
    closed spec fn bits_le(&self) -> Seq<bool> {
        fields_bits_le(self.fields@)
    }

    closed spec fn bits_be(&self) -> Seq<bool> {
        fields_bits_be(self.fields@)
    }

    fn to_bits_le(&self) -> (r: Vec<bool>) {
        fields_to_bits_le(&self.fields)
    }

    fn to_bits_be(&self) -> (r: Vec<bool>) {
        fields_to_bits_be(&self.fields)
    }
}

/// A copy of `fields`.
pub fn copy_fields(fields: &Vec<Field>) -> (r: Vec<Field>)
    ensures
        r@ == fields@,
{
    let mut out: Vec<Field> = Vec::new();
    let mut i: usize = 0;
    while i < fields.len()
        invariant
            i <= fields@.len(),
            out@ == fields@.take(i as int),
        decreases fields@.len() - i,
    {
        out.push(fields[i]);
        assert(out@ =~= fields@.take(i + 1));
        i += 1;
    }
    assert(out@ =~= fields@);
    out
}

} // verus!
