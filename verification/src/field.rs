//! Elements of the BLS12-377 scalar field, held as canonical integers.
//!
//! A [`Field`] stores the least non-negative representative of a residue in
//! four little-endian 64-bit limbs. Its view is that integer. Arithmetic is
//! carried out by `snarkvm_curves`; the functions that reach into it are the
//! private `fr_*` functions at the end of this file, whose contracts are
//! assumed.

use snarkvm_curves::bls12_377::Fr;
use snarkvm_fields::PrimeField;
use snarkvm_utilities::serialize::{CanonicalDeserialize, CanonicalSerialize, Compress, Validate};
use snarkvm_utilities::{BigInteger256, FromBytes, ToBytes};
use vstd::prelude::*;

verus! {

/// The order of the scalar field, a 253-bit prime.
pub open spec fn modulus() -> nat {
    8444461749428370424248824938781546531375899335154063827935233455917409239041nat
}

/// The number of bits of [`modulus`].
pub const MODULUS_BITS: usize = 253;

/// The number of bytes in the encoding of an element.
pub const FIELD_BYTES: usize = 32;

/// The integer that four little-endian 64-bit limbs spell.
pub open spec fn limbs_value(l0: u64, l1: u64, l2: u64, l3: u64) -> nat {
    (l0 as nat) + (l1 as nat) * 18446744073709551616nat + (l2 as nat)
        * 340282366920938463463374607431768211456nat + (l3 as nat)
        * 6277101735386680763835789423207666416102355444464034512896nat
}

/// Addition of residues.
pub open spec fn field_add(a: nat, b: nat) -> nat {
    (a + b) % modulus()
}

/// Multiplication of residues.
pub open spec fn field_mul(a: nat, b: nat) -> nat {
    (a * b) % modulus()
}

/// The integer spelled by a little-endian byte string.
pub open spec fn le_value(bytes: Seq<u8>) -> nat
    decreases bytes.len(),
{
    if bytes.len() == 0 {
        0
    } else {
        (bytes[0] as nat) + 256 * le_value(bytes.drop_first())
    }
}

/// The `n` low bytes of `v`, least significant first.
pub open spec fn le_bytes(v: nat, n: nat) -> Seq<u8>
    decreases n,
{
    if n == 0 {
        Seq::empty()
    } else {
        seq![(v % 256) as u8] + le_bytes(v / 256, (n - 1) as nat)
    }
}

/// The `n` low bits of `v`, least significant first.
pub open spec fn bits_le(v: nat, n: nat) -> Seq<bool>
    decreases n,
{
    if n == 0 {
        Seq::empty()
    } else {
        seq![v % 2 == 1] + bits_le(v / 2, (n - 1) as nat)
    }
}

/// The integer spelled by a little-endian bit string.
pub open spec fn bits_value(bits: Seq<bool>) -> nat
    decreases bits.len(),
{
    if bits.len() == 0 {
        0
    } else {
        (if bits[0] { 1nat } else { 0nat }) + 2 * bits_value(bits.drop_first())
    }
}

/// The value that the first 32 bytes of `bytes` spell, least significant
/// first, where there are 32 bytes and the value stays below the modulus.
pub open spec fn field_decoding(bytes: Seq<u8>) -> Option<nat> {
    if bytes.len() >= FIELD_BYTES && le_value(bytes.take(FIELD_BYTES as int)) < modulus() {
        Some(le_value(bytes.take(FIELD_BYTES as int)))
    } else {
        None
    }
}

/// The value of the element, where there is one.
pub open spec fn value_of(element: Option<Field>) -> Option<nat> {
    match element {
        Some(e) => Some(e@),
        None => None,
    }
}

/// Why bytes are no field element.
#[derive(Clone, Copy, Debug, PartialEq, Eq, Structural)]
pub enum FieldError {
    /// Fewer than 32 bytes were given.
    NotEnoughBytes,
    /// The bytes spell a number that is not below the modulus.
    InvalidFieldElement,
}

/// An element of the scalar field.
#[derive(Clone, Copy, Debug, PartialEq, Eq, Structural, Hash)]
pub struct Field {
    l0: u64,
    l1: u64,
    l2: u64,
    l3: u64,
}

impl View for Field {
    type V = nat;

    closed spec fn view(&self) -> nat {
        limbs_value(self.l0, self.l1, self.l2, self.l3)
    }
}

impl Field {
    /// Whether the value lies below the modulus. Every `Field` that executable
    /// code holds does.
    #[verifier::type_invariant]
    pub open spec fn is_canonical(self) -> bool {
        self@ < modulus()
    }

    /// The element with the value `v`, for `v` below two to the 256.
    pub closed spec fn with_value(v: nat) -> Field {
        Field {
            l0: (v as int % 18446744073709551616int) as u64,
            l1: ((v as int / 18446744073709551616int) % 18446744073709551616int) as u64,
            l2: ((v as int / 340282366920938463463374607431768211456int) % 18446744073709551616int) as u64,
            l3: ((v as int / 6277101735386680763835789423207666416102355444464034512896int)
                % 18446744073709551616int) as u64,
        }
    }

    /// [`Self::with_value`] has the value it is named after.
    pub proof fn lemma_with_value(v: nat)
        requires
            v < 115792089237316195423570985008687907853269984665640564039457584007913129639936int,
        ensures
            Field::with_value(v)@ == v,
    {
        let w: int = 18446744073709551616int;
        let q1 = v as int / w;
        let q2 = q1 / w;
        let q3 = q2 / w;
        assert(v == (v as int % w) + w * q1);
        assert(q1 == (q1 % w) + w * q2);
        assert(q2 == (q2 % w) + w * q3);
        assert(q2 == v as int / 340282366920938463463374607431768211456int);
        assert(q3 == v as int / 6277101735386680763835789423207666416102355444464034512896int);
        assert(0 <= q3 < w);
    }

    /// The additive identity.
    pub fn zero() -> (r: Field)
        ensures
            r@ == 0,
            r.is_canonical(),
    {
        Field { l0: 0, l1: 0, l2: 0, l3: 0 }
    }

    /// The multiplicative identity.
    pub fn one() -> (r: Field)
        ensures
            r@ == 1,
            r.is_canonical(),
    {
        Field { l0: 1, l1: 0, l2: 0, l3: 0 }
    }

    /// The element that a 64-bit integer names.
    pub fn from_u64(value: u64) -> (r: Field)
        ensures
            r@ == value,
            r.is_canonical(),
    {
        Field { l0: value, l1: 0, l2: 0, l3: 0 }
    }

    /// The element that a 128-bit integer names.
    pub fn from_u128(value: u128) -> (r: Field)
        ensures
            r@ == value,
            r.is_canonical(),
    {
        let low: u64 = (value & 0xffff_ffff_ffff_ffff) as u64;
        let high: u64 = (value >> 64) as u64;
        assert(value == (value & 0xffff_ffff_ffff_ffff) + (value >> 64) * 0x1_0000_0000_0000_0000)
            by (bit_vector);
        assert((value & 0xffff_ffff_ffff_ffff) <= 0xffff_ffff_ffff_ffff) by (bit_vector);
        assert((value >> 64) <= 0xffff_ffff_ffff_ffff) by (bit_vector);
        Field { l0: low, l1: high, l2: 0, l3: 0 }
    }

    /// The element spelled by four little-endian limbs, if they stay below the
    /// modulus.
    pub fn from_limbs(l0: u64, l1: u64, l2: u64, l3: u64) -> (r: Option<Field>)
        ensures
            r is Some <==> limbs_value(l0, l1, l2, l3) < modulus(),
            r is Some ==> r.unwrap()@ == limbs_value(l0, l1, l2, l3) && r.unwrap().is_canonical(),
    {
        let below = l3 < 1345280370688173398 || (l3 == 1345280370688173398 && (l2
            < 6968279316240510977 || (l2 == 6968279316240510977 && (l1 < 6461107452199829505 || (l1
            == 6461107452199829505 && l0 < 725501752471715841)))));
        if below {
            Some(Field { l0, l1, l2, l3 })
        } else {
            None
        }
    }

    /// The element spelled by four little-endian limbs that stay below the
    /// modulus.
    pub(crate) fn from_canonical_limbs(limbs: [u64; 4]) -> (r: Field)
        requires
            limbs_value(limbs[0], limbs[1], limbs[2], limbs[3]) < modulus(),
        ensures
            r@ == limbs_value(limbs[0], limbs[1], limbs[2], limbs[3]),
    {
        Field { l0: limbs[0], l1: limbs[1], l2: limbs[2], l3: limbs[3] }
    }

    /// The four little-endian limbs of the value.
    pub fn to_limbs(&self) -> (r: [u64; 4])
        ensures
            limbs_value(r[0], r[1], r[2], r[3]) == self@,
    {
        [self.l0, self.l1, self.l2, self.l3]
    }

    /// Whether the element is the additive identity.
    pub fn is_zero(&self) -> (r: bool)
        ensures
            r == (self@ == 0),
    {
        self.l0 == 0 && self.l1 == 0 && self.l2 == 0 && self.l3 == 0
    }

    /// Whether the element is the multiplicative identity.
    pub fn is_one(&self) -> (r: bool)
        ensures
            r == (self@ == 1),
    {
        self.l0 == 1 && self.l1 == 0 && self.l2 == 0 && self.l3 == 0
    }

    /// The sum of two elements.
    pub fn add(&self, other: &Field) -> (r: Field)
        ensures
            r@ == field_add(self@, other@),
            r.is_canonical(),
    {
        let r = fr_add(self, other);
        proof {
            use_type_invariant(&r);
        }
        r
    }

    /// The product of two elements.
    pub fn mul(&self, other: &Field) -> (r: Field)
        ensures
            r@ == field_mul(self@, other@),
            r.is_canonical(),
    {
        let r = fr_mul(self, other);
        proof {
            use_type_invariant(&r);
        }
        r
    }

    /// The 253 bits of the value, least significant first.
    pub fn to_bits_le(&self) -> (r: Vec<bool>)
        ensures
            r@ == bits_le(self@, MODULUS_BITS as nat),
    {
        let mut bits: Vec<bool> = Vec::new();
        let (mut l0, mut l1, mut l2, mut l3) = (self.l0, self.l1, self.l2, self.l3);
        let mut i: usize = 0;
        assert(bits@ + bits_le(self@, 253) =~= bits_le(self@, 253));
        while i < MODULUS_BITS
            invariant
                i <= MODULUS_BITS,
                bits@.len() == i,
                bits@ + bits_le(limbs_value(l0, l1, l2, l3), (253 - i) as nat) == bits_le(self@, 253),
            decreases MODULUS_BITS - i,
        {
            let ghost before = limbs_value(l0, l1, l2, l3);
            let ghost rest = bits_le(before / 2, (252 - i) as nat);
            let bit = l0 & 1 == 1;
            let (n0, n1, n2, n3) = (
                (l0 >> 1) | (l1 << 63),
                (l1 >> 1) | (l2 << 63),
                (l2 >> 1) | (l3 << 63),
                l3 >> 1,
            );
            proof {
                lemma_halve(l0, l1);
                lemma_halve(l1, l2);
                lemma_halve(l2, l3);
                lemma_halve(l3, 0);
                assert(limbs_value(n0, n1, n2, n3) == before / 2);
                assert(bit == (before % 2 == 1));
                assert(bits@.push(bit) + rest =~= bits@ + (seq![bit] + rest));
            }
            bits.push(bit);
            l0 = n0;
            l1 = n1;
            l2 = n2;
            l3 = n3;
            i += 1;
        }
        assert(bits@ + Seq::<bool>::empty() =~= bits@);
        bits
    }

    /// The 253 bits of the value, most significant first.
    pub fn to_bits_be(&self) -> (r: Vec<bool>)
        ensures
            r@ == bits_le(self@, MODULUS_BITS as nat).reverse(),
    {
        let le = self.to_bits_le();
        let mut be: Vec<bool> = Vec::new();
        let mut i: usize = le.len();
        while i > 0
            invariant
                i <= le@.len(),
                be@.len() == le@.len() - i,
                forall|j: int| 0 <= j < be@.len() ==> be@[j] == le@[le@.len() - 1 - j],
            decreases i,
        {
            i -= 1;
            be.push(le[i]);
        }
        assert(be@ =~= le@.reverse());
        be
    }

    /// The 32 bytes of the value, least significant first.
    pub fn to_bytes_le(&self) -> (r: Vec<u8>)
        ensures
            r@ == le_bytes(self@, FIELD_BYTES as nat),
    {
        fr_write_le(self)
    }

    /// The element whose value the first 32 bytes of `bytes` spell, least
    /// significant first. There is none where fewer bytes are given or the
    /// value does not stay below the modulus.
    pub fn from_bytes_le(bytes: &[u8]) -> (r: Option<Field>)
        ensures
            value_of(r) == field_decoding(bytes@),
    {
        fr_read_le(bytes)
    }

    /// Appends the 32 bytes of the value, least significant first, to
    /// `writer`.
    pub fn write_le(&self, writer: &mut Vec<u8>)
        ensures
            final(writer)@ == old(writer)@ + le_bytes(self@, FIELD_BYTES as nat),
    {
        let bytes = self.to_bytes_le();
        writer.extend_from_slice(bytes.as_slice());
    }

    /// Reads the field from the first 32 bytes of a buffer.
    pub fn read_le(bytes: &[u8]) -> (r: Result<Field, FieldError>)
        ensures
            match field_decoding(bytes@) {
                Some(value) => r is Ok && r.unwrap()@ == value,
                None => r == Err::<Field, FieldError>(
                    if bytes@.len() < FIELD_BYTES {
                        FieldError::NotEnoughBytes
                    } else {
                        FieldError::InvalidFieldElement
                    },
                ),
            },
    {
        match Field::from_bytes_le(bytes) {
            Some(element) => Ok(element),
            None => if bytes.len() < FIELD_BYTES {
                Err(FieldError::NotEnoughBytes)
            } else {
                Err(FieldError::InvalidFieldElement)
            },
        }
    }

    /// Two elements with the same value are the same element.
    pub proof fn lemma_view_injective(self, other: Field)
        requires
            self@ == other@,
        ensures
            self == other,
    {
        let w: int = 18446744073709551616;
        let a2: int = self.l2 + w * self.l3;
        let b2: int = other.l2 + w * other.l3;
        let a1: int = self.l1 + w * a2;
        let b1: int = other.l1 + w * b2;
        assert(self@ == self.l0 + w * a1);
        assert(other@ == other.l0 + w * b1);
        assert(a1 == b1 && self.l0 == other.l0);
        assert(a2 == b2 && self.l1 == other.l1);
        assert(self.l2 == other.l2 && self.l3 == other.l3);
    }
}

/// How one limb of a 256-bit integer changes when the integer is halved:
/// it moves down by one bit and takes the lowest bit of the limb above.
proof fn lemma_halve(low: u64, high: u64)
    ensures
        ((low >> 1) | (high << 63)) == (low / 2) + (high % 2) * 0x8000_0000_0000_0000,
        (low & 1 == 1) == (low % 2 == 1),
        low >> 1 == low / 2,
{
    assert(((low >> 1) | (high << 63)) == (low / 2) + (high % 2) * 0x8000_0000_0000_0000)
        by (bit_vector);
    assert((low & 1 == 1) == (low % 2 == 1)) by (bit_vector);
    assert(low >> 1 == low / 2) by (bit_vector);
}

/// `Fr`'s `ToBytes::write_le` into an empty vector: the 32 bytes of the
/// canonical representative, least significant first.
#[verifier::external_body]
fn fr_write_le(a: &Field) -> (r: Vec<u8>)
    ensures
        r@ == le_bytes(a@, FIELD_BYTES as nat),
{
    let mut bytes = Vec::new();
    Fr::from_bigint(BigInteger256(a.to_limbs())).unwrap().write_le(&mut bytes).unwrap();
    bytes
}

/// `Fr`'s `FromBytes::read_le` on a byte slice: it takes 32 bytes, reads them
/// as a little-endian integer and refuses one that is not below the modulus.
#[verifier::external_body]
fn fr_read_le(bytes: &[u8]) -> (r: Option<Field>)
    ensures
        value_of(r) == field_decoding(bytes@),
{
    Fr::read_le(bytes).ok().map(|x| Field::from_canonical_limbs(x.to_bigint().0))
}

/// `Fr`'s `CanonicalSerialize::serialize_with_mode` into an empty vector: in
/// either mode, the 32 bytes of the canonical representative, least
/// significant first.
#[verifier::external_body]
pub(crate) fn fr_serialize(a: &Field, compress: bool) -> (r: Vec<u8>)
    ensures
        r@ == le_bytes(a@, FIELD_BYTES as nat),
{
    let mode = if compress { Compress::Yes } else { Compress::No };
    let mut bytes = Vec::new();
    Fr::from_bigint(BigInteger256(a.to_limbs())).unwrap().serialize_with_mode(&mut bytes, mode).unwrap();
    bytes
}

/// `Fr`'s `CanonicalDeserialize::deserialize_with_mode` on a slice of 32
/// bytes: in every mode, the element whose value the bytes spell, least
/// significant first, unless that value is not below the modulus.
#[verifier::external_body]
pub(crate) fn fr_deserialize(bytes: &[u8], compress: bool, validate: bool) -> (r: Option<Field>)
    requires
        bytes@.len() == FIELD_BYTES,
    ensures
        value_of(r) == field_decoding(bytes@),
{
    let mode = if compress { Compress::Yes } else { Compress::No };
    let check = if validate { Validate::Yes } else { Validate::No };
    let element = Fr::deserialize_with_mode(bytes, mode, check).ok();
    element.map(|x| Field::from_canonical_limbs(x.to_bigint().0))
}

/// `Fr`'s `Add`: the sum in the field, read off the canonical representatives
/// that `from_bigint` takes and `to_bigint` returns.
#[verifier::external_body]
fn fr_add(a: &Field, b: &Field) -> (r: Field)
    ensures
        r@ == field_add(a@, b@),
{
    let x = Fr::from_bigint(BigInteger256(a.to_limbs())).unwrap();
    let y = Fr::from_bigint(BigInteger256(b.to_limbs())).unwrap();
    Field::from_canonical_limbs((x + y).to_bigint().0)
}

/// `Fr`'s `Mul`: the product in the field, read off the canonical
/// representatives that `from_bigint` takes and `to_bigint` returns.
#[verifier::external_body]
fn fr_mul(a: &Field, b: &Field) -> (r: Field)
    ensures
        r@ == field_mul(a@, b@),
{
    let x = Fr::from_bigint(BigInteger256(a.to_limbs())).unwrap();
    let y = Fr::from_bigint(BigInteger256(b.to_limbs())).unwrap();
    Field::from_canonical_limbs((x * y).to_bigint().0)
}

} // verus!
