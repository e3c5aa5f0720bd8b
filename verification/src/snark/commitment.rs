//! Commitments: points of the first source group of BLS12-377 in affine
//! coordinates.
//!
//! The library stores the coordinates and frames their bytes. What the bytes
//! of a point are is stated here in full; which bytes decode to which point,
//! and which points belong to the group, only `snarkvm_curves` can tell, and
//! the three private functions at the end of this file ask it.

use crate::field::le_bytes;
use crate::snark::base_field::{base_modulus, BaseField, BASE_FIELD_BYTES};
use crate::snark::codec::{lemma_le_bytes_len, Canonical, Compress, Reader, Validate};
use crate::snark::errors::SerializationError;
use snarkvm_curves::bls12_377::{Fq, G1Affine};
use snarkvm_fields::PrimeField;
use snarkvm_utilities::serialize::{CanonicalDeserialize, CanonicalSerialize, Valid};
use snarkvm_utilities::BigInteger384;
use vstd::prelude::*;

verus! {

/// `bytes` with the bits of `mask` set in the last byte.
pub open spec fn with_flag(bytes: Seq<u8>, mask: u8) -> Seq<u8>
    recommends
        bytes.len() > 0,
{
    bytes.update(bytes.len() - 1, bytes.last() | mask)
}

/// The number of bytes in the encoding of a point.
pub open spec fn commitment_size(compress: bool) -> nat {
    if compress {
        48
    } else {
        96
    }
}

/// The bytes that stand for the point `(x, y)`, or for the point at
/// infinity where `infinity` is set.
///
/// The short form is the x-coordinate in 48 little-endian bytes, with the
/// top bit of the last byte set where `y` is the larger of `y` and `-y`; the
/// point at infinity is the x-coordinate zero with the second bit from the
/// top set. The long form is both coordinates in 48 bytes each, with the
/// second bit from the top of the last byte set for the point at infinity.
pub open spec fn commitment_encoding(x: nat, y: nat, infinity: bool, compress: bool) -> Seq<u8> {
    if compress {
        if infinity {
            with_flag(le_bytes(0, 48), 0x40)
        } else {
            with_flag(le_bytes(x, 48), if 2 * y > base_modulus() { 0x80u8 } else { 0u8 })
        }
    } else {
        le_bytes(x, 48) + with_flag(le_bytes(y, 48), if infinity { 0x40u8 } else { 0u8 })
    }
}

/// The point that `bytes` stand for in the given mode, as `(x, y, infinity)`,
/// if they stand for one and, where `validate` is set, the point belongs to
/// the group.
pub uninterp spec fn commitment_decoding(bytes: Seq<u8>, compress: bool, validate: bool) -> Option<
    (nat, nat, bool),
>;

/// Whether the point lies on the curve and in the subgroup of prime order.
pub uninterp spec fn commitment_valid(x: nat, y: nat, infinity: bool) -> bool;

/// A commitment to a polynomial.
#[derive(Clone, Copy, Debug, PartialEq, Eq, Structural, Hash)]
pub struct Commitment {
    /// The x-coordinate.
    pub x: BaseField,
    /// The y-coordinate.
    pub y: BaseField,
    /// Whether this is the point at infinity.
    pub infinity: bool,
}

impl Commitment {
    /// The coordinates and the flag, as plain values.
    pub open spec fn point(self) -> (nat, nat, bool) {
        (self.x@, self.y@, self.infinity)
    }

    /// The commitment with the coordinates and the flag of `point`.
    pub open spec fn at(point: (nat, nat, bool)) -> Commitment {
        Commitment {
            x: BaseField::with_value(point.0),
            y: BaseField::with_value(point.1),
            infinity: point.2,
        }
    }

    /// The point at infinity in the form in which it is decoded: `(0, 1)`
    /// with the flag set.
    pub fn zero() -> (r: Commitment)
        ensures
            r.point() == (0nat, 1nat, true),
    {
        Commitment { x: BaseField::zero(), y: BaseField::one(), infinity: true }
    }

    /// Whether the point lies on the curve and in the subgroup of prime
    /// order.
    pub open spec fn valid(self) -> bool {
        commitment_valid(self.x@, self.y@, self.infinity)
    }

    /// Returns [`Self::valid`].
    pub fn is_valid(&self) -> (r: bool)
        ensures
            r == self.valid(),
    {
        g1_check(self)
    }

    /// The number of bytes of an encoded point.
    pub fn size(compress: Compress) -> (r: usize)
        ensures
            r == commitment_size(compress.on()),
    {
        match compress {
            Compress::Yes => BASE_FIELD_BYTES,
            Compress::No => 2 * BASE_FIELD_BYTES,
        }
    }

    /// Whether the commitment is the one that its own encoding decodes to:
    /// encodes it, decodes the bytes and compares.
    pub fn is_canonical(&self, compress: Compress, validate: Validate) -> (r: bool)
        ensures
            r == self.canonical(compress.on(), validate.on()),
    {
        let (x, y) = (self.x, self.y);
        proof {
            use_type_invariant(&x);
            use_type_invariant(&y);
            self.lemma_encoding_len(compress.on());
            lemma_at_point(*self);
        }
        let bytes = g1_serialize(self, compress.is_on());
        match g1_deserialize(bytes.as_slice(), compress.is_on(), validate.is_on()) {
            Some(back) => {
                let (back_x, back_y) = (back.x, back.y);
                proof {
                    use_type_invariant(&back_x);
                    use_type_invariant(&back_y);
                    lemma_at_point(back);
                }
                back == *self
            },
            None => false,
        }
    }

    /// The encoding of a point has the size of its mode.
    pub proof fn lemma_encoding_len(self, compress: bool)
        ensures
            self.encoding(compress).len() == commitment_size(compress),
    {
        lemma_le_bytes_len(0, 48);
        lemma_le_bytes_len(self.x@, 48);
        lemma_le_bytes_len(self.y@, 48);
    }
}

/// The point of a commitment, where there is one.
pub open spec fn point_of(commitment: Option<Commitment>) -> Option<(nat, nat, bool)> {
    match commitment {
        Some(c) => Some(c.point()),
        None => None,
    }
}

impl Canonical for Commitment {
    open spec fn encoding(&self, compress: bool) -> Seq<u8> {
        commitment_encoding(self.x@, self.y@, self.infinity, compress)
    }

    /// The point that the first 48 or 96 bytes stand for.
    open spec fn decoding(bytes: Seq<u8>, compress: bool, validate: bool) -> Result<
        (Self, nat),
        SerializationError,
    > {
        let size = commitment_size(compress);
        if bytes.len() < size {
            Err(SerializationError::NotEnoughBytes)
        } else {
            match commitment_decoding(bytes.take(size as int), compress, validate) {
                Some(point) => Ok((Commitment::at(point), size)),
                None => Err(SerializationError::InvalidData),
            }
        }
    }

    /// The coordinates are below the modulus, and the encoding of the point
    /// stands for the point.
    open spec fn canonical(&self, compress: bool, validate: bool) -> bool {
        &&& self.x.is_canonical()
        &&& self.y.is_canonical()
        &&& commitment_decoding(self.encoding(compress), compress, validate) == Some(self.point())
    }

    open spec fn member(&self) -> bool {
        self.valid()
    }

    proof fn lemma_decoding_bound(bytes: Seq<u8>, compress: bool, validate: bool) {
    }

    proof fn lemma_round_trip(&self, compress: bool, validate: bool, rest: Seq<u8>) {
        let own = self.encoding(compress);
        self.lemma_encoding_len(compress);
        assert((own + rest).take(commitment_size(compress) as int) =~= own);
        lemma_at_point(*self);
    }

    fn serialize_with_mode(&self, writer: &mut Vec<u8>, compress: Compress) -> (r: Result<
        (),
        SerializationError,
    >) {
        let bytes = g1_serialize(self, compress.is_on());
        writer.extend_from_slice(bytes.as_slice());
        Ok(())
    }

    fn reads_back(&self, compress: Compress, validate: Validate) -> (r: bool) {
        self.is_canonical(compress, validate)
    }

    fn deserialize_with_mode(reader: &mut Reader, compress: Compress, validate: Validate) -> (r:
        Result<Self, SerializationError>) {
        match reader.take(Commitment::size(compress)) {
            Some(chunk) => match g1_deserialize(chunk, compress.is_on(), validate.is_on()) {
                Some(commitment) => {
                    let (x, y) = (commitment.x, commitment.y);
                    proof {
                        use_type_invariant(&x);
                        use_type_invariant(&y);
                        lemma_at_point(commitment);
                    }
                    Ok(commitment)
                },
                None => Err(SerializationError::InvalidData),
            },
            None => Err(SerializationError::NotEnoughBytes),
        }
    }
}

/// A commitment with coordinates below the modulus is the commitment at its
/// own point.
pub proof fn lemma_at_point(commitment: Commitment)
    requires
        commitment.x.is_canonical(),
        commitment.y.is_canonical(),
    ensures
        Commitment::at(commitment.point()) == commitment,
{
    BaseField::lemma_with_value(commitment.x@);
    BaseField::lemma_with_value(commitment.y@);
    BaseField::with_value(commitment.x@).lemma_view_injective(commitment.x);
    BaseField::with_value(commitment.y@).lemma_view_injective(commitment.y);
}

/// `G1Affine`'s `CanonicalSerialize::serialize_with_mode` into an empty
/// vector, on the point with the given coordinates and flag: the bytes that
/// [`commitment_encoding`] spells out.
#[verifier::external_body]
fn g1_serialize(commitment: &Commitment, compress: bool) -> (r: Vec<u8>)
    ensures
        r@ == commitment_encoding(commitment.x@, commitment.y@, commitment.infinity, compress),
{
    let mode = if compress { snarkvm_utilities::Compress::Yes } else { snarkvm_utilities::Compress::No };
    let x = Fq::from_bigint(BigInteger384(commitment.x.to_limbs())).unwrap();
    let y = Fq::from_bigint(BigInteger384(commitment.y.to_limbs())).unwrap();
    let mut bytes = Vec::new();
    G1Affine::new(x, y, commitment.infinity).serialize_with_mode(&mut bytes, mode).unwrap();
    bytes
}

/// `G1Affine`'s `CanonicalDeserialize::deserialize_with_mode` on a slice of
/// the size of the mode: the point that the bytes stand for, by its
/// coordinates and flag. With validation on, it hands out a point only after
/// the point has passed `Valid::check`.
#[verifier::external_body]
fn g1_deserialize(bytes: &[u8], compress: bool, validate: bool) -> (r: Option<Commitment>)
    requires
        bytes@.len() == commitment_size(compress),
    ensures
        point_of(r) == commitment_decoding(bytes@, compress, validate),
        validate && r is Some ==> r.unwrap().valid(),
{
    let mode = if compress { snarkvm_utilities::Compress::Yes } else { snarkvm_utilities::Compress::No };
    let check = if validate { snarkvm_utilities::Validate::Yes } else { snarkvm_utilities::Validate::No };
    G1Affine::deserialize_with_mode(bytes, mode, check).ok().map(|p| Commitment {
        x: BaseField::from_canonical_limbs(p.x.to_bigint().0),
        y: BaseField::from_canonical_limbs(p.y.to_bigint().0),
        infinity: p.infinity,
    })
}

/// `G1Affine`'s `Valid::check` on the point with the given coordinates and
/// flag: whether it lies on the curve and in the subgroup of prime order.
#[verifier::external_body]
fn g1_check(commitment: &Commitment) -> (r: bool)
    ensures
        r == commitment_valid(commitment.x@, commitment.y@, commitment.infinity),
{
    let x = Fq::from_bigint(BigInteger384(commitment.x.to_limbs())).unwrap();
    let y = Fq::from_bigint(BigInteger384(commitment.y.to_limbs())).unwrap();
    G1Affine::new(x, y, commitment.infinity).check().is_ok()
}

} // verus!
