//! A proof: the commitments of the six prover rounds, the claimed
//! evaluations, the final prover message and the batched opening proof.
//!
//! On the wire a proof is its batch size, then the commitments, the
//! evaluations, the message and the opening proof. The vectors that hold one
//! entry per instance are written without their length: the batch size at
//! the front says how many entries each of them has.

use crate::field::{le_value, Field};
use crate::snark::codec::{
    all_canonical, all_members, all_read_back, decode_all, deserialize_all, encode_all, lemma_decode_all_bound,
    lemma_round_trip_all, serialize_all, Canonical, Compress, Reader, Validate,
};
use crate::snark::codec::{
    decode_counted, deserialize_counted, encode_counted, lemma_decode_counted_bound,
    byte_range, lemma_le_bytes_len, lemma_le_bytes_of_value, lemma_round_trip_counted,
    serialize_counted,
};
use crate::snark::commitment::{commitment_size, Commitment};
use crate::snark::errors::{SNARKError, SerializationError};
use vstd::prelude::*;

verus! {

/// Commitments to the `w`, `z_a`, `z_b` and `z_c` polynomials of one
/// instance.
#[derive(Clone, Copy, Debug, PartialEq, Eq, Structural)]
pub struct WitnessCommitments {
    /// Commitment to the `w` polynomial.
    pub w: Commitment,
    /// Commitment to the `z_a` polynomial.
    pub z_a: Commitment,
    /// Commitment to the `z_b` polynomial.
    pub z_b: Commitment,
    /// Commitment to the `z_c` polynomial.
    pub z_c: Commitment,
}

/// Commitments to the `f`, `s_1`, `s_2`, `z_2`, `delta_s_1_omega` and
/// `z_2_omega` polynomials of one instance.
#[derive(Clone, Copy, Debug, PartialEq, Eq, Structural)]
pub struct LookupCommitments {
    /// Commitment to the `f` polynomial.
    pub f: Commitment,
    /// Commitment to the `s_1` polynomial.
    pub s_1: Commitment,
    /// Commitment to the `s_2` polynomial.
    pub s_2: Commitment,
    /// Commitment to the `z_2` polynomial.
    pub z_2: Commitment,
    /// Commitment to the `delta_s_1_omega` polynomial.
    pub delta_s_1_omega: Commitment,
    /// Commitment to the `z_2_omega` polynomial.
    pub z_2_omega: Commitment,
}

/// The message of the fifth prover round: the claimed sums.
#[derive(Clone, Copy, Debug, PartialEq, Eq, Structural)]
pub struct FifthMessage {
    /// The claimed sum for the matrix `A`.
    pub sum_a: Field,
    /// The claimed sum for the matrix `B`.
    pub sum_b: Field,
    /// The claimed sum for the matrix `C`.
    pub sum_c: Field,
}

/// The opening of one polynomial at one point.
#[derive(Clone, Copy, Debug, PartialEq, Eq, Structural)]
pub struct KZGProof {
    /// The commitment to the witness polynomial.
    pub w: Commitment,
    /// The evaluation of the random hiding polynomial, where there is one.
    pub random_v: Option<Field>,
}

impl WitnessCommitments {
    /// The four commitments in their order on the wire.
    pub open spec fn parts(self) -> Seq<Commitment> {
        seq![self.w, self.z_a, self.z_b, self.z_c]
    }

    /// The commitments of which `parts` are the four.
    pub open spec fn from_parts(parts: Seq<Commitment>) -> WitnessCommitments {
        WitnessCommitments { w: parts[0], z_a: parts[1], z_b: parts[2], z_c: parts[3] }
    }

    fn to_parts(&self) -> (r: Vec<Commitment>)
        ensures
            r@ == self.parts(),
    {
        let mut parts = Vec::new();
        parts.push(self.w);
        parts.push(self.z_a);
        parts.push(self.z_b);
        parts.push(self.z_c);
        assert(parts@ =~= self.parts());
        parts
    }
}

impl Canonical for WitnessCommitments {
    open spec fn encoding(&self, compress: bool) -> Seq<u8> {
        encode_all(self.parts(), compress)
    }

    open spec fn decoding(bytes: Seq<u8>, compress: bool, validate: bool) -> Result<
        (Self, nat),
        SerializationError,
    > {
        match decode_all::<Commitment>(bytes, 4, compress, validate) {
            Ok((parts, used)) => Ok((WitnessCommitments::from_parts(parts), used)),
            Err(e) => Err(e),
        }
    }

    open spec fn canonical(&self, compress: bool, validate: bool) -> bool {
        all_canonical(self.parts(), compress, validate)
    }

    open spec fn member(&self) -> bool {
        all_members(self.parts())
    }

    proof fn lemma_decoding_bound(bytes: Seq<u8>, compress: bool, validate: bool) {
        lemma_decode_all_bound::<Commitment>(bytes, 4, compress, validate);
    }

    proof fn lemma_round_trip(&self, compress: bool, validate: bool, rest: Seq<u8>) {
        lemma_round_trip_all(self.parts(), compress, validate, rest);
    }

    fn serialize_with_mode(&self, writer: &mut Vec<u8>, compress: Compress) -> (r: Result<
        (),
        SerializationError,
    >) {
        serialize_all(&self.to_parts(), writer, compress);
        Ok(())
    }

    fn reads_back(&self, compress: Compress, validate: Validate) -> (r: bool) {
        all_read_back(&self.to_parts(), compress, validate)
    }

    fn deserialize_with_mode(reader: &mut Reader, compress: Compress, validate: Validate) -> (r:
        Result<Self, SerializationError>) {
        proof {
            lemma_decode_all_bound::<Commitment>(reader@, 4, compress.on(), validate.on());
        }
        match deserialize_all::<Commitment>(reader, 4, compress, validate) {
            Ok(parts) => Ok(
                WitnessCommitments { w: parts[0], z_a: parts[1], z_b: parts[2], z_c: parts[3] },
            ),
            Err(e) => Err(e),
        }
    }
}

impl LookupCommitments {
    /// The six commitments in their order on the wire.
    pub open spec fn parts(self) -> Seq<Commitment> {
        seq![self.f, self.s_1, self.s_2, self.z_2, self.delta_s_1_omega, self.z_2_omega]
    }

    /// The commitments of which `parts` are the six.
    pub open spec fn from_parts(parts: Seq<Commitment>) -> LookupCommitments {
        LookupCommitments {
            f: parts[0],
            s_1: parts[1],
            s_2: parts[2],
            z_2: parts[3],
            delta_s_1_omega: parts[4],
            z_2_omega: parts[5],
        }
    }

    fn to_parts(&self) -> (r: Vec<Commitment>)
        ensures
            r@ == self.parts(),
    {
        let mut parts = Vec::new();
        parts.push(self.f);
        parts.push(self.s_1);
        parts.push(self.s_2);
        parts.push(self.z_2);
        parts.push(self.delta_s_1_omega);
        parts.push(self.z_2_omega);
        assert(parts@ =~= self.parts());
        parts
    }
}

impl Canonical for LookupCommitments {
    open spec fn encoding(&self, compress: bool) -> Seq<u8> {
        encode_all(self.parts(), compress)
    }

    open spec fn decoding(bytes: Seq<u8>, compress: bool, validate: bool) -> Result<
        (Self, nat),
        SerializationError,
    > {
        match decode_all::<Commitment>(bytes, 6, compress, validate) {
            Ok((parts, used)) => Ok((LookupCommitments::from_parts(parts), used)),
            Err(e) => Err(e),
        }
    }

    open spec fn canonical(&self, compress: bool, validate: bool) -> bool {
        all_canonical(self.parts(), compress, validate)
    }

    open spec fn member(&self) -> bool {
        all_members(self.parts())
    }

    proof fn lemma_decoding_bound(bytes: Seq<u8>, compress: bool, validate: bool) {
        lemma_decode_all_bound::<Commitment>(bytes, 6, compress, validate);
    }

    proof fn lemma_round_trip(&self, compress: bool, validate: bool, rest: Seq<u8>) {
        lemma_round_trip_all(self.parts(), compress, validate, rest);
    }

    fn serialize_with_mode(&self, writer: &mut Vec<u8>, compress: Compress) -> (r: Result<
        (),
        SerializationError,
    >) {
        serialize_all(&self.to_parts(), writer, compress);
        Ok(())
    }

    fn reads_back(&self, compress: Compress, validate: Validate) -> (r: bool) {
        all_read_back(&self.to_parts(), compress, validate)
    }

    fn deserialize_with_mode(reader: &mut Reader, compress: Compress, validate: Validate) -> (r:
        Result<Self, SerializationError>) {
        proof {
            lemma_decode_all_bound::<Commitment>(reader@, 6, compress.on(), validate.on());
        }
        match deserialize_all::<Commitment>(reader, 6, compress, validate) {
            Ok(parts) => Ok(
                LookupCommitments {
                    f: parts[0],
                    s_1: parts[1],
                    s_2: parts[2],
                    z_2: parts[3],
                    delta_s_1_omega: parts[4],
                    z_2_omega: parts[5],
                },
            ),
            Err(e) => Err(e),
        }
    }
}

impl FifthMessage {
    /// The three sums in their order on the wire.
    pub open spec fn parts(self) -> Seq<Field> {
        seq![self.sum_a, self.sum_b, self.sum_c]
    }

    /// The message of which `parts` are the three sums.
    pub open spec fn from_parts(parts: Seq<Field>) -> FifthMessage {
        FifthMessage { sum_a: parts[0], sum_b: parts[1], sum_c: parts[2] }
    }

    fn to_parts(&self) -> (r: Vec<Field>)
        ensures
            r@ == self.parts(),
    {
        let mut parts = Vec::new();
        parts.push(self.sum_a);
        parts.push(self.sum_b);
        parts.push(self.sum_c);
        assert(parts@ =~= self.parts());
        parts
    }
}

impl Canonical for FifthMessage {
    open spec fn encoding(&self, compress: bool) -> Seq<u8> {
        encode_all(self.parts(), compress)
    }

    open spec fn decoding(bytes: Seq<u8>, compress: bool, validate: bool) -> Result<
        (Self, nat),
        SerializationError,
    > {
        match decode_all::<Field>(bytes, 3, compress, validate) {
            Ok((parts, used)) => Ok((FifthMessage::from_parts(parts), used)),
            Err(e) => Err(e),
        }
    }

    open spec fn canonical(&self, compress: bool, validate: bool) -> bool {
        all_canonical(self.parts(), compress, validate)
    }

    open spec fn member(&self) -> bool {
        true
    }

    proof fn lemma_decoding_bound(bytes: Seq<u8>, compress: bool, validate: bool) {
        lemma_decode_all_bound::<Field>(bytes, 3, compress, validate);
    }

    proof fn lemma_round_trip(&self, compress: bool, validate: bool, rest: Seq<u8>) {
        lemma_round_trip_all(self.parts(), compress, validate, rest);
    }

    fn serialize_with_mode(&self, writer: &mut Vec<u8>, compress: Compress) -> (r: Result<
        (),
        SerializationError,
    >) {
        serialize_all(&self.to_parts(), writer, compress);
        Ok(())
    }

    fn reads_back(&self, compress: Compress, validate: Validate) -> (r: bool) {
        all_read_back(&self.to_parts(), compress, validate)
    }

    fn deserialize_with_mode(reader: &mut Reader, compress: Compress, validate: Validate) -> (r:
        Result<Self, SerializationError>) {
        proof {
            lemma_decode_all_bound::<Field>(reader@, 3, compress.on(), validate.on());
        }
        match deserialize_all::<Field>(reader, 3, compress, validate) {
            Ok(parts) => Ok(FifthMessage { sum_a: parts[0], sum_b: parts[1], sum_c: parts[2] }),
            Err(e) => Err(e),
        }
    }
}

impl Canonical for KZGProof {
    /// The commitment, then the optional evaluation.
    open spec fn encoding(&self, compress: bool) -> Seq<u8> {
        self.w.encoding(compress) + self.random_v.encoding(compress)
    }

    open spec fn decoding(bytes: Seq<u8>, compress: bool, validate: bool) -> Result<
        (Self, nat),
        SerializationError,
    > {
        match Commitment::decoding(bytes, compress, validate) {
            Ok((w, used)) => match Option::<Field>::decoding(
                bytes.skip(used as int),
                compress,
                validate,
            ) {
                Ok((random_v, more)) => Ok((KZGProof { w, random_v }, used + more)),
                Err(e) => Err(e),
            },
            Err(e) => Err(e),
        }
    }

    open spec fn canonical(&self, compress: bool, validate: bool) -> bool {
        self.w.canonical(compress, validate) && self.random_v.canonical(compress, validate)
    }

    open spec fn member(&self) -> bool {
        self.w.valid()
    }

    proof fn lemma_decoding_bound(bytes: Seq<u8>, compress: bool, validate: bool) {
        Commitment::lemma_decoding_bound(bytes, compress, validate);
        if let Ok((w, used)) = Commitment::decoding(bytes, compress, validate) {
            Option::<Field>::lemma_decoding_bound(bytes.skip(used as int), compress, validate);
        }
    }

    proof fn lemma_round_trip(&self, compress: bool, validate: bool, rest: Seq<u8>) {
        let head = self.w.encoding(compress);
        let tail = self.random_v.encoding(compress);
        let bytes = self.encoding(compress) + rest;
        assert(bytes =~= head + (tail + rest));
        self.w.lemma_round_trip(compress, validate, tail + rest);
        assert(bytes.skip(head.len() as int) =~= tail + rest);
        self.random_v.lemma_round_trip(compress, validate, rest);
    }

    fn serialize_with_mode(&self, writer: &mut Vec<u8>, compress: Compress) -> (r: Result<
        (),
        SerializationError,
    >) {
        let ghost start = writer@;
        let _ = self.w.serialize_with_mode(writer, compress);
        let _ = self.random_v.serialize_with_mode(writer, compress);
        assert(writer@ =~= start + self.encoding(compress.on()));
        Ok(())
    }

    fn reads_back(&self, compress: Compress, validate: Validate) -> (r: bool) {
        self.w.reads_back(compress, validate) && self.random_v.reads_back(compress, validate)
    }

    fn deserialize_with_mode(reader: &mut Reader, compress: Compress, validate: Validate) -> (r:
        Result<Self, SerializationError>) {
        let ghost bytes = reader@;
        proof {
            Commitment::lemma_decoding_bound(bytes, compress.on(), validate.on());
        }
        match Commitment::deserialize_with_mode(reader, compress, validate) {
            Ok(w) => {
                let ghost used = Commitment::decoding(bytes, compress.on(), validate.on()).unwrap().1;
                proof {
                    Option::<Field>::lemma_decoding_bound(
                        bytes.skip(used as int),
                        compress.on(),
                        validate.on(),
                    );
                }
                match Option::<Field>::deserialize_with_mode(reader, compress, validate) {
                    Ok(random_v) => {
                        proof {
                            let more = Option::<Field>::decoding(
                                bytes.skip(used as int),
                                compress.on(),
                                validate.on(),
                            ).unwrap().1;
                            assert(bytes.skip(used as int).skip(more as int) =~= bytes.skip(
                                (used + more) as int,
                            ));
                        }
                        Ok(KZGProof { w, random_v })
                    },
                    Err(e) => Err(e),
                }
            },
            Err(e) => Err(e),
        }
    }
}

impl WitnessCommitments {
    /// Whether all four commitments belong to the group.
    pub open spec fn valid(self) -> bool {
        self.member()
    }
}

impl LookupCommitments {
    /// Whether all six commitments belong to the group.
    pub open spec fn valid(self) -> bool {
        self.member()
    }
}

/// Whether every one of `commitments` belongs to the group.
pub fn all_valid(commitments: &Vec<Commitment>) -> (r: bool)
    ensures
        r == all_members(commitments@),
{
    let mut i: usize = 0;
    while i < commitments.len()
        invariant
            i <= commitments@.len(),
            forall|j: int| 0 <= j < i ==> (#[trigger] commitments@[j]).member(),
        decreases commitments@.len() - i,
    {
        if !commitments[i].is_valid() {
            assert(!commitments@[i as int].member());
            return false;
        }
        i += 1;
    }
    true
}

/// The encodings of commitments have the size of their mode, one after the
/// other.
pub proof fn lemma_commitments_len(items: Seq<Commitment>, compress: bool)
    ensures
        encode_all(items, compress).len() == items.len() * commitment_size(compress),
    decreases items.len(),
{
    if items.len() > 0 {
        lemma_commitments_len(items.drop_last(), compress);
        items.last().lemma_encoding_len(compress);
        let size = commitment_size(compress);
        assert((items.len() - 1) * size + size == items.len() * size) by (nonlinear_arith);
    }
}

/// The encodings of witness commitments are four points each.
pub proof fn lemma_witness_len(items: Seq<WitnessCommitments>, compress: bool)
    ensures
        encode_all(items, compress).len() == items.len() * 4 * commitment_size(compress),
    decreases items.len(),
{
    if items.len() > 0 {
        lemma_witness_len(items.drop_last(), compress);
        lemma_commitments_len(items.last().parts(), compress);
        let size = commitment_size(compress);
        assert((items.len() - 1) * 4 * size + 4 * size == items.len() * 4 * size)
            by (nonlinear_arith);
    }
}

/// The encodings of lookup commitments are six points each.
pub proof fn lemma_lookup_len(items: Seq<LookupCommitments>, compress: bool)
    ensures
        encode_all(items, compress).len() == items.len() * 6 * commitment_size(compress),
    decreases items.len(),
{
    if items.len() > 0 {
        lemma_lookup_len(items.drop_last(), compress);
        lemma_commitments_len(items.last().parts(), compress);
        let size = commitment_size(compress);
        assert((items.len() - 1) * 6 * size + 6 * size == items.len() * 6 * size)
            by (nonlinear_arith);
    }
}

/// The encodings of field elements are 32 bytes each.
pub proof fn lemma_fields_len(items: Seq<Field>, compress: bool)
    ensures
        encode_all(items, compress).len() == items.len() * 32,
    decreases items.len(),
{
    if items.len() > 0 {
        lemma_fields_len(items.drop_last(), compress);
        lemma_le_bytes_len(items.last()@, 32);
    }
}

/// The commitments of a proof.
#[derive(Clone, Debug, PartialEq, Eq)]
pub struct Commitments {
    /// The witness commitments, one entry per instance.
    pub witness_commitments: Vec<WitnessCommitments>,
    /// Commitment to the masking polynomial.
    pub mask_poly: Option<Commitment>,
    /// Commitments to the lookup polynomials, one entry per instance.
    pub lookup_commitments: Vec<LookupCommitments>,
    /// Commitment to the lookup table polynomial.
    pub table: Commitment,
    /// Commitment to the shifted lookup table polynomial, multiplied by
    /// delta.
    pub delta_table_omega: Commitment,
    /// Commitment to the `g_1` polynomial.
    pub g_1: Commitment,
    /// Commitment to the `h_1` polynomial.
    pub h_1: Commitment,
    /// Commitment to the `g_a` polynomial.
    pub g_a: Commitment,
    /// Commitment to the `g_b` polynomial.
    pub g_b: Commitment,
    /// Commitment to the `g_c` polynomial.
    pub g_c: Commitment,
    /// Commitment to the `h_2` polynomial.
    pub h_2: Commitment,
}

/// What [`Commitments`] hold, as mathematics.
pub struct CommitmentsView {
    pub witness_commitments: Seq<WitnessCommitments>,
    pub mask_poly: Option<Commitment>,
    pub lookup_commitments: Seq<LookupCommitments>,
    pub table: Commitment,
    pub delta_table_omega: Commitment,
    pub g_1: Commitment,
    pub h_1: Commitment,
    pub g_a: Commitment,
    pub g_b: Commitment,
    pub g_c: Commitment,
    pub h_2: Commitment,
}

impl View for Commitments {
    type V = CommitmentsView;

    open spec fn view(&self) -> CommitmentsView {
        CommitmentsView {
            witness_commitments: self.witness_commitments@,
            mask_poly: self.mask_poly,
            lookup_commitments: self.lookup_commitments@,
            table: self.table,
            delta_table_omega: self.delta_table_omega,
            g_1: self.g_1,
            h_1: self.h_1,
            g_a: self.g_a,
            g_b: self.g_b,
            g_c: self.g_c,
            h_2: self.h_2,
        }
    }
}

impl CommitmentsView {
    /// The eight commitments of which a proof has one each, in their order
    /// on the wire.
    pub open spec fn singles(self) -> Seq<Commitment> {
        seq![
            self.table,
            self.delta_table_omega,
            self.g_1,
            self.h_1,
            self.g_a,
            self.g_b,
            self.g_c,
            self.h_2,
        ]
    }

    /// The commitments that consist of the given parts.
    pub open spec fn from_parts(
        witness_commitments: Seq<WitnessCommitments>,
        lookup_commitments: Seq<LookupCommitments>,
        mask_poly: Option<Commitment>,
        singles: Seq<Commitment>,
    ) -> CommitmentsView {
        CommitmentsView {
            witness_commitments,
            mask_poly,
            lookup_commitments,
            table: singles[0],
            delta_table_omega: singles[1],
            g_1: singles[2],
            h_1: singles[3],
            g_a: singles[4],
            g_b: singles[5],
            g_c: singles[6],
            h_2: singles[7],
        }
    }

    /// Whether the per-instance vectors have `batch_size` entries each.
    pub open spec fn sized(self, batch_size: nat) -> bool {
        self.witness_commitments.len() == batch_size && self.lookup_commitments.len()
            == batch_size
    }

    /// The witness commitments, the lookup commitments, the optional
    /// commitment to the masking polynomial, and the eight single
    /// commitments.
    #[verifier::opaque]
    pub open spec fn encoding(self, compress: bool) -> Seq<u8> {
        encode_all(self.witness_commitments, compress) + encode_all(
            self.lookup_commitments,
            compress,
        ) + self.mask_poly.encoding(compress) + encode_all(self.singles(), compress)
    }

    /// The commitments of a batch of `batch_size` instances at the front of
    /// `bytes`, and the number of bytes they take.
    #[verifier::opaque]
    pub open spec fn decoding(bytes: Seq<u8>, batch_size: nat, compress: bool, validate: bool) -> Result<
        (CommitmentsView, nat),
        SerializationError,
    > {
        match decode_all::<WitnessCommitments>(bytes, batch_size, compress, validate) {
            Ok((witness, n1)) => match decode_all::<LookupCommitments>(
                bytes.skip(n1 as int),
                batch_size,
                compress,
                validate,
            ) {
                Ok((lookup, n2)) => match Option::<Commitment>::decoding(
                    bytes.skip(n1 as int).skip(n2 as int),
                    compress,
                    validate,
                ) {
                    Ok((mask_poly, n3)) => match decode_all::<Commitment>(
                        bytes.skip(n1 as int).skip(n2 as int).skip(n3 as int),
                        8,
                        compress,
                        validate,
                    ) {
                        Ok((singles, n4)) => Ok(
                            (
                                CommitmentsView::from_parts(witness, lookup, mask_poly, singles),
                                n1 + n2 + n3 + n4,
                            ),
                        ),
                        Err(e) => Err(e),
                    },
                    Err(e) => Err(e),
                },
                Err(e) => Err(e),
            },
            Err(e) => Err(e),
        }
    }

    /// Whether every commitment is the one that its own encoding decodes to.
    #[verifier::opaque]
    pub open spec fn canonical(self, compress: bool, validate: bool) -> bool {
        &&& all_canonical(self.witness_commitments, compress, validate)
        &&& all_canonical(self.lookup_commitments, compress, validate)
        &&& self.mask_poly.canonical(compress, validate)
        &&& all_canonical(self.singles(), compress, validate)
    }

    /// Whether every commitment belongs to the group.
    pub open spec fn valid(self) -> bool {
        &&& forall|i: int|
            0 <= i < self.witness_commitments.len() ==> (
            #[trigger] self.witness_commitments[i]).valid()
        &&& forall|i: int|
            0 <= i < self.lookup_commitments.len() ==> (
            #[trigger] self.lookup_commitments[i]).valid()
        &&& self.mask_poly.member()
        &&& all_members(self.singles())
    }

    /// Decoding takes no more bytes than there are, and what it yields has
    /// `batch_size` entries in each per-instance vector.
    pub proof fn lemma_decoding_bound(
        bytes: Seq<u8>,
        batch_size: nat,
        compress: bool,
        validate: bool,
    )
        ensures
            CommitmentsView::decoding(bytes, batch_size, compress, validate) is Ok ==> {
                &&& CommitmentsView::decoding(bytes, batch_size, compress, validate).unwrap().1
                    <= bytes.len()
                &&& CommitmentsView::decoding(
                    bytes,
                    batch_size,
                    compress,
                    validate,
                ).unwrap().0.sized(batch_size)
            },
    {
        reveal(CommitmentsView::decoding);
        lemma_decode_all_bound::<WitnessCommitments>(bytes, batch_size, compress, validate);
        if let Ok((witness, n1)) = decode_all::<WitnessCommitments>(
            bytes,
            batch_size,
            compress,
            validate,
        ) {
            let b1 = bytes.skip(n1 as int);
            lemma_decode_all_bound::<LookupCommitments>(b1, batch_size, compress, validate);
            if let Ok((lookup, n2)) = decode_all::<LookupCommitments>(
                b1,
                batch_size,
                compress,
                validate,
            ) {
                let b2 = b1.skip(n2 as int);
                Option::<Commitment>::lemma_decoding_bound(b2, compress, validate);
                if let Ok((mask_poly, n3)) = Option::<Commitment>::decoding(
                    b2,
                    compress,
                    validate,
                ) {
                    let b3 = b2.skip(n3 as int);
                    lemma_decode_all_bound::<Commitment>(b3, 8, compress, validate);
                }
            }
        }
    }

    /// What the four stages of decoding yield is what decoding yields.
    pub proof fn lemma_decoding_stages(
        bytes: Seq<u8>,
        batch_size: nat,
        compress: bool,
        validate: bool,
        witness: (Seq<WitnessCommitments>, nat),
        lookup: (Seq<LookupCommitments>, nat),
        mask_poly: (Option<Commitment>, nat),
        singles: (Seq<Commitment>, nat),
    )
        requires
            decode_all::<WitnessCommitments>(bytes, batch_size, compress, validate) == Ok::<
                (Seq<WitnessCommitments>, nat),
                SerializationError,
            >(witness),
            decode_all::<LookupCommitments>(
                bytes.skip(witness.1 as int),
                batch_size,
                compress,
                validate,
            ) == Ok::<(Seq<LookupCommitments>, nat), SerializationError>(lookup),
            Option::<Commitment>::decoding(
                bytes.skip(witness.1 as int).skip(lookup.1 as int),
                compress,
                validate,
            ) == Ok::<(Option<Commitment>, nat), SerializationError>(mask_poly),
            decode_all::<Commitment>(
                bytes.skip(witness.1 as int).skip(lookup.1 as int).skip(mask_poly.1 as int),
                8,
                compress,
                validate,
            ) == Ok::<(Seq<Commitment>, nat), SerializationError>(singles),
        ensures
            CommitmentsView::decoding(bytes, batch_size, compress, validate) == Ok::<
                (CommitmentsView, nat),
                SerializationError,
            >(
                (
                    CommitmentsView::from_parts(witness.0, lookup.0, mask_poly.0, singles.0),
                    witness.1 + lookup.1 + mask_poly.1 + singles.1,
                ),
            ),
    {
        reveal(CommitmentsView::decoding);
    }

    /// Canonical commitments are read back from their encoding, whatever
    /// follows it.
    pub proof fn lemma_round_trip(
        self,
        batch_size: nat,
        compress: bool,
        validate: bool,
        rest: Seq<u8>,
    )
        requires
            self.canonical(compress, validate),
            self.sized(batch_size),
        ensures
            CommitmentsView::decoding(
                self.encoding(compress) + rest,
                batch_size,
                compress,
                validate,
            ) == Ok::<(CommitmentsView, nat), SerializationError>(
                (self, self.encoding(compress).len()),
            ),
    {
        reveal(CommitmentsView::encoding);
        reveal(CommitmentsView::decoding);
        reveal(CommitmentsView::canonical);
        let e1 = encode_all(self.witness_commitments, compress);
        let e2 = encode_all(self.lookup_commitments, compress);
        let e3 = self.mask_poly.encoding(compress);
        let e4 = encode_all(self.singles(), compress);
        let t3 = e4 + rest;
        let t2 = e3 + t3;
        let t1 = e2 + t2;
        let bytes = e1 + t1;
        assert(self.encoding(compress) + rest == bytes && self.encoding(compress).len() == e1.len()
            + e2.len() + e3.len() + e4.len()) by {
            lemma_concat4(e1, e2, e3, e4, rest);
        }
        let d1 = (self.witness_commitments, e1.len());
        let d2 = (self.lookup_commitments, e2.len());
        let d3 = (self.mask_poly, e3.len());
        let d4 = (self.singles(), e4.len());
        assert(decode_all::<WitnessCommitments>(bytes, batch_size, compress, validate) == Ok::<
            (Seq<WitnessCommitments>, nat),
            SerializationError,
        >(d1) && bytes.skip(e1.len() as int) == t1) by {
            lemma_stage(self.witness_commitments, compress, validate, t1);
        }
        assert(decode_all::<LookupCommitments>(t1, batch_size, compress, validate) == Ok::<
            (Seq<LookupCommitments>, nat),
            SerializationError,
        >(d2) && t1.skip(e2.len() as int) == t2) by {
            lemma_stage(self.lookup_commitments, compress, validate, t2);
        }
        assert(Option::<Commitment>::decoding(t2, compress, validate) == Ok::<
            (Option<Commitment>, nat),
            SerializationError,
        >(d3) && t2.skip(e3.len() as int) == t3) by {
            self.mask_poly.lemma_round_trip(compress, validate, t3);
            assert(t2.skip(e3.len() as int) =~= t3);
        }
        assert(decode_all::<Commitment>(t3, 8, compress, validate) == Ok::<
            (Seq<Commitment>, nat),
            SerializationError,
        >(d4)) by {
            lemma_stage(self.singles(), compress, validate, rest);
        }
        assert(CommitmentsView::decoding(bytes, batch_size, compress, validate) == Ok::<
            (CommitmentsView, nat),
            SerializationError,
        >(
            (CommitmentsView::from_parts(d1.0, d2.0, d3.0, d4.0), d1.1 + d2.1 + d3.1 + d4.1),
        )) by {
            CommitmentsView::lemma_decoding_stages(
                bytes,
                batch_size,
                compress,
                validate,
                d1,
                d2,
                d3,
                d4,
            );
        }
        assert(CommitmentsView::from_parts(d1.0, d2.0, d3.0, d4.0) == self);
    }
}

/// Concatenation does not depend on the grouping.
pub proof fn lemma_concat4(e1: Seq<u8>, e2: Seq<u8>, e3: Seq<u8>, e4: Seq<u8>, rest: Seq<u8>)
    ensures
        e1 + e2 + e3 + e4 + rest == e1 + (e2 + (e3 + (e4 + rest))),
        (e1 + e2 + e3 + e4).len() == e1.len() + e2.len() + e3.len() + e4.len(),
{
    assert(e1 + e2 + e3 + e4 + rest =~= e1 + (e2 + (e3 + (e4 + rest))));
}

/// Canonical values are read back from their encodings, and what follows
/// them is left.
pub proof fn lemma_stage<T: Canonical>(items: Seq<T>, compress: bool, validate: bool, rest: Seq<u8>)
    requires
        all_canonical(items, compress, validate),
    ensures
        decode_all::<T>(encode_all(items, compress) + rest, items.len(), compress, validate) == Ok::<
            (Seq<T>, nat),
            SerializationError,
        >((items, encode_all(items, compress).len())),
        (encode_all(items, compress) + rest).skip(encode_all(items, compress).len() as int) == rest,
{
    lemma_round_trip_all(items, compress, validate, rest);
    assert((encode_all(items, compress) + rest).skip(encode_all(items, compress).len() as int)
        =~= rest);
}

impl Commitments {
    fn singles(&self) -> (r: Vec<Commitment>)
        ensures
            r@ == self@.singles(),
    {
        let mut singles = Vec::new();
        singles.push(self.table);
        singles.push(self.delta_table_omega);
        singles.push(self.g_1);
        singles.push(self.h_1);
        singles.push(self.g_a);
        singles.push(self.g_b);
        singles.push(self.g_c);
        singles.push(self.h_2);
        assert(singles@ =~= self@.singles());
        singles
    }

    /// Whether every commitment is the one that its own encoding decodes
    /// to: encodes each, decodes the bytes and compares.
    pub fn is_canonical(&self, compress: Compress, validate: Validate) -> (r: bool)
        ensures
            r == self@.canonical(compress.on(), validate.on()),
    {
        proof {
            reveal(CommitmentsView::canonical);
        }
        all_read_back(&self.witness_commitments, compress, validate) && all_read_back(
            &self.lookup_commitments,
            compress,
            validate,
        ) && self.mask_poly.reads_back(compress, validate) && all_read_back(
            &self.singles(),
            compress,
            validate,
        )
    }

    /// Appends the encoding of the commitments to `writer`: the witness
    /// commitments of every instance, the lookup commitments of every
    /// instance, the optional commitment to the masking polynomial, and the
    /// commitments to `table`, `delta_table_omega`, `g_1`, `h_1`, `g_a`,
    /// `g_b`, `g_c` and `h_2`.
    pub fn serialize_with_mode(&self, writer: &mut Vec<u8>, compress: Compress) -> (r: Result<
        (),
        SerializationError,
    >)
        ensures
            r is Ok,
            final(writer)@ == old(writer)@ + self@.encoding(compress.on()),
    {
        proof {
            reveal(CommitmentsView::encoding);
        }
        let ghost start = writer@;
        serialize_all(&self.witness_commitments, writer, compress);
        serialize_all(&self.lookup_commitments, writer, compress);
        let _ = self.mask_poly.serialize_with_mode(writer, compress);
        serialize_all(&self.singles(), writer, compress);
        assert(writer@ =~= start + self@.encoding(compress.on()));
        Ok(())
    }

    /// The number of bytes of the encoding.
    pub fn serialized_size(&self, compress: Compress) -> (r: usize)
        requires
            self@.encoding(compress.on()).len() <= usize::MAX,
        ensures
            r == self@.encoding(compress.on()).len(),
    {
        proof {
            reveal(CommitmentsView::encoding);
        }
        proof {
            lemma_witness_len(self@.witness_commitments, compress.on());
            lemma_lookup_len(self@.lookup_commitments, compress.on());
            lemma_commitments_len(self@.singles(), compress.on());
            if let Some(mask) = self.mask_poly {
                mask.lemma_encoding_len(compress.on());
            }
        }
        let witness = self.witness_commitments.len();
        let lookup = self.lookup_commitments.len();
        match compress {
            Compress::Yes => {
                let mask: usize = if self.mask_poly.is_some() {
                    49
                } else {
                    1
                };
                witness * 192 + lookup * 288 + mask + 384
            },
            Compress::No => {
                let mask: usize = if self.mask_poly.is_some() {
                    97
                } else {
                    1
                };
                witness * 384 + lookup * 576 + mask + 768
            },
        }
    }

    /// Reads the commitments of a batch of `batch_size` instances off the
    /// front of `reader`.
    pub fn deserialize_with_mode(
        batch_size: usize,
        reader: &mut Reader,
        compress: Compress,
        validate: Validate,
    ) -> (r: Result<Commitments, SerializationError>)
        ensures
            match CommitmentsView::decoding(
                old(reader)@,
                batch_size as nat,
                compress.on(),
                validate.on(),
            ) {
                Ok((value, used)) => r is Ok && r.unwrap()@ == value && final(reader)@ == old(
                    reader,
                )@.skip(used as int),
                Err(e) => r == Err::<Commitments, SerializationError>(e),
            },
            validate.on() && r is Ok ==> r.unwrap()@.valid(),
    {
        proof {
            reveal(CommitmentsView::decoding);
        }
        let ghost bytes = reader@;
        let ghost (c, v) = (compress.on(), validate.on());
        proof {
            lemma_decode_all_bound::<WitnessCommitments>(bytes, batch_size as nat, c, v);
        }
        let witness_commitments = match deserialize_all::<WitnessCommitments>(
            reader,
            batch_size as u128,
            compress,
            validate,
        ) {
            Ok(items) => items,
            Err(e) => {
                return Err(e);
            },
        };
        let ghost n1 = decode_all::<WitnessCommitments>(bytes, batch_size as nat, c, v).unwrap().1;
        proof {
            lemma_decode_all_bound::<LookupCommitments>(
                bytes.skip(n1 as int),
                batch_size as nat,
                c,
                v,
            );
        }
        let lookup_commitments = match deserialize_all::<LookupCommitments>(
            reader,
            batch_size as u128,
            compress,
            validate,
        ) {
            Ok(items) => items,
            Err(e) => {
                return Err(e);
            },
        };
        let ghost n2 = decode_all::<LookupCommitments>(
            bytes.skip(n1 as int),
            batch_size as nat,
            c,
            v,
        ).unwrap().1;
        let ghost b2 = bytes.skip(n1 as int).skip(n2 as int);
        proof {
            Option::<Commitment>::lemma_decoding_bound(b2, c, v);
        }
        let mask_poly = match Option::<Commitment>::deserialize_with_mode(
            reader,
            compress,
            validate,
        ) {
            Ok(item) => item,
            Err(e) => {
                return Err(e);
            },
        };
        let ghost n3 = Option::<Commitment>::decoding(b2, c, v).unwrap().1;
        let ghost b3 = b2.skip(n3 as int);
        proof {
            lemma_decode_all_bound::<Commitment>(b3, 8, c, v);
        }
        let singles = match deserialize_all::<Commitment>(reader, 8, compress, validate) {
            Ok(items) => items,
            Err(e) => {
                return Err(e);
            },
        };
        proof {
            let n4 = decode_all::<Commitment>(b3, 8, c, v).unwrap().1;
            assert(b3.skip(n4 as int) =~= bytes.skip((n1 + n2 + n3 + n4) as int));
        }
        Ok(
            Commitments {
                witness_commitments,
                mask_poly,
                lookup_commitments,
                table: singles[0],
                delta_table_omega: singles[1],
                g_1: singles[2],
                h_1: singles[3],
                g_a: singles[4],
                g_b: singles[5],
                g_c: singles[6],
                h_2: singles[7],
            },
        )
    }

    /// Whether every commitment belongs to the group.
    pub fn check(&self) -> (r: Result<(), SerializationError>)
        ensures
            self@.valid() ==> r is Ok,
            !self@.valid() ==> r == Err::<(), SerializationError>(SerializationError::InvalidData),
    {
        let mut i: usize = 0;
        while i < self.witness_commitments.len()
            invariant
                i <= self.witness_commitments@.len(),
                forall|j: int| 0 <= j < i ==> (#[trigger] self.witness_commitments@[j]).valid(),
            decreases self.witness_commitments@.len() - i,
        {
            if !all_valid(&self.witness_commitments[i].to_parts()) {
                assert(!self@.witness_commitments[i as int].valid());
                return Err(SerializationError::InvalidData);
            }
            i += 1;
        }
        let mut i: usize = 0;
        while i < self.lookup_commitments.len()
            invariant
                i <= self.lookup_commitments@.len(),
                forall|j: int| 0 <= j < i ==> (#[trigger] self.lookup_commitments@[j]).valid(),
            decreases self.lookup_commitments@.len() - i,
        {
            if !all_valid(&self.lookup_commitments[i].to_parts()) {
                assert(!self@.lookup_commitments[i as int].valid());
                return Err(SerializationError::InvalidData);
            }
            i += 1;
        }
        if let Some(mask) = self.mask_poly {
            if !mask.is_valid() {
                return Err(SerializationError::InvalidData);
            }
        }
        if !all_valid(&self.singles()) {
            return Err(SerializationError::InvalidData);
        }
        Ok(())
    }
}

/// A copy of the entries of `fields` from `from` up to `to`.
pub fn copy_range(fields: &Vec<Field>, from: usize, to: usize) -> (r: Vec<Field>)
    requires
        from <= to <= fields@.len(),
    ensures
        r@ == fields@.subrange(from as int, to as int),
{
    let mut out: Vec<Field> = Vec::new();
    let mut i: usize = from;
    while i < to
        invariant
            from <= i <= to <= fields@.len(),
            out@ == fields@.subrange(from as int, i as int),
        decreases to - i,
    {
        out.push(fields[i]);
        assert(out@ =~= fields@.subrange(from as int, i + 1));
        i += 1;
    }
    out
}

/// Appends a copy of `more` to `out`.
pub fn append_fields(out: &mut Vec<Field>, more: &Vec<Field>)
    ensures
        final(out)@ == old(out)@ + more@,
{
    let ghost start = out@;
    let mut i: usize = 0;
    assert(start + more@.take(0) =~= start);
    while i < more.len()
        invariant
            i <= more@.len(),
            out@ == start + more@.take(i as int),
        decreases more@.len() - i,
    {
        out.push(more[i]);
        assert(out@ =~= start + more@.take(i + 1));
        i += 1;
    }
    assert(more@.take(i as int) =~= more@);
}

/// The evaluations that a proof claims.
#[derive(Clone, Debug, PartialEq, Eq)]
pub struct Evaluations {
    /// Evaluation of `z_b_i`'s at `beta`.
    pub z_b_evals: Vec<Field>,
    /// Evaluation of `f_i`'s at `beta`.
    pub f_evals: Vec<Field>,
    /// Evaluation of `s_1_i`'s at `beta`.
    pub s_1_evals: Vec<Field>,
    /// Evaluation of `s_2_i`'s at `beta`.
    pub s_2_evals: Vec<Field>,
    /// Evaluation of `z_2_i`'s at `beta`.
    pub z_2_evals: Vec<Field>,
    /// Evaluation of `delta_s_1_omega_i`'s at `beta`.
    pub delta_s_1_omega_evals: Vec<Field>,
    /// Evaluation of `s_m` at `beta`.
    pub s_m_eval: Field,
    /// Evaluation of `s_l` at `beta`.
    pub s_l_eval: Field,
    /// Evaluation of `table` at `beta`.
    pub table_eval: Field,
    /// Evaluation of `delta_table_omega` at `beta`.
    pub delta_table_omega_eval: Field,
    /// Evaluation of `g_1` at `beta`.
    pub g_1_eval: Field,
    /// Evaluation of `g_a` at `beta`.
    pub g_a_eval: Field,
    /// Evaluation of `g_b` at `gamma`.
    pub g_b_eval: Field,
    /// Evaluation of `g_c` at `gamma`.
    pub g_c_eval: Field,
}

/// What [`Evaluations`] hold, as mathematics.
pub struct EvaluationsView {
    pub z_b_evals: Seq<Field>,
    pub f_evals: Seq<Field>,
    pub s_1_evals: Seq<Field>,
    pub s_2_evals: Seq<Field>,
    pub z_2_evals: Seq<Field>,
    pub delta_s_1_omega_evals: Seq<Field>,
    pub s_m_eval: Field,
    pub s_l_eval: Field,
    pub table_eval: Field,
    pub delta_table_omega_eval: Field,
    pub g_1_eval: Field,
    pub g_a_eval: Field,
    pub g_b_eval: Field,
    pub g_c_eval: Field,
}

impl View for Evaluations {
    type V = EvaluationsView;

    open spec fn view(&self) -> EvaluationsView {
        EvaluationsView {
            z_b_evals: self.z_b_evals@,
            f_evals: self.f_evals@,
            s_1_evals: self.s_1_evals@,
            s_2_evals: self.s_2_evals@,
            z_2_evals: self.z_2_evals@,
            delta_s_1_omega_evals: self.delta_s_1_omega_evals@,
            s_m_eval: self.s_m_eval,
            s_l_eval: self.s_l_eval,
            table_eval: self.table_eval,
            delta_table_omega_eval: self.delta_table_omega_eval,
            g_1_eval: self.g_1_eval,
            g_a_eval: self.g_a_eval,
            g_b_eval: self.g_b_eval,
            g_c_eval: self.g_c_eval,
        }
    }
}

impl EvaluationsView {
    /// The eight evaluations of which a proof has one each, in their order
    /// on the wire.
    pub open spec fn singles(self) -> Seq<Field> {
        seq![
            self.s_m_eval,
            self.s_l_eval,
            self.table_eval,
            self.delta_table_omega_eval,
            self.g_1_eval,
            self.g_a_eval,
            self.g_b_eval,
            self.g_c_eval,
        ]
    }

    /// The six per-instance vectors, one after the other.
    pub open spec fn vectors(self) -> Seq<Field> {
        self.z_b_evals + self.f_evals + self.s_1_evals + self.s_2_evals + self.z_2_evals
            + self.delta_s_1_omega_evals
    }

    /// All evaluations in their order on the wire: the six per-instance
    /// vectors, then the eight single evaluations.
    pub open spec fn flat(self) -> Seq<Field> {
        self.vectors() + self.singles()
    }

    /// The evaluations of a batch of `batch_size` instances that `flat` lists
    /// in the order of the wire.
    pub open spec fn from_flat(flat: Seq<Field>, batch_size: nat) -> EvaluationsView {
        let n = batch_size as int;
        EvaluationsView {
            z_b_evals: flat.subrange(0, n),
            f_evals: flat.subrange(n, 2 * n),
            s_1_evals: flat.subrange(2 * n, 3 * n),
            s_2_evals: flat.subrange(3 * n, 4 * n),
            z_2_evals: flat.subrange(4 * n, 5 * n),
            delta_s_1_omega_evals: flat.subrange(5 * n, 6 * n),
            s_m_eval: flat[6 * n],
            s_l_eval: flat[6 * n + 1],
            table_eval: flat[6 * n + 2],
            delta_table_omega_eval: flat[6 * n + 3],
            g_1_eval: flat[6 * n + 4],
            g_a_eval: flat[6 * n + 5],
            g_b_eval: flat[6 * n + 6],
            g_c_eval: flat[6 * n + 7],
        }
    }

    /// Whether the per-instance vectors have `batch_size` entries each.
    pub open spec fn sized(self, batch_size: nat) -> bool {
        &&& self.z_b_evals.len() == batch_size
        &&& self.f_evals.len() == batch_size
        &&& self.s_1_evals.len() == batch_size
        &&& self.s_2_evals.len() == batch_size
        &&& self.z_2_evals.len() == batch_size
        &&& self.delta_s_1_omega_evals.len() == batch_size
    }

    /// The encodings of all evaluations in the order of [`Self::flat`].
    #[verifier::opaque]
    pub open spec fn encoding(self, compress: bool) -> Seq<u8> {
        encode_all(self.flat(), compress)
    }

    /// The evaluations of a batch of `batch_size` instances at the front of
    /// `bytes`, and the number of bytes they take.
    #[verifier::opaque]
    pub open spec fn decoding(bytes: Seq<u8>, batch_size: nat, compress: bool, validate: bool) -> Result<
        (EvaluationsView, nat),
        SerializationError,
    > {
        match decode_all::<Field>(bytes, 6 * batch_size + 8, compress, validate) {
            Ok((flat, used)) => Ok((EvaluationsView::from_flat(flat, batch_size), used)),
            Err(e) => Err(e),
        }
    }

    /// Whether every evaluation is below the modulus.
    #[verifier::opaque]
    pub open spec fn canonical(self, compress: bool, validate: bool) -> bool {
        all_canonical(self.flat(), compress, validate)
    }

    /// The wire lists what it was made of.
    pub proof fn lemma_from_flat(self, batch_size: nat)
        requires
            self.sized(batch_size),
        ensures
            self.flat().len() == 6 * batch_size + 8,
            EvaluationsView::from_flat(self.flat(), batch_size) == self,
    {
        let n = batch_size as int;
        let flat = self.flat();
        let other = EvaluationsView::from_flat(flat, batch_size);
        assert(other.z_b_evals =~= self.z_b_evals);
        assert(other.f_evals =~= self.f_evals);
        assert(other.s_1_evals =~= self.s_1_evals);
        assert(other.s_2_evals =~= self.s_2_evals);
        assert(other.z_2_evals =~= self.z_2_evals);
        assert(other.delta_s_1_omega_evals =~= self.delta_s_1_omega_evals);
        assert(flat[6 * n] == self.singles()[0]);
        assert(flat[6 * n + 1] == self.singles()[1]);
        assert(flat[6 * n + 2] == self.singles()[2]);
        assert(flat[6 * n + 3] == self.singles()[3]);
        assert(flat[6 * n + 4] == self.singles()[4]);
        assert(flat[6 * n + 5] == self.singles()[5]);
        assert(flat[6 * n + 6] == self.singles()[6]);
        assert(flat[6 * n + 7] == self.singles()[7]);
    }

    /// What is made of a list of `6 * batch_size + 8` evaluations has
    /// `batch_size` entries in each per-instance vector, and lists them
    /// again.
    pub proof fn lemma_flat_of(flat: Seq<Field>, batch_size: nat)
        requires
            flat.len() == 6 * batch_size + 8,
        ensures
            EvaluationsView::from_flat(flat, batch_size).sized(batch_size),
            EvaluationsView::from_flat(flat, batch_size).flat() == flat,
    {
        assert(EvaluationsView::from_flat(flat, batch_size).flat() =~= flat);
    }

    /// Decoding takes no more bytes than there are, and what it yields has
    /// `batch_size` entries in each per-instance vector.
    pub proof fn lemma_decoding_bound(
        bytes: Seq<u8>,
        batch_size: nat,
        compress: bool,
        validate: bool,
    )
        ensures
            EvaluationsView::decoding(bytes, batch_size, compress, validate) is Ok ==> {
                &&& EvaluationsView::decoding(bytes, batch_size, compress, validate).unwrap().1
                    <= bytes.len()
                &&& EvaluationsView::decoding(
                    bytes,
                    batch_size,
                    compress,
                    validate,
                ).unwrap().0.sized(batch_size)
            },
    {
        reveal(EvaluationsView::decoding);
        lemma_decode_all_bound::<Field>(bytes, 6 * batch_size + 8, compress, validate);
        if let Ok((flat, used)) = decode_all::<Field>(
            bytes,
            6 * batch_size + 8,
            compress,
            validate,
        ) {
            EvaluationsView::lemma_flat_of(flat, batch_size);
        }
    }

    /// Canonical evaluations are read back from their encoding, whatever
    /// follows it.
    pub proof fn lemma_round_trip(
        self,
        batch_size: nat,
        compress: bool,
        validate: bool,
        rest: Seq<u8>,
    )
        requires
            self.canonical(compress, validate),
            self.sized(batch_size),
        ensures
            EvaluationsView::decoding(
                self.encoding(compress) + rest,
                batch_size,
                compress,
                validate,
            ) == Ok::<(EvaluationsView, nat), SerializationError>(
                (self, self.encoding(compress).len()),
            ),
    {
        reveal(EvaluationsView::encoding);
        reveal(EvaluationsView::decoding);
        reveal(EvaluationsView::canonical);
        self.lemma_from_flat(batch_size);
        lemma_round_trip_all(self.flat(), compress, validate, rest);
    }
}

impl Evaluations {
    /// Whether every evaluation is the one that its own encoding decodes
    /// to, as every evaluation that executable code holds is.
    pub fn is_canonical(&self, compress: Compress, validate: Validate) -> (r: bool)
        ensures
            r == self@.canonical(compress.on(), validate.on()),
    {
        proof {
            reveal(EvaluationsView::canonical);
        }
        all_read_back(&self.to_field_elements(), compress, validate)
    }

    /// All evaluations in their order on the wire: the six per-instance
    /// vectors, then `s_m`, `s_l`, `table`, `delta_table_omega`, `g_1`,
    /// `g_a`, `g_b` and `g_c`.
    pub fn to_field_elements(&self) -> (r: Vec<Field>)
        ensures
            r@ == self@.flat(),
    {
        let mut result: Vec<Field> = Vec::new();
        append_fields(&mut result, &self.z_b_evals);
        append_fields(&mut result, &self.f_evals);
        append_fields(&mut result, &self.s_1_evals);
        append_fields(&mut result, &self.s_2_evals);
        append_fields(&mut result, &self.z_2_evals);
        append_fields(&mut result, &self.delta_s_1_omega_evals);
        assert(result@ =~= self@.vectors());
        result.push(self.s_m_eval);
        result.push(self.s_l_eval);
        result.push(self.table_eval);
        result.push(self.delta_table_omega_eval);
        result.push(self.g_1_eval);
        result.push(self.g_a_eval);
        result.push(self.g_b_eval);
        result.push(self.g_c_eval);
        assert(result@ =~= self@.flat());
        result
    }

    /// Appends the encoding of the evaluations to `writer`, in the order of
    /// [`Self::to_field_elements`].
    pub fn serialize_with_mode(&self, writer: &mut Vec<u8>, compress: Compress) -> (r: Result<
        (),
        SerializationError,
    >)
        ensures
            r is Ok,
            final(writer)@ == old(writer)@ + self@.encoding(compress.on()),
    {
        proof {
            reveal(EvaluationsView::encoding);
        }
        serialize_all(&self.to_field_elements(), writer, compress);
        Ok(())
    }

    /// The number of bytes of the encoding: 32 for each evaluation.
    pub fn serialized_size(&self, compress: Compress) -> (r: usize)
        requires
            self@.encoding(compress.on()).len() <= usize::MAX,
        ensures
            r == self@.encoding(compress.on()).len(),
    {
        proof {
            reveal(EvaluationsView::encoding);
        }
        proof {
            lemma_fields_len(self@.flat(), compress.on());
        }
        let mut size: usize = 0;
        size += self.z_b_evals.len() * 32;
        size += self.f_evals.len() * 32;
        size += self.s_1_evals.len() * 32;
        size += self.s_2_evals.len() * 32;
        size += self.z_2_evals.len() * 32;
        size += self.delta_s_1_omega_evals.len() * 32;
        size += 256;
        size
    }

    /// Reads the evaluations of a batch of `batch_size` instances off the
    /// front of `reader`.
    pub fn deserialize_with_mode(
        batch_size: usize,
        reader: &mut Reader,
        compress: Compress,
        validate: Validate,
    ) -> (r: Result<Evaluations, SerializationError>)
        ensures
            match EvaluationsView::decoding(
                old(reader)@,
                batch_size as nat,
                compress.on(),
                validate.on(),
            ) {
                Ok((value, used)) => r is Ok && r.unwrap()@ == value && final(reader)@ == old(
                    reader,
                )@.skip(used as int),
                Err(e) => r == Err::<Evaluations, SerializationError>(e),
            },
    {
        proof {
            reveal(EvaluationsView::decoding);
        }
        let ghost bytes = reader@;
        proof {
            lemma_decode_all_bound::<Field>(
                bytes,
                (6 * batch_size + 8) as nat,
                compress.on(),
                validate.on(),
            );
        }
        let count: u128 = 6 * (batch_size as u128) + 8;
        let flat = match deserialize_all::<Field>(reader, count, compress, validate) {
            Ok(flat) => flat,
            Err(e) => {
                return Err(e);
            },
        };
        let n = batch_size;
        assert(flat@.len() == 6 * n + 8) by {
            assert(count as nat == 6 * batch_size + 8);
        }
        let total = flat.len();
        assert(6 * n + 8 == total);
        let evaluations = Evaluations {
            z_b_evals: copy_range(&flat, 0, n),
            f_evals: copy_range(&flat, n, 2 * n),
            s_1_evals: copy_range(&flat, 2 * n, 3 * n),
            s_2_evals: copy_range(&flat, 3 * n, 4 * n),
            z_2_evals: copy_range(&flat, 4 * n, 5 * n),
            delta_s_1_omega_evals: copy_range(&flat, 5 * n, 6 * n),
            s_m_eval: flat[6 * n],
            s_l_eval: flat[6 * n + 1],
            table_eval: flat[6 * n + 2],
            delta_table_omega_eval: flat[6 * n + 3],
            g_1_eval: flat[6 * n + 4],
            g_a_eval: flat[6 * n + 5],
            g_b_eval: flat[6 * n + 6],
            g_c_eval: flat[6 * n + 7],
        };
        Ok(evaluations)
    }

    /// Every evaluation is a field element, and every field element is
    /// valid: the check always succeeds.
    pub fn check(&self) -> (r: Result<(), SerializationError>)
        ensures
            r is Ok,
    {
        Ok(())
    }
}

/// What a batched opening proof holds, as mathematics.
pub struct BatchLCProofView {
    pub proof: Seq<KZGProof>,
    pub evaluations: Option<Seq<Field>>,
}

/// The batched opening proof of the polynomial commitment scheme.
#[derive(Clone, Debug, PartialEq, Eq)]
pub struct BatchLCProof {
    /// One opening for each query point.
    pub proof: Vec<KZGProof>,
    /// The evaluations of the opened polynomials, where the proof carries
    /// them.
    pub evaluations: Option<Vec<Field>>,
}

impl View for BatchLCProof {
    type V = BatchLCProofView;

    open spec fn view(&self) -> BatchLCProofView {
        BatchLCProofView {
            proof: self.proof@,
            evaluations: match self.evaluations {
                Some(evaluations) => Some(evaluations@),
                None => None,
            },
        }
    }
}

impl BatchLCProofView {
    /// One byte that says whether evaluations follow, 0 or 1, and then the
    /// counted evaluations.
    pub open spec fn encoding_evaluations(evaluations: Option<Seq<Field>>, compress: bool) -> Seq<
        u8,
    > {
        match evaluations {
            Some(evaluations) => seq![1u8] + encode_counted(evaluations, compress),
            None => seq![0u8],
        }
    }

    /// The counted openings, then the optional evaluations.
    #[verifier::opaque]
    pub open spec fn encoding(self, compress: bool) -> Seq<u8> {
        encode_counted(self.proof, compress) + BatchLCProofView::encoding_evaluations(
            self.evaluations,
            compress,
        )
    }

    /// Whether every evaluation is below the modulus, and their number fits
    /// the wire.
    pub open spec fn canonical_evaluations(
        evaluations: Option<Seq<Field>>,
        compress: bool,
        validate: bool,
    ) -> bool {
        match evaluations {
            Some(evaluations) => all_canonical(evaluations, compress, validate)
                && evaluations.len() <= u64::MAX,
            None => true,
        }
    }

    /// Canonical optional evaluations are read back from their encoding,
    /// whatever follows it.
    pub proof fn lemma_round_trip_evaluations(
        evaluations: Option<Seq<Field>>,
        compress: bool,
        validate: bool,
        rest: Seq<u8>,
    )
        requires
            BatchLCProofView::canonical_evaluations(evaluations, compress, validate),
        ensures
            BatchLCProofView::decoding_evaluations(
                BatchLCProofView::encoding_evaluations(evaluations, compress) + rest,
                compress,
                validate,
            ) == Ok::<(Option<Seq<Field>>, nat), SerializationError>(
                (evaluations, BatchLCProofView::encoding_evaluations(evaluations, compress).len()),
            ),
    {
        let bytes = BatchLCProofView::encoding_evaluations(evaluations, compress) + rest;
        match evaluations {
            Some(items) => {
                assert(bytes.skip(1) =~= encode_counted(items, compress) + rest);
                lemma_round_trip_counted(items, compress, validate, rest);
            },
            None => {},
        }
    }

    /// The optional evaluations at the front of `bytes`, and the number of
    /// bytes they take.
    pub open spec fn decoding_evaluations(bytes: Seq<u8>, compress: bool, validate: bool) -> Result<
        (Option<Seq<Field>>, nat),
        SerializationError,
    > {
        if bytes.len() < 1 {
            Err(SerializationError::NotEnoughBytes)
        } else if bytes[0] == 0 {
            Ok((None, 1))
        } else if bytes[0] == 1 {
            match decode_counted::<Field>(bytes.skip(1), compress, validate) {
                Ok((evaluations, used)) => Ok((Some(evaluations), 1 + used)),
                Err(e) => Err(e),
            }
        } else {
            Err(SerializationError::InvalidData)
        }
    }

    /// The opening proof at the front of `bytes`, and the number of bytes it
    /// takes.
    #[verifier::opaque]
    pub open spec fn decoding(bytes: Seq<u8>, compress: bool, validate: bool) -> Result<
        (BatchLCProofView, nat),
        SerializationError,
    > {
        match decode_counted::<KZGProof>(bytes, compress, validate) {
            Ok((proof, n1)) => match BatchLCProofView::decoding_evaluations(
                bytes.skip(n1 as int),
                compress,
                validate,
            ) {
                Ok((evaluations, n2)) => Ok((BatchLCProofView { proof, evaluations }, n1 + n2)),
                Err(e) => Err(e),
            },
            Err(e) => Err(e),
        }
    }

    /// Whether every opening and every evaluation is the one that its own
    /// encoding decodes to, and the counts fit the wire.
    #[verifier::opaque]
    pub open spec fn canonical(self, compress: bool, validate: bool) -> bool {
        &&& all_canonical(self.proof, compress, validate)
        &&& self.proof.len() <= u64::MAX
        &&& BatchLCProofView::canonical_evaluations(self.evaluations, compress, validate)
    }

    /// Whether every commitment belongs to the group.
    pub open spec fn valid(self) -> bool {
        all_members(self.proof)
    }

    /// Decoding takes no more bytes than there are.
    pub proof fn lemma_decoding_bound(bytes: Seq<u8>, compress: bool, validate: bool)
        ensures
            BatchLCProofView::decoding(bytes, compress, validate) is Ok
                ==> BatchLCProofView::decoding(bytes, compress, validate).unwrap().1 <= bytes.len(),
    {
        reveal(BatchLCProofView::decoding);
        lemma_decode_counted_bound::<KZGProof>(bytes, compress, validate);
        if let Ok((proof, n1)) = decode_counted::<KZGProof>(bytes, compress, validate) {
            let tail = bytes.skip(n1 as int);
            if tail.len() >= 1 && tail[0] == 1 {
                lemma_decode_counted_bound::<Field>(tail.skip(1), compress, validate);
            }
        }
    }

    /// A canonical opening proof is read back from its encoding, whatever
    /// follows it.
    pub proof fn lemma_round_trip(self, compress: bool, validate: bool, rest: Seq<u8>)
        requires
            self.canonical(compress, validate),
        ensures
            BatchLCProofView::decoding(self.encoding(compress) + rest, compress, validate) == Ok::<
                (BatchLCProofView, nat),
                SerializationError,
            >((self, self.encoding(compress).len())),
    {
        reveal(BatchLCProofView::encoding);
        reveal(BatchLCProofView::decoding);
        reveal(BatchLCProofView::canonical);
        let e1 = encode_counted(self.proof, compress);
        let e2 = BatchLCProofView::encoding_evaluations(self.evaluations, compress);
        let tail = e2 + rest;
        let bytes = e1 + tail;
        assert(self.encoding(compress) + rest == bytes && self.encoding(compress).len() == e1.len()
            + e2.len()) by {
            assert(self.encoding(compress) + rest =~= bytes);
        }
        let d1 = (self.proof, e1.len());
        let d2 = (self.evaluations, e2.len());
        assert(decode_counted::<KZGProof>(bytes, compress, validate) == Ok::<
            (Seq<KZGProof>, nat),
            SerializationError,
        >(d1) && bytes.skip(e1.len() as int) == tail) by {
            lemma_round_trip_counted(self.proof, compress, validate, tail);
            assert(bytes.skip(e1.len() as int) =~= tail);
        }
        assert(BatchLCProofView::decoding_evaluations(tail, compress, validate) == Ok::<
            (Option<Seq<Field>>, nat),
            SerializationError,
        >(d2)) by {
            BatchLCProofView::lemma_round_trip_evaluations(
                self.evaluations,
                compress,
                validate,
                rest,
            );
        }
        assert(BatchLCProofView::decoding(bytes, compress, validate) == Ok::<
            (BatchLCProofView, nat),
            SerializationError,
        >((BatchLCProofView { proof: d1.0, evaluations: d2.0 }, d1.1 + d2.1))) by {
            BatchLCProofView::lemma_decoding_stages(bytes, compress, validate, d1, d2);
        }
    }

    /// What the two stages of decoding yield is what decoding yields.
    pub proof fn lemma_decoding_stages(
        bytes: Seq<u8>,
        compress: bool,
        validate: bool,
        proof: (Seq<KZGProof>, nat),
        evaluations: (Option<Seq<Field>>, nat),
    )
        requires
            decode_counted::<KZGProof>(bytes, compress, validate) == Ok::<
                (Seq<KZGProof>, nat),
                SerializationError,
            >(proof),
            BatchLCProofView::decoding_evaluations(
                bytes.skip(proof.1 as int),
                compress,
                validate,
            ) == Ok::<(Option<Seq<Field>>, nat), SerializationError>(evaluations),
        ensures
            BatchLCProofView::decoding(bytes, compress, validate) == Ok::<
                (BatchLCProofView, nat),
                SerializationError,
            >(
                (
                    BatchLCProofView { proof: proof.0, evaluations: evaluations.0 },
                    proof.1 + evaluations.1,
                ),
            ),
    {
        reveal(BatchLCProofView::decoding);
    }
}

impl BatchLCProof {
    /// Whether every opening and every evaluation is the one that its own
    /// encoding decodes to, and the counts fit the wire.
    pub fn is_canonical(&self, compress: Compress, validate: Validate) -> (r: bool)
        ensures
            r == self@.canonical(compress.on(), validate.on()),
    {
        proof {
            reveal(BatchLCProofView::canonical);
        }
        let openings = self.proof.len();
        if !all_read_back(&self.proof, compress, validate) {
            return false;
        }
        match &self.evaluations {
            Some(evaluations) => {
                let count = evaluations.len();
                all_read_back(evaluations, compress, validate)
            },
            None => true,
        }
    }

    /// Appends the encoding of the opening proof to `writer`.
    pub fn serialize_with_mode(&self, writer: &mut Vec<u8>, compress: Compress) -> (r: Result<
        (),
        SerializationError,
    >)
        ensures
            r is Ok,
            final(writer)@ == old(writer)@ + self@.encoding(compress.on()),
    {
        proof {
            reveal(BatchLCProofView::encoding);
        }
        let ghost start = writer@;
        serialize_counted(&self.proof, writer, compress);
        match &self.evaluations {
            Some(evaluations) => {
                writer.push(1);
                serialize_counted(evaluations, writer, compress);
            },
            None => {
                writer.push(0);
            },
        }
        assert(writer@ =~= start + self@.encoding(compress.on()));
        Ok(())
    }

    /// Reads an opening proof off the front of `reader`.
    pub fn deserialize_with_mode(reader: &mut Reader, compress: Compress, validate: Validate) -> (r:
        Result<BatchLCProof, SerializationError>)
        ensures
            match BatchLCProofView::decoding(old(reader)@, compress.on(), validate.on()) {
                Ok((value, used)) => r is Ok && r.unwrap()@ == value && final(reader)@ == old(
                    reader,
                )@.skip(used as int),
                Err(e) => r == Err::<BatchLCProof, SerializationError>(e),
            },
            validate.on() && r is Ok ==> r.unwrap()@.valid(),
    {
        proof {
            reveal(BatchLCProofView::decoding);
        }
        let ghost bytes = reader@;
        let ghost (c, v) = (compress.on(), validate.on());
        proof {
            lemma_decode_counted_bound::<KZGProof>(bytes, c, v);
        }
        let proof = match deserialize_counted::<KZGProof>(reader, compress, validate) {
            Ok(proof) => proof,
            Err(e) => {
                return Err(e);
            },
        };
        let ghost n1 = decode_counted::<KZGProof>(bytes, c, v).unwrap().1;
        let ghost tail = bytes.skip(n1 as int);
        let flag = match reader.take(1) {
            Some(flag) => flag[0],
            None => {
                return Err(SerializationError::NotEnoughBytes);
            },
        };
        assert(flag == tail[0]);
        if flag == 0 {
            assert(tail.skip(1) =~= bytes.skip((n1 + 1) as int));
            Ok(BatchLCProof { proof, evaluations: None })
        } else if flag == 1 {
            proof {
                lemma_decode_counted_bound::<Field>(tail.skip(1), c, v);
            }
            match deserialize_counted::<Field>(reader, compress, validate) {
                Ok(evaluations) => {
                    proof {
                        let n2 = decode_counted::<Field>(tail.skip(1), c, v).unwrap().1;
                        assert(tail.skip(1).skip(n2 as int) =~= bytes.skip((n1 + (1 + n2)) as int));
                    }
                    Ok(BatchLCProof { proof, evaluations: Some(evaluations) })
                },
                Err(e) => Err(e),
            }
        } else {
            Err(SerializationError::InvalidData)
        }
    }

    /// Whether every commitment belongs to the group.
    pub fn check(&self) -> (r: Result<(), SerializationError>)
        ensures
            self@.valid() ==> r is Ok,
            !self@.valid() ==> r == Err::<(), SerializationError>(SerializationError::InvalidData),
    {
        let mut i: usize = 0;
        while i < self.proof.len()
            invariant
                i <= self.proof@.len(),
                forall|j: int| 0 <= j < i ==> (#[trigger] self.proof@[j]).member(),
            decreases self.proof@.len() - i,
        {
            if !self.proof[i].w.is_valid() {
                assert(!self@.proof[i as int].member());
                return Err(SerializationError::InvalidData);
            }
            i += 1;
        }
        Ok(())
    }
}

/// What a [`Proof`] holds, as mathematics.
pub struct ProofView {
    pub batch_size: usize,
    pub commitments: CommitmentsView,
    pub evaluations: EvaluationsView,
    pub msg: FifthMessage,
    pub pc_proof: BatchLCProofView,
}

/// A proof for a batch of instances.
#[derive(Clone, Debug, PartialEq, Eq)]
pub struct Proof {
    /// The number of instances being proven in this proof.
    batch_size: usize,
    /// Commitments to prover polynomials.
    pub commitments: Commitments,
    /// Evaluations of some of the committed polynomials.
    pub evaluations: Evaluations,
    /// Prover message: sum_a, sum_b, sum_c.
    pub msg: FifthMessage,
    /// An evaluation proof from the polynomial commitment.
    pub pc_proof: BatchLCProof,
}

impl View for Proof {
    type V = ProofView;

    closed spec fn view(&self) -> ProofView {
        ProofView {
            batch_size: self.batch_size,
            commitments: self.commitments@,
            evaluations: self.evaluations@,
            msg: self.msg,
            pc_proof: self.pc_proof@,
        }
    }
}

impl ProofView {
    /// Whether every per-instance vector has exactly `batch_size` entries.
    pub open spec fn wf(self) -> bool {
        self.commitments.sized(self.batch_size as nat) && self.evaluations.sized(
            self.batch_size as nat,
        )
    }

    /// The batch size in 8 bytes, then the commitments, the evaluations, the
    /// message and the opening proof.
    pub open spec fn encoding(self, compress: bool) -> Seq<u8> {
        (self.batch_size as u64).encoding(compress) + self.commitments.encoding(compress)
            + self.evaluations.encoding(compress) + self.msg.encoding(compress)
            + self.pc_proof.encoding(compress)
    }

    /// The part of a proof that follows the batch size, at the front of
    /// `bytes`, and the number of bytes it takes.
    pub open spec fn decoding_body(
        bytes: Seq<u8>,
        batch_size: usize,
        compress: bool,
        validate: bool,
    ) -> Result<(ProofView, nat), SerializationError> {
        match CommitmentsView::decoding(bytes, batch_size as nat, compress, validate) {
            Ok((commitments, n1)) => match EvaluationsView::decoding(
                bytes.skip(n1 as int),
                batch_size as nat,
                compress,
                validate,
            ) {
                Ok((evaluations, n2)) => match FifthMessage::decoding(
                    bytes.skip(n1 as int).skip(n2 as int),
                    compress,
                    validate,
                ) {
                    Ok((msg, n3)) => match BatchLCProofView::decoding(
                        bytes.skip(n1 as int).skip(n2 as int).skip(n3 as int),
                        compress,
                        validate,
                    ) {
                        Ok((pc_proof, n4)) => Ok(
                            (
                                ProofView { batch_size, commitments, evaluations, msg, pc_proof },
                                n1 + n2 + n3 + n4,
                            ),
                        ),
                        Err(e) => Err(e),
                    },
                    Err(e) => Err(e),
                },
                Err(e) => Err(e),
            },
            Err(e) => Err(e),
        }
    }

    /// The proof at the front of `bytes`, and the number of bytes it takes.
    /// The batch size at the front decides how many entries are read into
    /// each per-instance vector.
    pub open spec fn decoding(bytes: Seq<u8>, compress: bool, validate: bool) -> Result<
        (ProofView, nat),
        SerializationError,
    > {
        match u64::decoding(bytes, compress, validate) {
            Ok((batch_size, _)) => if batch_size > usize::MAX {
                Err(SerializationError::IncompatibleTarget)
            } else {
                match ProofView::decoding_body(
                    bytes.skip(8),
                    batch_size as usize,
                    compress,
                    validate,
                ) {
                    Ok((proof, used)) => Ok((proof, 8 + used)),
                    Err(e) => Err(e),
                }
            },
            Err(e) => Err(e),
        }
    }

    /// Whether every part is the one that its own encoding decodes to.
    pub open spec fn canonical(self, compress: bool, validate: bool) -> bool {
        &&& self.commitments.canonical(compress, validate)
        &&& self.evaluations.canonical(compress, validate)
        &&& self.msg.canonical(compress, validate)
        &&& self.pc_proof.canonical(compress, validate)
    }

    /// Whether every commitment belongs to the group.
    pub open spec fn valid(self) -> bool {
        self.commitments.valid() && self.pc_proof.valid()
    }

    /// What the four stages of decoding the body yield is what decoding the
    /// body yields.
    pub proof fn lemma_decoding_stages(
        bytes: Seq<u8>,
        batch_size: usize,
        compress: bool,
        validate: bool,
        commitments: (CommitmentsView, nat),
        evaluations: (EvaluationsView, nat),
        msg: (FifthMessage, nat),
        pc_proof: (BatchLCProofView, nat),
    )
        requires
            CommitmentsView::decoding(bytes, batch_size as nat, compress, validate) == Ok::<
                (CommitmentsView, nat),
                SerializationError,
            >(commitments),
            EvaluationsView::decoding(
                bytes.skip(commitments.1 as int),
                batch_size as nat,
                compress,
                validate,
            ) == Ok::<(EvaluationsView, nat), SerializationError>(evaluations),
            FifthMessage::decoding(
                bytes.skip(commitments.1 as int).skip(evaluations.1 as int),
                compress,
                validate,
            ) == Ok::<(FifthMessage, nat), SerializationError>(msg),
            BatchLCProofView::decoding(
                bytes.skip(commitments.1 as int).skip(evaluations.1 as int).skip(msg.1 as int),
                compress,
                validate,
            ) == Ok::<(BatchLCProofView, nat), SerializationError>(pc_proof),
        ensures
            ProofView::decoding_body(bytes, batch_size, compress, validate) == Ok::<
                (ProofView, nat),
                SerializationError,
            >(
                (
                    ProofView {
                        batch_size,
                        commitments: commitments.0,
                        evaluations: evaluations.0,
                        msg: msg.0,
                        pc_proof: pc_proof.0,
                    },
                    commitments.1 + evaluations.1 + msg.1 + pc_proof.1,
                ),
            ),
    {
    }

    /// The body of a well-formed canonical proof is read back from its
    /// encoding, whatever follows it.
    pub proof fn lemma_round_trip_body(self, compress: bool, validate: bool, rest: Seq<u8>)
        requires
            self.wf(),
            self.canonical(compress, validate),
        ensures
            ProofView::decoding_body(
                self.commitments.encoding(compress) + self.evaluations.encoding(compress)
                    + self.msg.encoding(compress) + self.pc_proof.encoding(compress) + rest,
                self.batch_size,
                compress,
                validate,
            ) == Ok::<(ProofView, nat), SerializationError>(
                (
                    self,
                    self.commitments.encoding(compress).len() + self.evaluations.encoding(
                        compress,
                    ).len() + self.msg.encoding(compress).len() + self.pc_proof.encoding(
                        compress,
                    ).len(),
                ),
            ),
    {
        let e1 = self.commitments.encoding(compress);
        let e2 = self.evaluations.encoding(compress);
        let e3 = self.msg.encoding(compress);
        let e4 = self.pc_proof.encoding(compress);
        let t3 = e4 + rest;
        let t2 = e3 + t3;
        let t1 = e2 + t2;
        let bytes = e1 + t1;
        assert(e1 + e2 + e3 + e4 + rest == bytes) by {
            lemma_concat4(e1, e2, e3, e4, rest);
        }
        let d1 = (self.commitments, e1.len());
        let d2 = (self.evaluations, e2.len());
        let d3 = (self.msg, e3.len());
        let d4 = (self.pc_proof, e4.len());
        let n = self.batch_size as nat;
        assert(CommitmentsView::decoding(bytes, n, compress, validate) == Ok::<
            (CommitmentsView, nat),
            SerializationError,
        >(d1) && bytes.skip(e1.len() as int) == t1) by {
            self.commitments.lemma_round_trip(n, compress, validate, t1);
            assert(bytes.skip(e1.len() as int) =~= t1);
        }
        assert(EvaluationsView::decoding(t1, n, compress, validate) == Ok::<
            (EvaluationsView, nat),
            SerializationError,
        >(d2) && t1.skip(e2.len() as int) == t2) by {
            self.evaluations.lemma_round_trip(n, compress, validate, t2);
            assert(t1.skip(e2.len() as int) =~= t2);
        }
        assert(FifthMessage::decoding(t2, compress, validate) == Ok::<
            (FifthMessage, nat),
            SerializationError,
        >(d3) && t2.skip(e3.len() as int) == t3) by {
            self.msg.lemma_round_trip(compress, validate, t3);
            assert(t2.skip(e3.len() as int) =~= t3);
        }
        assert(BatchLCProofView::decoding(t3, compress, validate) == Ok::<
            (BatchLCProofView, nat),
            SerializationError,
        >(d4)) by {
            self.pc_proof.lemma_round_trip(compress, validate, rest);
        }
        assert(ProofView::decoding_body(bytes, self.batch_size, compress, validate) == Ok::<
            (ProofView, nat),
            SerializationError,
        >(
            (
                ProofView {
                    batch_size: self.batch_size,
                    commitments: d1.0,
                    evaluations: d2.0,
                    msg: d3.0,
                    pc_proof: d4.0,
                },
                d1.1 + d2.1 + d3.1 + d4.1,
            ),
        )) by {
            ProofView::lemma_decoding_stages(
                bytes,
                self.batch_size,
                compress,
                validate,
                d1,
                d2,
                d3,
                d4,
            );
        }
    }

    /// Decoding after encoding gives the proof back: a well-formed proof
    /// whose parts are canonical is read back from its encoding in every
    /// pair of modes, whatever follows it, and reading it takes exactly the
    /// bytes of the encoding.
    pub proof fn lemma_round_trip(self, compress: bool, validate: bool, rest: Seq<u8>)
        requires
            self.wf(),
            self.canonical(compress, validate),
        ensures
            ProofView::decoding(self.encoding(compress) + rest, compress, validate) == Ok::<
                (ProofView, nat),
                SerializationError,
            >((self, self.encoding(compress).len())),
    {
        let count = self.batch_size as u64;
        let head = count.encoding(compress);
        let inner = self.commitments.encoding(compress) + self.evaluations.encoding(compress)
            + self.msg.encoding(compress) + self.pc_proof.encoding(compress);
        let body = inner + rest;
        let bytes = head + body;
        assert(self.encoding(compress) + rest == bytes && self.encoding(compress).len() == 8
            + inner.len() && head.len() == 8) by {
            lemma_le_bytes_len(self.batch_size as nat, 8);
            assert(self.encoding(compress) =~= head + inner);
            assert((head + inner) + rest =~= head + (inner + rest));
        }
        assert(u64::decoding(bytes, compress, validate) == Ok::<(u64, nat), SerializationError>(
            (count, 8),
        ) && bytes.skip(8) == body) by {
            count.lemma_round_trip(compress, validate, body);
            assert(bytes.skip(8) =~= body);
        }
        assert(ProofView::decoding_body(body, self.batch_size, compress, validate) == Ok::<
            (ProofView, nat),
            SerializationError,
        >((self, inner.len()))) by {
            self.lemma_round_trip_body(compress, validate, rest);
            lemma_concat4(
                self.commitments.encoding(compress),
                self.evaluations.encoding(compress),
                self.msg.encoding(compress),
                self.pc_proof.encoding(compress),
                rest,
            );
        }
        ProofView::lemma_decoding_head(bytes, compress, validate, count, (self, inner.len()));
    }

    /// What reading the batch size and then the body yields is what decoding
    /// yields.
    pub proof fn lemma_decoding_head(
        bytes: Seq<u8>,
        compress: bool,
        validate: bool,
        count: u64,
        body: (ProofView, nat),
    )
        requires
            u64::decoding(bytes, compress, validate) == Ok::<(u64, nat), SerializationError>(
                (count, 8),
            ),
            count <= usize::MAX,
            ProofView::decoding_body(bytes.skip(8), count as usize, compress, validate) == Ok::<
                (ProofView, nat),
                SerializationError,
            >(body),
        ensures
            ProofView::decoding(bytes, compress, validate) == Ok::<
                (ProofView, nat),
                SerializationError,
            >((body.0, 8 + body.1)),
    {
    }

    /// Whatever is decoded is well formed: every per-instance vector has as
    /// many entries as the batch size at the front of the bytes says, and
    /// decoding takes no more bytes than there are.
    pub proof fn lemma_decoded_is_well_formed(bytes: Seq<u8>, compress: bool, validate: bool)
        ensures
            ProofView::decoding(bytes, compress, validate) is Ok ==> {
                &&& ProofView::decoding(bytes, compress, validate).unwrap().0.wf()
                &&& ProofView::decoding(bytes, compress, validate).unwrap().0.batch_size
                    == le_value(bytes.take(8))
                &&& ProofView::decoding(bytes, compress, validate).unwrap().1 <= bytes.len()
            },
    {
        if let Ok((count, _)) = u64::decoding(bytes, compress, validate) {
            if count <= usize::MAX {
                ProofView::lemma_body_is_well_formed(
                    bytes.skip(8),
                    count as usize,
                    compress,
                    validate,
                );
                lemma_le_bytes_of_value(bytes.take(8));
                reveal_with_fuel(byte_range, 9);
            }
        }
    }

    /// The body that is decoded for a batch size has that batch size and is
    /// well formed.
    pub proof fn lemma_body_is_well_formed(
        bytes: Seq<u8>,
        batch_size: usize,
        compress: bool,
        validate: bool,
    )
        ensures
            ProofView::decoding_body(bytes, batch_size, compress, validate) is Ok ==> {
                &&& ProofView::decoding_body(bytes, batch_size, compress, validate).unwrap().0.wf()
                &&& ProofView::decoding_body(
                    bytes,
                    batch_size,
                    compress,
                    validate,
                ).unwrap().0.batch_size == batch_size
                &&& ProofView::decoding_body(bytes, batch_size, compress, validate).unwrap().1
                    <= bytes.len()
            },
    {
        let n = batch_size as nat;
        CommitmentsView::lemma_decoding_bound(bytes, n, compress, validate);
        if let Ok((commitments, n1)) = CommitmentsView::decoding(bytes, n, compress, validate) {
            let b1 = bytes.skip(n1 as int);
            EvaluationsView::lemma_decoding_bound(b1, n, compress, validate);
            if let Ok((evaluations, n2)) = EvaluationsView::decoding(b1, n, compress, validate) {
                let b2 = b1.skip(n2 as int);
                FifthMessage::lemma_decoding_bound(b2, compress, validate);
                if let Ok((msg, n3)) = FifthMessage::decoding(b2, compress, validate) {
                    let b3 = b2.skip(n3 as int);
                    BatchLCProofView::lemma_decoding_bound(b3, compress, validate);
                }
            }
        }
    }
}

impl Proof {
    /// Whether every part of the proof is the one that its own encoding
    /// decodes to: encodes each commitment, decodes the bytes and compares.
    /// Such a proof, where it is well formed, is read back from its
    /// encoding, as [`ProofView::lemma_round_trip`] shows.
    pub fn is_canonical(&self, compress: Compress, validate: Validate) -> (r: bool)
        ensures
            r == self@.canonical(compress.on(), validate.on()),
    {
        self.commitments.is_canonical(compress, validate) && self.evaluations.is_canonical(
            compress,
            validate,
        ) && self.msg.reads_back(compress, validate) && self.pc_proof.is_canonical(
            compress,
            validate,
        )
    }

    /// The commitments to the prover's polynomials.
    pub fn commitments(&self) -> (r: &Commitments)
        ensures
            r@ == self@.commitments,
    {
        &self.commitments
    }

    /// The evaluations that the proof claims.
    pub fn evaluations(&self) -> (r: &Evaluations)
        ensures
            r@ == self@.evaluations,
    {
        &self.evaluations
    }

    /// The last message of the prover.
    pub fn msg(&self) -> (r: &FifthMessage)
        ensures
            *r == self@.msg,
    {
        &self.msg
    }

    /// The batched opening proof.
    pub fn pc_proof(&self) -> (r: &BatchLCProof)
        ensures
            r@ == self@.pc_proof,
    {
        &self.pc_proof
    }

    /// Constructs a new proof. Every per-instance vector of the commitments
    /// and of the evaluations has to have `batch_size` entries.
    pub fn new(
        batch_size: usize,
        commitments: Commitments,
        evaluations: Evaluations,
        msg: FifthMessage,
        pc_proof: BatchLCProof,
    ) -> (r: Result<Proof, SNARKError>)
        ensures
            commitments@.sized(batch_size as nat) && evaluations@.sized(batch_size as nat) ==> r
                is Ok && r.unwrap()@ == (ProofView {
                batch_size,
                commitments: commitments@,
                evaluations: evaluations@,
                msg,
                pc_proof: pc_proof@,
            }),
            !(commitments@.sized(batch_size as nat) && evaluations@.sized(batch_size as nat)) ==> r
                == Err::<Proof, SNARKError>(SNARKError::BatchSizeMismatch),
    {
        if commitments.witness_commitments.len() != batch_size
            || commitments.lookup_commitments.len() != batch_size {
            return Err(SNARKError::BatchSizeMismatch);
        }
        if evaluations.z_b_evals.len() != batch_size || evaluations.f_evals.len() != batch_size
            || evaluations.s_1_evals.len() != batch_size || evaluations.s_2_evals.len()
            != batch_size || evaluations.z_2_evals.len() != batch_size
            || evaluations.delta_s_1_omega_evals.len() != batch_size {
            return Err(SNARKError::BatchSizeMismatch);
        }
        Ok(Proof { batch_size, commitments, evaluations, msg, pc_proof })
    }

    /// The number of instances of the batch, if every per-instance vector
    /// still has that many entries.
    pub fn batch_size(&self) -> (r: Result<usize, SNARKError>)
        ensures
            self@.wf() ==> r == Ok::<usize, SNARKError>(self@.batch_size),
            !self@.wf() ==> r == Err::<usize, SNARKError>(SNARKError::BatchSizeMismatch),
    {
        let batch_size = self.batch_size;
        if self.commitments.witness_commitments.len() != batch_size
            || self.commitments.lookup_commitments.len() != batch_size {
            return Err(SNARKError::BatchSizeMismatch);
        }
        if self.evaluations.z_b_evals.len() != batch_size || self.evaluations.f_evals.len()
            != batch_size || self.evaluations.s_1_evals.len() != batch_size
            || self.evaluations.s_2_evals.len() != batch_size || self.evaluations.z_2_evals.len()
            != batch_size || self.evaluations.delta_s_1_omega_evals.len() != batch_size {
            return Err(SNARKError::BatchSizeMismatch);
        }
        Ok(batch_size)
    }

    /// Appends the encoding of the proof to `writer`: the batch size, the
    /// commitments, the evaluations, the message and the opening proof.
    pub fn serialize_with_mode(&self, writer: &mut Vec<u8>, compress: Compress) -> (r: Result<
        (),
        SerializationError,
    >)
        ensures
            r is Ok,
            final(writer)@ == old(writer)@ + self@.encoding(compress.on()),
    {
        let ghost start = writer@;
        let _ = (self.batch_size as u64).serialize_with_mode(writer, compress);
        let _ = self.commitments.serialize_with_mode(writer, compress);
        let _ = self.evaluations.serialize_with_mode(writer, compress);
        let _ = self.msg.serialize_with_mode(writer, compress);
        let _ = self.pc_proof.serialize_with_mode(writer, compress);
        assert(writer@ =~= start + self@.encoding(compress.on()));
        Ok(())
    }

    /// The encoding of the proof.
    pub fn to_bytes(&self, compress: Compress) -> (r: Vec<u8>)
        ensures
            r@ == self@.encoding(compress.on()),
    {
        let mut writer: Vec<u8> = Vec::new();
        let _ = self.serialize_with_mode(&mut writer, compress);
        assert(Seq::<u8>::empty() + self@.encoding(compress.on()) =~= self@.encoding(compress.on()));
        writer
    }

    /// The number of bytes of the encoding.
    pub fn serialized_size(&self, mode: Compress) -> (r: usize)
        ensures
            r == self@.encoding(mode.on()).len(),
    {
        self.to_bytes(mode).len()
    }

    /// Whether every commitment of the proof belongs to the group.
    pub fn check(&self) -> (r: Result<(), SerializationError>)
        ensures
            self@.valid() ==> r is Ok,
            !self@.valid() ==> r == Err::<(), SerializationError>(SerializationError::InvalidData),
    {
        match self.commitments.check() {
            Ok(_) => {},
            Err(e) => {
                return Err(e);
            },
        }
        let _ = self.evaluations.check();
        self.pc_proof.check()
    }

    /// Reads the part of a proof that follows the batch size off the front of
    /// `reader`.
    fn deserialize_body(
        batch_size: usize,
        reader: &mut Reader,
        compress: Compress,
        validate: Validate,
    ) -> (r: Result<Proof, SerializationError>)
        ensures
            match ProofView::decoding_body(
                old(reader)@,
                batch_size,
                compress.on(),
                validate.on(),
            ) {
                Ok((value, used)) => r is Ok && r.unwrap()@ == value && final(reader)@ == old(
                    reader,
                )@.skip(used as int),
                Err(e) => r == Err::<Proof, SerializationError>(e),
            },
            validate.on() && r is Ok ==> r.unwrap()@.valid(),
    {
        let ghost b0 = reader@;
        let ghost (c, v) = (compress.on(), validate.on());
        let ghost n = batch_size as nat;
        proof {
            CommitmentsView::lemma_decoding_bound(b0, n, c, v);
        }
        let commitments = match Commitments::deserialize_with_mode(
            batch_size,
            reader,
            compress,
            validate,
        ) {
            Ok(commitments) => commitments,
            Err(e) => {
                return Err(e);
            },
        };
        let ghost d1 = CommitmentsView::decoding(b0, n, c, v).unwrap();
        let ghost b1 = b0.skip(d1.1 as int);
        proof {
            EvaluationsView::lemma_decoding_bound(b1, n, c, v);
        }
        let evaluations = match Evaluations::deserialize_with_mode(
            batch_size,
            reader,
            compress,
            validate,
        ) {
            Ok(evaluations) => evaluations,
            Err(e) => {
                return Err(e);
            },
        };
        let ghost d2 = EvaluationsView::decoding(b1, n, c, v).unwrap();
        let ghost b2 = b1.skip(d2.1 as int);
        proof {
            FifthMessage::lemma_decoding_bound(b2, c, v);
        }
        let msg = match FifthMessage::deserialize_with_mode(reader, compress, validate) {
            Ok(msg) => msg,
            Err(e) => {
                return Err(e);
            },
        };
        let ghost d3 = FifthMessage::decoding(b2, c, v).unwrap();
        let ghost b3 = b2.skip(d3.1 as int);
        proof {
            BatchLCProofView::lemma_decoding_bound(b3, c, v);
        }
        let pc_proof = match BatchLCProof::deserialize_with_mode(reader, compress, validate) {
            Ok(pc_proof) => pc_proof,
            Err(e) => {
                return Err(e);
            },
        };
        proof {
            let d4 = BatchLCProofView::decoding(b3, c, v).unwrap();
            assert(b3.skip(d4.1 as int) =~= b0.skip((d1.1 + d2.1 + d3.1 + d4.1) as int));
            ProofView::lemma_decoding_stages(b0, batch_size, c, v, d1, d2, d3, d4);
        }
        Ok(Proof { batch_size, commitments, evaluations, msg, pc_proof })
    }

    /// Reads a proof off the front of `reader`.
    pub fn deserialize_with_mode(reader: &mut Reader, compress: Compress, validate: Validate) -> (r:
        Result<Proof, SerializationError>)
        ensures
            match ProofView::decoding(old(reader)@, compress.on(), validate.on()) {
                Ok((value, used)) => r is Ok && r.unwrap()@ == value && final(reader)@ == old(
                    reader,
                )@.skip(used as int),
                Err(e) => r == Err::<Proof, SerializationError>(e),
            },
            validate.on() && r is Ok ==> r.unwrap()@.valid(),
    {
        let ghost bytes = reader@;
        let ghost (c, v) = (compress.on(), validate.on());
        let count = match u64::deserialize_with_mode(reader, compress, validate) {
            Ok(count) => count,
            Err(e) => {
                return Err(e);
            },
        };
        if count > usize::MAX as u64 {
            return Err(SerializationError::IncompatibleTarget);
        }
        let batch_size = count as usize;
        proof {
            ProofView::lemma_body_is_well_formed(bytes.skip(8), batch_size, c, v);
        }
        match Proof::deserialize_body(batch_size, reader, compress, validate) {
            Ok(proof) => {
                proof {
                    let used = ProofView::decoding_body(bytes.skip(8), batch_size, c, v).unwrap().1;
                    assert(bytes.skip(8).skip(used as int) =~= bytes.skip((8 + used) as int));
                }
                Ok(proof)
            },
            Err(e) => Err(e),
        }
    }

    /// Appends the short encoding of the proof to `writer`.
    pub fn write_le(&self, writer: &mut Vec<u8>) -> (r: Result<(), SerializationError>)
        ensures
            r is Ok,
            final(writer)@ == old(writer)@ + self@.encoding(true),
    {
        self.serialize_with_mode(writer, Compress::Yes)
    }

    /// Reads a proof in its short encoding off the front of `reader`, and
    /// tests every commitment for membership in the group.
    pub fn read_le(reader: &mut Reader) -> (r: Result<Proof, SerializationError>)
        ensures
            match ProofView::decoding(old(reader)@, true, true) {
                Ok((value, used)) => r is Ok && r.unwrap()@ == value && final(reader)@ == old(
                    reader,
                )@.skip(used as int),
                Err(e) => r == Err::<Proof, SerializationError>(e),
            },
            r is Ok ==> r.unwrap()@.valid(),
    {
        Proof::deserialize_with_mode(reader, Compress::Yes, Validate::Yes)
    }
}

} // verus!
