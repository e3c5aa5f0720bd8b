use snark_core::field::Field;
use snark_core::snark::base_field::BaseField;
use snark_core::snark::codec::{Canonical, Compress, Reader, Validate};
use snark_core::snark::commitment::Commitment;
use snark_core::snark::data_structures::{
    BatchLCProof, Commitments, Evaluations, FifthMessage, KZGProof, LookupCommitments, Proof, WitnessCommitments,
};
use snark_core::snark::errors::{SNARKError, SerializationError};
use snarkvm_curves::bls12_377::{Fr, G1Affine, G1Projective};
use snarkvm_curves::{AffineCurve, ProjectiveCurve};
use snarkvm_fields::PrimeField;
use snarkvm_utilities::{TestRng, Uniform};

const MODES: [(Compress, Validate); 4] = [
    (Compress::Yes, Validate::Yes),
    (Compress::Yes, Validate::No),
    (Compress::No, Validate::Yes),
    (Compress::No, Validate::No),
];

// The k-th multiple of the generator of the group, as a commitment.
fn point(k: u64) -> Commitment {
    let p: G1Affine = (G1Projective::prime_subgroup_generator() * Fr::from(k)).to_affine();
    Commitment {
        x: BaseField::from_limbs(p.x.to_bigint().0).unwrap(),
        y: BaseField::from_limbs(p.y.to_bigint().0).unwrap(),
        infinity: p.infinity,
    }
}

fn fields(values: &[u64]) -> Vec<Field> {
    values.iter().map(|v| Field::from_u64(*v)).collect()
}

fn commitments(batch_size: usize, mask: bool) -> Commitments {
    let base = 100 * batch_size as u64;
    Commitments {
        witness_commitments: (0..batch_size as u64)
            .map(|i| WitnessCommitments { w: point(10 * i + 1), z_a: point(10 * i + 2), z_b: point(10 * i + 3), z_c: point(10 * i + 4) })
            .collect(),
        mask_poly: if mask { Some(point(base + 50)) } else { None },
        lookup_commitments: (0..batch_size as u64)
            .map(|i| LookupCommitments {
                f: point(base + 10 * i + 1),
                s_1: point(base + 10 * i + 2),
                s_2: point(base + 10 * i + 3),
                z_2: point(base + 10 * i + 4),
                delta_s_1_omega: point(base + 10 * i + 5),
                z_2_omega: point(base + 10 * i + 6),
            })
            .collect(),
        table: point(901),
        delta_table_omega: point(902),
        g_1: point(903),
        h_1: point(904),
        g_a: point(905),
        g_b: point(906),
        g_c: point(907),
        h_2: point(908),
    }
}

fn evaluations(batch_size: usize) -> Evaluations {
    let column = |k: u64| (0..batch_size as u64).map(|i| Field::from_u64(1000 * k + i)).collect::<Vec<_>>();
    Evaluations {
        z_b_evals: column(1),
        f_evals: column(2),
        s_1_evals: column(3),
        s_2_evals: column(4),
        z_2_evals: column(5),
        delta_s_1_omega_evals: column(6),
        s_m_eval: Field::from_u64(71),
        s_l_eval: Field::from_u64(72),
        table_eval: Field::from_u64(73),
        delta_table_omega_eval: Field::from_u64(74),
        g_1_eval: Field::from_u64(75),
        g_a_eval: Field::from_u64(76),
        g_b_eval: Field::from_u64(77),
        g_c_eval: Field::from_u64(78),
    }
}

fn message() -> FifthMessage {
    FifthMessage { sum_a: Field::from_u64(11), sum_b: Field::from_u64(12), sum_c: Field::from_u64(13) }
}

fn opening(with_evaluations: bool) -> BatchLCProof {
    BatchLCProof {
        proof: vec![
            KZGProof { w: point(31), random_v: Some(Field::from_u64(41)) },
            KZGProof { w: point(32), random_v: None },
        ],
        evaluations: if with_evaluations { Some(fields(&[51, 52, 53])) } else { None },
    }
}

fn sample(batch_size: usize, mask: bool, with_evaluations: bool) -> Proof {
    Proof::new(batch_size, commitments(batch_size, mask), evaluations(batch_size), message(), opening(with_evaluations))
        .unwrap()
}

fn same_proof(a: &Proof, b: &Proof) -> bool {
    a == b
}

#[test]
fn proof_round_trips_in_every_pair_of_modes() {
    for batch_size in [0usize, 1, 3] {
        for (mask, with_evaluations) in [(true, true), (false, false), (true, false)] {
            let original = sample(batch_size, mask, with_evaluations);
            for (compress, validate) in MODES {
                let bytes = original.to_bytes(compress);
                assert_eq!(bytes.len(), original.serialized_size(compress));
                let mut reader = Reader::new(&bytes);
                let decoded = Proof::deserialize_with_mode(&mut reader, compress, validate).unwrap();
                assert_eq!(reader.remaining(), 0);
                assert!(same_proof(&original, &decoded));
                assert_eq!(decoded.batch_size(), Ok(batch_size));
            }
        }
    }
}

#[test]
fn proof_is_read_off_the_front_of_a_longer_stream() {
    let original = sample(2, true, true);
    let mut bytes = original.to_bytes(Compress::Yes);
    let own = bytes.len();
    bytes.extend_from_slice(&[0xAB; 5]);
    let mut reader = Reader::new(&bytes);
    let decoded = Proof::read_le(&mut reader).unwrap();
    assert!(same_proof(&original, &decoded));
    assert_eq!(reader.remaining(), 5);
    let mut written = Vec::new();
    original.write_le(&mut written).unwrap();
    assert_eq!(&bytes[..own], &written[..]);
}

#[test]
fn wire_layout_of_a_proof() {
    let original = sample(2, true, false);
    let bytes = original.to_bytes(Compress::Yes);
    // Batch size, 2 * 4 + 2 * 6 points, the mask flag and point, 8 points,
    // 2 * 6 + 8 evaluations, 3 sums, 2 counted openings, the evaluations flag.
    let expected = 8 + 20 * 48 + 1 + 48 + 8 * 48 + 20 * 32 + 3 * 32 + (8 + 48 + 1 + 32 + 48 + 1) + 1;
    assert_eq!(bytes.len(), expected);
    assert_eq!(&bytes[..8], &2u64.to_le_bytes());
    // The first witness commitment follows the batch size.
    let mut w = Vec::new();
    original.commitments.witness_commitments[0].w.serialize_with_mode(&mut w, Compress::Yes).unwrap();
    assert_eq!(w.len(), 48);
    assert_eq!(&bytes[8..56], &w[..]);
    // The first evaluation is z_b of the first instance: 1000.
    let evaluations_at = 8 + 20 * 48 + 49 + 8 * 48;
    assert_eq!(&bytes[evaluations_at..evaluations_at + 2], &1000u16.to_le_bytes());
    assert_eq!(&bytes[evaluations_at + 2..evaluations_at + 32], &[0u8; 30]);
    // Uncompressed points take twice the room.
    let long = original.to_bytes(Compress::No);
    assert_eq!(long.len(), expected + 31 * 48);
    assert_eq!(original.commitments.serialized_size(Compress::Yes), 20 * 48 + 49 + 8 * 48);
    assert_eq!(original.commitments.serialized_size(Compress::No), 20 * 96 + 97 + 8 * 96);
    assert_eq!(original.evaluations.serialized_size(Compress::Yes), 20 * 32);
}

#[test]
fn mismatched_vectors_are_refused_at_construction() {
    assert!(Proof::new(2, commitments(2, true), evaluations(2), message(), opening(true)).is_ok());
    let refused = |c: Commitments, e: Evaluations| {
        matches!(Proof::new(2, c, e, message(), opening(true)), Err(SNARKError::BatchSizeMismatch))
    };
    assert!(refused(commitments(1, true), evaluations(2)));
    assert!(refused(commitments(3, true), evaluations(2)));
    assert!(refused(commitments(2, true), evaluations(1)));
    let mut c = commitments(2, true);
    c.lookup_commitments.pop();
    assert!(refused(c, evaluations(2)));
    for column in 0..6 {
        let mut e = evaluations(2);
        let target = match column {
            0 => &mut e.z_b_evals,
            1 => &mut e.f_evals,
            2 => &mut e.s_1_evals,
            3 => &mut e.s_2_evals,
            4 => &mut e.z_2_evals,
            _ => &mut e.delta_s_1_omega_evals,
        };
        target.push(Field::zero());
        assert!(refused(commitments(2, true), e));
    }
}

#[test]
fn batch_size_is_rechecked_after_a_vector_changed() {
    let mut p = sample(2, true, true);
    assert_eq!(p.batch_size(), Ok(2));
    p.evaluations.s_2_evals.pop();
    assert_eq!(p.batch_size(), Err(SNARKError::BatchSizeMismatch));
    let mut p = sample(2, true, true);
    p.commitments.witness_commitments.clear();
    assert_eq!(p.batch_size(), Err(SNARKError::BatchSizeMismatch));
}

#[test]
fn stream_with_a_wrong_batch_size_is_rejected() {
    let original = sample(2, true, true);
    let bytes = original.to_bytes(Compress::Yes);
    for claimed in [0u64, 1, 3, 4, u64::MAX] {
        let mut forged = bytes.clone();
        forged[..8].copy_from_slice(&claimed.to_le_bytes());
        let mut reader = Reader::new(&forged);
        assert!(Proof::deserialize_with_mode(&mut reader, Compress::Yes, Validate::Yes).is_err());
    }
}

#[test]
fn truncated_stream_is_rejected() {
    let bytes = sample(1, false, true).to_bytes(Compress::Yes);
    for cut in [0, 7, 8, 100, bytes.len() - 1] {
        let mut reader = Reader::new(&bytes[..cut]);
        assert!(matches!(
            Proof::deserialize_with_mode(&mut reader, Compress::Yes, Validate::No),
            Err(SerializationError::NotEnoughBytes)
        ));
    }
}

#[test]
fn flipped_bits_do_not_pass_for_the_same_proof() {
    let original = sample(1, true, true);
    let bytes = original.to_bytes(Compress::Yes);
    let mut accepted_as_same = 0;
    for position in (8..bytes.len()).step_by(7) {
        let mut forged = bytes.clone();
        forged[position] ^= 1 << (position % 8);
        let mut reader = Reader::new(&forged);
        if let Ok(decoded) = Proof::deserialize_with_mode(&mut reader, Compress::Yes, Validate::Yes) {
            if same_proof(&original, &decoded) {
                accepted_as_same += 1;
            }
        }
    }
    assert_eq!(accepted_as_same, 0);
}

#[test]
fn field_element_bytes() {
    let mut bytes = Vec::new();
    Field::from_u64(0x0102).serialize_with_mode(&mut bytes, Compress::Yes).unwrap();
    let mut expected = vec![0u8; 32];
    expected[0] = 2;
    expected[1] = 1;
    assert_eq!(bytes, expected);
    assert_eq!(Field::from_u64(0x0102).to_bytes_le(), expected);
    assert_eq!(Field::from_bytes_le(&expected), Some(Field::from_u64(0x0102)));
    assert_eq!(Field::from_bytes_le(&expected[1..]), None);
    let mut reader = Reader::new(&expected);
    assert_eq!(Field::deserialize_with_mode(&mut reader, Compress::No, Validate::Yes), Ok(Field::from_u64(0x0102)));
    assert_eq!(reader.remaining(), 0);
    // The modulus itself is no element, and neither is anything above it.
    let modulus: [u64; 4] = [725501752471715841, 6461107452199829505, 6968279316240510977, 1345280370688173398];
    let spelled: Vec<u8> = modulus.iter().flat_map(|l| l.to_le_bytes()).collect();
    let mut reader = Reader::new(&spelled);
    assert_eq!(
        Field::deserialize_with_mode(&mut reader, Compress::Yes, Validate::Yes),
        Err(SerializationError::InvalidData)
    );
    assert_eq!(Field::from_bytes_le(&spelled), None);
    let mut below = spelled.clone();
    below[0] -= 1;
    assert!(Field::from_bytes_le(&below).is_some());
    assert_eq!(Field::from_bytes_le(&[0xff; 32]), None);
    let mut reader = Reader::new(&[0u8; 31]);
    assert_eq!(
        Field::deserialize_with_mode(&mut reader, Compress::Yes, Validate::Yes),
        Err(SerializationError::NotEnoughBytes)
    );
}

#[test]
fn commitment_bytes() {
    // The point at infinity: 47 zero bytes and the infinity flag.
    let zero = Commitment::zero();
    let mut bytes = Vec::new();
    zero.serialize_with_mode(&mut bytes, Compress::Yes).unwrap();
    let mut expected = vec![0u8; 48];
    expected[47] = 0x40;
    assert_eq!(bytes, expected);
    for (compress, validate) in MODES {
        let mut bytes = Vec::new();
        zero.serialize_with_mode(&mut bytes, compress).unwrap();
        assert_eq!(bytes.len(), Commitment::size(compress));
        let mut reader = Reader::new(&bytes);
        assert_eq!(Commitment::deserialize_with_mode(&mut reader, compress, validate), Ok(zero));
    }
    // A point and its negation share x and differ in the sign flag.
    let p = point(5);
    let negated = {
        let q: G1Affine = (G1Projective::prime_subgroup_generator() * -Fr::from(5u64)).to_affine();
        Commitment {
            x: BaseField::from_limbs(q.x.to_bigint().0).unwrap(),
            y: BaseField::from_limbs(q.y.to_bigint().0).unwrap(),
            infinity: false,
        }
    };
    assert_eq!(p.x, negated.x);
    assert_ne!(p.y, negated.y);
    let (mut a, mut b) = (Vec::new(), Vec::new());
    p.serialize_with_mode(&mut a, Compress::Yes).unwrap();
    negated.serialize_with_mode(&mut b, Compress::Yes).unwrap();
    assert_eq!(a[..47], b[..47]);
    assert_eq!(a[47] ^ b[47], 0x80);
    let x_bytes: Vec<u8> = p.x.to_limbs().iter().flat_map(|l| l.to_le_bytes()).collect();
    assert_eq!(a[..47], x_bytes[..47]);
    assert_eq!(a[47] & 0x7f, x_bytes[47]);
    // The long form spells both coordinates.
    let mut long = Vec::new();
    p.serialize_with_mode(&mut long, Compress::No).unwrap();
    let y_bytes: Vec<u8> = p.y.to_limbs().iter().flat_map(|l| l.to_le_bytes()).collect();
    assert_eq!(long, [x_bytes, y_bytes].concat());
    for (compress, validate) in MODES {
        let mut bytes = Vec::new();
        p.serialize_with_mode(&mut bytes, compress).unwrap();
        let mut reader = Reader::new(&bytes);
        assert_eq!(Commitment::deserialize_with_mode(&mut reader, compress, validate), Ok(p));
    }
}

#[test]
fn points_outside_the_group_fail_validation() {
    assert!(point(7).is_valid());
    assert!(Commitment::zero().is_valid());
    let off_curve = Commitment { x: BaseField::one(), y: BaseField::one(), infinity: false };
    assert!(!off_curve.is_valid());
    let mut bytes = Vec::new();
    off_curve.serialize_with_mode(&mut bytes, Compress::No).unwrap();
    let mut reader = Reader::new(&bytes);
    assert_eq!(
        Commitment::deserialize_with_mode(&mut reader, Compress::No, Validate::Yes),
        Err(SerializationError::InvalidData)
    );
    let mut reader = Reader::new(&bytes);
    assert_eq!(Commitment::deserialize_with_mode(&mut reader, Compress::No, Validate::No), Ok(off_curve));
    // A proof that holds such a point does not pass the check.
    let mut c = commitments(1, true);
    assert!(c.check().is_ok());
    c.g_b = off_curve;
    assert_eq!(c.check(), Err(SerializationError::InvalidData));
    let mut p = sample(1, true, true);
    assert!(p.check().is_ok());
    p.pc_proof.proof[1].w = off_curve;
    assert_eq!(p.check(), Err(SerializationError::InvalidData));
    assert!(evaluations(2).check().is_ok());
}

#[test]
fn base_field_limbs() {
    let q: [u64; 6] = [
        0x8508c00000000001,
        0x170b5d4430000000,
        0x1ef3622fba094800,
        0x1a22d9f300f5138f,
        0xc63b05c06ca1493b,
        0x1ae3a4617c510ea,
    ];
    assert!(BaseField::from_limbs(q).is_none());
    let mut below = q;
    below[0] -= 1;
    assert_eq!(BaseField::from_limbs(below).unwrap().to_limbs(), below);
    let mut above = q;
    above[3] += 1;
    assert!(BaseField::from_limbs(above).is_none());
    let mut low_limb_larger = q;
    low_limb_larger[5] -= 1;
    low_limb_larger[0] = u64::MAX;
    assert!(BaseField::from_limbs(low_limb_larger).is_some());
    assert_eq!(BaseField::zero().to_limbs(), [0; 6]);
    assert_eq!(BaseField::one().to_limbs(), [1, 0, 0, 0, 0, 0]);
}

#[test]
fn evaluations_are_listed_in_wire_order() {
    let e = evaluations(2);
    assert_eq!(
        e.to_field_elements(),
        fields(&[1000, 1001, 2000, 2001, 3000, 3001, 4000, 4001, 5000, 5001, 6000, 6001, 71, 72, 73, 74, 75, 76, 77, 78])
    );
    let mut bytes = Vec::new();
    e.serialize_with_mode(&mut bytes, Compress::Yes).unwrap();
    let mut reader = Reader::new(&bytes);
    let decoded = Evaluations::deserialize_with_mode(2, &mut reader, Compress::Yes, Validate::Yes).unwrap();
    assert_eq!(decoded.to_field_elements(), e.to_field_elements());
    assert_eq!(decoded.s_1_evals, fields(&[3000, 3001]));
    assert_eq!(decoded.g_c_eval, Field::from_u64(78));
    // Read for another batch size, the same bytes are split differently or
    // do not suffice.
    let mut reader = Reader::new(&bytes);
    let other = Evaluations::deserialize_with_mode(1, &mut reader, Compress::Yes, Validate::Yes).unwrap();
    assert_eq!(other.z_b_evals, fields(&[1000]));
    assert_eq!(other.f_evals, fields(&[1001]));
    assert_eq!(reader.remaining(), 6 * 32);
    let mut reader = Reader::new(&bytes);
    assert!(Evaluations::deserialize_with_mode(3, &mut reader, Compress::Yes, Validate::Yes).is_err());
}

// Half of the order of the base field, rounded down, in little-endian limbs.
const HALF: [u64; 6] = [
    4793061456545316864,
    830261717530312704,
    10338489135656117248,
    10165025652810090951,
    7142008483575014557,
    60549156353247349,
];

fn above_half(limbs: [u64; 6]) -> bool {
    for i in (0..6).rev() {
        if limbs[i] != HALF[i] {
            return limbs[i] > HALF[i];
        }
    }
    false
}

#[test]
fn commitment_bytes_follow_the_stated_layout() {
    let mut rng = TestRng::default();
    for _ in 0..200 {
        let p = G1Affine::rand(&mut rng);
        let c = Commitment {
            x: BaseField::from_limbs(p.x.to_bigint().0).unwrap(),
            y: BaseField::from_limbs(p.y.to_bigint().0).unwrap(),
            infinity: p.infinity,
        };
        let x: Vec<u8> = c.x.to_limbs().iter().flat_map(|l| l.to_le_bytes()).collect();
        let y: Vec<u8> = c.y.to_limbs().iter().flat_map(|l| l.to_le_bytes()).collect();
        let mut short = x.clone();
        if above_half(c.y.to_limbs()) {
            short[47] |= 0x80;
        }
        let mut bytes = Vec::new();
        c.serialize_with_mode(&mut bytes, Compress::Yes).unwrap();
        assert_eq!(bytes, short);
        let mut bytes = Vec::new();
        c.serialize_with_mode(&mut bytes, Compress::No).unwrap();
        assert_eq!(bytes, [x, y].concat());
        for (compress, validate) in MODES {
            let mut bytes = Vec::new();
            c.serialize_with_mode(&mut bytes, compress).unwrap();
            assert_eq!(Commitment::deserialize_with_mode(&mut Reader::new(&bytes), compress, validate), Ok(c));
        }
        assert!(c.is_valid());
    }
    // A point at infinity with other coordinates keeps them in the long form
    // and loses them in the short form.
    let odd = Commitment { x: BaseField::one(), y: BaseField::zero(), infinity: true };
    let mut long = Vec::new();
    odd.serialize_with_mode(&mut long, Compress::No).unwrap();
    assert_eq!(long[0], 1);
    assert_eq!(long[95], 0x40);
    assert_eq!(Commitment::deserialize_with_mode(&mut Reader::new(&long), Compress::No, Validate::No), Ok(odd));
    let mut short = Vec::new();
    odd.serialize_with_mode(&mut short, Compress::Yes).unwrap();
    assert_eq!(
        Commitment::deserialize_with_mode(&mut Reader::new(&short), Compress::Yes, Validate::No),
        Ok(Commitment::zero())
    );
}

#[test]
fn what_is_read_with_validation_passes_the_check() {
    let bytes = sample(2, true, true).to_bytes(Compress::No);
    let decoded = Proof::deserialize_with_mode(&mut Reader::new(&bytes), Compress::No, Validate::Yes).unwrap();
    assert!(decoded.check().is_ok());
    // Without validation a point off the curve is read, and fails the check.
    let mut forged = sample(1, false, false);
    forged.commitments.h_1 = Commitment { x: BaseField::one(), y: BaseField::one(), infinity: false };
    let bytes = forged.to_bytes(Compress::No);
    let unchecked = Proof::deserialize_with_mode(&mut Reader::new(&bytes), Compress::No, Validate::No).unwrap();
    assert_eq!(unchecked.check(), Err(SerializationError::InvalidData));
    assert_eq!(
        Proof::deserialize_with_mode(&mut Reader::new(&bytes), Compress::No, Validate::Yes).err(),
        Some(SerializationError::InvalidData)
    );
}

#[test]
fn commitments_of_the_group_are_canonical() {
    for (compress, validate) in MODES {
        assert!(point(7).is_canonical(compress, validate));
        assert!(point(7).reads_back(compress, validate));
        assert!(Commitment::zero().is_canonical(compress, validate));
        assert!(commitments(2, true).is_canonical(compress, validate));
        assert!(commitments(0, false).is_canonical(compress, validate));
        assert!(opening(true).is_canonical(compress, validate));
        assert!(opening(false).is_canonical(compress, validate));
        assert!(evaluations(3).is_canonical(compress, validate));
        assert!(message().reads_back(compress, validate));
        assert!(sample(2, true, true).is_canonical(compress, validate));
        assert!(sample(0, false, false).is_canonical(compress, validate));
    }
}

#[test]
fn a_commitment_that_no_decoder_returns_is_not_canonical() {
    // Off the curve: only the long form without validation gives it back.
    let off_curve = Commitment { x: BaseField::one(), y: BaseField::one(), infinity: false };
    assert!(off_curve.is_canonical(Compress::No, Validate::No));
    assert!(!off_curve.is_canonical(Compress::No, Validate::Yes));
    assert!(!off_curve.is_canonical(Compress::Yes, Validate::Yes));
    assert!(!off_curve.is_canonical(Compress::Yes, Validate::No));
    // The short form of the point at infinity spells no coordinates.
    let marked = Commitment { x: BaseField::one(), y: BaseField::one(), infinity: true };
    assert!(!marked.is_canonical(Compress::Yes, Validate::No));
    assert!(!marked.is_canonical(Compress::Yes, Validate::Yes));
    // A container says of its parts what they say of themselves.
    for (compress, validate) in MODES {
        let expected = off_curve.is_canonical(compress, validate);
        let mut c = commitments(1, true);
        c.g_b = off_curve;
        assert_eq!(c.is_canonical(compress, validate), expected);
        let mut c = commitments(2, false);
        c.lookup_commitments[1].s_2 = off_curve;
        assert_eq!(c.is_canonical(compress, validate), expected);
        let mut c = commitments(1, true);
        c.mask_poly = Some(off_curve);
        assert_eq!(c.is_canonical(compress, validate), expected);
        let mut o = opening(true);
        o.proof[1].w = off_curve;
        assert_eq!(o.is_canonical(compress, validate), expected);
        let mut p = sample(1, true, true);
        p.commitments.witness_commitments[0].z_c = off_curve;
        assert_eq!(p.is_canonical(compress, validate), expected);
        // What is canonical is read back from its own bytes.
        if expected {
            let bytes = p.to_bytes(compress);
            assert_eq!(Proof::deserialize_with_mode(&mut Reader::new(&bytes), compress, validate), Ok(p));
        }
    }
}

#[test]
fn the_parts_of_a_proof_are_handed_out() {
    let p = sample(2, true, false);
    assert_eq!(p.commitments(), &commitments(2, true));
    assert_eq!(p.evaluations(), &evaluations(2));
    assert_eq!(p.msg(), &message());
    assert_eq!(p.pc_proof(), &opening(false));
}

#[test]
fn every_proper_prefix_of_an_encoding_is_incomplete() {
    for (mask, with_evaluations) in [(true, true), (false, false)] {
        let original = sample(1, mask, with_evaluations);
        let bytes = original.to_bytes(Compress::No);
        for cut in 0..bytes.len() {
            let mut reader = Reader::new(&bytes[..cut]);
            assert_eq!(
                Proof::deserialize_with_mode(&mut reader, Compress::No, Validate::No),
                Err(SerializationError::NotEnoughBytes),
                "{cut}"
            );
        }
        assert_eq!(Proof::deserialize_with_mode(&mut Reader::new(&bytes), Compress::No, Validate::No), Ok(original));
    }
}
