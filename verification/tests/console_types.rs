use snark_core::field::{Field, FieldError};
use snark_core::program::bits::ToBits;
use snark_core::program::crh::{BHPCompressedCRH, CRHError, GroupCRH};
use snark_core::program::equal::Equal;
use snark_core::program::group::{Group, GroupError, Scalar};
use snark_core::program::plaintext::Plaintext;
use snark_core::program::record::Record;
use snark_core::program::transaction_leaf::TransactionLeaf;
use snark_core::program::value::Value;
use snark_core::snark::base_field::BaseField;
use snark_core::snark::codec::Reader;
use snark_core::snark::commitment::Commitment;
use snark_core::snark::errors::SerializationError;
use snark_core::snark::puzzle_commitment::PuzzleCommitment;
use snarkvm_curves::bls12_377::{Fr, G1Affine};
use snarkvm_curves::edwards_bls12::EdwardsAffine;
use snarkvm_fields::PrimeField;
use snarkvm_utilities::{TestRng, Uniform};

fn random_field(rng: &mut TestRng) -> Field {
    let limbs = Fr::rand(rng).to_bigint().0;
    Field::from_limbs(limbs[0], limbs[1], limbs[2], limbs[3]).unwrap()
}

// A random element of the prime-order subgroup.
fn random_group(rng: &mut TestRng) -> Group {
    let point = EdwardsAffine::rand(rng);
    let (x, y) = (point.x.to_bigint().0, point.y.to_bigint().0);
    Group::from_coordinates(
        Field::from_limbs(x[0], x[1], x[2], x[3]).unwrap(),
        Field::from_limbs(y[0], y[1], y[2], y[3]).unwrap(),
    )
    .unwrap()
}

#[test]
fn test_bytes() {
    const ITERATIONS: u64 = 10_000;
    let mut rng = TestRng::default();

    for _ in 0..ITERATIONS {
        // Sample a new field.
        let expected = random_field(&mut rng);

        // Check the byte representation.
        let expected_bytes = expected.to_bytes_le();
        assert_eq!(expected, Field::read_le(&expected_bytes[..]).unwrap());
        assert!(Field::read_le(&expected_bytes[1..]).is_err());
    }
}

#[test]
fn test_one() {
    let one = Field::one();

    for (index, bit) in one.to_bits_le().iter().enumerate() {
        match index == 0 {
            true => assert!(bit),
            false => assert!(!bit),
        }
    }
}

#[test]
fn test_is_one() {
    const ITERATIONS: u64 = 100;
    assert!(Field::one().is_one());

    let mut rng = TestRng::default();

    // Note: This test technically has a `1 / MODULUS` probability of being flaky.
    for _ in 0..ITERATIONS {
        let field: Field = random_field(&mut rng);
        assert!(!field.is_one());
    }
}

#[test]
fn bytes_test_bytes() {
    const ITERATIONS: u64 = 1_000;
    let mut rng = TestRng::default();

    for _ in 0..ITERATIONS {
        // Sample a new group.
        let expected = random_group(&mut rng);

        // Check the byte representation.
        let mut expected_bytes = Vec::new();
        expected.write_le(&mut expected_bytes);
        assert_eq!(expected, Group::read_le(&expected_bytes[..]).unwrap());
        assert!(Group::read_le(&expected_bytes[1..]).is_err());
    }
}

#[test]
fn test_zero() {
    let zero = Group::zero();

    for bit in zero.to_bits_le().iter() {
        assert!(!bit)
    }
}

#[test]
fn test_is_zero() {
    const ITERATIONS: u64 = 100;
    assert!(Group::zero().is_zero());

    let mut rng = TestRng::default();

    // Note: This test technically has a `1 / MODULUS` probability of being flaky.
    for _ in 0..ITERATIONS {
        let group: Group = random_group(&mut rng);
        assert!(!group.is_zero());
    }
}

#[test]
fn puzzle_commitment_bytes() {
    let point = G1Affine::rand(&mut TestRng::default());
    let expected = PuzzleCommitment::new(Commitment {
        x: BaseField::from_limbs(point.x.to_bigint().0).unwrap(),
        y: BaseField::from_limbs(point.y.to_bigint().0).unwrap(),
        infinity: point.infinity,
    });

    // Check the byte representation.
    let mut expected_bytes = Vec::new();
    expected.write_le(&mut expected_bytes);
    assert_eq!(expected_bytes.len(), 48);
    assert_eq!(expected, PuzzleCommitment::read_le(&mut Reader::new(&expected_bytes[..])).unwrap());
    assert_eq!(
        PuzzleCommitment::read_le(&mut Reader::new(&expected_bytes[1..])),
        Err(SerializationError::NotEnoughBytes)
    );
}

#[test]
fn field_bytes_are_little_endian() {
    let mut bytes = vec![0xEE];
    Field::from_u64(0x0A0B).write_le(&mut bytes);
    assert_eq!(bytes.len(), 33);
    assert_eq!(&bytes[..4], &[0xEE, 0x0B, 0x0A, 0x00]);
    assert_eq!(Field::read_le(&[0u8; 31]), Err(FieldError::NotEnoughBytes));
    assert_eq!(Field::read_le(&[0xff; 32]), Err(FieldError::InvalidFieldElement));
    assert_eq!(Field::read_le(&[0u8; 40]), Ok(Field::zero()));
}

#[test]
fn field_bits() {
    let bits = Field::from_u64(6).to_bits_le();
    assert_eq!(bits.len(), 253);
    assert_eq!(&bits[..4], &[false, true, true, false]);
    assert!(bits[4..].iter().all(|b| !b));
    let mut reversed = Field::from_u64(6).to_bits_be();
    reversed.reverse();
    assert_eq!(reversed, bits);
    // The top limb contributes its low 61 bits.
    let high = Field::from_limbs(0, 0, 0, 1 << 60).unwrap().to_bits_le();
    assert_eq!(high.iter().filter(|b| **b).count(), 1);
    assert!(high[252]);
    let limb_edge = Field::from_limbs(1 << 63, 1, 0, 0).unwrap().to_bits_le();
    assert!(limb_edge[63] && limb_edge[64]);
    assert_eq!(limb_edge.iter().filter(|b| **b).count(), 2);
}

#[test]
fn group_is_recovered_from_its_x_coordinate() {
    let mut rng = TestRng::default();
    let group = random_group(&mut rng);
    assert!(group.is_in_subgroup());
    assert_eq!(Group::from_x_coordinate(group.to_x_coordinate()), Ok(group));
    assert_eq!(Group::from_x_coordinate(Field::zero()), Ok(Group::zero()));
    // What is recovered has the x-coordinate that was asked for.
    for x in 0..40u64 {
        if let Ok(found) = Group::from_x_coordinate(Field::from_u64(x)) {
            assert_eq!(found.to_x_coordinate(), Field::from_u64(x));
            assert!(found.is_in_subgroup());
            let mut bytes = Vec::new();
            found.write_le(&mut bytes);
            assert_eq!(bytes, Field::from_u64(x).to_bytes_le());
            assert_eq!(Group::read_le(&bytes), Ok(found));
        }
    }
    // Most x-coordinates belong to no point of the subgroup.
    let misses = (2..40u64).filter(|x| Group::from_x_coordinate(Field::from_u64(*x)).is_err()).count();
    assert!(misses > 0);
    assert_eq!(Group::read_le(&[0u8; 3]), Err(GroupError::InvalidField(FieldError::NotEnoughBytes)));
    assert_eq!(Group::read_le(&[0xff; 32]), Err(GroupError::InvalidField(FieldError::InvalidFieldElement)));
    // The point of order two lies on the curve and outside the subgroup.
    let minus_one = Field::from_limbs(725501752471715840, 6461107452199829505, 6968279316240510977, 1345280370688173398)
        .unwrap();
    let order_two = Group::from_coordinates(Field::zero(), minus_one).unwrap();
    assert!(!order_two.is_in_subgroup());
    // Scaling by the group order gives the neutral element.
    assert_eq!(group.mul(&Scalar::from_u64(1)), group);
    assert_ne!(group.mul(&Scalar::from_u64(2)), group);
}

#[test]
fn transaction_leaf_bits() {
    let leaf = TransactionLeaf::new(1, 2, Field::from_u64(3));
    let le = leaf.to_bits_le();
    assert_eq!(le.len(), 8 + 16 + 253);
    assert_eq!(&le[..8], &[true, false, false, false, false, false, false, false]);
    assert!(le[8 + 1] && !le[8]);
    assert!(le[24] && le[25] && !le[26]);
    assert_eq!(le.iter().filter(|b| **b).count(), 4);
    let be = leaf.to_bits_be();
    assert_eq!(be.len(), 8 + 16 + 253);
    assert_eq!(&be[..8], &[false, false, false, false, false, false, false, true]);
    assert!(be[8 + 14] && !be[8 + 15]);
    assert!(be[24 + 251] && be[24 + 252]);
}

fn plaintext(v: u64) -> Plaintext {
    Plaintext::from_fields(vec![Field::from_u64(v)])
}

fn record(v: u64) -> Record<Plaintext> {
    Record { owner: Field::from_u64(v), data: vec![], nonce: Field::zero() }
}

#[test]
fn values_of_different_kinds_are_never_equal() {
    assert!(Value::Plaintext(plaintext(1)).is_equal(&Value::Plaintext(plaintext(1))));
    assert!(!Value::Plaintext(plaintext(1)).is_not_equal(&Value::Plaintext(plaintext(1))));
    assert!(!Value::Plaintext(plaintext(1)).is_equal(&Value::Plaintext(plaintext(2))));
    assert!(Value::Plaintext(plaintext(1)).is_not_equal(&Value::Plaintext(plaintext(2))));
    assert!(Value::Record(record(1)).is_equal(&Value::Record(record(1))));
    assert!(Value::Record(record(1)).is_not_equal(&Value::Record(record(2))));
    assert!(!Value::Plaintext(plaintext(1)).is_equal(&Value::Record(record(1))));
    assert!(Value::Plaintext(plaintext(1)).is_not_equal(&Value::Record(record(1))));
    assert!(!Value::Record(record(1)).is_equal(&Value::Plaintext(plaintext(1))));
    assert!(Value::Record(record(1)).is_not_equal(&Value::Plaintext(plaintext(1))));
    assert!(Value::Plaintext(plaintext(1)) == Value::Plaintext(plaintext(1)));
    assert!(Value::Plaintext(plaintext(1)) != Value::Record(record(1)));
}

// Hashes to the point with the x-coordinate 0 and refuses the empty input.
struct ToZero;

impl GroupCRH for ToZero {
    fn hash(&self, input: &[u8]) -> Option<Group> {
        if input.is_empty() {
            None
        } else {
            Some(Group::zero())
        }
    }
}

#[test]
fn compressed_hash_is_the_x_coordinate_of_the_digest() {
    let crh = BHPCompressedCRH::from(ToZero);
    assert_eq!(crh.hash(&[1, 2, 3]), Ok(Field::zero()));
    assert_eq!(crh.hash(&[]), Err(CRHError::IncorrectInputLength));
    assert!(crh.parameters().hash(&[1]).is_some());
}
