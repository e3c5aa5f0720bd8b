use snark_core::field::Field;
use snark_core::program::bits::ToBits;
use snark_core::program::equal::Equal;
use snark_core::program::errors::ProgramError;
use snark_core::program::group::{Address, Group, Scalar};
use snark_core::program::network::Network;
use snark_core::program::plaintext::{Ciphertext, Plaintext};
use snark_core::program::identifier::{Identifier, ProgramID};
use snark_core::program::record::{Entry, Record};

/// A network whose hashes are simple enough to be recomputed by hand.
struct Toy;

impl Network for Toy {
    // The number of bits that are set; refuses the empty input.
    fn hash_bhp1024(input: &Vec<bool>) -> Option<Field> {
        if input.is_empty() {
            None
        } else {
            Some(Field::from_u64(input.iter().filter(|bit| **bit).count() as u64))
        }
    }

    // Output i is the sum of the inputs plus i.
    fn hash_many_psd8(input: &Vec<Field>, num_outputs: u16) -> Vec<Field> {
        let sum = input.iter().fold(Field::zero(), |acc, x| acc.add(x));
        (0..num_outputs).map(|i| sum.add(&Field::from_u64(i as u64))).collect()
    }

    fn encryption_domain() -> Field {
        Field::from_u64(1000)
    }
}

fn fields(values: &[u64]) -> Vec<Field> {
    values.iter().map(|v| Field::from_u64(*v)).collect()
}

#[test]
fn encrypt_with_randomizers_adds_position_by_position() {
    let plaintext = Plaintext::from_fields(fields(&[10, 20, 30]));
    let ciphertext = plaintext.encrypt_with_randomizers(&fields(&[1, 2, 3]));
    assert_eq!(ciphertext.to_fields(), fields(&[11, 22, 33]));
    let empty = Plaintext::from_fields(vec![]);
    assert!(empty.encrypt_with_randomizers(&vec![]).to_fields().is_empty());
}

#[test]
fn encrypt_symmetric_masks_with_the_hash_of_domain_and_key() {
    let plaintext = Plaintext::from_fields(fields(&[10, 20, 30]));
    assert_eq!(plaintext.num_randomizers(), Some(3));
    // Randomizers: 1000 + 7 + i.
    let ciphertext = plaintext.encrypt_symmetric::<Toy>(Field::from_u64(7));
    assert_eq!(ciphertext.to_fields(), fields(&[1017, 1028, 1039]));
}

#[test]
fn encrypt_uses_the_x_coordinate_of_the_scaled_address() {
    let plaintext = Plaintext::from_fields(fields(&[5]));
    // Any multiple of the neutral element is the neutral element, whose
    // x-coordinate is 0.
    let address = Address::new(Group::zero());
    let ciphertext = plaintext.encrypt::<Toy>(&address, Scalar::from_u64(12345));
    assert_eq!(ciphertext.to_fields(), fields(&[1005]));
}

#[test]
fn scalar_multiplication_follows_the_group_law() {
    // (0, -1) has order two.
    let minus_one = Field::from_limbs(725501752471715840, 6461107452199829505, 6968279316240510977, 1345280370688173398)
        .unwrap();
    let point = Group::from_coordinates(Field::zero(), minus_one).unwrap();
    assert!(!point.is_zero());
    assert_eq!(point.mul(&Scalar::from_u64(1)), point);
    assert!(point.mul(&Scalar::from_u64(2)).is_zero());
    assert_eq!(point.mul(&Scalar::from_u64(3)), point);
    assert!(point.mul(&Scalar::from_u64(0)).is_zero());
}

#[test]
fn points_off_the_curve_are_refused() {
    assert!(Group::from_coordinates(Field::zero(), Field::one()).is_some());
    assert!(Group::from_coordinates(Field::one(), Field::one()).is_none());
    assert!(Group::from_coordinates(Field::zero(), Field::from_u64(2)).is_none());
    assert!(Group::zero().is_zero());
    assert_eq!(Group::zero().to_x_coordinate(), Field::zero());
    assert_eq!(Group::zero().to_y_coordinate(), Field::one());
}

#[test]
fn scalars_stay_below_the_subgroup_order() {
    let order = [13356249993388743167u64, 5950279507993463550, 10965441865914903552, 336320092672043349];
    assert!(Scalar::from_limbs(order[0], order[1], order[2], order[3]).is_none());
    assert!(Scalar::from_limbs(order[0] - 1, order[1], order[2], order[3]).is_some());
    assert_eq!(Scalar::from_limbs(5, 0, 0, 0), Some(Scalar::from_u64(5)));
    assert_eq!(Scalar::from_u64(5).to_limbs(), [5, 0, 0, 0]);
}

fn id(name: &str) -> Identifier {
    Identifier::from_str(name).unwrap()
}

fn record(private: u64) -> Record<Plaintext> {
    Record {
        owner: Field::from_u64(1),
        data: vec![
            (id("a"), Entry::Public(Plaintext::from_fields(fields(&[3])))),
            (id("b"), Entry::Private(Plaintext::from_fields(fields(&[private])))),
        ],
        nonce: Field::from_u64(0),
    }
}

#[test]
fn commitment_hashes_program_name_and_record() {
    // The letters `a`, `b` and `d` have three bits set, `c` has four.
    let program_id = ProgramID { name: id("a"), network: id("b") };
    let record_name = id("c");
    // Bits set: program id 3 + 3, record name 4, owner 1, names 3 + 3,
    // public entry variant 1 and value 2, private entry variant 1 and value 8.
    assert_eq!(record(255).to_commitment::<Toy>(&program_id, &record_name), Ok(Field::from_u64(29)));
    assert_eq!(record(0).to_commitment::<Toy>(&program_id, &record_name), Ok(Field::from_u64(21)));
}

/// A network whose hash refuses every input.
struct Refusing;

impl Network for Refusing {
    fn hash_bhp1024(_input: &Vec<bool>) -> Option<Field> {
        None
    }

    fn hash_many_psd8(_input: &Vec<Field>, num_outputs: u16) -> Vec<Field> {
        vec![Field::zero(); num_outputs as usize]
    }

    fn encryption_domain() -> Field {
        Field::zero()
    }
}

#[test]
fn commitment_fails_where_the_hash_refuses() {
    let program_id = ProgramID { name: id("token"), network: id("aleo") };
    assert_eq!(record(1).to_commitment::<Refusing>(&program_id, &id("token")), Err(ProgramError::HashFailed));
    // With randomizers that are all zero the ciphertext is the plaintext.
    let plaintext = Plaintext::from_fields(fields(&[4, 5]));
    assert_eq!(plaintext.encrypt_symmetric::<Refusing>(Field::from_u64(9)).to_fields(), fields(&[4, 5]));
}

#[test]
fn commitment_of_an_encrypted_record_is_refused() {
    let program_id = ProgramID { name: id("token"), network: id("aleo") };
    let record_name = id("token");
    let record: Record<Ciphertext> = Record { owner: Field::from_u64(1), data: vec![], nonce: Field::from_u64(0) };
    assert_eq!(record.to_commitment::<Toy>(&program_id, &record_name), Err(ProgramError::IllegalOperation));
}

#[test]
fn entry_bits_start_with_the_variant() {
    let plaintext = || Plaintext::from_fields(fields(&[5]));
    let constant: Entry<Plaintext> = Entry::Constant(plaintext());
    let public: Entry<Plaintext> = Entry::Public(plaintext());
    let private: Entry<Plaintext> = Entry::Private(plaintext());
    let payload_le = plaintext().to_bits_le();
    let payload_be = plaintext().to_bits_be();
    assert_eq!(payload_le.len(), 253);
    assert_eq!(&payload_le[..4], &[true, false, true, false]);
    assert_eq!(&payload_be[249..], &[false, true, false, true]);
    assert_eq!(constant.to_bits_le(), [vec![false, false], payload_le.clone()].concat());
    assert_eq!(public.to_bits_le(), [vec![false, true], payload_le.clone()].concat());
    assert_eq!(private.to_bits_le(), [vec![true, false], payload_le.clone()].concat());
    assert_eq!(constant.to_bits_be(), [vec![false, false], payload_be.clone()].concat());
    assert_eq!(public.to_bits_be(), [vec![false, true], payload_be.clone()].concat());
    assert_eq!(private.to_bits_be(), [vec![true, false], payload_be.clone()].concat());
    let encrypted: Entry<Ciphertext> = Entry::Private(Ciphertext::from_fields(fields(&[5, 5])));
    assert_eq!(encrypted.to_bits_le(), [vec![true, false], payload_le.clone(), payload_le].concat());
}

#[test]
fn entries_of_different_variants_are_never_equal() {
    let plaintext = |v: u64| Plaintext::from_fields(fields(&[v]));
    let constant: Entry<Plaintext> = Entry::Constant(plaintext(5));
    let public: Entry<Plaintext> = Entry::Public(plaintext(5));
    let private: Entry<Plaintext> = Entry::Private(plaintext(5));
    assert!(constant.is_equal(&Entry::Constant(plaintext(5))));
    assert!(!constant.is_not_equal(&Entry::Constant(plaintext(5))));
    assert!(!constant.is_equal(&Entry::Constant(plaintext(6))));
    assert!(constant.is_not_equal(&Entry::Constant(plaintext(6))));
    assert!(public.is_equal(&Entry::Public(plaintext(5))));
    assert!(private.is_equal(&Entry::Private(plaintext(5))));
    assert!(!constant.is_equal(&public));
    assert!(constant.is_not_equal(&public));
    assert!(!public.is_equal(&private));
    assert!(public.is_not_equal(&private));
    assert!(!private.is_equal(&constant));
    assert!(private.is_not_equal(&constant));
}

#[test]
fn records_are_compared_entry_by_entry() {
    assert!(record(9).is_equal(&record(9)));
    assert!(!record(9).is_not_equal(&record(9)));
    assert!(!record(9).is_equal(&record(8)));
    assert!(record(9).is_not_equal(&record(8)));
    let mut shorter = record(9);
    shorter.data.pop();
    assert!(!record(9).is_equal(&shorter));
    let mut other_owner = record(9);
    other_owner.owner = Field::from_u64(2);
    assert!(!record(9).is_equal(&other_owner));
}

#[test]
fn integers_are_spelled_low_bit_first() {
    assert_eq!(6u8.to_bits_le(), vec![false, true, true, false, false, false, false, false]);
    assert_eq!(6u8.to_bits_be(), vec![false, false, false, false, false, true, true, false]);
    assert_eq!(0x8001u16.to_bits_le().iter().filter(|b| **b).count(), 2);
    assert!(0x8001u16.to_bits_le()[0] && 0x8001u16.to_bits_le()[15]);
    assert_eq!(u32::MAX.to_bits_le(), vec![true; 32]);
}
