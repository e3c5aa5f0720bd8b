use snark_core::field::Field;

// The order of the scalar field, as little-endian limbs.
const MODULUS: [u64; 4] = [725501752471715841, 6461107452199829505, 6968279316240510977, 1345280370688173398];

#[test]
fn small_sums_and_products_are_the_integers() {
    let a = Field::from_u64(3);
    let b = Field::from_u64(4);
    assert_eq!(a.add(&b), Field::from_u64(7));
    assert_eq!(a.mul(&b), Field::from_u64(12));
    assert_eq!(a.mul(&Field::one()), a);
    assert_eq!(a.add(&Field::zero()), a);
    assert_eq!(a.mul(&Field::zero()), Field::zero());
}

#[test]
fn arithmetic_wraps_at_the_modulus() {
    let minus_one = Field::from_limbs(MODULUS[0] - 1, MODULUS[1], MODULUS[2], MODULUS[3]).unwrap();
    assert_eq!(minus_one.add(&Field::one()), Field::zero());
    assert_eq!(minus_one.add(&Field::from_u64(5)), Field::from_u64(4));
    // (-1) * (-1) = 1
    assert_eq!(minus_one.mul(&minus_one), Field::one());
    // (-1) * 2 = p - 2
    let minus_two = Field::from_limbs(MODULUS[0] - 2, MODULUS[1], MODULUS[2], MODULUS[3]).unwrap();
    assert_eq!(minus_one.mul(&Field::from_u64(2)), minus_two);
}

#[test]
fn product_of_two_wide_values() {
    // 2^64 * 2^64 = 2^128
    let x = Field::from_u128(1u128 << 64);
    assert_eq!(x.mul(&x), Field::from_limbs(0, 0, 1, 0).unwrap());
    assert_eq!(Field::from_u128(u128::MAX).to_limbs(), [u64::MAX, u64::MAX, 0, 0]);
}

#[test]
fn limbs_at_or_above_the_modulus_are_no_element() {
    assert!(Field::from_limbs(MODULUS[0], MODULUS[1], MODULUS[2], MODULUS[3]).is_none());
    assert!(Field::from_limbs(0, 0, 0, MODULUS[3] + 1).is_none());
    assert!(Field::from_limbs(u64::MAX, u64::MAX, u64::MAX, u64::MAX).is_none());
    assert!(Field::from_limbs(MODULUS[0] - 1, MODULUS[1], MODULUS[2], MODULUS[3]).is_some());
    assert!(Field::from_limbs(u64::MAX, u64::MAX, u64::MAX, MODULUS[3] - 1).is_some());
    assert_eq!(Field::from_limbs(9, 0, 0, 0), Some(Field::from_u64(9)));
}

#[test]
fn zero_and_one_are_told_apart() {
    assert!(Field::zero().is_zero());
    assert!(!Field::zero().is_one());
    assert!(Field::one().is_one());
    assert!(!Field::one().is_zero());
    assert!(!Field::from_u128(1u128 << 64).is_one());
    assert!(!Field::from_u128(1u128 << 64).is_zero());
}
