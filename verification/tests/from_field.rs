use snark_core::field::Field;
use snark_core::program::errors::ProgramError;
use snark_core::program::integer::{Integer, IntegerType};
use snarkvm_utilities::{TestRng, Uniform};

const ITERATIONS: u64 = 10_000;

fn check_from_field<I: IntegerType + Uniform + PartialEq + std::fmt::Debug>() -> Result<(), ProgramError> {
    let mut rng = TestRng::default();

    for _ in 0..ITERATIONS {
        // Sample a random integer.
        let expected = Integer::<I>::new(Uniform::rand(&mut rng));

        // Perform the operation.
        let candidate = Integer::from_field(&expected.to_field())?;
        assert_eq!(expected, candidate);
    }
    Ok(())
}

#[test]
fn test_u8_from_field() -> Result<(), ProgramError> {
    type I = u8;
    check_from_field::<I>()
}

#[test]
fn test_i8_from_field() -> Result<(), ProgramError> {
    type I = i8;
    check_from_field::<I>()
}

#[test]
fn test_u16_from_field() -> Result<(), ProgramError> {
    type I = u16;
    check_from_field::<I>()
}

#[test]
fn test_i16_from_field() -> Result<(), ProgramError> {
    type I = i16;
    check_from_field::<I>()
}

#[test]
fn test_u32_from_field() -> Result<(), ProgramError> {
    type I = u32;
    check_from_field::<I>()
}

#[test]
fn test_i32_from_field() -> Result<(), ProgramError> {
    type I = i32;
    check_from_field::<I>()
}

#[test]
fn test_u64_from_field() -> Result<(), ProgramError> {
    type I = u64;
    check_from_field::<I>()
}

#[test]
fn test_i64_from_field() -> Result<(), ProgramError> {
    type I = i64;
    check_from_field::<I>()
}

#[test]
fn test_u128_from_field() -> Result<(), ProgramError> {
    type I = u128;
    check_from_field::<I>()
}

#[test]
fn test_i128_from_field() -> Result<(), ProgramError> {
    type I = i128;
    check_from_field::<I>()
}

#[test]
fn negative_integers_travel_as_their_bit_pattern() {
    assert_eq!(Integer::new(-1i8).to_field(), Field::from_u64(255));
    assert_eq!(Integer::new(i8::MIN).to_field(), Field::from_u64(128));
    assert_eq!(Integer::new(-2i64).to_field(), Field::from_u64(u64::MAX - 1));
    assert_eq!(Integer::new(-1i128).to_field(), Field::from_u128(u128::MAX));
    assert_eq!(Integer::<i8>::from_field(&Field::from_u64(255)).unwrap().get(), -1);
    assert_eq!(Integer::<i16>::from_field(&Field::from_u64(0x8000)).unwrap().get(), i16::MIN);
    assert_eq!(Integer::<i128>::from_field(&Field::from_u128(1 << 127)).unwrap().get(), i128::MIN);
    assert_eq!(Integer::<u32>::from_field(&Field::from_u64(7)).unwrap().get(), 7);
}

#[test]
fn field_elements_with_upper_bits_are_refused() {
    assert_eq!(Integer::<u8>::from_field(&Field::from_u64(256)), Err(ProgramError::UpperBitsNotZero));
    assert_eq!(Integer::<i8>::from_field(&Field::from_u64(256)), Err(ProgramError::UpperBitsNotZero));
    assert!(Integer::<u8>::from_field(&Field::from_u64(255)).is_ok());
    assert_eq!(Integer::<u16>::from_field(&Field::from_u64(1 << 16)), Err(ProgramError::UpperBitsNotZero));
    assert_eq!(Integer::<u32>::from_field(&Field::from_u64(1 << 32)), Err(ProgramError::UpperBitsNotZero));
    assert_eq!(Integer::<u64>::from_field(&Field::from_u128(1 << 64)), Err(ProgramError::UpperBitsNotZero));
    assert!(Integer::<u64>::from_field(&Field::from_u64(u64::MAX)).is_ok());
    let two_to_128 = Field::from_limbs(0, 0, 1, 0).unwrap();
    assert_eq!(Integer::<u128>::from_field(&two_to_128), Err(ProgramError::UpperBitsNotZero));
    assert_eq!(Integer::<i128>::from_field(&two_to_128), Err(ProgramError::UpperBitsNotZero));
    assert!(Integer::<u128>::from_field(&Field::from_u128(u128::MAX)).is_ok());
    let two_to_192 = Field::from_limbs(0, 0, 0, 1).unwrap();
    assert_eq!(Integer::<u128>::from_field(&two_to_192), Err(ProgramError::UpperBitsNotZero));
}

#[test]
fn widths_of_the_integer_types() {
    assert_eq!(<u8 as IntegerType>::size_in_bits(), 8);
    assert_eq!(<i16 as IntegerType>::size_in_bits(), 16);
    assert_eq!(<u32 as IntegerType>::size_in_bits(), 32);
    assert_eq!(<i64 as IntegerType>::size_in_bits(), 64);
    assert_eq!(<u128 as IntegerType>::size_in_bits(), 128);
}
