//! Fixed-width integers and their passage through the field.
//!
//! An integer of `n` bits travels as the field element whose value is its
//! two's-complement bit pattern, read as an unsigned number below `2^n`.

use crate::field::Field;
use crate::program::errors::ProgramError;
use vstd::arithmetic::power2::{lemma2_to64, lemma_pow2_adds, lemma_pow2_strictly_increases, pow2};
use vstd::prelude::*;

verus! {

/// The primitive integer types that an [`Integer`] can hold.
pub trait IntegerType: Copy + Sized {
    /// The number of values of the type: two to the number of its bits.
    spec fn cardinality() -> nat;

    /// The two's-complement bit pattern of the value, as an unsigned number.
    spec fn pattern(self) -> nat;

    /// The number of bits of the type.
    fn size_in_bits() -> (r: u16)
        ensures
            r <= 128,
            Self::cardinality() == pow2(r as nat),
    ;

    /// Returns [`Self::pattern`].
    fn to_pattern(self) -> (r: u128)
        ensures
            r == self.pattern(),
            self.pattern() < Self::cardinality(),
    ;

    /// The value with the bit pattern `pattern`, if the type has one.
    fn from_pattern(pattern: u128) -> (r: Option<Self>)
        ensures
            r is Some <==> pattern < Self::cardinality(),
            r is Some ==> r.unwrap().pattern() == pattern,
    ;

    /// The value as a mathematical integer.
    spec fn as_int(self) -> int;

    /// The value that is the integer `value`, for an integer of the type.
    spec fn of_int(value: int) -> Self;

    /// Whether the type has a value with the given sign and magnitude. An
    /// unsigned type has none with a minus sign, not even zero.
    spec fn accepts(negative: bool, magnitude: nat) -> bool;

    /// The sign and the magnitude of the value.
    fn to_sign_magnitude(self) -> (r: (bool, u128))
        ensures
            signed(r.0, r.1 as nat) == self.as_int(),
            r.0 == (self.as_int() < 0),
            Self::accepts(r.0, r.1 as nat),
            Self::of_int(self.as_int()) == self,
    ;

    /// The value with the given sign and magnitude, if the type has one.
    fn from_sign_magnitude(negative: bool, magnitude: u128) -> (r: Option<Self>)
        ensures
            r is Some <==> Self::accepts(negative, magnitude as nat),
            r is Some ==> r.unwrap().as_int() == signed(negative, magnitude as nat),
            r is Some ==> r.unwrap() == Self::of_int(signed(negative, magnitude as nat)),
    ;

    /// Two values with the same bit pattern are the same value.
    proof fn lemma_pattern_injective(self, other: Self)
        requires
            self.pattern() == other.pattern(),
        ensures
            self == other,
    ;

}

/// The value of the type `I` with the bit pattern `pattern`.
pub open spec fn with_pattern<I: IntegerType>(pattern: nat) -> I {
    choose|value: I| value.pattern() == pattern
}

/// The integer with the given sign and magnitude.
pub open spec fn signed(negative: bool, magnitude: nat) -> int {
    if negative {
        -(magnitude as int)
    } else {
        magnitude as int
    }
}

impl IntegerType for u8 {
    open spec fn cardinality() -> nat {
        0x100
    }

    open spec fn pattern(self) -> nat {
        self as nat
    }

    fn size_in_bits() -> (r: u16) {
        proof {
            lemma2_to64();
        }
        8
    }

    fn to_pattern(self) -> (r: u128) {
        self as u128
    }

    fn from_pattern(pattern: u128) -> (r: Option<Self>) {
        if pattern <= 0xff {
            Some(pattern as u8)
        } else {
            None
        }
    }

    open spec fn as_int(self) -> int {
        self as int
    }

    open spec fn of_int(value: int) -> Self {
        value as u8
    }

    open spec fn accepts(negative: bool, magnitude: nat) -> bool {
        !negative && magnitude <= 255
    }

    fn to_sign_magnitude(self) -> (r: (bool, u128)) {
        (false, self as u128)
    }

    fn from_sign_magnitude(negative: bool, magnitude: u128) -> (r: Option<Self>) {
        if negative || magnitude > 255 {
            None
        } else {
            Some(magnitude as u8)
        }
    }

    proof fn lemma_pattern_injective(self, other: Self) {
    }
}

impl IntegerType for i8 {
    open spec fn cardinality() -> nat {
        0x100
    }

    open spec fn pattern(self) -> nat {
        if self >= 0 {
            self as nat
        } else {
            (self + 0x100) as nat
        }
    }

    fn size_in_bits() -> (r: u16) {
        proof {
            lemma2_to64();
        }
        8
    }

    fn to_pattern(self) -> (r: u128) {
        let unsigned = self as u8;
        assert(unsigned == (if self >= 0i8 { self as int } else { self + 0x100 }))
            by (bit_vector)
            requires
                unsigned == self as u8,
        ;
        unsigned as u128
    }

    fn from_pattern(pattern: u128) -> (r: Option<Self>) {
        if pattern <= 0xff {
            let unsigned = pattern as u8;
            let signed = unsigned as i8;
            assert(unsigned == (if signed >= 0i8 { signed as int } else { signed + 0x100 }))
                by (bit_vector)
                requires
                    signed == unsigned as i8,
            ;
            Some(signed)
        } else {
            None
        }
    }

    open spec fn as_int(self) -> int {
        self as int
    }

    open spec fn of_int(value: int) -> Self {
        value as i8
    }

    open spec fn accepts(negative: bool, magnitude: nat) -> bool {
        if negative {
            magnitude <= 128
        } else {
            magnitude <= 127
        }
    }

    fn to_sign_magnitude(self) -> (r: (bool, u128)) {
        if self >= 0 {
            (false, self as u128)
        } else {
            (true, (-(self as i128)) as u128)
        }
    }

    fn from_sign_magnitude(negative: bool, magnitude: u128) -> (r: Option<Self>) {
        if negative {
            if magnitude <= 128 {
                Some((-(magnitude as i128)) as i8)
            } else {
                None
            }
        } else if magnitude <= 127 {
            Some(magnitude as i8)
        } else {
            None
        }
    }

    proof fn lemma_pattern_injective(self, other: Self) {
    }
}

impl IntegerType for u16 {
    open spec fn cardinality() -> nat {
        0x10000
    }

    open spec fn pattern(self) -> nat {
        self as nat
    }

    fn size_in_bits() -> (r: u16) {
        proof {
            lemma2_to64();
        }
        16
    }

    fn to_pattern(self) -> (r: u128) {
        self as u128
    }

    fn from_pattern(pattern: u128) -> (r: Option<Self>) {
        if pattern <= 0xffff {
            Some(pattern as u16)
        } else {
            None
        }
    }

    open spec fn as_int(self) -> int {
        self as int
    }

    open spec fn of_int(value: int) -> Self {
        value as u16
    }

    open spec fn accepts(negative: bool, magnitude: nat) -> bool {
        !negative && magnitude <= 65535
    }

    fn to_sign_magnitude(self) -> (r: (bool, u128)) {
        (false, self as u128)
    }

    fn from_sign_magnitude(negative: bool, magnitude: u128) -> (r: Option<Self>) {
        if negative || magnitude > 65535 {
            None
        } else {
            Some(magnitude as u16)
        }
    }

    proof fn lemma_pattern_injective(self, other: Self) {
    }
}

impl IntegerType for i16 {
    open spec fn cardinality() -> nat {
        0x10000
    }

    open spec fn pattern(self) -> nat {
        if self >= 0 {
            self as nat
        } else {
            (self + 0x10000) as nat
        }
    }

    fn size_in_bits() -> (r: u16) {
        proof {
            lemma2_to64();
        }
        16
    }

    fn to_pattern(self) -> (r: u128) {
        let unsigned = self as u16;
        assert(unsigned == (if self >= 0i16 { self as int } else { self + 0x10000 }))
            by (bit_vector)
            requires
                unsigned == self as u16,
        ;
        unsigned as u128
    }

    fn from_pattern(pattern: u128) -> (r: Option<Self>) {
        if pattern <= 0xffff {
            let unsigned = pattern as u16;
            let signed = unsigned as i16;
            assert(unsigned == (if signed >= 0i16 { signed as int } else { signed + 0x10000 }))
                by (bit_vector)
                requires
                    signed == unsigned as i16,
            ;
            Some(signed)
        } else {
            None
        }
    }

    open spec fn as_int(self) -> int {
        self as int
    }

    open spec fn of_int(value: int) -> Self {
        value as i16
    }

    open spec fn accepts(negative: bool, magnitude: nat) -> bool {
        if negative {
            magnitude <= 32768
        } else {
            magnitude <= 32767
        }
    }

    fn to_sign_magnitude(self) -> (r: (bool, u128)) {
        if self >= 0 {
            (false, self as u128)
        } else {
            (true, (-(self as i128)) as u128)
        }
    }

    fn from_sign_magnitude(negative: bool, magnitude: u128) -> (r: Option<Self>) {
        if negative {
            if magnitude <= 32768 {
                Some((-(magnitude as i128)) as i16)
            } else {
                None
            }
        } else if magnitude <= 32767 {
            Some(magnitude as i16)
        } else {
            None
        }
    }

    proof fn lemma_pattern_injective(self, other: Self) {
    }
}

impl IntegerType for u32 {
    open spec fn cardinality() -> nat {
        0x100000000
    }

    open spec fn pattern(self) -> nat {
        self as nat
    }

    fn size_in_bits() -> (r: u16) {
        proof {
            lemma2_to64();
        }
        32
    }

    fn to_pattern(self) -> (r: u128) {
        self as u128
    }

    fn from_pattern(pattern: u128) -> (r: Option<Self>) {
        if pattern <= 0xffffffff {
            Some(pattern as u32)
        } else {
            None
        }
    }

    open spec fn as_int(self) -> int {
        self as int
    }

    open spec fn of_int(value: int) -> Self {
        value as u32
    }

    open spec fn accepts(negative: bool, magnitude: nat) -> bool {
        !negative && magnitude <= 4294967295
    }

    fn to_sign_magnitude(self) -> (r: (bool, u128)) {
        (false, self as u128)
    }

    fn from_sign_magnitude(negative: bool, magnitude: u128) -> (r: Option<Self>) {
        if negative || magnitude > 4294967295 {
            None
        } else {
            Some(magnitude as u32)
        }
    }

    proof fn lemma_pattern_injective(self, other: Self) {
    }
}

impl IntegerType for i32 {
    open spec fn cardinality() -> nat {
        0x100000000
    }

    open spec fn pattern(self) -> nat {
        if self >= 0 {
            self as nat
        } else {
            (self + 0x100000000) as nat
        }
    }

    fn size_in_bits() -> (r: u16) {
        proof {
            lemma2_to64();
        }
        32
    }

    fn to_pattern(self) -> (r: u128) {
        let unsigned = self as u32;
        assert(unsigned == (if self >= 0i32 { self as int } else { self + 0x100000000 }))
            by (bit_vector)
            requires
                unsigned == self as u32,
        ;
        unsigned as u128
    }

    fn from_pattern(pattern: u128) -> (r: Option<Self>) {
        if pattern <= 0xffffffff {
            let unsigned = pattern as u32;
            let signed = unsigned as i32;
            assert(unsigned == (if signed >= 0i32 { signed as int } else { signed + 0x100000000 }))
                by (bit_vector)
                requires
                    signed == unsigned as i32,
            ;
            Some(signed)
        } else {
            None
        }
    }

    open spec fn as_int(self) -> int {
        self as int
    }

    open spec fn of_int(value: int) -> Self {
        value as i32
    }

    open spec fn accepts(negative: bool, magnitude: nat) -> bool {
        if negative {
            magnitude <= 2147483648
        } else {
            magnitude <= 2147483647
        }
    }

    fn to_sign_magnitude(self) -> (r: (bool, u128)) {
        if self >= 0 {
            (false, self as u128)
        } else {
            (true, (-(self as i128)) as u128)
        }
    }

    fn from_sign_magnitude(negative: bool, magnitude: u128) -> (r: Option<Self>) {
        if negative {
            if magnitude <= 2147483648 {
                Some((-(magnitude as i128)) as i32)
            } else {
                None
            }
        } else if magnitude <= 2147483647 {
            Some(magnitude as i32)
        } else {
            None
        }
    }

    proof fn lemma_pattern_injective(self, other: Self) {
    }
}

impl IntegerType for u64 {
    open spec fn cardinality() -> nat {
        0x10000000000000000
    }

    open spec fn pattern(self) -> nat {
        self as nat
    }

    fn size_in_bits() -> (r: u16) {
        proof {
            lemma2_to64();
        }
        64
    }

    fn to_pattern(self) -> (r: u128) {
        self as u128
    }

    fn from_pattern(pattern: u128) -> (r: Option<Self>) {
        if pattern <= 0xffffffffffffffff {
            Some(pattern as u64)
        } else {
            None
        }
    }

    open spec fn as_int(self) -> int {
        self as int
    }

    open spec fn of_int(value: int) -> Self {
        value as u64
    }

    open spec fn accepts(negative: bool, magnitude: nat) -> bool {
        !negative && magnitude <= 18446744073709551615
    }

    fn to_sign_magnitude(self) -> (r: (bool, u128)) {
        (false, self as u128)
    }

    fn from_sign_magnitude(negative: bool, magnitude: u128) -> (r: Option<Self>) {
        if negative || magnitude > 18446744073709551615 {
            None
        } else {
            Some(magnitude as u64)
        }
    }

    proof fn lemma_pattern_injective(self, other: Self) {
    }
}

impl IntegerType for i64 {
    open spec fn cardinality() -> nat {
        0x10000000000000000
    }

    open spec fn pattern(self) -> nat {
        if self >= 0 {
            self as nat
        } else {
            (self + 0x10000000000000000) as nat
        }
    }

    fn size_in_bits() -> (r: u16) {
        proof {
            lemma2_to64();
        }
        64
    }

    fn to_pattern(self) -> (r: u128) {
        let unsigned = self as u64;
        assert(unsigned == (if self >= 0i64 { self as int } else { self + 0x10000000000000000 }))
            by (bit_vector)
            requires
                unsigned == self as u64,
        ;
        unsigned as u128
    }

    fn from_pattern(pattern: u128) -> (r: Option<Self>) {
        if pattern <= 0xffffffffffffffff {
            let unsigned = pattern as u64;
            let signed = unsigned as i64;
            assert(unsigned == (if signed >= 0i64 { signed as int } else { signed + 0x10000000000000000 }))
                by (bit_vector)
                requires
                    signed == unsigned as i64,
            ;
            Some(signed)
        } else {
            None
        }
    }

    open spec fn as_int(self) -> int {
        self as int
    }

    open spec fn of_int(value: int) -> Self {
        value as i64
    }

    open spec fn accepts(negative: bool, magnitude: nat) -> bool {
        if negative {
            magnitude <= 9223372036854775808
        } else {
            magnitude <= 9223372036854775807
        }
    }

    fn to_sign_magnitude(self) -> (r: (bool, u128)) {
        if self >= 0 {
            (false, self as u128)
        } else {
            (true, (-(self as i128)) as u128)
        }
    }

    fn from_sign_magnitude(negative: bool, magnitude: u128) -> (r: Option<Self>) {
        if negative {
            if magnitude <= 9223372036854775808 {
                Some((-(magnitude as i128)) as i64)
            } else {
                None
            }
        } else if magnitude <= 9223372036854775807 {
            Some(magnitude as i64)
        } else {
            None
        }
    }

    proof fn lemma_pattern_injective(self, other: Self) {
    }
}

impl IntegerType for u128 {
    open spec fn cardinality() -> nat {
        340282366920938463463374607431768211456nat
    }

    open spec fn pattern(self) -> nat {
        self as nat
    }

    fn size_in_bits() -> (r: u16) {
        proof {
            lemma_pow2_128();
        }
        128
    }

    fn to_pattern(self) -> (r: u128) {
        self
    }

    fn from_pattern(pattern: u128) -> (r: Option<Self>) {
        Some(pattern)
    }

    open spec fn as_int(self) -> int {
        self as int
    }

    open spec fn of_int(value: int) -> Self {
        value as u128
    }

    open spec fn accepts(negative: bool, magnitude: nat) -> bool {
        !negative && magnitude <= 340282366920938463463374607431768211455
    }

    fn to_sign_magnitude(self) -> (r: (bool, u128)) {
        (false, self)
    }

    fn from_sign_magnitude(negative: bool, magnitude: u128) -> (r: Option<Self>) {
        if negative {
            None
        } else {
            Some(magnitude)
        }
    }

    proof fn lemma_pattern_injective(self, other: Self) {
    }
}

impl IntegerType for i128 {
    open spec fn cardinality() -> nat {
        340282366920938463463374607431768211456nat
    }

    open spec fn pattern(self) -> nat {
        if self >= 0 {
            self as nat
        } else {
            (self + 340282366920938463463374607431768211456int) as nat
        }
    }

    fn size_in_bits() -> (r: u16) {
        proof {
            lemma_pow2_128();
        }
        128
    }

    fn to_pattern(self) -> (r: u128) {
        let unsigned = self as u128;
        assert(unsigned == (if self >= 0i128 { self as int } else { self + 340282366920938463463374607431768211456int }))
            by (bit_vector)
            requires
                unsigned == self as u128,
        ;
        unsigned
    }

    fn from_pattern(pattern: u128) -> (r: Option<Self>) {
        let unsigned = pattern;
        let signed = unsigned as i128;
        assert(unsigned == (if signed >= 0i128 { signed as int } else { signed + 340282366920938463463374607431768211456int }))
            by (bit_vector)
            requires
                signed == unsigned as i128,
        ;
        Some(signed)
    }

    open spec fn as_int(self) -> int {
        self as int
    }

    open spec fn of_int(value: int) -> Self {
        value as i128
    }

    open spec fn accepts(negative: bool, magnitude: nat) -> bool {
        if negative {
            magnitude <= 170141183460469231731687303715884105728
        } else {
            magnitude <= 170141183460469231731687303715884105727
        }
    }

    fn to_sign_magnitude(self) -> (r: (bool, u128)) {
        if self >= 0 {
            (false, self as u128)
        } else if self == i128::MIN {
            (true, 170141183460469231731687303715884105728)
        } else {
            (true, (-self) as u128)
        }
    }

    fn from_sign_magnitude(negative: bool, magnitude: u128) -> (r: Option<Self>) {
        if negative {
            if magnitude == 170141183460469231731687303715884105728 {
                Some(i128::MIN)
            } else if magnitude < 170141183460469231731687303715884105728 {
                Some(-(magnitude as i128))
            } else {
                None
            }
        } else if magnitude <= 170141183460469231731687303715884105727 {
            Some(magnitude as i128)
        } else {
            None
        }
    }

    proof fn lemma_pattern_injective(self, other: Self) {
    }
}

/// An integer of the type `I`.
#[derive(Clone, Copy, Debug, PartialEq, Eq)]
pub struct Integer<I: IntegerType> {
    integer: I,
}

impl<I: IntegerType> Integer<I> {
    /// The primitive value, in specifications.
    pub closed spec fn value(self) -> I {
        self.integer
    }

    /// The integer with the value `integer`.
    pub fn new(integer: I) -> (r: Integer<I>)
        ensures
            r.value() == integer,
    {
        Integer { integer }
    }

    /// The primitive value.
    pub fn get(&self) -> (r: I)
        ensures
            r == self.value(),
    {
        self.integer
    }

    /// The field element whose value is the bit pattern of the integer.
    pub fn to_field(&self) -> (r: Field)
        ensures
            r@ == self.value().pattern(),
    {
        Field::from_u128(self.integer.to_pattern())
    }

    /// Initializes an integer from a field element. The field element must
    /// be a bit pattern of the type: every bit above the width of the type
    /// has to be zero.
    pub fn from_field(field: &Field) -> (r: Result<Integer<I>, ProgramError>)
        ensures
            r is Ok <==> field@ < I::cardinality(),
            r is Ok ==> r.unwrap().value().pattern() == field@,
            r is Err ==> r == Err::<Integer<I>, ProgramError>(ProgramError::UpperBitsNotZero),
    {
        let limbs = field.to_limbs();
        let bits = I::size_in_bits();
        if limbs[2] != 0 || limbs[3] != 0 {
            proof {
                lemma_pow2_128();
                if bits < 128 {
                    lemma_pow2_strictly_increases(bits as nat, 128);
                }
            }
            return Err(ProgramError::UpperBitsNotZero);
        }
        let pattern: u128 = (limbs[1] as u128) * 0x1_0000_0000_0000_0000 + (limbs[0] as u128);
        match I::from_pattern(pattern) {
            Some(integer) => Ok(Integer { integer }),
            None => Err(ProgramError::UpperBitsNotZero),
        }
    }
}

/// The value of two to the power 128.
pub proof fn lemma_pow2_128()
    ensures
        pow2(128) == 0x1_0000_0000_0000_0000_0000_0000_0000_0000,
{
    lemma2_to64();
    lemma_pow2_adds(64, 64);
}

} // verus!
