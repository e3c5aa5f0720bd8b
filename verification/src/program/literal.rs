//! Literals: the constants that the text of a program can spell.

use crate::field::{le_bytes, le_value};
use crate::program::errors::ProgramError;
use crate::program::integer::{signed, with_pattern, IntegerType};
use crate::snark::codec::{
    byte_range, lemma_le_bytes_len, lemma_le_bytes_of_value, lemma_le_value_of_bytes,
};
use crate::program::text::{
    ascii, at_tag, decimal, has_tag, is_ascii_bytes, number, read_number, tag_bytes,
    write_decimal,
};
use crate::reader::{read_uint, write_uint, Reader};
use vstd::prelude::*;

verus! {

/// Values that are written as text and read back from text.
pub trait Text: Sized {
    /// The text that stands for the value.
    spec fn text(&self) -> Seq<u8>;

    /// The value at the front of `input` and the number of bytes that its
    /// text takes, where `input` begins with the text of a value.
    spec fn parsing(input: Seq<u8>) -> Option<(Self, nat)>;

    /// Appends the text of the value to `out`. The text consists of ASCII
    /// characters.
    fn write_text(&self, out: &mut Vec<u8>)
        ensures
            final(out)@ == old(out)@ + self.text(),
            is_ascii_bytes(self.text()),
    ;

    /// Reads the value whose text begins at the position `from`: the value
    /// and the position after its text.
    fn parse(input: &[u8], from: usize) -> (r: Option<(Self, usize)>)
        requires
            from <= input@.len(),
        ensures
            r is Some <==> Self::parsing(input@.skip(from as int)) is Some,
            r is Some ==> r.unwrap().0 == Self::parsing(input@.skip(from as int)).unwrap().0
                && r.unwrap().1 == from + Self::parsing(input@.skip(from as int)).unwrap().1
                && r.unwrap().1 <= input@.len(),
    ;
}

/// Values that are written as bytes and read back from bytes.
pub trait Wire: Sized {
    /// The bytes that stand for the value.
    spec fn wire(&self) -> Seq<u8>;

    /// The value at the front of `bytes` and the number of bytes it takes,
    /// where `bytes` begin with the bytes of a value.
    spec fn unwire(bytes: Seq<u8>) -> Option<(Self, nat)>;

    /// Whether every name that the value holds is an identifier. Every
    /// value that executable code holds is sound.
    spec fn sound(&self) -> bool;

    /// A sound value is read back from its bytes, whatever follows them, and
    /// reading it takes exactly its bytes.
    proof fn lemma_round_trip(&self, rest: Seq<u8>)
        requires
            self.sound(),
        ensures
            Self::unwire(self.wire() + rest) == Some((*self, self.wire().len())),
    ;

    /// Appends the bytes of the value to `writer`.
    fn write_le(&self, writer: &mut Vec<u8>)
        ensures
            final(writer)@ == old(writer)@ + self.wire(),
    ;

    /// Reads a value off the front of `reader`.
    fn read_le(reader: &mut Reader) -> (r: Result<Self, ProgramError>)
        ensures
            match Self::unwire(old(reader)@) {
                Some((value, used)) => r == Ok::<Self, ProgramError>(value) && final(reader)@
                    == old(reader)@.skip(used as int) && used <= old(reader)@.len(),
                None => r == Err::<Self, ProgramError>(ProgramError::InvalidEncoding),
            },
    ;
}

/// A constant.
#[derive(Clone, Copy, Debug, PartialEq, Eq, Structural, Hash)]
pub enum Literal {
    /// The boolean type.
    Boolean(bool),
    /// The i8 type.
    I8(i8),
    /// The i16 type.
    I16(i16),
    /// The i32 type.
    I32(i32),
    /// The i64 type.
    I64(i64),
    /// The i128 type.
    I128(i128),
    /// The u8 type.
    U8(u8),
    /// The u16 type.
    U16(u16),
    /// The u32 type.
    U32(u32),
    /// The u64 type.
    U64(u64),
    /// The u128 type.
    U128(u128),
}

/// The text of the integer `value` of the type with the name `suffix`: a
/// minus sign where it is negative, its decimal digits, and the name of its
/// type.
pub open spec fn integer_text(value: int, suffix: Seq<u8>) -> Seq<u8> {
    (if value < 0 {
        seq![45u8]
    } else {
        Seq::empty()
    }) + decimal(
        (if value < 0 {
            -value
        } else {
            value
        }) as nat,
    ) + suffix
}

/// The integer literal with the given sign and magnitude whose type is named
/// at the front of `tail`, and the length of that name.
pub open spec fn integer_literal(negative: bool, magnitude: nat, tail: Seq<u8>) -> Option<
    (Literal, nat),
> {
    if has_tag(tail, ascii("i8"@)) {
        if <i8 as IntegerType>::accepts(negative, magnitude) {
            Some((Literal::I8(<i8 as IntegerType>::of_int(signed(negative, magnitude))), 2nat))
        } else {
            None
        }
    } else if has_tag(tail, ascii("i16"@)) {
        if <i16 as IntegerType>::accepts(negative, magnitude) {
            Some((Literal::I16(<i16 as IntegerType>::of_int(signed(negative, magnitude))), 3nat))
        } else {
            None
        }
    } else if has_tag(tail, ascii("i32"@)) {
        if <i32 as IntegerType>::accepts(negative, magnitude) {
            Some((Literal::I32(<i32 as IntegerType>::of_int(signed(negative, magnitude))), 3nat))
        } else {
            None
        }
    } else if has_tag(tail, ascii("i64"@)) {
        if <i64 as IntegerType>::accepts(negative, magnitude) {
            Some((Literal::I64(<i64 as IntegerType>::of_int(signed(negative, magnitude))), 3nat))
        } else {
            None
        }
    } else if has_tag(tail, ascii("i128"@)) {
        if <i128 as IntegerType>::accepts(negative, magnitude) {
            Some((Literal::I128(<i128 as IntegerType>::of_int(signed(negative, magnitude))), 4nat))
        } else {
            None
        }
    } else if has_tag(tail, ascii("u8"@)) {
        if <u8 as IntegerType>::accepts(negative, magnitude) {
            Some((Literal::U8(<u8 as IntegerType>::of_int(signed(negative, magnitude))), 2nat))
        } else {
            None
        }
    } else if has_tag(tail, ascii("u16"@)) {
        if <u16 as IntegerType>::accepts(negative, magnitude) {
            Some((Literal::U16(<u16 as IntegerType>::of_int(signed(negative, magnitude))), 3nat))
        } else {
            None
        }
    } else if has_tag(tail, ascii("u32"@)) {
        if <u32 as IntegerType>::accepts(negative, magnitude) {
            Some((Literal::U32(<u32 as IntegerType>::of_int(signed(negative, magnitude))), 3nat))
        } else {
            None
        }
    } else if has_tag(tail, ascii("u64"@)) {
        if <u64 as IntegerType>::accepts(negative, magnitude) {
            Some((Literal::U64(<u64 as IntegerType>::of_int(signed(negative, magnitude))), 3nat))
        } else {
            None
        }
    } else if has_tag(tail, ascii("u128"@)) {
        if <u128 as IntegerType>::accepts(negative, magnitude) {
            Some((Literal::U128(<u128 as IntegerType>::of_int(signed(negative, magnitude))), 4nat))
        } else {
            None
        }
    } else {
        None
    }
}

/// Appends the text of the integer `value` of the type called `suffix`.
pub fn write_integer<I: IntegerType>(out: &mut Vec<u8>, value: I, suffix: &str)
    requires
        vstd::string::is_ascii(suffix),
    ensures
        final(out)@ == old(out)@ + integer_text(value.as_int(), ascii(suffix@)),
        is_ascii_bytes(integer_text(value.as_int(), ascii(suffix@))),
{
    let ghost start = out@;
    let (negative, magnitude) = value.to_sign_magnitude();
    if negative {
        out.push(45);
    }
    write_decimal(out, magnitude);
    let name = tag_bytes(suffix);
    out.extend_from_slice(name);
    assert(out@ =~= start + integer_text(value.as_int(), ascii(suffix@)));
}

/// Reads the integer of `size` bytes at the front of `reader`.
pub fn read_pattern<I: IntegerType>(reader: &mut Reader, size: usize) -> (r: Option<I>)
    requires
        1 <= size <= 16,
    ensures
        old(reader)@.len() < size ==> r is None,
        old(reader)@.len() >= size && le_value(old(reader)@.take(size as int)) < I::cardinality()
            ==> r is Some && r.unwrap().pattern() == le_value(old(reader)@.take(size as int))
            && final(reader)@ == old(reader)@.skip(size as int),
        old(reader)@.len() >= size && le_value(old(reader)@.take(size as int)) >= I::cardinality()
            ==> r is None,
{
    match reader.take(size) {
        Some(chunk) => I::from_pattern(read_uint(chunk)),
        None => None,
    }
}

impl Text for Literal {
    open spec fn text(&self) -> Seq<u8> {
        match self {
            Literal::Boolean(value) => if *value {
                ascii("true"@)
            } else {
                ascii("false"@)
            },
            Literal::I8(value) => integer_text(value.as_int(), ascii("i8"@)),
            Literal::I16(value) => integer_text(value.as_int(), ascii("i16"@)),
            Literal::I32(value) => integer_text(value.as_int(), ascii("i32"@)),
            Literal::I64(value) => integer_text(value.as_int(), ascii("i64"@)),
            Literal::I128(value) => integer_text(value.as_int(), ascii("i128"@)),
            Literal::U8(value) => integer_text(value.as_int(), ascii("u8"@)),
            Literal::U16(value) => integer_text(value.as_int(), ascii("u16"@)),
            Literal::U32(value) => integer_text(value.as_int(), ascii("u32"@)),
            Literal::U64(value) => integer_text(value.as_int(), ascii("u64"@)),
            Literal::U128(value) => integer_text(value.as_int(), ascii("u128"@)),
        }
    }

    /// `true`, `false`, or an integer: an optional minus sign, decimal
    /// digits, and the name of an integer type that has the value.
    open spec fn parsing(input: Seq<u8>) -> Option<(Self, nat)> {
        if has_tag(input, ascii("true"@)) {
            Some((Literal::Boolean(true), 4))
        } else if has_tag(input, ascii("false"@)) {
            Some((Literal::Boolean(false), 5))
        } else {
            let negative = input.len() > 0 && input[0] == 45;
            let sign: nat = if negative {
                1
            } else {
                0
            };
            match number(input.skip(sign as int)) {
                Some((magnitude, length)) => match integer_literal(
                    negative,
                    magnitude,
                    input.skip(sign as int).skip(length as int),
                ) {
                    Some((literal, suffix)) => Some((literal, sign + length + suffix)),
                    None => None,
                },
                None => None,
            }
        }
    }

    fn write_text(&self, out: &mut Vec<u8>) {
        match self {
            Literal::Boolean(value) => {
                proof {
                    reveal_strlit("true");
                    reveal_strlit("false");
                }
                if *value {
                    out.extend_from_slice(tag_bytes("true"));
                } else {
                    out.extend_from_slice(tag_bytes("false"));
                }
            },
            Literal::I8(value) => {
                proof {
                    reveal_strlit("i8");
                }
                write_integer(out, *value, "i8");
            },
            Literal::I16(value) => {
                proof {
                    reveal_strlit("i16");
                }
                write_integer(out, *value, "i16");
            },
            Literal::I32(value) => {
                proof {
                    reveal_strlit("i32");
                }
                write_integer(out, *value, "i32");
            },
            Literal::I64(value) => {
                proof {
                    reveal_strlit("i64");
                }
                write_integer(out, *value, "i64");
            },
            Literal::I128(value) => {
                proof {
                    reveal_strlit("i128");
                }
                write_integer(out, *value, "i128");
            },
            Literal::U8(value) => {
                proof {
                    reveal_strlit("u8");
                }
                write_integer(out, *value, "u8");
            },
            Literal::U16(value) => {
                proof {
                    reveal_strlit("u16");
                }
                write_integer(out, *value, "u16");
            },
            Literal::U32(value) => {
                proof {
                    reveal_strlit("u32");
                }
                write_integer(out, *value, "u32");
            },
            Literal::U64(value) => {
                proof {
                    reveal_strlit("u64");
                }
                write_integer(out, *value, "u64");
            },
            Literal::U128(value) => {
                proof {
                    reveal_strlit("u128");
                }
                write_integer(out, *value, "u128");
            },
        }
    }

    fn parse(input: &[u8], from: usize) -> (r: Option<(Self, usize)>) {
        proof {
            reveal_strlit("true");
            reveal_strlit("false");
            reveal_strlit("i8");
            reveal_strlit("i16");
            reveal_strlit("i32");
            reveal_strlit("i64");
            reveal_strlit("i128");
            reveal_strlit("u8");
            reveal_strlit("u16");
            reveal_strlit("u32");
            reveal_strlit("u64");
            reveal_strlit("u128");
        }
        let ghost rest = input@.skip(from as int);
        let total = input.len();
        if at_tag(input, from, tag_bytes("true")) {
            return Some((Literal::Boolean(true), from + 4));
        }
        if at_tag(input, from, tag_bytes("false")) {
            return Some((Literal::Boolean(false), from + 5));
        }
        let negative = from < input.len() && input[from] == 45;
        let start = if negative {
            from + 1
        } else {
            from
        };
        proof {
            assert(rest.skip((start - from) as int) =~= input@.skip(start as int));
        }
        match read_number(input, start) {
            Some((magnitude, end)) => {
                proof {
                    assert(input@.skip(start as int).skip((end - start) as int) =~= input@.skip(
                        end as int,
                    ));
                }
                if at_tag(input, end, tag_bytes("i8")) {
                    match <i8 as IntegerType>::from_sign_magnitude(negative, magnitude) {
                        Some(value) => Some((Literal::I8(value), end + 2)),
                        None => None,
                    }
                } else if at_tag(input, end, tag_bytes("i16")) {
                    match <i16 as IntegerType>::from_sign_magnitude(negative, magnitude) {
                        Some(value) => Some((Literal::I16(value), end + 3)),
                        None => None,
                    }
                } else if at_tag(input, end, tag_bytes("i32")) {
                    match <i32 as IntegerType>::from_sign_magnitude(negative, magnitude) {
                        Some(value) => Some((Literal::I32(value), end + 3)),
                        None => None,
                    }
                } else if at_tag(input, end, tag_bytes("i64")) {
                    match <i64 as IntegerType>::from_sign_magnitude(negative, magnitude) {
                        Some(value) => Some((Literal::I64(value), end + 3)),
                        None => None,
                    }
                } else if at_tag(input, end, tag_bytes("i128")) {
                    match <i128 as IntegerType>::from_sign_magnitude(negative, magnitude) {
                        Some(value) => Some((Literal::I128(value), end + 4)),
                        None => None,
                    }
                } else if at_tag(input, end, tag_bytes("u8")) {
                    match <u8 as IntegerType>::from_sign_magnitude(negative, magnitude) {
                        Some(value) => Some((Literal::U8(value), end + 2)),
                        None => None,
                    }
                } else if at_tag(input, end, tag_bytes("u16")) {
                    match <u16 as IntegerType>::from_sign_magnitude(negative, magnitude) {
                        Some(value) => Some((Literal::U16(value), end + 3)),
                        None => None,
                    }
                } else if at_tag(input, end, tag_bytes("u32")) {
                    match <u32 as IntegerType>::from_sign_magnitude(negative, magnitude) {
                        Some(value) => Some((Literal::U32(value), end + 3)),
                        None => None,
                    }
                } else if at_tag(input, end, tag_bytes("u64")) {
                    match <u64 as IntegerType>::from_sign_magnitude(negative, magnitude) {
                        Some(value) => Some((Literal::U64(value), end + 3)),
                        None => None,
                    }
                } else if at_tag(input, end, tag_bytes("u128")) {
                    match <u128 as IntegerType>::from_sign_magnitude(negative, magnitude) {
                        Some(value) => Some((Literal::U128(value), end + 4)),
                        None => None,
                    }
                } else {
                    None
                }
            },
            None => None,
        }
    }
}

impl Wire for Literal {
    /// The number of the variant in two bytes, then the value: one byte for
    /// a boolean, the bit pattern of an integer in as many bytes as its type
    /// has.
    open spec fn wire(&self) -> Seq<u8> {
        match self {
            Literal::Boolean(value) => le_bytes(1, 2) + seq![if *value { 1u8 } else { 0u8 }],
            Literal::I8(value) => le_bytes(4, 2) + le_bytes(value.pattern(), 1),
            Literal::I16(value) => le_bytes(5, 2) + le_bytes(value.pattern(), 2),
            Literal::I32(value) => le_bytes(6, 2) + le_bytes(value.pattern(), 4),
            Literal::I64(value) => le_bytes(7, 2) + le_bytes(value.pattern(), 8),
            Literal::I128(value) => le_bytes(8, 2) + le_bytes(value.pattern(), 16),
            Literal::U8(value) => le_bytes(9, 2) + le_bytes(value.pattern(), 1),
            Literal::U16(value) => le_bytes(10, 2) + le_bytes(value.pattern(), 2),
            Literal::U32(value) => le_bytes(11, 2) + le_bytes(value.pattern(), 4),
            Literal::U64(value) => le_bytes(12, 2) + le_bytes(value.pattern(), 8),
            Literal::U128(value) => le_bytes(13, 2) + le_bytes(value.pattern(), 16),
        }
    }

    open spec fn unwire(bytes: Seq<u8>) -> Option<(Self, nat)> {
        if bytes.len() < 2 {
            None
        } else {
            let variant = le_value(bytes.take(2));
            let body = bytes.skip(2);
            if variant == 1 {
                if body.len() >= 1 && body[0] <= 1 {
                    Some((Literal::Boolean(body[0] == 1), 3nat))
                } else {
                    None
                }
            } else if variant == 4 {
            if body.len() < 1 {
                None
            } else {
                Some((Literal::I8(with_pattern::<i8>(le_value(body.take(1)))), 3nat))
            }
        } else if variant == 5 {
            if body.len() < 2 {
                None
            } else {
                Some((Literal::I16(with_pattern::<i16>(le_value(body.take(2)))), 4nat))
            }
        } else if variant == 6 {
            if body.len() < 4 {
                None
            } else {
                Some((Literal::I32(with_pattern::<i32>(le_value(body.take(4)))), 6nat))
            }
        } else if variant == 7 {
            if body.len() < 8 {
                None
            } else {
                Some((Literal::I64(with_pattern::<i64>(le_value(body.take(8)))), 10nat))
            }
        } else if variant == 8 {
            if body.len() < 16 {
                None
            } else {
                Some((Literal::I128(with_pattern::<i128>(le_value(body.take(16)))), 18nat))
            }
        } else if variant == 9 {
            if body.len() < 1 {
                None
            } else {
                Some((Literal::U8(with_pattern::<u8>(le_value(body.take(1)))), 3nat))
            }
        } else if variant == 10 {
            if body.len() < 2 {
                None
            } else {
                Some((Literal::U16(with_pattern::<u16>(le_value(body.take(2)))), 4nat))
            }
        } else if variant == 11 {
            if body.len() < 4 {
                None
            } else {
                Some((Literal::U32(with_pattern::<u32>(le_value(body.take(4)))), 6nat))
            }
        } else if variant == 12 {
            if body.len() < 8 {
                None
            } else {
                Some((Literal::U64(with_pattern::<u64>(le_value(body.take(8)))), 10nat))
            }
        } else if variant == 13 {
            if body.len() < 16 {
                None
            } else {
                Some((Literal::U128(with_pattern::<u128>(le_value(body.take(16)))), 18nat))
            }
        } else {
                None
            }
        }
    }

    open spec fn sound(&self) -> bool {
        true
    }

    proof fn lemma_round_trip(&self, rest: Seq<u8>) {
        let bytes = self.wire() + rest;
        reveal_with_fuel(byte_range, 17);
        match self {
            Literal::Boolean(value) => {
                lemma_le_bytes_len(1, 2);
                lemma_le_value_of_bytes(1, 2);
                assert(bytes.take(2) =~= le_bytes(1, 2));
            },
            Literal::I8(value) => {
                lemma_le_bytes_len(4, 2);
                lemma_le_value_of_bytes(4, 2);
                lemma_le_bytes_len(value.pattern(), 1);
                lemma_le_value_of_bytes(value.pattern(), 1);
                assert(bytes.take(2) =~= le_bytes(4, 2));
                assert(bytes.skip(2).take(1) =~= le_bytes(value.pattern(), 1));
                value.lemma_pattern_injective(with_pattern::<i8>(value.pattern()));
            },
            Literal::I16(value) => {
                lemma_le_bytes_len(5, 2);
                lemma_le_value_of_bytes(5, 2);
                lemma_le_bytes_len(value.pattern(), 2);
                lemma_le_value_of_bytes(value.pattern(), 2);
                assert(bytes.take(2) =~= le_bytes(5, 2));
                assert(bytes.skip(2).take(2) =~= le_bytes(value.pattern(), 2));
                value.lemma_pattern_injective(with_pattern::<i16>(value.pattern()));
            },
            Literal::I32(value) => {
                lemma_le_bytes_len(6, 2);
                lemma_le_value_of_bytes(6, 2);
                lemma_le_bytes_len(value.pattern(), 4);
                lemma_le_value_of_bytes(value.pattern(), 4);
                assert(bytes.take(2) =~= le_bytes(6, 2));
                assert(bytes.skip(2).take(4) =~= le_bytes(value.pattern(), 4));
                value.lemma_pattern_injective(with_pattern::<i32>(value.pattern()));
            },
            Literal::I64(value) => {
                lemma_le_bytes_len(7, 2);
                lemma_le_value_of_bytes(7, 2);
                lemma_le_bytes_len(value.pattern(), 8);
                lemma_le_value_of_bytes(value.pattern(), 8);
                assert(bytes.take(2) =~= le_bytes(7, 2));
                assert(bytes.skip(2).take(8) =~= le_bytes(value.pattern(), 8));
                value.lemma_pattern_injective(with_pattern::<i64>(value.pattern()));
            },
            Literal::I128(value) => {
                lemma_le_bytes_len(8, 2);
                lemma_le_value_of_bytes(8, 2);
                lemma_le_bytes_len(value.pattern(), 16);
                lemma_le_value_of_bytes(value.pattern(), 16);
                assert(bytes.take(2) =~= le_bytes(8, 2));
                assert(bytes.skip(2).take(16) =~= le_bytes(value.pattern(), 16));
                value.lemma_pattern_injective(with_pattern::<i128>(value.pattern()));
            },
            Literal::U8(value) => {
                lemma_le_bytes_len(9, 2);
                lemma_le_value_of_bytes(9, 2);
                lemma_le_bytes_len(value.pattern(), 1);
                lemma_le_value_of_bytes(value.pattern(), 1);
                assert(bytes.take(2) =~= le_bytes(9, 2));
                assert(bytes.skip(2).take(1) =~= le_bytes(value.pattern(), 1));
                value.lemma_pattern_injective(with_pattern::<u8>(value.pattern()));
            },
            Literal::U16(value) => {
                lemma_le_bytes_len(10, 2);
                lemma_le_value_of_bytes(10, 2);
                lemma_le_bytes_len(value.pattern(), 2);
                lemma_le_value_of_bytes(value.pattern(), 2);
                assert(bytes.take(2) =~= le_bytes(10, 2));
                assert(bytes.skip(2).take(2) =~= le_bytes(value.pattern(), 2));
                value.lemma_pattern_injective(with_pattern::<u16>(value.pattern()));
            },
            Literal::U32(value) => {
                lemma_le_bytes_len(11, 2);
                lemma_le_value_of_bytes(11, 2);
                lemma_le_bytes_len(value.pattern(), 4);
                lemma_le_value_of_bytes(value.pattern(), 4);
                assert(bytes.take(2) =~= le_bytes(11, 2));
                assert(bytes.skip(2).take(4) =~= le_bytes(value.pattern(), 4));
                value.lemma_pattern_injective(with_pattern::<u32>(value.pattern()));
            },
            Literal::U64(value) => {
                lemma_le_bytes_len(12, 2);
                lemma_le_value_of_bytes(12, 2);
                lemma_le_bytes_len(value.pattern(), 8);
                lemma_le_value_of_bytes(value.pattern(), 8);
                assert(bytes.take(2) =~= le_bytes(12, 2));
                assert(bytes.skip(2).take(8) =~= le_bytes(value.pattern(), 8));
                value.lemma_pattern_injective(with_pattern::<u64>(value.pattern()));
            },
            Literal::U128(value) => {
                lemma_le_bytes_len(13, 2);
                lemma_le_value_of_bytes(13, 2);
                lemma_le_bytes_len(value.pattern(), 16);
                lemma_le_value_of_bytes(value.pattern(), 16);
                assert(bytes.take(2) =~= le_bytes(13, 2));
                assert(bytes.skip(2).take(16) =~= le_bytes(value.pattern(), 16));
                value.lemma_pattern_injective(with_pattern::<u128>(value.pattern()));
            },
        }
    }

    fn write_le(&self, writer: &mut Vec<u8>) {
        let ghost start = writer@;
        match self {
            Literal::Boolean(value) => {
                write_uint(writer, 1, 2);
                writer.push(if *value { 1 } else { 0 });
            },
            Literal::I8(value) => {
                write_uint(writer, 4, 2);
                write_uint(writer, value.to_pattern(), 1);
            },
            Literal::I16(value) => {
                write_uint(writer, 5, 2);
                write_uint(writer, value.to_pattern(), 2);
            },
            Literal::I32(value) => {
                write_uint(writer, 6, 2);
                write_uint(writer, value.to_pattern(), 4);
            },
            Literal::I64(value) => {
                write_uint(writer, 7, 2);
                write_uint(writer, value.to_pattern(), 8);
            },
            Literal::I128(value) => {
                write_uint(writer, 8, 2);
                write_uint(writer, value.to_pattern(), 16);
            },
            Literal::U8(value) => {
                write_uint(writer, 9, 2);
                write_uint(writer, value.to_pattern(), 1);
            },
            Literal::U16(value) => {
                write_uint(writer, 10, 2);
                write_uint(writer, value.to_pattern(), 2);
            },
            Literal::U32(value) => {
                write_uint(writer, 11, 2);
                write_uint(writer, value.to_pattern(), 4);
            },
            Literal::U64(value) => {
                write_uint(writer, 12, 2);
                write_uint(writer, value.to_pattern(), 8);
            },
            Literal::U128(value) => {
                write_uint(writer, 13, 2);
                write_uint(writer, value.to_pattern(), 16);
            },
        }
        assert(writer@ =~= start + self.wire());
    }

    fn read_le(reader: &mut Reader) -> (r: Result<Self, ProgramError>) {
        let ghost bytes = reader@;
        let variant = match reader.take(2) {
            Some(chunk) => read_uint(chunk),
            None => {
                return Err(ProgramError::InvalidEncoding);
            },
        };
        let ghost body = bytes.skip(2);
        proof {
            reveal_with_fuel(byte_range, 17);
            if body.len() >= 1 {
                lemma_le_bytes_of_value(body.take(1));
            }
            if body.len() >= 2 {
                lemma_le_bytes_of_value(body.take(2));
            }
            if body.len() >= 4 {
                lemma_le_bytes_of_value(body.take(4));
            }
            if body.len() >= 8 {
                lemma_le_bytes_of_value(body.take(8));
            }
            if body.len() >= 16 {
                lemma_le_bytes_of_value(body.take(16));
            }
        }
        match variant {
            1 => match reader.take_byte() {
                Some(byte) => if byte <= 1 {
                    assert(body.skip(1) =~= bytes.skip(3));
                    Ok(Literal::Boolean(byte == 1))
                } else {
                    Err(ProgramError::InvalidEncoding)
                },
                None => Err(ProgramError::InvalidEncoding),
            },
            4 => match read_pattern::<i8>(reader, 1) {
                Some(value) => {
                    proof {
                        value.lemma_pattern_injective(with_pattern::<i8>(le_value(body.take(1))));
                        assert(body.skip(1) =~= bytes.skip(3));
                    }
                    Ok(Literal::I8(value))
                },
                None => Err(ProgramError::InvalidEncoding),
            },
            5 => match read_pattern::<i16>(reader, 2) {
                Some(value) => {
                    proof {
                        value.lemma_pattern_injective(with_pattern::<i16>(le_value(body.take(2))));
                        assert(body.skip(2) =~= bytes.skip(4));
                    }
                    Ok(Literal::I16(value))
                },
                None => Err(ProgramError::InvalidEncoding),
            },
            6 => match read_pattern::<i32>(reader, 4) {
                Some(value) => {
                    proof {
                        value.lemma_pattern_injective(with_pattern::<i32>(le_value(body.take(4))));
                        assert(body.skip(4) =~= bytes.skip(6));
                    }
                    Ok(Literal::I32(value))
                },
                None => Err(ProgramError::InvalidEncoding),
            },
            7 => match read_pattern::<i64>(reader, 8) {
                Some(value) => {
                    proof {
                        value.lemma_pattern_injective(with_pattern::<i64>(le_value(body.take(8))));
                        assert(body.skip(8) =~= bytes.skip(10));
                    }
                    Ok(Literal::I64(value))
                },
                None => Err(ProgramError::InvalidEncoding),
            },
            8 => match read_pattern::<i128>(reader, 16) {
                Some(value) => {
                    proof {
                        value.lemma_pattern_injective(with_pattern::<i128>(le_value(body.take(16))));
                        assert(body.skip(16) =~= bytes.skip(18));
                    }
                    Ok(Literal::I128(value))
                },
                None => Err(ProgramError::InvalidEncoding),
            },
            9 => match read_pattern::<u8>(reader, 1) {
                Some(value) => {
                    proof {
                        value.lemma_pattern_injective(with_pattern::<u8>(le_value(body.take(1))));
                        assert(body.skip(1) =~= bytes.skip(3));
                    }
                    Ok(Literal::U8(value))
                },
                None => Err(ProgramError::InvalidEncoding),
            },
            10 => match read_pattern::<u16>(reader, 2) {
                Some(value) => {
                    proof {
                        value.lemma_pattern_injective(with_pattern::<u16>(le_value(body.take(2))));
                        assert(body.skip(2) =~= bytes.skip(4));
                    }
                    Ok(Literal::U16(value))
                },
                None => Err(ProgramError::InvalidEncoding),
            },
            11 => match read_pattern::<u32>(reader, 4) {
                Some(value) => {
                    proof {
                        value.lemma_pattern_injective(with_pattern::<u32>(le_value(body.take(4))));
                        assert(body.skip(4) =~= bytes.skip(6));
                    }
                    Ok(Literal::U32(value))
                },
                None => Err(ProgramError::InvalidEncoding),
            },
            12 => match read_pattern::<u64>(reader, 8) {
                Some(value) => {
                    proof {
                        value.lemma_pattern_injective(with_pattern::<u64>(le_value(body.take(8))));
                        assert(body.skip(8) =~= bytes.skip(10));
                    }
                    Ok(Literal::U64(value))
                },
                None => Err(ProgramError::InvalidEncoding),
            },
            13 => match read_pattern::<u128>(reader, 16) {
                Some(value) => {
                    proof {
                        value.lemma_pattern_injective(with_pattern::<u128>(le_value(body.take(16))));
                        assert(body.skip(16) =~= bytes.skip(18));
                    }
                    Ok(Literal::U128(value))
                },
                None => Err(ProgramError::InvalidEncoding),
            },
            _ => Err(ProgramError::InvalidEncoding),
        }
    }
}

} // verus!
