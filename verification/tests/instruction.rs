use snark_core::program::bits::ToBits;
use snark_core::program::errors::ProgramError;
use snark_core::program::finalize;
use snark_core::program::function::Output;
use snark_core::program::identifier::{Identifier, ProgramID};
use snark_core::program::literal::{Literal, Text, Wire};
use snark_core::program::operand::{Operand, Register};
use snark_core::program::types::{FinalizeType, LiteralType, Locator, PlaintextType, ValueType};
use snark_core::reader::Reader;

fn id(name: &str) -> Identifier {
    Identifier::from_str(name).unwrap()
}

fn value_type(text: &str) -> ValueType {
    let (value_type, end) = ValueType::parse(text.as_bytes(), 0).unwrap();
    assert_eq!(end, text.len());
    value_type
}

fn text_of<T: Text>(value: &T) -> String {
    let mut out = Vec::new();
    value.write_text(&mut out);
    String::from_utf8(out).unwrap()
}

fn wire_of<T: Wire>(value: &T) -> Vec<u8> {
    let mut out = Vec::new();
    value.write_le(&mut out);
    out
}

#[test]
fn test_output_type_name() {
    assert_eq!(Output::name_of_type(), "output");
}

#[test]
fn mod_test_output_type_name() {
    assert_eq!(finalize::Output::name_of_type(), "output");
}

#[test]
fn test_output_parse() {
    // Register
    let output = Output::parse("output r0 as field.private;".as_bytes(), 0).unwrap().0;
    assert_eq!(output.operand(), &Operand::Register(Register::Locator(0)));
    assert_eq!(output.value_type(), &value_type("field.private"));

    // Literal
    let output = Output::parse("output 0u8 as u8.public;".as_bytes(), 0).unwrap().0;
    assert_eq!(output.operand(), &Operand::Literal(Literal::U8(0)));
    assert_eq!(output.value_type(), &value_type("u8.public"));

    // Struct
    let output = Output::parse("output r1 as signature.private;".as_bytes(), 0).unwrap().0;
    assert_eq!(output.operand(), &Operand::Register(Register::Locator(1)));
    assert_eq!(output.value_type(), &value_type("signature.private"));

    // Record
    let output = Output::parse("output r2 as token.record;".as_bytes(), 0).unwrap().0;
    assert_eq!(output.operand(), &Operand::Register(Register::Locator(2)));
    assert_eq!(output.value_type(), &value_type("token.record"));
}

#[test]
fn test_output_display() {
    // Register
    let output = Output::parse("output r0 as field.private;".as_bytes(), 0).unwrap().1;
    assert_eq!(output, 27);
    let output = Output::parse("output r0 as field.private;".as_bytes(), 0).unwrap().0;
    assert_eq!(output.to_string(), "output r0 as field.private;");

    // Literal
    let output = Output::parse("output 0u8 as u8.public;".as_bytes(), 0).unwrap().0;
    assert_eq!(output.to_string(), "output 0u8 as u8.public;");

    // Struct
    let output = Output::parse("output r1 as signature.private;".as_bytes(), 0).unwrap().0;
    assert_eq!(output.to_string(), "output r1 as signature.private;");

    // Record
    let output = Output::parse("output r2 as token.record;".as_bytes(), 0).unwrap().0;
    assert_eq!(output.to_string(), "output r2 as token.record;");
}

#[test]
fn value_types_are_told_apart_by_their_mode() {
    assert_eq!(value_type("field.private"), ValueType::Private(PlaintextType::Literal(LiteralType::Field)));
    assert_eq!(value_type("u8.public"), ValueType::Public(PlaintextType::Literal(LiteralType::U8)));
    assert_eq!(value_type("i128.constant"), ValueType::Constant(PlaintextType::Literal(LiteralType::I128)));
    assert_eq!(value_type("signature.private"), ValueType::Private(PlaintextType::Literal(LiteralType::Signature)));
    assert_eq!(value_type("message.private"), ValueType::Private(PlaintextType::Struct(id("message"))));
    assert_eq!(value_type("fields.public"), ValueType::Public(PlaintextType::Struct(id("fields"))));
    assert_eq!(value_type("token.record"), ValueType::Record(id("token")));
    let external = ValueType::ExternalRecord(Locator {
        program_id: ProgramID { name: id("bank"), network: id("aleo") },
        resource: id("token"),
    });
    assert_eq!(value_type("bank.aleo/token.record"), external);
    assert_eq!(text_of(&external), "bank.aleo/token.record");
    for text in ["field.private", "u8.public", "i128.constant", "message.private", "token.record"] {
        assert_eq!(text_of(&value_type(text)), text);
    }
    for refused in ["field", "field.", ".private", "field.secret", "9x.private", "bank.aleo/token.public", "bank.aleo/.record", "field private"] {
        assert_eq!(ValueType::parse(refused.as_bytes(), 0), None, "{refused}");
    }
    // What follows the type is left to the caller.
    assert_eq!(ValueType::parse(b"field.private;".as_slice(), 0).unwrap().1, 13);
    assert_eq!(ValueType::parse(b"x field.public y".as_slice(), 2).unwrap().1, 14);
}

#[test]
fn finalize_types_are_public_or_records() {
    let parse = |text: &str| FinalizeType::parse(text.as_bytes(), 0).map(|found| found.0);
    assert_eq!(parse("field.public"), Some(FinalizeType::Public(PlaintextType::Literal(LiteralType::Field))));
    assert_eq!(parse("token.record"), Some(FinalizeType::Record(id("token"))));
    assert!(matches!(parse("bank.aleo/token.record"), Some(FinalizeType::ExternalRecord(_))));
    assert_eq!(parse("field.private"), None);
    assert_eq!(parse("field.constant"), None);
    assert_eq!(FinalizeType::Public(PlaintextType::Literal(LiteralType::Field)).enum_index(), 0);
    assert_eq!(FinalizeType::Record(id("token")).enum_index(), 1);
    assert_eq!(parse("bank.aleo/token.record").unwrap().enum_index(), 2);
    assert_eq!(text_of(&parse("u64.public").unwrap()), "u64.public");
    let output = finalize::Output::from_str("output r0 as u64.public;").unwrap();
    assert_eq!(output.operand(), &Operand::Register(Register::Locator(0)));
    assert_eq!(output.finalize_type(), &FinalizeType::Public(PlaintextType::Literal(LiteralType::U64)));
    assert_eq!(output.to_string(), "output r0 as u64.public;");
    assert_eq!(finalize::Output::from_str("output r0 as u64.private;"), Err(ProgramError::InvalidEncoding));
}

#[test]
fn output_statements_allow_blanks_and_need_the_whole_string() {
    let expected = Output::new(Operand::Register(Register::Locator(3)), value_type("bool_pair.private"));
    assert_eq!(Output::from_str("output r3 as bool_pair.private;"), Ok(expected));
    assert_eq!(Output::from_str("  \n\toutput   r3\tas\r\nbool_pair.private   ;"), Ok(expected));
    assert_eq!(Output::from_str("outputr3asbool_pair.private;"), Ok(expected));
    assert_eq!(expected.to_string(), "output r3 as bool_pair.private;");
    for refused in [
        "",
        "output",
        "output r3 as bool_pair.private",
        "output r3 bool_pair.private;",
        "input r3 as bool_pair.private;",
        "output r3 as bool_pair.private; ",
        "output r3 as bool_pair.private;;",
        "output r as bool_pair.private;",
        "output r3 as bool_pair;",
    ] {
        assert_eq!(Output::from_str(refused), Err(ProgramError::InvalidEncoding), "{refused}");
    }
    // Read from the middle of a text, the statement ends at its semicolon.
    let text = b"// note\noutput r3 as u8.public; next";
    assert_eq!(Output::parse(text.as_slice(), 7).unwrap().1, 31);
    assert_eq!(Output::parse(text.as_slice(), 0), None);
}

#[test]
fn operands_in_text() {
    let parse = |text: &str| Operand::parse(text.as_bytes(), 0);
    assert_eq!(parse("r12"), Some((Operand::Register(Register::Locator(12)), 3)));
    assert_eq!(parse("r1.owner"), Some((Operand::Register(Register::Member(1, id("owner"))), 8)));
    assert_eq!(parse("r1. "), Some((Operand::Register(Register::Locator(1)), 2)));
    assert_eq!(parse("r18446744073709551615"), Some((Operand::Register(Register::Locator(u64::MAX)), 21)));
    assert_eq!(parse("self.caller"), Some((Operand::Caller, 11)));
    assert_eq!(parse("token.aleo"), Some((Operand::ProgramID(ProgramID { name: id("token"), network: id("aleo") }), 10)));
    assert_eq!(parse("rx.aleo"), Some((Operand::ProgramID(ProgramID { name: id("rx"), network: id("aleo") }), 7)));
    assert_eq!(parse("true"), Some((Operand::Literal(Literal::Boolean(true)), 4)));
    assert_eq!(parse("false "), Some((Operand::Literal(Literal::Boolean(false)), 5)));
    assert_eq!(parse("255u8"), Some((Operand::Literal(Literal::U8(255)), 5)));
    assert_eq!(parse("-128i8"), Some((Operand::Literal(Literal::I8(-128)), 6)));
    assert_eq!(parse("-0i16"), Some((Operand::Literal(Literal::I16(0)), 5)));
    assert_eq!(parse("007u32"), Some((Operand::Literal(Literal::U32(7)), 6)));
    assert_eq!(
        parse("340282366920938463463374607431768211455u128"),
        Some((Operand::Literal(Literal::U128(u128::MAX)), 43))
    );
    assert_eq!(
        parse("-170141183460469231731687303715884105728i128"),
        Some((Operand::Literal(Literal::I128(i128::MIN)), 44))
    );
    for refused in ["", "256u8", "-1u8", "128i8", "-129i8", "12", "12u7", "r", "r18446744073709551616", "340282366920938463463374607431768211456u128", "_x.aleo", "+1u8"] {
        assert_eq!(parse(refused), None, "{refused}");
    }
    for text in ["r12", "r1.owner", "self.caller", "token.aleo", "true", "false", "255u8", "-128i8", "0i64", "18446744073709551615u64", "-170141183460469231731687303715884105728i128"] {
        assert_eq!(text_of(&parse(text).unwrap().0), text);
    }
}

#[test]
fn operands_in_bytes() {
    let round_trip = |operand: Operand, expected: &[u8]| {
        let bytes = wire_of(&operand);
        assert_eq!(bytes, expected);
        let mut longer = bytes.clone();
        longer.push(0xAA);
        let mut reader = Reader::new(&longer);
        assert_eq!(Operand::read_le(&mut reader), Ok(operand));
        assert_eq!(reader.remaining(), 1);
        if bytes.len() > 1 {
            let mut reader = Reader::new(&bytes[..bytes.len() - 1]);
            assert_eq!(Operand::read_le(&mut reader), Err(ProgramError::InvalidEncoding));
        }
    };
    round_trip(Operand::Caller, &[3]);
    round_trip(Operand::Literal(Literal::Boolean(true)), &[0, 1, 0, 1]);
    round_trip(Operand::Literal(Literal::U8(200)), &[0, 9, 0, 200]);
    round_trip(Operand::Literal(Literal::I8(-1)), &[0, 4, 0, 255]);
    round_trip(Operand::Literal(Literal::I16(-2)), &[0, 5, 0, 0xfe, 0xff]);
    round_trip(Operand::Literal(Literal::U32(0x01020304)), &[0, 11, 0, 4, 3, 2, 1]);
    round_trip(Operand::Literal(Literal::U64(1)), &[0, 12, 0, 1, 0, 0, 0, 0, 0, 0, 0]);
    round_trip(Operand::Literal(Literal::I128(i128::MIN)), &[&[0u8, 8, 0][..], &[0u8; 15][..], &[0x80][..]].concat());
    round_trip(Operand::Register(Register::Locator(0x0102)), &[1, 0, 2, 1, 0, 0, 0, 0, 0, 0]);
    round_trip(
        Operand::Register(Register::Member(1, id("ab"))),
        &[1, 1, 1, 0, 0, 0, 0, 0, 0, 0, 2, b'a', b'b'],
    );
    round_trip(
        Operand::ProgramID(ProgramID { name: id("t"), network: id("aleo") }),
        &[2, 1, b't', 4, b'a', b'l', b'e', b'o'],
    );
    for refused in [&[][..], &[4][..], &[0][..], &[0, 1, 0, 2][..], &[0, 99, 0, 1][..], &[1, 2, 0, 0, 0, 0, 0, 0, 0, 0][..], &[2, 1, b'1', 1, b'a'][..], &[2, 0, 1, b'a'][..]] {
        let mut reader = Reader::new(refused);
        assert_eq!(Operand::read_le(&mut reader), Err(ProgramError::InvalidEncoding), "{refused:?}");
    }
}

#[test]
fn identifiers_are_letters_digits_and_underscores() {
    assert!(Identifier::from_str("token").is_some());
    assert!(Identifier::from_str("a").is_some());
    assert!(Identifier::from_str("A_1").is_some());
    assert!(Identifier::from_str("a234567890123456789012345678901").is_some());
    for refused in ["", "1a", "_a", "a-b", "a b", "a.b", "aé", "a2345678901234567890123456789012"] {
        assert!(Identifier::from_str(refused).is_none(), "{refused}");
    }
    let token = id("token");
    assert_eq!(token.to_bytes(), b"token");
    assert_eq!(token.size(), 5);
    assert_eq!(token, Identifier::from_bytes(b"token").unwrap());
    assert_ne!(token, id("tokens"));
    assert_ne!(id("a"), id("A"));
    // The bits of the bytes, each byte least significant bit first.
    assert_eq!(id("a").to_bits_le(), [true, false, false, false, false, true, true, false]);
    assert_eq!(id("a").to_bits_be(), [false, true, true, false, false, false, false, true]);
    assert_eq!(id("ab").to_bits_le().len(), 16);
    assert_eq!(text_of(&id("long_name_9")), "long_name_9");
    assert_eq!(wire_of(&id("ab")), [2, b'a', b'b']);
}
