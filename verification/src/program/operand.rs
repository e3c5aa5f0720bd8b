//! Operands: what an instruction reads.

use crate::field::{le_bytes, le_value};
use crate::program::errors::ProgramError;
use crate::program::identifier::{valid_name, Identifier, ProgramID};
use crate::program::literal::{Literal, Text, Wire};
use crate::program::text::{
    ascii, at_tag, decimal, has_tag, is_ascii_bytes, name, name_bytes, number, read_name,
    read_number, tag_bytes, write_decimal,
};
use crate::program::types::lemma_skip_skip;
use crate::reader::{read_uint, write_uint, Reader};
use crate::snark::codec::{
    byte_range, lemma_le_bytes_len, lemma_le_bytes_of_value, lemma_le_value_of_bytes,
};
use vstd::prelude::*;

verus! {

impl Wire for Identifier {
    /// The number of bytes of the name in one byte, then the name.
    open spec fn wire(&self) -> Seq<u8> {
        seq![self@.len() as u8] + self@
    }

    open spec fn unwire(bytes: Seq<u8>) -> Option<(Self, nat)> {
        if bytes.len() >= 1 && bytes.len() >= 1 + bytes[0] && valid_name(
            bytes.subrange(1, 1 + bytes[0]),
        ) {
            Some((Identifier::named(bytes.subrange(1, 1 + bytes[0])), (1 + bytes[0]) as nat))
        } else {
            None
        }
    }

    open spec fn sound(&self) -> bool {
        self.is_valid()
    }

    proof fn lemma_round_trip(&self, rest: Seq<u8>) {
        let bytes = self.wire() + rest;
        self.lemma_named_view();
        assert(bytes.subrange(1, 1 + bytes[0]) =~= self@);
    }

    fn write_le(&self, writer: &mut Vec<u8>) {
        let ghost start = writer@;
        writer.push(self.size());
        let name = self.to_bytes();
        writer.extend_from_slice(name.as_slice());
        assert(writer@ =~= start + self.wire());
    }

    fn read_le(reader: &mut Reader) -> (r: Result<Self, ProgramError>) {
        let ghost bytes = reader@;
        let size = match reader.take_byte() {
            Some(size) => size,
            None => {
                return Err(ProgramError::InvalidEncoding);
            },
        };
        match reader.take(size as usize) {
            Some(name) => {
                proof {
                    assert(name@ =~= bytes.subrange(1, 1 + size));
                    assert(bytes.skip(1).skip(size as int) =~= bytes.skip(1 + size));
                }
                match Identifier::from_bytes(name) {
                    Some(identifier) => Ok(identifier),
                    None => Err(ProgramError::InvalidEncoding),
                }
            },
            None => Err(ProgramError::InvalidEncoding),
        }
    }
}

impl Text for Identifier {
    open spec fn text(&self) -> Seq<u8> {
        self@
    }

    /// The longest run of letters, digits and underscores, where that is an
    /// identifier.
    open spec fn parsing(input: Seq<u8>) -> Option<(Self, nat)> {
        match name(input) {
            Some(found) => Some((Identifier::named(found), name_bytes(input))),
            None => None,
        }
    }

    fn write_text(&self, out: &mut Vec<u8>) {
        let name = self.to_bytes();
        out.extend_from_slice(name.as_slice());
    }

    fn parse(input: &[u8], from: usize) -> (r: Option<(Self, usize)>) {
        read_name(input, from)
    }
}

impl Wire for ProgramID {
    /// The name of the program, then the name of the network.
    open spec fn wire(&self) -> Seq<u8> {
        self.name.wire() + self.network.wire()
    }

    open spec fn unwire(bytes: Seq<u8>) -> Option<(Self, nat)> {
        match Identifier::unwire(bytes) {
            Some((name, used)) => match Identifier::unwire(bytes.skip(used as int)) {
                Some((network, more)) => Some((ProgramID { name, network }, used + more)),
                None => None,
            },
            None => None,
        }
    }

    open spec fn sound(&self) -> bool {
        self.name.is_valid() && self.network.is_valid()
    }

    proof fn lemma_round_trip(&self, rest: Seq<u8>) {
        let bytes = self.wire() + rest;
        let tail = self.network.wire() + rest;
        assert(bytes =~= self.name.wire() + tail);
        self.name.lemma_round_trip(tail);
        assert(bytes.skip(self.name.wire().len() as int) =~= tail);
        self.network.lemma_round_trip(rest);
    }

    fn write_le(&self, writer: &mut Vec<u8>) {
        let ghost start = writer@;
        self.name.write_le(writer);
        self.network.write_le(writer);
        assert(writer@ =~= start + self.wire());
    }

    fn read_le(reader: &mut Reader) -> (r: Result<Self, ProgramError>) {
        let ghost bytes = reader@;
        let name = match Identifier::read_le(reader) {
            Ok(name) => name,
            Err(e) => {
                return Err(e);
            },
        };
        let ghost used = Identifier::unwire(bytes).unwrap().1;
        match Identifier::read_le(reader) {
            Ok(network) => {
                proof {
                    let more = Identifier::unwire(bytes.skip(used as int)).unwrap().1;
                    lemma_skip_skip(bytes, used, more);
                }
                Ok(ProgramID { name, network })
            },
            Err(e) => Err(e),
        }
    }
}

impl Text for ProgramID {
    /// The name of the program, a dot, and the name of the network.
    open spec fn text(&self) -> Seq<u8> {
        self.name@ + seq![46u8] + self.network@
    }

    open spec fn parsing(input: Seq<u8>) -> Option<(Self, nat)> {
        match Identifier::parsing(input) {
            Some((name, used)) => if input.len() > used && input[used as int] == 46 {
                match Identifier::parsing(input.skip((used + 1) as int)) {
                    Some((network, more)) => Some((ProgramID { name, network }, used + 1 + more)),
                    None => None,
                }
            } else {
                None
            },
            None => None,
        }
    }

    fn write_text(&self, out: &mut Vec<u8>) {
        let ghost start = out@;
        self.name.write_text(out);
        out.push(46);
        self.network.write_text(out);
        assert(out@ =~= start + self.text());
    }

    fn parse(input: &[u8], from: usize) -> (r: Option<(Self, usize)>) {
        let ghost rest = input@.skip(from as int);
        let total = input.len();
        let (name, dot) = match Identifier::parse(input, from) {
            Some(found) => found,
            None => {
                return None;
            },
        };
        if dot >= total || input[dot] != 46 {
            return None;
        }
        proof {
            assert(rest.skip((dot - from) + 1) =~= input@.skip(dot + 1));
        }
        match Identifier::parse(input, dot + 1) {
            Some((network, end)) => Some((ProgramID { name, network }, end)),
            None => None,
        }
    }
}

/// A register, or a member of the struct or record that a register holds.
#[derive(Clone, Copy, Debug, PartialEq, Eq, Structural, Hash)]
pub enum Register {
    /// The register with the given number.
    Locator(u64),
    /// The member with the given name of what the register holds.
    Member(u64, Identifier),
}

impl Text for Register {
    /// The letter `r` and the number of the register, and for a member a
    /// dot and its name, as in `r2` and `r2.owner`.
    open spec fn text(&self) -> Seq<u8> {
        match self {
            Register::Locator(locator) => seq![114u8] + decimal(*locator as nat),
            Register::Member(locator, member) => seq![114u8] + decimal(*locator as nat) + seq![
                46u8,
            ] + member@,
        }
    }

    open spec fn parsing(input: Seq<u8>) -> Option<(Self, nat)> {
        if input.len() == 0 || input[0] != 114 {
            None
        } else {
            match number(input.skip(1)) {
                Some((locator, length)) => if locator > u64::MAX {
                    None
                } else {
                    let tail = input.skip(1).skip(length as int);
                    if tail.len() > 0 && tail[0] == 46 && Identifier::parsing(tail.skip(1)) is Some {
                        Some(
                            (
                                Register::Member(
                                    locator as u64,
                                    Identifier::parsing(tail.skip(1)).unwrap().0,
                                ),
                                1 + length + 1 + Identifier::parsing(tail.skip(1)).unwrap().1,
                            ),
                        )
                    } else {
                        Some((Register::Locator(locator as u64), 1 + length))
                    }
                },
                None => None,
            }
        }
    }

    fn write_text(&self, out: &mut Vec<u8>) {
        let ghost start = out@;
        match self {
            Register::Locator(locator) => {
                out.push(114);
                write_decimal(out, *locator as u128);
            },
            Register::Member(locator, member) => {
                out.push(114);
                write_decimal(out, *locator as u128);
                out.push(46);
                member.write_text(out);
            },
        }
        assert(out@ =~= start + self.text());
    }

    fn parse(input: &[u8], from: usize) -> (r: Option<(Self, usize)>) {
        let ghost rest = input@.skip(from as int);
        let total = input.len();
        if from >= total || input[from] != 114 {
            return None;
        }
        proof {
            assert(rest.skip(1) =~= input@.skip(from + 1));
        }
        let (locator, end) = match read_number(input, from + 1) {
            Some(found) => found,
            None => {
                return None;
            },
        };
        if locator > 0xffff_ffff_ffff_ffff {
            return None;
        }
        proof {
            let length = (end - from - 1) as nat;
            assert(rest.skip(1).skip(length as int) =~= input@.skip(end as int));
        }
        if end < total && input[end] == 46 {
            proof {
                lemma_skip_skip(input@, end as nat, 1);
            }
            match Identifier::parse(input, end + 1) {
                Some((member, after)) => {
                    return Some((Register::Member(locator as u64, member), after));
                },
                None => {},
            }
        }
        Some((Register::Locator(locator as u64), end))
    }
}

impl Wire for Register {
    /// One byte that names the variant, 0 for a register and 1 for a member,
    /// the number of the register in 8 bytes, and for a member its name.
    open spec fn wire(&self) -> Seq<u8> {
        match self {
            Register::Locator(locator) => seq![0u8] + le_bytes(*locator as nat, 8),
            Register::Member(locator, member) => seq![1u8] + le_bytes(*locator as nat, 8)
                + member.wire(),
        }
    }

    open spec fn unwire(bytes: Seq<u8>) -> Option<(Self, nat)> {
        if bytes.len() < 9 {
            None
        } else if bytes[0] == 0 {
            Some((Register::Locator(le_value(bytes.subrange(1, 9)) as u64), 9))
        } else if bytes[0] == 1 {
            match Identifier::unwire(bytes.skip(9)) {
                Some((member, used)) => Some(
                    (Register::Member(le_value(bytes.subrange(1, 9)) as u64, member), 9 + used),
                ),
                None => None,
            }
        } else {
            None
        }
    }

    open spec fn sound(&self) -> bool {
        match self {
            Register::Locator(_) => true,
            Register::Member(_, member) => member.is_valid(),
        }
    }

    proof fn lemma_round_trip(&self, rest: Seq<u8>) {
        let bytes = self.wire() + rest;
        reveal_with_fuel(byte_range, 9);
        match self {
            Register::Locator(locator) => {
                lemma_le_bytes_len(*locator as nat, 8);
                lemma_le_value_of_bytes(*locator as nat, 8);
                assert(bytes.subrange(1, 9) =~= le_bytes(*locator as nat, 8));
            },
            Register::Member(locator, member) => {
                lemma_le_bytes_len(*locator as nat, 8);
                lemma_le_value_of_bytes(*locator as nat, 8);
                assert(bytes.subrange(1, 9) =~= le_bytes(*locator as nat, 8));
                assert(bytes.skip(9) =~= member.wire() + rest);
                member.lemma_round_trip(rest);
            },
        }
    }

    fn write_le(&self, writer: &mut Vec<u8>) {
        let ghost start = writer@;
        match self {
            Register::Locator(locator) => {
                writer.push(0);
                write_uint(writer, *locator as u128, 8);
            },
            Register::Member(locator, member) => {
                writer.push(1);
                write_uint(writer, *locator as u128, 8);
                member.write_le(writer);
            },
        }
        assert(writer@ =~= start + self.wire());
    }

    fn read_le(reader: &mut Reader) -> (r: Result<Self, ProgramError>) {
        let ghost bytes = reader@;
        let variant = match reader.take_byte() {
            Some(variant) => variant,
            None => {
                return Err(ProgramError::InvalidEncoding);
            },
        };
        let locator = match reader.take(8) {
            Some(chunk) => {
                proof {
                    assert(chunk@ =~= bytes.subrange(1, 9));
                    assert(bytes.skip(1).skip(8) =~= bytes.skip(9));
                    reveal_with_fuel(byte_range, 9);
                }
                read_uint(chunk) as u64
            },
            None => {
                return Err(ProgramError::InvalidEncoding);
            },
        };
        if variant == 0 {
            Ok(Register::Locator(locator))
        } else if variant == 1 {
            match Identifier::read_le(reader) {
                Ok(member) => {
                    proof {
                        let used = Identifier::unwire(bytes.skip(9)).unwrap().1;
                        lemma_skip_skip(bytes, 9, used);
                    }
                    Ok(Register::Member(locator, member))
                },
                Err(e) => Err(e),
            }
        } else {
            Err(ProgramError::InvalidEncoding)
        }
    }
}

/// What an instruction reads.
#[derive(Clone, Copy, Debug, PartialEq, Eq, Structural, Hash)]
pub enum Operand {
    /// The operand is a literal.
    Literal(Literal),
    /// The operand is a register.
    Register(Register),
    /// The operand is the program ID.
    ProgramID(ProgramID),
    /// The operand is the caller address.
    Caller,
}

impl Wire for Operand {
    /// One byte that names the variant, 0 for a literal, 1 for a register, 2
    /// for a program ID and 3 for the caller, and then what the variant
    /// holds.
    open spec fn wire(&self) -> Seq<u8> {
        match self {
            Operand::Literal(literal) => seq![0u8] + literal.wire(),
            Operand::Register(register) => seq![1u8] + register.wire(),
            Operand::ProgramID(program_id) => seq![2u8] + program_id.wire(),
            Operand::Caller => seq![3u8],
        }
    }

    open spec fn unwire(bytes: Seq<u8>) -> Option<(Self, nat)> {
        if bytes.len() < 1 {
            None
        } else if bytes[0] == 0 {
            match Literal::unwire(bytes.skip(1)) {
                Some((literal, used)) => Some((Operand::Literal(literal), 1 + used)),
                None => None,
            }
        } else if bytes[0] == 1 {
            match Register::unwire(bytes.skip(1)) {
                Some((register, used)) => Some((Operand::Register(register), 1 + used)),
                None => None,
            }
        } else if bytes[0] == 2 {
            match ProgramID::unwire(bytes.skip(1)) {
                Some((program_id, used)) => Some((Operand::ProgramID(program_id), 1 + used)),
                None => None,
            }
        } else if bytes[0] == 3 {
            Some((Operand::Caller, 1))
        } else {
            None
        }
    }

    open spec fn sound(&self) -> bool {
        match self {
            Operand::Literal(literal) => literal.sound(),
            Operand::Register(register) => register.sound(),
            Operand::ProgramID(program_id) => program_id.sound(),
            Operand::Caller => true,
        }
    }

    proof fn lemma_round_trip(&self, rest: Seq<u8>) {
        let bytes = self.wire() + rest;
        match self {
            Operand::Literal(literal) => {
                assert(bytes.skip(1) =~= literal.wire() + rest);
                literal.lemma_round_trip(rest);
            },
            Operand::Register(register) => {
                assert(bytes.skip(1) =~= register.wire() + rest);
                register.lemma_round_trip(rest);
            },
            Operand::ProgramID(program_id) => {
                assert(bytes.skip(1) =~= program_id.wire() + rest);
                program_id.lemma_round_trip(rest);
            },
            Operand::Caller => {},
        }
    }

    fn write_le(&self, writer: &mut Vec<u8>) {
        let ghost start = writer@;
        match self {
            Operand::Literal(literal) => {
                writer.push(0);
                literal.write_le(writer);
            },
            Operand::Register(register) => {
                writer.push(1);
                register.write_le(writer);
            },
            Operand::ProgramID(program_id) => {
                writer.push(2);
                program_id.write_le(writer);
            },
            Operand::Caller => {
                writer.push(3);
            },
        }
        assert(writer@ =~= start + self.wire());
    }

    fn read_le(reader: &mut Reader) -> (r: Result<Self, ProgramError>) {
        let ghost bytes = reader@;
        match reader.take_byte() {
            Some(0) => match Literal::read_le(reader) {
                Ok(literal) => {
                    proof {
                        lemma_skip_skip(bytes, 1, Literal::unwire(bytes.skip(1)).unwrap().1);
                    }
                    Ok(Operand::Literal(literal))
                },
                Err(e) => Err(e),
            },
            Some(1) => match Register::read_le(reader) {
                Ok(register) => {
                    proof {
                        lemma_skip_skip(bytes, 1, Register::unwire(bytes.skip(1)).unwrap().1);
                    }
                    Ok(Operand::Register(register))
                },
                Err(e) => Err(e),
            },
            Some(2) => match ProgramID::read_le(reader) {
                Ok(program_id) => {
                    proof {
                        lemma_skip_skip(bytes, 1, ProgramID::unwire(bytes.skip(1)).unwrap().1);
                    }
                    Ok(Operand::ProgramID(program_id))
                },
                Err(e) => Err(e),
            },
            Some(3) => Ok(Operand::Caller),
            Some(_) => Err(ProgramError::InvalidEncoding),
            None => Err(ProgramError::InvalidEncoding),
        }
    }
}

impl Text for Operand {
    /// A literal, `self.caller`, a register or a program ID.
    open spec fn text(&self) -> Seq<u8> {
        match self {
            Operand::Literal(literal) => literal.text(),
            Operand::Register(register) => register.text(),
            Operand::ProgramID(program_id) => program_id.text(),
            Operand::Caller => ascii("self.caller"@),
        }
    }

    /// The first of a literal, `self.caller`, a register and a program ID
    /// that stands at the front of `input`.
    open spec fn parsing(input: Seq<u8>) -> Option<(Self, nat)> {
        if Literal::parsing(input) is Some {
            Some((Operand::Literal(Literal::parsing(input).unwrap().0), Literal::parsing(input).unwrap().1))
        } else if has_tag(input, ascii("self.caller"@)) {
            Some((Operand::Caller, 11))
        } else if Register::parsing(input) is Some {
            Some(
                (Operand::Register(Register::parsing(input).unwrap().0), Register::parsing(input).unwrap().1),
            )
        } else if ProgramID::parsing(input) is Some {
            Some(
                (
                    Operand::ProgramID(ProgramID::parsing(input).unwrap().0),
                    ProgramID::parsing(input).unwrap().1,
                ),
            )
        } else {
            None
        }
    }

    fn write_text(&self, out: &mut Vec<u8>) {
        match self {
            Operand::Literal(literal) => literal.write_text(out),
            Operand::Register(register) => register.write_text(out),
            Operand::ProgramID(program_id) => program_id.write_text(out),
            Operand::Caller => {
                proof {
                    reveal_strlit("self.caller");
                }
                out.extend_from_slice(tag_bytes("self.caller"));
            },
        }
    }

    fn parse(input: &[u8], from: usize) -> (r: Option<(Self, usize)>) {
        proof {
            reveal_strlit("self.caller");
        }
        let total = input.len();
        if let Some((literal, end)) = Literal::parse(input, from) {
            return Some((Operand::Literal(literal), end));
        }
        if at_tag(input, from, tag_bytes("self.caller")) {
            return Some((Operand::Caller, from + 11));
        }
        if let Some((register, end)) = Register::parse(input, from) {
            return Some((Operand::Register(register), end));
        }
        if let Some((program_id, end)) = ProgramID::parse(input, from) {
            return Some((Operand::ProgramID(program_id), end));
        }
        None
    }
}

} // verus!
