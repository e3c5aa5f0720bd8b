//! The types that the text of a program names.

use crate::program::identifier::{valid_name, Identifier, ProgramID};
use crate::program::literal::Text;
use crate::program::text::{
    ascii, at_tag, has_tag, is_ascii_bytes, name, name_bytes, read_name, skip_name, tag_bytes,
};
use vstd::prelude::*;
use vstd::slice::slice_subrange;

verus! {

/// Skipping twice is skipping once.
pub proof fn lemma_skip_skip(s: Seq<u8>, a: nat, b: nat)
    requires
        a + b <= s.len(),
    ensures
        s.skip(a as int).skip(b as int) == s.skip((a + b) as int),
{
    assert(s.skip(a as int).skip(b as int) =~= s.skip((a + b) as int));
}

/// Whether the two byte strings are the same.
pub fn same_bytes(left: &[u8], right: &[u8]) -> (r: bool)
    ensures
        r == (left@ == right@),
{
    if left.len() != right.len() {
        return false;
    }
    let mut i: usize = 0;
    while i < left.len()
        invariant
            i <= left@.len(),
            left@.len() == right@.len(),
            forall|j: int| 0 <= j < i ==> left@[j] == right@[j],
        decreases left@.len() - i,
    {
        if left[i] != right[i] {
            return false;
        }
        i += 1;
    }
    assert(left@ =~= right@);
    true
}

/// The type of a literal.
#[derive(Clone, Copy, Debug, PartialEq, Eq, Structural, Hash)]
pub enum LiteralType {
    /// The `address` type.
    Address,
    /// The `boolean` type.
    Boolean,
    /// The `field` type.
    Field,
    /// The `group` type.
    Group,
    /// The `i8` type.
    I8,
    /// The `i16` type.
    I16,
    /// The `i32` type.
    I32,
    /// The `i64` type.
    I64,
    /// The `i128` type.
    I128,
    /// The `u8` type.
    U8,
    /// The `u16` type.
    U16,
    /// The `u32` type.
    U32,
    /// The `u64` type.
    U64,
    /// The `u128` type.
    U128,
    /// The `scalar` type.
    Scalar,
    /// The `signature` type.
    Signature,
    /// The `string` type.
    String,
}

/// The literal type called `token`, where `token` is the name of one.
pub open spec fn literal_type_named(token: Seq<u8>) -> Option<LiteralType> {
    if token == ascii("address"@) {
        Some(LiteralType::Address)
    } else if token == ascii("boolean"@) {
        Some(LiteralType::Boolean)
    } else if token == ascii("field"@) {
        Some(LiteralType::Field)
    } else if token == ascii("group"@) {
        Some(LiteralType::Group)
    } else if token == ascii("i8"@) {
        Some(LiteralType::I8)
    } else if token == ascii("i16"@) {
        Some(LiteralType::I16)
    } else if token == ascii("i32"@) {
        Some(LiteralType::I32)
    } else if token == ascii("i64"@) {
        Some(LiteralType::I64)
    } else if token == ascii("i128"@) {
        Some(LiteralType::I128)
    } else if token == ascii("u8"@) {
        Some(LiteralType::U8)
    } else if token == ascii("u16"@) {
        Some(LiteralType::U16)
    } else if token == ascii("u32"@) {
        Some(LiteralType::U32)
    } else if token == ascii("u64"@) {
        Some(LiteralType::U64)
    } else if token == ascii("u128"@) {
        Some(LiteralType::U128)
    } else if token == ascii("scalar"@) {
        Some(LiteralType::Scalar)
    } else if token == ascii("signature"@) {
        Some(LiteralType::Signature)
    } else if token == ascii("string"@) {
        Some(LiteralType::String)
    } else {
        None
    }
}

impl LiteralType {
    /// The name of the type.
    pub open spec fn name(self) -> Seq<u8> {
        match self {
            LiteralType::Address => ascii("address"@),
            LiteralType::Boolean => ascii("boolean"@),
            LiteralType::Field => ascii("field"@),
            LiteralType::Group => ascii("group"@),
            LiteralType::I8 => ascii("i8"@),
            LiteralType::I16 => ascii("i16"@),
            LiteralType::I32 => ascii("i32"@),
            LiteralType::I64 => ascii("i64"@),
            LiteralType::I128 => ascii("i128"@),
            LiteralType::U8 => ascii("u8"@),
            LiteralType::U16 => ascii("u16"@),
            LiteralType::U32 => ascii("u32"@),
            LiteralType::U64 => ascii("u64"@),
            LiteralType::U128 => ascii("u128"@),
            LiteralType::Scalar => ascii("scalar"@),
            LiteralType::Signature => ascii("signature"@),
            LiteralType::String => ascii("string"@),
        }
    }

    /// The name of the type.
    pub fn name_str(&self) -> (r: &'static str)
        ensures
            vstd::string::is_ascii(r),
            ascii(r@) == self.name(),
    {
        proof {
            reveal_all_names();
        }
        match self {
            LiteralType::Address => "address",
            LiteralType::Boolean => "boolean",
            LiteralType::Field => "field",
            LiteralType::Group => "group",
            LiteralType::I8 => "i8",
            LiteralType::I16 => "i16",
            LiteralType::I32 => "i32",
            LiteralType::I64 => "i64",
            LiteralType::I128 => "i128",
            LiteralType::U8 => "u8",
            LiteralType::U16 => "u16",
            LiteralType::U32 => "u32",
            LiteralType::U64 => "u64",
            LiteralType::U128 => "u128",
            LiteralType::Scalar => "scalar",
            LiteralType::Signature => "signature",
            LiteralType::String => "string",
        }
    }

    /// Returns [`literal_type_named`].
    pub fn from_name(token: &[u8]) -> (r: Option<LiteralType>)
        ensures
            r == literal_type_named(token@),
    {
        proof {
            reveal_all_names();
        }
    if same_bytes(token, tag_bytes("address")) {
        Some(LiteralType::Address)
    } else if same_bytes(token, tag_bytes("boolean")) {
        Some(LiteralType::Boolean)
    } else if same_bytes(token, tag_bytes("field")) {
        Some(LiteralType::Field)
    } else if same_bytes(token, tag_bytes("group")) {
        Some(LiteralType::Group)
    } else if same_bytes(token, tag_bytes("i8")) {
        Some(LiteralType::I8)
    } else if same_bytes(token, tag_bytes("i16")) {
        Some(LiteralType::I16)
    } else if same_bytes(token, tag_bytes("i32")) {
        Some(LiteralType::I32)
    } else if same_bytes(token, tag_bytes("i64")) {
        Some(LiteralType::I64)
    } else if same_bytes(token, tag_bytes("i128")) {
        Some(LiteralType::I128)
    } else if same_bytes(token, tag_bytes("u8")) {
        Some(LiteralType::U8)
    } else if same_bytes(token, tag_bytes("u16")) {
        Some(LiteralType::U16)
    } else if same_bytes(token, tag_bytes("u32")) {
        Some(LiteralType::U32)
    } else if same_bytes(token, tag_bytes("u64")) {
        Some(LiteralType::U64)
    } else if same_bytes(token, tag_bytes("u128")) {
        Some(LiteralType::U128)
    } else if same_bytes(token, tag_bytes("scalar")) {
        Some(LiteralType::Scalar)
    } else if same_bytes(token, tag_bytes("signature")) {
        Some(LiteralType::Signature)
    } else if same_bytes(token, tag_bytes("string")) {
        Some(LiteralType::String)
    } else {
        None
    }
    }
}

/// What the names of the literal types are.
pub proof fn reveal_all_names()
    ensures
        vstd::string::is_ascii("address") && vstd::string::is_ascii("boolean") && vstd::string::is_ascii("field") && vstd::string::is_ascii("group") && vstd::string::is_ascii("i8") && vstd::string::is_ascii("i16"),
        vstd::string::is_ascii("i32") && vstd::string::is_ascii("i64") && vstd::string::is_ascii("i128") && vstd::string::is_ascii("u8") && vstd::string::is_ascii("u16") && vstd::string::is_ascii("u32"),
        vstd::string::is_ascii("u64") && vstd::string::is_ascii("u128") && vstd::string::is_ascii("scalar") && vstd::string::is_ascii("signature") && vstd::string::is_ascii("string"),
        "address"@.len() == 7 && "boolean"@.len() == 7 && "field"@.len() == 5 && "group"@.len() == 5 && "i8"@.len() == 2 && "i16"@.len() == 3,
        "i32"@.len() == 3 && "i64"@.len() == 3 && "i128"@.len() == 4 && "u8"@.len() == 2 && "u16"@.len() == 3 && "u32"@.len() == 3,
        "u64"@.len() == 3 && "u128"@.len() == 4 && "scalar"@.len() == 6 && "signature"@.len() == 9 && "string"@.len() == 6,
{
        reveal_strlit("address");
        reveal_strlit("boolean");
        reveal_strlit("field");
        reveal_strlit("group");
        reveal_strlit("i8");
        reveal_strlit("i16");
        reveal_strlit("i32");
        reveal_strlit("i64");
        reveal_strlit("i128");
        reveal_strlit("u8");
        reveal_strlit("u16");
        reveal_strlit("u32");
        reveal_strlit("u64");
        reveal_strlit("u128");
        reveal_strlit("scalar");
        reveal_strlit("signature");
        reveal_strlit("string");
}

/// A plaintext type: the type of a literal or the name of a struct.
#[derive(Clone, Copy, Debug, PartialEq, Eq, Structural, Hash)]
pub enum PlaintextType {
    /// A literal type.
    Literal(LiteralType),
    /// A struct, by its name.
    Struct(Identifier),
}

/// The plaintext type called `token`: the literal type of that name, or else
/// the struct of that name.
pub open spec fn plaintext_type_named(token: Seq<u8>) -> Option<PlaintextType> {
    match literal_type_named(token) {
        Some(literal_type) => Some(PlaintextType::Literal(literal_type)),
        None => if valid_name(token) {
            Some(PlaintextType::Struct(Identifier::named(token)))
        } else {
            None
        },
    }
}

impl PlaintextType {
    /// The name of the type.
    pub open spec fn name(self) -> Seq<u8> {
        match self {
            PlaintextType::Literal(literal_type) => literal_type.name(),
            PlaintextType::Struct(identifier) => identifier@,
        }
    }

    /// Returns [`plaintext_type_named`].
    pub fn from_name(token: &[u8]) -> (r: Option<PlaintextType>)
        ensures
            r == plaintext_type_named(token@),
    {
        match LiteralType::from_name(token) {
            Some(literal_type) => Some(PlaintextType::Literal(literal_type)),
            None => match Identifier::from_bytes(token) {
                Some(identifier) => Some(PlaintextType::Struct(identifier)),
                None => None,
            },
        }
    }

    /// Appends the name of the type to `out`.
    pub fn write_name(&self, out: &mut Vec<u8>)
        ensures
            final(out)@ == old(out)@ + self.name(),
            is_ascii_bytes(self.name()),
    {
        match self {
            PlaintextType::Literal(literal_type) => {
                out.extend_from_slice(tag_bytes(literal_type.name_str()));
            },
            PlaintextType::Struct(identifier) => {
                let bytes = identifier.to_bytes();
                out.extend_from_slice(bytes.as_slice());
            },
        }
    }
}

/// The place of a resource in another program.
#[derive(Clone, Copy, Debug, PartialEq, Eq, Structural, Hash)]
pub struct Locator {
    /// The program.
    pub program_id: ProgramID,
    /// The name of the resource.
    pub resource: Identifier,
}

/// The type of a value of a function, with its visibility.
#[derive(Clone, Copy, Debug, PartialEq, Eq, Structural, Hash)]
pub enum ValueType {
    /// A constant type.
    Constant(PlaintextType),
    /// A publicly-visible type.
    Public(PlaintextType),
    /// A private type.
    Private(PlaintextType),
    /// A record type inherits its visibility from the record definition.
    Record(Identifier),
    /// An external record type inherits its visibility from its record
    /// definition.
    ExternalRecord(Locator),
}

/// The type of a value that is handed to finalize.
#[derive(Clone, Copy, Debug, PartialEq, Eq, Structural, Hash)]
pub enum FinalizeType {
    /// A publicly-visible type.
    Public(PlaintextType),
    /// A record type inherits its visibility from the record definition.
    Record(Identifier),
    /// An external record type inherits its visibility from its record
    /// definition.
    ExternalRecord(Locator),
}

/// The parts of the text of a type: a name, and after a dot either a mode,
/// or the name of a network, a slash, the name of a resource and after a
/// dot a mode.
pub struct TypeText {
    /// The first name.
    pub first: Seq<u8>,
    /// The name after the first dot.
    pub second: Seq<u8>,
    /// The name of the resource and the mode after it, where a network and
    /// a slash came first.
    pub external: Option<(Seq<u8>, Seq<u8>)>,
    /// The number of bytes of all of it.
    pub length: nat,
}

/// The parts of the text of a type at the front of `input`.
pub open spec fn type_text(input: Seq<u8>) -> Option<TypeText> {
    let n1 = name_bytes(input);
    let first = input.take(n1 as int);
    let after_first = input.skip(n1 as int);
    if n1 == 0 || after_first.len() == 0 || after_first[0] != 46 {
        None
    } else {
        let n2 = name_bytes(after_first.skip(1));
        let second = after_first.skip(1).take(n2 as int);
        let after_second = after_first.skip(1).skip(n2 as int);
        if n2 == 0 {
            None
        } else if after_second.len() > 0 && after_second[0] == 47 {
            let n3 = name_bytes(after_second.skip(1));
            let third = after_second.skip(1).take(n3 as int);
            let after_third = after_second.skip(1).skip(n3 as int);
            if n3 == 0 || after_third.len() == 0 || after_third[0] != 46 {
                None
            } else {
                let n4 = name_bytes(after_third.skip(1));
                let fourth = after_third.skip(1).take(n4 as int);
                if n4 == 0 {
                    None
                } else {
                    Some(
                        TypeText {
                            first,
                            second,
                            external: Some((third, fourth)),
                            length: n1 + 1 + n2 + 1 + n3 + 1 + n4,
                        },
                    )
                }
            }
        } else {
            Some(TypeText { first, second, external: None, length: n1 + 1 + n2 })
        }
    }
}

/// The locator with the given names, where they are identifiers and the
/// mode is `record`.
pub open spec fn external_record(parts: TypeText) -> Option<Locator> {
    match parts.external {
        Some((resource, mode)) => if valid_name(parts.first) && valid_name(parts.second)
            && valid_name(resource) && mode == ascii("record"@) {
            Some(
                Locator {
                    program_id: ProgramID {
                        name: Identifier::named(parts.first),
                        network: Identifier::named(parts.second),
                    },
                    resource: Identifier::named(resource),
                },
            )
        } else {
            None
        },
        None => None,
    }
}

/// The parts of a type as they were read: the positions of the names.
pub struct TypeParts {
    /// Where the first name ends.
    pub first_end: usize,
    /// Where the second name ends.
    pub second_end: usize,
    /// Where the name of the resource and the mode after it end, where a
    /// network and a slash came first.
    pub external: Option<(usize, usize)>,
}

/// Reads the parts of the text of a type at the position `from`.
pub fn read_type_text(input: &[u8], from: usize) -> (r: Option<TypeParts>)
    requires
        from <= input@.len(),
    ensures
        r is Some <==> type_text(input@.skip(from as int)) is Some,
        r is Some ==> {
            let parts = type_text(input@.skip(from as int)).unwrap();
            let found = r.unwrap();
            &&& from < found.first_end < found.second_end <= input@.len()
            &&& input@.subrange(from as int, found.first_end as int) == parts.first
            &&& input@.subrange(found.first_end + 1, found.second_end as int) == parts.second
            &&& found.external is Some <==> parts.external is Some
            &&& found.external is Some ==> {
                &&& found.second_end + 1 < found.external.unwrap().0 < found.external.unwrap().1
                    <= input@.len()
                &&& input@.subrange(found.second_end + 1, found.external.unwrap().0 as int)
                    == parts.external.unwrap().0
                &&& input@.subrange(
                    found.external.unwrap().0 + 1,
                    found.external.unwrap().1 as int,
                ) == parts.external.unwrap().1
                &&& from + parts.length == found.external.unwrap().1
            }
            &&& found.external is None ==> from + parts.length == found.second_end
        },
{
    let ghost rest = input@.skip(from as int);
    let total = input.len();
    let first_end = skip_name(input, from);
    if first_end == from || first_end >= total || input[first_end] != 46 {
        return None;
    }
    let ghost n1 = (first_end - from) as nat;
    proof {
        assert(rest.skip(n1 as int).skip(1) =~= input@.skip(first_end + 1));
        assert(rest.take(n1 as int) =~= input@.subrange(from as int, first_end as int));
    }
    let second_end = skip_name(input, first_end + 1);
    if second_end == first_end + 1 {
        return None;
    }
    let ghost n2 = (second_end - first_end - 1) as nat;
    let ghost after_first = rest.skip(n1 as int);
    proof {
        assert(after_first.skip(1).take(n2 as int) =~= input@.subrange(
            first_end + 1,
            second_end as int,
        ));
        assert(after_first.skip(1).skip(n2 as int) =~= input@.skip(second_end as int));
    }
    if second_end < total && input[second_end] == 47 {
        let ghost after_second = after_first.skip(1).skip(n2 as int);
        proof {
            assert(after_second.skip(1) =~= input@.skip(second_end + 1));
        }
        let third_end = skip_name(input, second_end + 1);
        if third_end == second_end + 1 || third_end >= total || input[third_end] != 46 {
            return None;
        }
        let ghost n3 = (third_end - second_end - 1) as nat;
        proof {
            assert(after_second.skip(1).take(n3 as int) =~= input@.subrange(
                second_end + 1,
                third_end as int,
            ));
            assert(after_second.skip(1).skip(n3 as int) =~= input@.skip(third_end as int));
            assert(after_second.skip(1).skip(n3 as int).skip(1) =~= input@.skip(third_end + 1));
        }
        let fourth_end = skip_name(input, third_end + 1);
        if fourth_end == third_end + 1 {
            return None;
        }
        proof {
            let n4 = (fourth_end - third_end - 1) as nat;
            assert(after_second.skip(1).skip(n3 as int).skip(1).take(n4 as int)
                =~= input@.subrange(third_end + 1, fourth_end as int));
        }
        Some(TypeParts { first_end, second_end, external: Some((third_end, fourth_end)) })
    } else {
        Some(TypeParts { first_end, second_end, external: None })
    }
}

/// Reads the locator whose names stand at the given positions.
pub fn read_external_record(input: &[u8], from: usize, parts: &TypeParts) -> (r: Option<Locator>)
    requires
        type_text(input@.skip(from as int)) is Some,
        from < parts.first_end < parts.second_end <= input@.len(),
        parts.external is Some,
        parts.second_end + 1 < parts.external.unwrap().0 < parts.external.unwrap().1 <= input@.len(),
        input@.subrange(from as int, parts.first_end as int) == type_text(
            input@.skip(from as int),
        ).unwrap().first,
        input@.subrange(parts.first_end + 1, parts.second_end as int) == type_text(
            input@.skip(from as int),
        ).unwrap().second,
        type_text(input@.skip(from as int)).unwrap().external is Some,
        input@.subrange(parts.second_end + 1, parts.external.unwrap().0 as int) == type_text(
            input@.skip(from as int),
        ).unwrap().external.unwrap().0,
        input@.subrange(parts.external.unwrap().0 + 1, parts.external.unwrap().1 as int)
            == type_text(input@.skip(from as int)).unwrap().external.unwrap().1,
    ensures
        r == external_record(type_text(input@.skip(from as int)).unwrap()),
{
    proof {
        reveal_strlit("record");
    }
    let (third_end, fourth_end) = parts.external.unwrap();
    let first = slice_subrange(input, from, parts.first_end);
    let second = slice_subrange(input, parts.first_end + 1, parts.second_end);
    let third = slice_subrange(input, parts.second_end + 1, third_end);
    let fourth = slice_subrange(input, third_end + 1, fourth_end);
    if !same_bytes(fourth, tag_bytes("record")) {
        return None;
    }
    match (Identifier::from_bytes(first), Identifier::from_bytes(second), Identifier::from_bytes(third)) {
        (Some(name), Some(network), Some(resource)) => Some(
            Locator { program_id: ProgramID { name, network }, resource },
        ),
        _ => None,
    }
}

/// Appends the text of a locator and of the mode `record` to `out`.
pub fn write_external_record(locator: &Locator, out: &mut Vec<u8>)
    ensures
        final(out)@ == old(out)@ + external_record_text(*locator),
        is_ascii_bytes(external_record_text(*locator)),
{
    proof {
        reveal_strlit("record");
    }
    let ghost start = out@;
    let name = locator.program_id.name.to_bytes();
    out.extend_from_slice(name.as_slice());
    out.push(46);
    let network = locator.program_id.network.to_bytes();
    out.extend_from_slice(network.as_slice());
    out.push(47);
    let resource = locator.resource.to_bytes();
    out.extend_from_slice(resource.as_slice());
    out.push(46);
    out.extend_from_slice(tag_bytes("record"));
    assert(out@ =~= start + external_record_text(*locator));
}

/// The text of an external record type: the program, a slash, the resource,
/// and the mode `record`.
pub open spec fn external_record_text(locator: Locator) -> Seq<u8> {
    locator.program_id.name@ + seq![46u8] + locator.program_id.network@ + seq![47u8]
        + locator.resource@ + seq![46u8] + ascii("record"@)
}

impl Text for ValueType {
    /// A plaintext type and its mode, as in `field.private`; the name of a
    /// record and `record`, as in `token.record`; or the place of a record
    /// in another program and `record`, as in `token.aleo/token.record`.
    open spec fn text(&self) -> Seq<u8> {
        match self {
            ValueType::Constant(plaintext_type) => plaintext_type.name() + seq![46u8] + ascii(
                "constant"@,
            ),
            ValueType::Public(plaintext_type) => plaintext_type.name() + seq![46u8] + ascii(
                "public"@,
            ),
            ValueType::Private(plaintext_type) => plaintext_type.name() + seq![46u8] + ascii(
                "private"@,
            ),
            ValueType::Record(identifier) => identifier@ + seq![46u8] + ascii("record"@),
            ValueType::ExternalRecord(locator) => external_record_text(*locator),
        }
    }

    open spec fn parsing(input: Seq<u8>) -> Option<(Self, nat)> {
        match type_text(input) {
            Some(parts) => if parts.external is Some {
                match external_record(parts) {
                    Some(locator) => Some((ValueType::ExternalRecord(locator), parts.length)),
                    None => None,
                }
            } else if parts.second == ascii("record"@) {
                if valid_name(parts.first) {
                    Some((ValueType::Record(Identifier::named(parts.first)), parts.length))
                } else {
                    None
                }
            } else {
                match plaintext_type_named(parts.first) {
                    Some(plaintext_type) => if parts.second == ascii("constant"@) {
                        Some((ValueType::Constant(plaintext_type), parts.length))
                    } else if parts.second == ascii("public"@) {
                        Some((ValueType::Public(plaintext_type), parts.length))
                    } else if parts.second == ascii("private"@) {
                        Some((ValueType::Private(plaintext_type), parts.length))
                    } else {
                        None
                    },
                    None => None,
                }
            },
            None => None,
        }
    }

    fn write_text(&self, out: &mut Vec<u8>) {
        proof {
            reveal_strlit("constant");
            reveal_strlit("public");
            reveal_strlit("private");
            reveal_strlit("record");
        }
        let ghost start = out@;
        match self {
            ValueType::Constant(plaintext_type) => {
                plaintext_type.write_name(out);
                out.push(46);
                out.extend_from_slice(tag_bytes("constant"));
            },
            ValueType::Public(plaintext_type) => {
                plaintext_type.write_name(out);
                out.push(46);
                out.extend_from_slice(tag_bytes("public"));
            },
            ValueType::Private(plaintext_type) => {
                plaintext_type.write_name(out);
                out.push(46);
                out.extend_from_slice(tag_bytes("private"));
            },
            ValueType::Record(identifier) => {
                let bytes = identifier.to_bytes();
                out.extend_from_slice(bytes.as_slice());
                out.push(46);
                out.extend_from_slice(tag_bytes("record"));
            },
            ValueType::ExternalRecord(locator) => {
                write_external_record(locator, out);
            },
        }
        assert(out@ =~= start + self.text());
    }

    fn parse(input: &[u8], from: usize) -> (r: Option<(Self, usize)>) {
        proof {
            reveal_strlit("constant");
            reveal_strlit("public");
            reveal_strlit("private");
            reveal_strlit("record");
        }
        let parts = match read_type_text(input, from) {
            Some(parts) => parts,
            None => {
                return None;
            },
        };
        match parts.external {
            Some((_, end)) => match read_external_record(input, from, &parts) {
                Some(locator) => Some((ValueType::ExternalRecord(locator), end)),
                None => None,
            },
            None => {
                let first = slice_subrange(input, from, parts.first_end);
                let second = slice_subrange(input, parts.first_end + 1, parts.second_end);
                let end = parts.second_end;
                if same_bytes(second, tag_bytes("record")) {
                    match Identifier::from_bytes(first) {
                        Some(identifier) => Some((ValueType::Record(identifier), end)),
                        None => None,
                    }
                } else {
                    match PlaintextType::from_name(first) {
                        Some(plaintext_type) => if same_bytes(second, tag_bytes("constant")) {
                            Some((ValueType::Constant(plaintext_type), end))
                        } else if same_bytes(second, tag_bytes("public")) {
                            Some((ValueType::Public(plaintext_type), end))
                        } else if same_bytes(second, tag_bytes("private")) {
                            Some((ValueType::Private(plaintext_type), end))
                        } else {
                            None
                        },
                        None => None,
                    }
                }
            },
        }
    }
}

impl FinalizeType {
    /// The number of the variant.
    pub fn enum_index(&self) -> (r: usize)
        ensures
            r == match self {
                FinalizeType::Public(_) => 0usize,
                FinalizeType::Record(_) => 1usize,
                FinalizeType::ExternalRecord(_) => 2usize,
            },
    {
        match self {
            FinalizeType::Public(_) => 0,
            FinalizeType::Record(_) => 1,
            FinalizeType::ExternalRecord(_) => 2,
        }
    }
}

impl Text for FinalizeType {
    /// A plaintext type and `public`, as in `field.public`; the name of a
    /// record and `record`; or the place of a record in another program and
    /// `record`.
    open spec fn text(&self) -> Seq<u8> {
        match self {
            FinalizeType::Public(plaintext_type) => plaintext_type.name() + seq![46u8] + ascii(
                "public"@,
            ),
            FinalizeType::Record(identifier) => identifier@ + seq![46u8] + ascii("record"@),
            FinalizeType::ExternalRecord(locator) => external_record_text(*locator),
        }
    }

    open spec fn parsing(input: Seq<u8>) -> Option<(Self, nat)> {
        match type_text(input) {
            Some(parts) => if parts.external is Some {
                match external_record(parts) {
                    Some(locator) => Some((FinalizeType::ExternalRecord(locator), parts.length)),
                    None => None,
                }
            } else if parts.second == ascii("record"@) {
                if valid_name(parts.first) {
                    Some((FinalizeType::Record(Identifier::named(parts.first)), parts.length))
                } else {
                    None
                }
            } else if parts.second == ascii("public"@) {
                match plaintext_type_named(parts.first) {
                    Some(plaintext_type) => Some(
                        (FinalizeType::Public(plaintext_type), parts.length),
                    ),
                    None => None,
                }
            } else {
                None
            },
            None => None,
        }
    }

    fn write_text(&self, out: &mut Vec<u8>) {
        proof {
            reveal_strlit("public");
            reveal_strlit("record");
        }
        let ghost start = out@;
        match self {
            FinalizeType::Public(plaintext_type) => {
                plaintext_type.write_name(out);
                out.push(46);
                out.extend_from_slice(tag_bytes("public"));
            },
            FinalizeType::Record(identifier) => {
                let bytes = identifier.to_bytes();
                out.extend_from_slice(bytes.as_slice());
                out.push(46);
                out.extend_from_slice(tag_bytes("record"));
            },
            FinalizeType::ExternalRecord(locator) => {
                write_external_record(locator, out);
            },
        }
        assert(out@ =~= start + self.text());
    }

    fn parse(input: &[u8], from: usize) -> (r: Option<(Self, usize)>) {
        proof {
            reveal_strlit("public");
            reveal_strlit("record");
        }
        let parts = match read_type_text(input, from) {
            Some(parts) => parts,
            None => {
                return None;
            },
        };
        match parts.external {
            Some((_, end)) => match read_external_record(input, from, &parts) {
                Some(locator) => Some((FinalizeType::ExternalRecord(locator), end)),
                None => None,
            },
            None => {
                let first = slice_subrange(input, from, parts.first_end);
                let second = slice_subrange(input, parts.first_end + 1, parts.second_end);
                let end = parts.second_end;
                if same_bytes(second, tag_bytes("record")) {
                    match Identifier::from_bytes(first) {
                        Some(identifier) => Some((FinalizeType::Record(identifier), end)),
                        None => None,
                    }
                } else if same_bytes(second, tag_bytes("public")) {
                    match PlaintextType::from_name(first) {
                        Some(plaintext_type) => Some((FinalizeType::Public(plaintext_type), end)),
                        None => None,
                    }
                } else {
                    None
                }
            },
        }
    }
}

} // verus!
