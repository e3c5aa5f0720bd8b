//! The output statements of finalize.

use crate::program::errors::ProgramError;
use crate::program::literal::Text;
use crate::program::operand::Operand;
use crate::program::text::{as_text, ascii, at_tag, blanks, chars_of, has_tag, is_ascii_bytes, skip_blanks, tag_bytes};
use crate::program::types::{lemma_skip_skip, FinalizeType};
use vstd::prelude::*;
use vstd::string::StringSliceAdditionalSpecFns;

verus! {

/// An output statement defines an output of finalize.
/// An output statement is of the form `output {operand} as {finalize_type};`.
#[derive(Clone, Copy, Debug, PartialEq, Eq, Structural, Hash)]
pub struct Output {
    /// The output operand.
    pub operand: Operand,
    /// The output type.
    pub finalize_type: FinalizeType,
}

/// What is read of an output statement after the word `as`: the type and
/// the semicolon, with blanks before each at will.
pub open spec fn type_and_end(input: Seq<u8>) -> Option<(FinalizeType, nat)> {
    let b1 = blanks(input);
    match FinalizeType::parsing(input.skip(b1 as int)) {
        Some((finalize_type, n1)) => {
            let at1 = b1 + n1;
            let b2 = blanks(input.skip(at1 as int));
            let at2 = at1 + b2;
            if has_tag(input.skip(at2 as int), ascii(";"@)) {
                Some((finalize_type, at2 + 1))
            } else {
                None
            }
        },
        None => None,
    }
}

/// What is read of an output statement after its keyword: the operand, the
/// word `as`, the type and the semicolon, with blanks between them at will.
pub open spec fn after_keyword(input: Seq<u8>) -> Option<(Output, nat)> {
    let b1 = blanks(input);
    match Operand::parsing(input.skip(b1 as int)) {
        Some((operand, n1)) => {
            let at1 = b1 + n1;
            let b2 = blanks(input.skip(at1 as int));
            let at2 = at1 + b2;
            if !has_tag(input.skip(at2 as int), ascii("as"@)) {
                None
            } else {
                match type_and_end(input.skip((at2 + 2) as int)) {
                    Some((finalize_type, n2)) => Some((Output { operand, finalize_type }, at2 + 2 + n2)),
                    None => None,
                }
            }
        },
        None => None,
    }
}

impl Output {
    /// The output statement with the given operand and type.
    pub fn new(operand: Operand, finalize_type: FinalizeType) -> (r: Output)
        ensures
            r == (Output { operand, finalize_type }),
    {
        Output { operand, finalize_type }
    }

    /// Returns the output operand.
    pub fn operand(&self) -> (r: &Operand)
        ensures
            *r == self.operand,
    {
        &self.operand
    }

    /// Returns the output type.
    pub fn finalize_type(&self) -> (r: &FinalizeType)
        ensures
            *r == self.finalize_type,
    {
        &self.finalize_type
    }

    /// Returns the name of the statement as a string.
    pub fn name_of_type() -> (r: &'static str)
        ensures
            r@ == "output"@,
    {
        "output"
    }

    /// Parses a string into an output statement. The whole string has to be
    /// the statement.
    pub fn from_str(string: &str) -> (r: Result<Output, ProgramError>)
        ensures
            match Output::parsing(string.spec_bytes()) {
                Some((output, used)) => if used == string.spec_bytes().len() {
                    r == Ok::<Output, ProgramError>(output)
                } else {
                    r == Err::<Output, ProgramError>(ProgramError::InvalidEncoding)
                },
                None => r == Err::<Output, ProgramError>(ProgramError::InvalidEncoding),
            },
    {
        let input = string.as_bytes();
        assert(input@.skip(0) =~= input@);
        match Output::parse(input, 0) {
            Some((output, end)) => if end == input.len() {
                Ok(output)
            } else {
                Err(ProgramError::InvalidEncoding)
            },
            None => Err(ProgramError::InvalidEncoding),
        }
    }

    /// The statement as a string.
    pub fn to_string(&self) -> (r: String)
        ensures
            r@ == chars_of(self.text()),
    {
        let mut out: Vec<u8> = Vec::new();
        self.write_text(&mut out);
        assert(Seq::<u8>::empty() + self.text() =~= self.text());
        as_text(out)
    }
}

impl Text for Output {
    /// The statement in its canonical form: `output {operand} as {finalize_type};`.
    open spec fn text(&self) -> Seq<u8> {
        ascii("output "@) + self.operand.text() + ascii(" as "@) + self.finalize_type.text() + ascii(
            ";"@,
        )
    }

    /// Blanks at will, the keyword `output`, and what follows the keyword.
    open spec fn parsing(input: Seq<u8>) -> Option<(Self, nat)> {
        let b0 = blanks(input);
        if !has_tag(input.skip(b0 as int), ascii("output"@)) {
            None
        } else {
            match after_keyword(input.skip((b0 + 6) as int)) {
                Some((output, used)) => Some((output, b0 + 6 + used)),
                None => None,
            }
        }
    }

    fn write_text(&self, out: &mut Vec<u8>) {
        proof {
            reveal_strlit("output ");
            reveal_strlit(" as ");
            reveal_strlit(";");
        }
        let ghost start = out@;
        out.extend_from_slice(tag_bytes("output "));
        self.operand.write_text(out);
        out.extend_from_slice(tag_bytes(" as "));
        self.finalize_type.write_text(out);
        out.extend_from_slice(tag_bytes(";"));
        assert(out@ =~= start + self.text());
    }

    fn parse(input: &[u8], from: usize) -> (r: Option<(Self, usize)>) {
        proof {
            reveal_strlit("output");
        }
        let ghost rest = input@.skip(from as int);
        let total = input.len();
        let at0 = skip_blanks(input, from);
        proof {
            lemma_skip_skip(input@, from as nat, (at0 - from) as nat);
        }
        if !at_tag(input, at0, tag_bytes("output")) {
            return None;
        }
        proof {
            lemma_skip_skip(input@, from as nat, (at0 - from + 6) as nat);
        }
        match read_after_keyword(input, at0 + 6) {
            Some((output, end)) => Some((output, end)),
            None => None,
        }
    }
}

/// Reads what follows the word `as` of an output statement.
fn read_type_and_end(input: &[u8], from: usize) -> (r: Option<(FinalizeType, usize)>)
    requires
        from <= input@.len(),
    ensures
        r is Some <==> type_and_end(input@.skip(from as int)) is Some,
        r is Some ==> r.unwrap().0 == type_and_end(input@.skip(from as int)).unwrap().0
            && r.unwrap().1 == from + type_and_end(input@.skip(from as int)).unwrap().1
            && r.unwrap().1 <= input@.len(),
{
    proof {
        reveal_strlit(";");
    }
    let total = input.len();
    let start = skip_blanks(input, from);
    proof {
        lemma_skip_skip(input@, from as nat, (start - from) as nat);
    }
    let (finalize_type, at1) = match FinalizeType::parse(input, start) {
        Some(found) => found,
        None => {
            return None;
        },
    };
    proof {
        lemma_skip_skip(input@, from as nat, (at1 - from) as nat);
    }
    let at2 = skip_blanks(input, at1);
    proof {
        lemma_skip_skip(input@, from as nat, (at2 - from) as nat);
    }
    if !at_tag(input, at2, tag_bytes(";")) {
        return None;
    }
    Some((finalize_type, at2 + 1))
}

/// Reads what follows the keyword of an output statement.
fn read_after_keyword(input: &[u8], from: usize) -> (r: Option<(Output, usize)>)
    requires
        from <= input@.len(),
    ensures
        r is Some <==> after_keyword(input@.skip(from as int)) is Some,
        r is Some ==> r.unwrap().0 == after_keyword(input@.skip(from as int)).unwrap().0
            && r.unwrap().1 == from + after_keyword(input@.skip(from as int)).unwrap().1
            && r.unwrap().1 <= input@.len(),
{
    proof {
        reveal_strlit("as");
    }
    let total = input.len();
    let start = skip_blanks(input, from);
    proof {
        lemma_skip_skip(input@, from as nat, (start - from) as nat);
    }
    let (operand, at1) = match Operand::parse(input, start) {
        Some(found) => found,
        None => {
            return None;
        },
    };
    proof {
        lemma_skip_skip(input@, from as nat, (at1 - from) as nat);
    }
    let at2 = skip_blanks(input, at1);
    proof {
        lemma_skip_skip(input@, from as nat, (at2 - from) as nat);
    }
    if !at_tag(input, at2, tag_bytes("as")) {
        return None;
    }
    proof {
        lemma_skip_skip(input@, from as nat, (at2 + 2 - from) as nat);
    }
    match read_type_and_end(input, at2 + 2) {
        Some((finalize_type, end)) => Some((Output { operand, finalize_type }, end)),
        None => None,
    }
}

} // verus!
