//! Identifiers: the names of programs, records, structs and their members.
//!
//! An identifier is a letter followed by letters, digits and underscores, at
//! most 31 bytes in all. It is held as the field element whose value its
//! bytes spell, least significant first, together with the number of its
//! bytes.

use crate::field::{bits_le, field_decoding, le_bytes, le_value, modulus, Field, FIELD_BYTES};
use crate::program::bits::{low_bits_le, reversed, ToBits};
use crate::program::equal::Equal;
use crate::snark::codec::{
    byte_range, lemma_byte_range_grows, lemma_le_bytes_len, lemma_le_bytes_of_value,
    lemma_le_value_of_bytes,
};
use vstd::prelude::*;
use vstd::string::StringSliceAdditionalSpecFns;

verus! {

/// Whether `b` is an ASCII letter.
pub open spec fn is_letter(b: u8) -> bool {
    (97 <= b && b <= 122) || (65 <= b && b <= 90)
}

/// Whether `b` is an ASCII decimal digit.
pub open spec fn is_digit(b: u8) -> bool {
    48 <= b && b <= 57
}

/// Whether `b` may occur in an identifier: a letter, a digit or an
/// underscore.
pub open spec fn is_name_byte(b: u8) -> bool {
    is_letter(b) || is_digit(b) || b == 95
}

/// Whether `name` is an identifier: a letter followed by letters, digits and
/// underscores, at most 31 bytes in all.
pub open spec fn valid_name(name: Seq<u8>) -> bool {
    &&& 1 <= name.len() <= 31
    &&& is_letter(name[0])
    &&& forall|i: int| 0 <= i < name.len() ==> is_name_byte(#[trigger] name[i])
}

/// The bits of `bytes`, byte by byte, each byte least significant bit first.
pub open spec fn bytes_bits_le(bytes: Seq<u8>) -> Seq<bool>
    decreases bytes.len(),
{
    if bytes.len() == 0 {
        Seq::empty()
    } else {
        bytes_bits_le(bytes.drop_last()) + bits_le(bytes.last() as nat, 8)
    }
}

/// Returns [`is_letter`].
pub fn letter(b: u8) -> (r: bool)
    ensures
        r == is_letter(b),
{
    (97 <= b && b <= 122) || (65 <= b && b <= 90)
}

/// Returns [`is_digit`].
pub fn digit(b: u8) -> (r: bool)
    ensures
        r == is_digit(b),
{
    48 <= b && b <= 57
}

/// Returns [`is_name_byte`].
pub fn name_byte(b: u8) -> (r: bool)
    ensures
        r == is_name_byte(b),
{
    letter(b) || digit(b) || b == 95
}

/// Zero bytes at the end do not change the value of a byte string.
pub proof fn lemma_le_value_padded(bytes: Seq<u8>, zeros: nat)
    ensures
        le_value(bytes + Seq::new(zeros, |i: int| 0u8)) == le_value(bytes),
    decreases bytes.len() + zeros,
{
    let padding = Seq::new(zeros, |i: int| 0u8);
    let all = bytes + padding;
    if bytes.len() > 0 {
        assert(all.drop_first() =~= bytes.drop_first() + padding);
        lemma_le_value_padded(bytes.drop_first(), zeros);
    } else if zeros > 0 {
        assert(all.drop_first() =~= Seq::<u8>::empty() + Seq::new((zeros - 1) as nat, |i: int| 0u8));
        lemma_le_value_padded(Seq::empty(), (zeros - 1) as nat);
    }
}

/// The low bytes of an integer are the front of its bytes.
pub proof fn lemma_le_bytes_prefix(v: nat, n: nat, m: nat)
    requires
        n <= m,
    ensures
        le_bytes(v, m).take(n as int) == le_bytes(v, n),
    decreases n,
{
    lemma_le_bytes_len(v, m);
    if n == 0 {
        assert(le_bytes(v, m).take(0) =~= le_bytes(v, 0));
    } else {
        lemma_le_bytes_prefix(v / 256, (n - 1) as nat, (m - 1) as nat);
        lemma_le_bytes_len(v / 256, (m - 1) as nat);
        assert(le_bytes(v, m).take(n as int) =~= seq![(v % 256) as u8] + le_bytes(
            v / 256,
            (m - 1) as nat,
        ).take(n - 1));
    }
}

/// A name.
#[derive(Clone, Copy, Debug, PartialEq, Eq, Structural, Hash)]
pub struct Identifier {
    value: Field,
    size: u8,
}

impl View for Identifier {
    type V = Seq<u8>;

    /// The bytes of the name.
    closed spec fn view(&self) -> Seq<u8> {
        le_bytes(self.value@, self.size as nat)
    }
}

impl Identifier {
    /// Whether the bytes are an identifier, and the value that is held
    /// spells no more than those bytes. Every `Identifier` that executable
    /// code holds is valid.
    #[verifier::type_invariant]
    pub closed spec fn is_valid(self) -> bool {
        valid_name(self@) && self.value@ < byte_range(self.size as nat)
    }

    /// The identifier with the name `name`, in specifications.
    pub closed spec fn named(name: Seq<u8>) -> Identifier {
        Identifier { value: Field::with_value(le_value(name)), size: name.len() as u8 }
    }

    /// [`Self::named`] is valid and has the name it is made of.
    pub proof fn lemma_named(name: Seq<u8>)
        requires
            valid_name(name),
        ensures
            Identifier::named(name)@ == name,
            Identifier::named(name).is_valid(),
    {
        lemma_le_bytes_of_value(name);
        lemma_byte_range_grows(name.len(), 32);
        reveal_with_fuel(byte_range, 33);
        Field::lemma_with_value(le_value(name));
    }

    /// A valid identifier is the one that is named by its bytes, and its
    /// bytes are a name.
    pub proof fn lemma_named_view(self)
        requires
            self.is_valid(),
        ensures
            Identifier::named(self@) == self,
            valid_name(self@),
    {
        lemma_le_bytes_len(self.value@, self.size as nat);
        lemma_le_value_of_bytes(self.value@, self.size as nat);
        lemma_byte_range_grows(self.size as nat, 32);
        reveal_with_fuel(byte_range, 33);
        Field::lemma_with_value(self.value@);
        Field::with_value(self.value@).lemma_view_injective(self.value);
    }

    /// The identifier with the name `name`, if that is an identifier.
    pub fn from_bytes(name: &[u8]) -> (r: Option<Identifier>)
        ensures
            r is Some <==> valid_name(name@),
            r is Some ==> r.unwrap() == Identifier::named(name@),
    {
        if name.len() < 1 || name.len() > 31 || !letter(name[0]) {
            return None;
        }
        let mut padded: Vec<u8> = Vec::new();
        let mut i: usize = 0;
        while i < name.len()
            invariant
                i <= name@.len() <= 31,
                padded@ == name@.take(i as int),
                forall|j: int| 0 <= j < i ==> is_name_byte(#[trigger] name@[j]),
            decreases name@.len() - i,
        {
            if !name_byte(name[i]) {
                return None;
            }
            padded.push(name[i]);
            assert(padded@ =~= name@.take(i + 1));
            i += 1;
        }
        assert(name@.take(i as int) =~= name@);
        let ghost zeros = (32 - name@.len()) as nat;
        while padded.len() < FIELD_BYTES
            invariant
                name@.len() <= padded@.len() <= 32,
                padded@ == name@ + Seq::new((padded@.len() - name@.len()) as nat, |i: int| 0u8),
            decreases 32 - padded@.len(),
        {
            let ghost before = padded@;
            padded.push(0);
            assert(padded@ =~= name@ + Seq::new((padded@.len() - name@.len()) as nat, |i: int| 0u8));
        }
        proof {
            lemma_le_value_padded(name@, zeros);
            lemma_le_bytes_of_value(name@);
            lemma_byte_range_grows(name@.len(), 32);
            reveal_with_fuel(byte_range, 33);
            assert(padded@.take(32) =~= padded@);
            Identifier::lemma_named(name@);
        }
        match Field::from_bytes_le(padded.as_slice()) {
            Some(value) => {
                proof {
                    Field::lemma_with_value(le_value(name@));
                    Field::with_value(le_value(name@)).lemma_view_injective(value);
                }
                Some(Identifier { value, size: name.len() as u8 })
            },
            None => None,
        }
    }

    /// The identifier with the name `name`, if that is an identifier.
    pub fn from_str(name: &str) -> (r: Option<Identifier>)
        ensures
            r is Some <==> valid_name(name.spec_bytes()),
            r is Some ==> r.unwrap() == Identifier::named(name.spec_bytes()),
    {
        Identifier::from_bytes(name.as_bytes())
    }

    /// The bytes of the name.
    pub fn to_bytes(&self) -> (r: Vec<u8>)
        ensures
            r@ == self@,
            valid_name(r@),
            forall|i: int| 0 <= i < r@.len() ==> #[trigger] r@[i] < 128,
    {
        proof {
            use_type_invariant(self);
            lemma_le_bytes_len(self.value@, self.size as nat);
            lemma_le_bytes_prefix(self.value@, self.size as nat, 32);
            lemma_le_bytes_len(self.value@, 32);
        }
        let mut bytes = self.value.to_bytes_le();
        bytes.truncate(self.size as usize);
        assert(bytes@ =~= self@);
        assert forall|i: int| 0 <= i < bytes@.len() implies #[trigger] bytes@[i] < 128 by {
            assert(is_name_byte(bytes@[i]));
        }
        bytes
    }

    /// The number of bytes of the name, between 1 and 31.
    pub fn size(&self) -> (r: u8)
        ensures
            r == self@.len(),
            1 <= r <= 31,
    {
        proof {
            use_type_invariant(self);
            lemma_le_bytes_len(self.value@, self.size as nat);
        }
        self.size
    }

    /// Two identifiers with the same name are the same identifier.
    pub proof fn lemma_view_injective(self, other: Identifier)
        requires
            self.is_valid(),
            other.is_valid(),
            self@ == other@,
        ensures
            self == other,
    {
        self.lemma_named_view();
        other.lemma_named_view();
    }
}

impl ToBits for Identifier {
    /// The bits of the name, byte by byte, each byte least significant bit
    /// first.
    open spec fn bits_le(&self) -> Seq<bool> {
        bytes_bits_le(self@)
    }

    /// The bits of [`Self::bits_le`] in the opposite order.
    open spec fn bits_be(&self) -> Seq<bool> {
        bytes_bits_le(self@).reverse()
    }

    fn to_bits_le(&self) -> (r: Vec<bool>) {
        let name = self.to_bytes();
        let mut bits: Vec<bool> = Vec::new();
        let mut i: usize = 0;
        assert(name@.take(0) =~= Seq::empty());
        while i < name.len()
            invariant
                i <= name@.len(),
                bits@ == bytes_bits_le(name@.take(i as int)),
            decreases name@.len() - i,
        {
            let more = low_bits_le(name[i] as u64, 8);
            bits.extend_from_slice(more.as_slice());
            proof {
                let next = name@.take(i + 1);
                assert(next.drop_last() =~= name@.take(i as int));
                assert(next.last() == name@[i as int]);
            }
            i += 1;
        }
        assert(name@.take(i as int) =~= name@);
        bits
    }

    fn to_bits_be(&self) -> (r: Vec<bool>) {
        reversed(&self.to_bits_le())
    }
}

impl Equal for Identifier {
    open spec fn equals(&self, other: &Self) -> bool {
        *self == *other
    }

    fn is_equal(&self, other: &Self) -> (r: bool) {
        *self == *other
    }

    fn is_not_equal(&self, other: &Self) -> (r: bool) {
        *self != *other
    }
}

/// The name of a program and of the network it is deployed on.
#[derive(Clone, Copy, Debug, PartialEq, Eq, Structural, Hash)]
pub struct ProgramID {
    /// The name of the program.
    pub name: Identifier,
    /// The name of the network.
    pub network: Identifier,
}

impl ToBits for ProgramID {
    open spec fn bits_le(&self) -> Seq<bool> {
        self.name.bits_le() + self.network.bits_le()
    }

    open spec fn bits_be(&self) -> Seq<bool> {
        self.name.bits_be() + self.network.bits_be()
    }

    fn to_bits_le(&self) -> (r: Vec<bool>) {
        let mut bits = self.name.to_bits_le();
        let more = self.network.to_bits_le();
        bits.extend_from_slice(more.as_slice());
        bits
    }

    fn to_bits_be(&self) -> (r: Vec<bool>) {
        let mut bits = self.name.to_bits_be();
        let more = self.network.to_bits_be();
        bits.extend_from_slice(more.as_slice());
        bits
    }
}

} // verus!
