//! The pieces that the text of a program is made of: blanks, keywords,
//! numbers and names.
//!
//! Text is read as bytes. A reader starts at a position and reports where it
//! stopped; the specifications speak of the bytes from that position on.

use crate::program::identifier::{
    digit, is_digit, is_name_byte, name_byte, valid_name, Identifier,
};
use vstd::prelude::*;
use vstd::slice::slice_subrange;
use vstd::string::{is_ascii, is_ascii_spec_bytes, StringSliceAdditionalSpecFns};

verus! {

/// Whether `b` is a blank: a space, a tab, a line feed or a carriage return.
pub open spec fn is_blank(b: u8) -> bool {
    b == 32 || b == 9 || b == 10 || b == 13
}

/// The number of blanks at the front of `input`.
pub open spec fn blanks(input: Seq<u8>) -> nat
    decreases input.len(),
{
    if input.len() > 0 && is_blank(input[0]) {
        1 + blanks(input.drop_first())
    } else {
        0
    }
}

/// The number of decimal digits at the front of `input`.
pub open spec fn digits(input: Seq<u8>) -> nat
    decreases input.len(),
{
    if input.len() > 0 && is_digit(input[0]) {
        1 + digits(input.drop_first())
    } else {
        0
    }
}

/// The number of bytes at the front of `input` that may occur in a name.
pub open spec fn name_bytes(input: Seq<u8>) -> nat
    decreases input.len(),
{
    if input.len() > 0 && is_name_byte(input[0]) {
        1 + name_bytes(input.drop_first())
    } else {
        0
    }
}

/// The number that a string of decimal digits spells.
pub open spec fn digits_value(digits: Seq<u8>) -> nat
    decreases digits.len(),
{
    if digits.len() == 0 {
        0
    } else {
        10 * digits_value(digits.drop_last()) + (digits.last() - 48) as nat
    }
}

/// The decimal digits of `n`, without leading zeros.
pub open spec fn decimal(n: nat) -> Seq<u8>
    decreases n,
{
    if n < 10 {
        seq![(48 + n) as u8]
    } else {
        decimal(n / 10).push((48 + n % 10) as u8)
    }
}

/// The bytes of a text of ASCII characters.
pub open spec fn ascii(text: Seq<char>) -> Seq<u8> {
    Seq::new(text.len(), |i: int| text[i] as u8)
}

/// Whether `input` begins with `tag`.
pub open spec fn has_tag(input: Seq<u8>, tag: Seq<u8>) -> bool {
    tag.len() <= input.len() && input.take(tag.len() as int) == tag
}

/// The number at the front of `input`: its value and the number of its
/// digits, where `input` begins with a digit.
pub open spec fn number(input: Seq<u8>) -> Option<(nat, nat)> {
    if digits(input) == 0 {
        None
    } else {
        Some((digits_value(input.take(digits(input) as int)), digits(input)))
    }
}

/// The name at the front of `input`: the longest run of letters, digits
/// and underscores, where that is an identifier.
pub open spec fn name(input: Seq<u8>) -> Option<Seq<u8>> {
    if valid_name(input.take(name_bytes(input) as int)) {
        Some(input.take(name_bytes(input) as int))
    } else {
        None
    }
}

/// The bytes of `text`, which consists of ASCII characters.
pub fn tag_bytes(text: &str) -> (r: &[u8])
    requires
        is_ascii(text),
    ensures
        r@ == ascii(text@),
        is_ascii_bytes(r@),
{
    proof {
        is_ascii_spec_bytes(text);
    }
    let r = text.as_bytes();
    assert(r@ =~= ascii(text@));
    assert forall|i: int| 0 <= i < r@.len() implies #[trigger] r@[i] < 128 by {
        assert(text@[i] <= '\u{7f}');
    }
    r
}

/// Whether `input` has `tag` at the position `from`.
pub fn at_tag(input: &[u8], from: usize, tag: &[u8]) -> (r: bool)
    requires
        from <= input@.len(),
    ensures
        r == has_tag(input@.skip(from as int), tag@),
{
    let ghost rest = input@.skip(from as int);
    if input.len() - from < tag.len() {
        return false;
    }
    let mut i: usize = 0;
    while i < tag.len()
        invariant
            i <= tag@.len(),
            from + tag@.len() <= input@.len() <= usize::MAX,
            rest == input@.skip(from as int),
            forall|j: int| 0 <= j < i ==> rest[j] == tag@[j],
        decreases tag@.len() - i,
    {
        if input[from + i] != tag[i] {
            assert(rest.take(tag@.len() as int)[i as int] != tag@[i as int]);
            return false;
        }
        i += 1;
    }
    assert(rest.take(tag@.len() as int) =~= tag@);
    true
}

/// The position after the blanks that begin at `from`.
pub fn skip_blanks(input: &[u8], from: usize) -> (r: usize)
    requires
        from <= input@.len(),
    ensures
        r == from + blanks(input@.skip(from as int)),
        r <= input@.len(),
{
    let mut i: usize = from;
    while i < input.len() && (input[i] == 32 || input[i] == 9 || input[i] == 10 || input[i] == 13)
        invariant
            from <= i <= input@.len(),
            blanks(input@.skip(from as int)) == (i - from) + blanks(input@.skip(i as int)),
        decreases input@.len() - i,
    {
        assert(input@.skip(i as int).drop_first() =~= input@.skip(i + 1));
        i += 1;
    }
    i
}

/// The position after the digits that begin at `from`.
pub fn skip_digits(input: &[u8], from: usize) -> (r: usize)
    requires
        from <= input@.len(),
    ensures
        r == from + digits(input@.skip(from as int)),
        r <= input@.len(),
{
    let mut i: usize = from;
    while i < input.len() && digit(input[i])
        invariant
            from <= i <= input@.len(),
            digits(input@.skip(from as int)) == (i - from) + digits(input@.skip(i as int)),
        decreases input@.len() - i,
    {
        assert(input@.skip(i as int).drop_first() =~= input@.skip(i + 1));
        i += 1;
    }
    i
}

/// The position after the name bytes that begin at `from`.
pub fn skip_name(input: &[u8], from: usize) -> (r: usize)
    requires
        from <= input@.len(),
    ensures
        r == from + name_bytes(input@.skip(from as int)),
        r <= input@.len(),
{
    let mut i: usize = from;
    while i < input.len() && name_byte(input[i])
        invariant
            from <= i <= input@.len(),
            name_bytes(input@.skip(from as int)) == (i - from) + name_bytes(input@.skip(i as int)),
        decreases input@.len() - i,
    {
        assert(input@.skip(i as int).drop_first() =~= input@.skip(i + 1));
        i += 1;
    }
    i
}

/// Reads the number at the position `from`: its value and the position after
/// its digits. There is none where no digit stands at `from`, or the value
/// does not fit 128 bits.
pub fn read_number(input: &[u8], from: usize) -> (r: Option<(u128, usize)>)
    requires
        from <= input@.len(),
    ensures
        r is Some <==> number(input@.skip(from as int)) is Some && number(
            input@.skip(from as int),
        ).unwrap().0 <= u128::MAX,
        r is Some ==> r.unwrap().0 == number(input@.skip(from as int)).unwrap().0 && r.unwrap().1
            == from + number(input@.skip(from as int)).unwrap().1 && r.unwrap().1 <= input@.len(),
{
    let ghost rest = input@.skip(from as int);
    let end = skip_digits(input, from);
    if end == from {
        return None;
    }
    let ghost run = rest.take((end - from) as int);
    let mut value: u128 = 0;
    let mut i: usize = from;
    proof {
        assert(run.take(0) =~= Seq::empty());
        lemma_digits_are_digits(rest);
        assert forall|j: int| 0 <= j < run.len() implies is_digit(#[trigger] run[j]) by {
            assert(run[j] == rest[j]);
        }
    }
    while i < end
        invariant
            from <= i <= end <= input@.len(),
            from < end,
            end - from == digits(rest),
            rest == input@.skip(from as int),
            run == rest.take((end - from) as int),
            forall|j: int| 0 <= j < run.len() ==> is_digit(#[trigger] run[j]),
            value == digits_value(run.take((i - from) as int)),
        decreases end - i,
    {
        proof {
            assert(is_digit(run[(i - from) as int]));
            assert(run[(i - from) as int] == input@[i as int]);
        }
        let d = (input[i] - 48) as u128;
        proof {
            let next = run.take((i - from) + 1);
            assert(next.drop_last() =~= run.take((i - from) as int));
            assert(next.last() == input@[i as int]);
        }
        if value > (u128::MAX - d) / 10 {
            proof {
                let next = run.take((i - from) + 1);
                assert(digits_value(next) == 10 * value + d);
                assert(10 * value + d > u128::MAX);
                lemma_digits_value_grows(run, (i - from + 1) as nat);
                assert(number(rest) == Some((digits_value(run), (end - from) as nat)));
            }
            return None;
        }
        value = value * 10 + d;
        i += 1;
    }
    assert(run.take((end - from) as int) =~= run);
    Some((value, end))
}

/// The digits of a run are digits.
pub proof fn lemma_digits_are_digits(input: Seq<u8>)
    ensures
        forall|j: int| 0 <= j < digits(input) ==> is_digit(#[trigger] input[j]),
        digits(input) <= input.len(),
    decreases input.len(),
{
    if input.len() > 0 && is_digit(input[0]) {
        lemma_digits_are_digits(input.drop_first());
        assert forall|j: int| 0 <= j < digits(input) implies is_digit(#[trigger] input[j]) by {
            if j > 0 {
                assert(input[j] == input.drop_first()[j - 1]);
            }
        }
    }
}

/// The value of a string of digits is at least the value of each of its
/// fronts.
pub proof fn lemma_digits_value_grows(run: Seq<u8>, front: nat)
    requires
        front <= run.len(),
        forall|j: int| 0 <= j < run.len() ==> is_digit(#[trigger] run[j]),
    ensures
        digits_value(run.take(front as int)) <= digits_value(run),
    decreases run.len() - front,
{
    if front < run.len() {
        let next = run.take((front + 1) as int);
        assert(next.drop_last() =~= run.take(front as int));
        assert(is_digit(run[front as int]));
        assert(next.last() == run[front as int]);
        lemma_digits_value_grows(run, front + 1);
    } else {
        assert(run.take(front as int) =~= run);
    }
}

/// Decimal digits are ASCII characters.
pub proof fn lemma_decimal_is_ascii(n: nat)
    ensures
        is_ascii_bytes(decimal(n)),
    decreases n,
{
    if n >= 10 {
        lemma_decimal_is_ascii(n / 10);
    }
}

/// Appends the decimal digits of `n` to `out`.
pub fn write_decimal(out: &mut Vec<u8>, n: u128)
    ensures
        final(out)@ == old(out)@ + decimal(n as nat),
        is_ascii_bytes(decimal(n as nat)),
{
    proof {
        lemma_decimal_is_ascii(n as nat);
    }
    let ghost start = out@;
    let mut reversed: Vec<u8> = Vec::new();
    let mut rest = n;
    reversed.push((48 + rest % 10) as u8);
    rest = rest / 10;
    proof {
        if n < 10 {
            assert(decimal(n as nat) =~= seq![(48 + n) as u8]);
        }
    }
    while rest > 0
        invariant
            reversed@.len() >= 1,
            decimal(n as nat) == (if rest == 0 {
                Seq::<u8>::empty()
            } else {
                decimal(rest as nat)
            }) + reversed@.reverse(),
        decreases rest,
    {
        let ghost before = reversed@;
        let d = (48 + rest % 10) as u8;
        reversed.push(d);
        proof {
            let head = if rest / 10 == 0 {
                Seq::<u8>::empty()
            } else {
                decimal((rest / 10) as nat)
            };
            assert(reversed@.reverse() =~= seq![d] + before.reverse());
            if rest < 10 {
                assert(decimal(rest as nat) =~= seq![d]);
            } else {
                assert(decimal(rest as nat) == decimal((rest / 10) as nat).push(d));
            }
            assert(decimal(rest as nat) + before.reverse() =~= head + (seq![d] + before.reverse()));
        }
        rest = rest / 10;
    }
    let mut i: usize = reversed.len();
    assert(start + reversed@.reverse().take(0) =~= start);
    while i > 0
        invariant
            i <= reversed@.len(),
            out@ == start + reversed@.reverse().take((reversed@.len() - i) as int),
        decreases i,
    {
        i -= 1;
        out.push(reversed[i]);
        assert(out@ =~= start + reversed@.reverse().take((reversed@.len() - i) as int));
    }
    assert(reversed@.reverse().take(reversed@.len() as int) =~= reversed@.reverse());
    assert(Seq::<u8>::empty() + reversed@.reverse() =~= reversed@.reverse());
}

/// Reads the name at the position `from`: the identifier and the position
/// after it.
pub fn read_name(input: &[u8], from: usize) -> (r: Option<(Identifier, usize)>)
    requires
        from <= input@.len(),
    ensures
        r is Some <==> name(input@.skip(from as int)) is Some,
        r is Some ==> r.unwrap().0 == Identifier::named(name(input@.skip(from as int)).unwrap())
            && r.unwrap().1 == from + name_bytes(input@.skip(from as int)) && r.unwrap().1
            <= input@.len(),
{
    let end = skip_name(input, from);
    let run = slice_subrange(input, from, end);
    assert(run@ =~= input@.skip(from as int).take((end - from) as int));
    match Identifier::from_bytes(run) {
        Some(identifier) => Some((identifier, end)),
        None => None,
    }
}

/// Whether every byte is an ASCII character.
pub open spec fn is_ascii_bytes(bytes: Seq<u8>) -> bool {
    forall|i: int| 0 <= i < bytes.len() ==> #[trigger] bytes[i] < 128
}

/// The characters that ASCII bytes spell.
pub open spec fn chars_of(bytes: Seq<u8>) -> Seq<char> {
    Seq::new(bytes.len(), |i: int| bytes[i] as char)
}

/// The text that ASCII bytes spell.
pub fn as_text(bytes: Vec<u8>) -> (r: String)
    requires
        is_ascii_bytes(bytes@),
    ensures
        r@ == chars_of(bytes@),
{
    string_from_utf8_lossy(bytes)
}

/// `String::from_utf8_lossy`: for bytes that are ASCII characters, the string
/// of those characters.
#[verifier::external_body]
fn string_from_utf8_lossy(bytes: Vec<u8>) -> (r: String)
    ensures
        is_ascii_bytes(bytes@) ==> r@ == chars_of(bytes@),
{
    String::from_utf8_lossy(&bytes).into_owned()
}

} // verus!
