//! Labels of polynomials and of their evaluations.
//!
//! The polynomials of one instance carry the number of the instance at the
//! end of their label, as in `z_b_3`. The polynomials of which a proof has
//! one each are called by a fixed name.

use crate::field::Field;
use vstd::prelude::*;
use vstd::string::StrSliceExecFns;

verus! {

/// Whether `text` begins with `prefix`.
pub open spec fn starts_with(text: Seq<char>, prefix: Seq<char>) -> bool {
    prefix.len() <= text.len() && text.take(prefix.len() as int) == prefix
}

/// Whether `c` is one of the ten decimal digits.
pub open spec fn is_digit(c: char) -> bool {
    '0' <= c && c <= '9'
}

/// The number that a string of decimal digits spells.
pub open spec fn digits_value(digits: Seq<char>) -> nat
    decreases digits.len(),
{
    if digits.len() == 0 {
        0
    } else {
        10 * digits_value(digits.drop_last()) + ((digits.last() as nat) - ('0' as nat)) as nat
    }
}

/// The index that `text` spells: an optional plus sign followed by decimal
/// digits, at least one, whose value fits the integers of this machine.
pub open spec fn decimal_index(text: Seq<char>) -> Option<usize> {
    let digits = if text.len() > 0 && text[0] == '+' {
        text.skip(1)
    } else {
        text
    };
    if digits.len() > 0 && (forall|i: int| 0 <= i < digits.len() ==> is_digit(#[trigger] digits[i]))
        && digits_value(digits) <= usize::MAX {
        Some(digits_value(digits) as usize)
    } else {
        None
    }
}

/// Returns [`starts_with`].
pub fn has_prefix(text: &str, prefix: &str) -> (r: bool)
    ensures
        r == starts_with(text@, prefix@),
{
    let n = prefix.unicode_len();
    if text.unicode_len() < n {
        return false;
    }
    let mut i: usize = 0;
    while i < n
        invariant
            i <= n,
            n == prefix@.len(),
            n <= text@.len(),
            forall|j: int| 0 <= j < i ==> text@[j] == prefix@[j],
        decreases n - i,
    {
        if text.get_char(i) != prefix.get_char(i) {
            assert(text@.take(n as int)[i as int] != prefix@[i as int]);
            return false;
        }
        i += 1;
    }
    assert(text@.take(n as int) =~= prefix@);
    true
}

/// Whether the two texts are the same.
pub fn same_text(left: &str, right: &str) -> (r: bool)
    ensures
        r == (left@ == right@),
{
    if left.unicode_len() != right.unicode_len() {
        return false;
    }
    let r = has_prefix(left, right);
    assert(left@.take(left@.len() as int) =~= left@);
    r
}

/// `text` without its first `n` characters.
pub fn without_prefix<'a>(text: &'a str, n: usize) -> (r: &'a str)
    requires
        n <= text@.len(),
    ensures
        r@ == text@.skip(n as int),
{
    let r = text.substring_char(n, text.unicode_len());
    assert(r@ =~= text@.skip(n as int));
    r
}

/// The index that `text` spells, as a per-instance label ends with one.
pub fn parse_index(text: &str) -> (r: Option<usize>)
    ensures
        r == decimal_index(text@),
{
    str_parse_usize(text)
}

/// The entry of `values` at the index, where there is one.
pub open spec fn entry(values: Seq<Field>, index: Option<usize>) -> Option<Field> {
    match index {
        Some(i) => if i < values.len() {
            Some(values[i as int])
        } else {
            None
        },
        None => None,
    }
}

/// Returns [`entry`].
pub fn entry_at(values: &Vec<Field>, index: Option<usize>) -> (r: Option<Field>)
    ensures
        r == entry(values@, index),
{
    match index {
        Some(i) => if i < values.len() {
            Some(values[i])
        } else {
            None
        },
        None => None,
    }
}

/// `str::parse::<usize>`: the number that the text spells in decimal digits
/// after an optional plus sign, unless the text has no digit, holds anything
/// else, or spells a number that does not fit a `usize`.
#[verifier::external_body]
fn str_parse_usize(text: &str) -> (r: Option<usize>)
    ensures
        r == decimal_index(text@),
{
    text.parse::<usize>().ok()
}

} // verus!
