//! Values: what a function takes and returns.

use crate::program::equal::Equal;
use crate::program::plaintext::Plaintext;
use crate::program::record::Record;
use vstd::prelude::*;
use vstd::std_specs::cmp::PartialEqSpecImpl;

verus! {

/// A plaintext or a record.
#[derive(Clone, Debug)]
pub enum Value {
    /// A plaintext value.
    Plaintext(Plaintext),
    /// A record value.
    Record(Record<Plaintext>),
}

impl Equal for Value {
    /// Values are equal when they are of the same variant and hold equal
    /// content.
    open spec fn equals(&self, other: &Self) -> bool {
        match (self, other) {
            (Value::Plaintext(a), Value::Plaintext(b)) => a.equals(b),
            (Value::Record(a), Value::Record(b)) => a.equals(b),
            _ => false,
        }
    }

    fn is_equal(&self, other: &Self) -> (r: bool) {
        match (self, other) {
            (Value::Plaintext(a), Value::Plaintext(b)) => a.is_equal(b),
            (Value::Record(a), Value::Record(b)) => a.is_equal(b),
            (Value::Plaintext(..), _) | (Value::Record(..), _) => false,
        }
    }

    fn is_not_equal(&self, other: &Self) -> (r: bool) {
        match (self, other) {
            (Value::Plaintext(a), Value::Plaintext(b)) => a.is_not_equal(b),
            (Value::Record(a), Value::Record(b)) => a.is_not_equal(b),
            (Value::Plaintext(..), _) | (Value::Record(..), _) => true,
        }
    }
}

impl PartialEq for Value {
    /// Returns `true` if `self` and `other` are equal.
    fn eq(&self, other: &Self) -> (r: bool) {
        self.is_equal(other)
    }
}

impl PartialEqSpecImpl for Value {
    open spec fn obeys_eq_spec() -> bool {
        true
    }

    open spec fn eq_spec(&self, other: &Self) -> bool {
        self.equals(other)
    }
}

impl Eq for Value {

}

} // verus!
