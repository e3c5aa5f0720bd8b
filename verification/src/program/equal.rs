//! Equality of program data.

use crate::field::Field;
use vstd::prelude::*;

verus! {

/// Values that can be compared for equality, with the meaning of the
/// comparison stated in specifications.
pub trait Equal {
    /// Whether `self` and `other` stand for the same value.
    spec fn equals(&self, other: &Self) -> bool;

    /// Returns `true` if `self` and `other` are equal.
    fn is_equal(&self, other: &Self) -> (r: bool)
        ensures
            r == self.equals(other),
    ;

    /// Returns `true` if `self` and `other` are *not* equal.
    fn is_not_equal(&self, other: &Self) -> (r: bool)
        ensures
            r == !self.equals(other),
    ;
}

impl Equal for Field {
    open spec fn equals(&self, other: &Self) -> bool {
        self@ == other@
    }

    fn is_equal(&self, other: &Self) -> (r: bool) {
        proof {
            if self@ == other@ {
                self.lemma_view_injective(*other);
            }
        }
        *self == *other
    }

    fn is_not_equal(&self, other: &Self) -> (r: bool) {
        !self.is_equal(other)
    }
}

/// Whether two sequences of field elements hold the same values.
pub fn fields_equal(left: &Vec<Field>, right: &Vec<Field>) -> (r: bool)
    ensures
        r == (crate::r1cs::constraint_checker::values(left@)
            == crate::r1cs::constraint_checker::values(right@)),
{
    let ghost l = crate::r1cs::constraint_checker::values(left@);
    let ghost r = crate::r1cs::constraint_checker::values(right@);
    if left.len() != right.len() {
        assert(l.len() != r.len());
        return false;
    }
    let mut i: usize = 0;
    while i < left.len()
        invariant
            i <= left@.len(),
            left@.len() == right@.len(),
            l == crate::r1cs::constraint_checker::values(left@),
            r == crate::r1cs::constraint_checker::values(right@),
            forall|j: int| 0 <= j < i ==> l[j] == r[j],
        decreases left@.len() - i,
    {
        if left[i].is_not_equal(&right[i]) {
            assert(l[i as int] != r[i as int]);
            return false;
        }
        i += 1;
    }
    assert(l =~= r);
    true
}

} // verus!
