//! Linear combinations of variables.

use crate::field::Field;
use crate::r1cs::variable::{Index, Variable};
use vstd::prelude::*;

verus! {

/// A sum of variables, each scaled by a coefficient, in the order in which the
/// terms were added.
#[derive(Clone, Debug)]
pub struct LinearCombination(pub Vec<(Variable, Field)>);

impl View for LinearCombination {
    type V = Seq<(Index, nat)>;

    open spec fn view(&self) -> Seq<(Index, nat)> {
        Seq::new(self.0@.len(), |i: int| (self.0@[i].0.index(), self.0@[i].1@))
    }
}

impl LinearCombination {
    /// The empty sum.
    pub fn zero() -> (r: LinearCombination)
        ensures
            r@ == Seq::<(Index, nat)>::empty(),
    {
        let r = LinearCombination(Vec::new());
        assert(r@ =~= Seq::<(Index, nat)>::empty());
        r
    }

    /// The combination that consists of `variable` alone, with coefficient one.
    pub fn from_variable(variable: Variable) -> (r: LinearCombination)
        ensures
            r@ == seq![(variable.index(), 1nat)],
    {
        LinearCombination::zero().add_variable(variable)
    }

    /// `self + variable`.
    pub fn add_variable(self, variable: Variable) -> (r: LinearCombination)
        ensures
            r@ == self@.push((variable.index(), 1nat)),
    {
        self.add_term(Field::one(), variable)
    }

    /// `self + coefficient * variable`.
    pub fn add_term(self, coefficient: Field, variable: Variable) -> (r: LinearCombination)
        ensures
            r@ == self@.push((variable.index(), coefficient@)),
    {
        let mut terms = self.0;
        terms.push((variable, coefficient));
        let r = LinearCombination(terms);
        assert(r@ =~= self@.push((variable.index(), coefficient@)));
        r
    }

    /// The number of terms.
    pub fn len(&self) -> (r: usize)
        ensures
            r == self@.len(),
    {
        self.0.len()
    }
}

} // verus!
