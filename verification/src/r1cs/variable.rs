//! Witness slots.

use vstd::prelude::*;

verus! {

/// The position of a variable among the public or among the private
/// variables. Public position 0 holds the constant one.
#[derive(Clone, Copy, Debug, PartialEq, Eq, Structural, Hash)]
pub enum Index {
    /// A position among the public variables.
    Public(usize),
    /// A position among the private variables.
    Private(usize),
}

/// One witness slot of a constraint system.
#[derive(Clone, Copy, Debug, PartialEq, Eq, Structural, Hash)]
pub struct Variable(Index);

impl Variable {
    /// The position that the variable stands for.
    pub closed spec fn index(self) -> Index {
        self.0
    }

    /// The variable at `index`. Nothing ties it to a constraint system: the
    /// system that evaluates it decides whether the position exists.
    pub fn new_unchecked(index: Index) -> (r: Variable)
        ensures
            r.index() == index,
    {
        Variable(index)
    }

    /// The position of the variable.
    pub fn get_unchecked(&self) -> (r: Index)
        ensures
            r == self.index(),
    {
        self.0
    }

    /// The public variable that holds the constant one.
    pub fn one() -> (r: Variable)
        ensures
            r.index() == Index::Public(0),
    {
        Variable(Index::Public(0))
    }
}

} // verus!
