//! What a circuit asks of a constraint system, whatever the system does
//! with its constraints.
//!
//! A system counts its variables and constraints. A circuit allocates
//! variables, which are numbered in the order of their allocation, and
//! registers constraints over them. What a system does with a constraint
//! beyond counting it is its own business: a checker evaluates it.

use crate::field::Field;
use crate::r1cs::constraint_checker::{CheckerState, TestConstraintChecker};
use crate::r1cs::errors::SynthesisError;
use crate::r1cs::linear_combination::LinearCombination;
use crate::r1cs::lookup_table::LookupTable;
use crate::r1cs::variable::{Index, Variable};
use vstd::prelude::*;

verus! {

/// The counts that every constraint system keeps.
pub struct Counts {
    /// The number of public variables, the constant one included.
    pub public_variables: nat,
    /// The number of private variables.
    pub private_variables: nat,
    /// The number of constraints.
    pub constraints: nat,
    /// The number of lookup tables.
    pub tables: nat,
}

/// A collection of variables and of constraints over them.
pub trait ConstraintSystem {
    /// The counts of the system.
    spec fn counts(&self) -> Counts;

    /// Whether the system can take the constraint `a * b = c` under the name
    /// `name`.
    spec fn admits(
        &self,
        name: Seq<char>,
        a: Seq<(Index, nat)>,
        b: Seq<(Index, nat)>,
        c: Seq<(Index, nat)>,
    ) -> bool;

    /// Whether the system can take a lookup constraint on `a`, `b` and `c`.
    spec fn admits_lookup(
        &self,
        a: Seq<(Index, nat)>,
        b: Seq<(Index, nat)>,
        c: Seq<(Index, nat)>,
    ) -> bool;

    /// Registers `lookup_table` under the next free table index.
    fn add_lookup_table(&mut self, lookup_table: LookupTable)
        ensures
            final(self).counts() == (Counts {
                tables: old(self).counts().tables + 1,
                ..old(self).counts()
            }),
    ;

    /// Allocates a private variable: the next in the order of allocation.
    /// Where `value` is an error, nothing is allocated and the error is
    /// handed back.
    fn alloc_private(&mut self, annotation: &str, value: Result<Field, SynthesisError>) -> (r:
        Result<Variable, SynthesisError>)
        ensures
            match value {
                Ok(_) => r is Ok && r.unwrap().index() == Index::Private(
                    old(self).counts().private_variables as usize,
                ) && final(self).counts() == (Counts {
                    private_variables: old(self).counts().private_variables + 1,
                    ..old(self).counts()
                }),
                Err(e) => r == Err::<Variable, SynthesisError>(e) && final(self).counts() == old(
                    self,
                ).counts(),
            },
    ;

    /// Allocates a public variable: the next in the order of allocation.
    /// Where `value` is an error, nothing is allocated and the error is
    /// handed back.
    fn alloc_input(&mut self, annotation: &str, value: Result<Field, SynthesisError>) -> (r: Result<
        Variable,
        SynthesisError,
    >)
        ensures
            match value {
                Ok(_) => r is Ok && r.unwrap().index() == Index::Public(
                    old(self).counts().public_variables as usize,
                ) && final(self).counts() == (Counts {
                    public_variables: old(self).counts().public_variables + 1,
                    ..old(self).counts()
                }),
                Err(e) => r == Err::<Variable, SynthesisError>(e) && final(self).counts() == old(
                    self,
                ).counts(),
            },
    ;

    /// Registers the constraint `a * b = c`, which is counted whether it
    /// holds or not.
    fn enforce(
        &mut self,
        annotation: &str,
        a: &LinearCombination,
        b: &LinearCombination,
        c: &LinearCombination,
    )
        requires
            old(self).admits(annotation@, a@, b@, c@),
        ensures
            final(self).counts() == (Counts {
                constraints: old(self).counts().constraints + 1,
                ..old(self).counts()
            }),
    ;

    /// Registers the lookup constraint that table `table_index` maps the
    /// values of `(a, b)` to the value of `c`. It is counted where it holds.
    fn enforce_lookup(
        &mut self,
        annotation: &str,
        a: &LinearCombination,
        b: &LinearCombination,
        c: &LinearCombination,
        table_index: usize,
    ) -> (r: Result<(), SynthesisError>)
        requires
            old(self).admits_lookup(a@, b@, c@),
        ensures
            table_index >= old(self).counts().tables ==> r == Err::<(), SynthesisError>(
                SynthesisError::LookupTableMissing,
            ),
            final(self).counts() == (Counts {
                constraints: old(self).counts().constraints + (if r is Ok {
                    1nat
                } else {
                    0nat
                }),
                ..old(self).counts()
            }),
    ;

    /// Opens the namespace `name` inside the innermost open one.
    fn push_namespace(&mut self, name: &str)
        requires
            !name@.contains('/'),
        ensures
            final(self).counts() == old(self).counts(),
    ;

    /// Closes the innermost open namespace, if one is open.
    fn pop_namespace(&mut self)
        ensures
            final(self).counts() == old(self).counts(),
    ;

    /// The number of constraints.
    fn num_constraints(&self) -> (r: usize)
        ensures
            r == self.counts().constraints,
    ;

    /// The number of public variables, the constant one included.
    fn num_public_variables(&self) -> (r: usize)
        ensures
            r == self.counts().public_variables,
    ;

    /// The number of private variables.
    fn num_private_variables(&self) -> (r: usize)
        ensures
            r == self.counts().private_variables,
    ;

    /// Whether the system only records the shape of the circuit and holds no
    /// values.
    fn is_in_setup_mode(&self) -> (r: bool);
}

impl CheckerState {
    /// The counts of a checker.
    pub open spec fn counts(self) -> Counts {
        Counts {
            public_variables: self.public_variables.len(),
            private_variables: self.private_variables.len(),
            constraints: self.num_constraints,
            tables: self.tables.len(),
        }
    }
}

impl ConstraintSystem for TestConstraintChecker {
    open spec fn counts(&self) -> Counts {
        self@.counts()
    }

    /// A checker evaluates the constraint: its variables have to be
    /// allocated, and where the constraint is the first to fail, its name
    /// must not hold the separator of paths.
    open spec fn admits(
        &self,
        name: Seq<char>,
        a: Seq<(Index, nat)>,
        b: Seq<(Index, nat)>,
        c: Seq<(Index, nat)>,
    ) -> bool {
        &&& self@.num_constraints < usize::MAX
        &&& self@.in_range(a)
        &&& self@.in_range(b)
        &&& self@.in_range(c)
        &&& (self@.violates(a, b, c) && self@.first_unsatisfied is None ==> !name.contains('/'))
    }

    open spec fn admits_lookup(
        &self,
        a: Seq<(Index, nat)>,
        b: Seq<(Index, nat)>,
        c: Seq<(Index, nat)>,
    ) -> bool {
        &&& self@.num_constraints < usize::MAX
        &&& self@.in_range(a)
        &&& self@.in_range(b)
        &&& self@.in_range(c)
    }

    /// The table is registered behind the tables that are there; nothing
    /// else changes.
    fn add_lookup_table(&mut self, lookup_table: LookupTable)
        ensures
            final(self)@ == (CheckerState {
                tables: old(self)@.tables.push(lookup_table@),
                ..old(self)@
            }),
    {
        TestConstraintChecker::add_lookup_table(self, lookup_table)
    }

    /// The value is assigned to the new variable; nothing else changes.
    fn alloc_private(&mut self, annotation: &str, value: Result<Field, SynthesisError>) -> (r:
        Result<Variable, SynthesisError>)
        ensures
            match value {
                Ok(v) => final(self)@ == old(self)@.alloc_private(v@),
                Err(_) => final(self)@ == old(self)@,
            },
    {
        TestConstraintChecker::alloc_private(self, annotation, value)
    }

    /// The value is assigned to the new variable; nothing else changes.
    fn alloc_input(&mut self, annotation: &str, value: Result<Field, SynthesisError>) -> (r: Result<
        Variable,
        SynthesisError,
    >)
        ensures
            match value {
                Ok(v) => final(self)@ == old(self)@.alloc_input(v@),
                Err(_) => final(self)@ == old(self)@,
            },
    {
        TestConstraintChecker::alloc_input(self, annotation, value)
    }

    fn enforce(
        &mut self,
        annotation: &str,
        a: &LinearCombination,
        b: &LinearCombination,
        c: &LinearCombination,
    )
        ensures
            final(self)@ == old(self)@.enforce(annotation@, a@, b@, c@),
    {
        TestConstraintChecker::enforce(self, annotation, a, b, c)
    }

    fn enforce_lookup(
        &mut self,
        annotation: &str,
        a: &LinearCombination,
        b: &LinearCombination,
        c: &LinearCombination,
        table_index: usize,
    ) -> (r: Result<(), SynthesisError>)
        ensures
            r == old(self)@.lookup_result(a@, b@, c@, table_index),
            final(self)@ == old(self)@.enforce_lookup(a@, b@, c@, table_index),
    {
        TestConstraintChecker::enforce_lookup(self, annotation, a, b, c, table_index)
    }

    /// The namespace is opened inside the innermost open one: the paths of
    /// the constraints that follow pass through it. Nothing else changes.
    fn push_namespace(&mut self, name: &str)
        ensures
            final(self)@ == (CheckerState {
                segments: old(self)@.segments.push(name@),
                ..old(self)@
            }),
    {
        TestConstraintChecker::push_namespace(self, name)
    }

    /// The innermost open namespace is closed; where none is open, nothing
    /// happens. Nothing else changes.
    fn pop_namespace(&mut self)
        ensures
            final(self)@ == (CheckerState {
                segments: if old(self)@.segments.len() > 0 {
                    old(self)@.segments.drop_last()
                } else {
                    old(self)@.segments
                },
                ..old(self)@
            }),
    {
        TestConstraintChecker::pop_namespace(self)
    }

    fn num_constraints(&self) -> (r: usize) {
        TestConstraintChecker::num_constraints(self)
    }

    fn num_public_variables(&self) -> (r: usize) {
        TestConstraintChecker::num_public_variables(self)
    }

    fn num_private_variables(&self) -> (r: usize) {
        TestConstraintChecker::num_private_variables(self)
    }

    /// A checker always holds an assignment: it is never in setup mode.
    fn is_in_setup_mode(&self) -> (r: bool)
        ensures
            !r,
    {
        TestConstraintChecker::is_in_setup_mode(self)
    }
}

} // verus!
