//! A constraint system that holds a full assignment and evaluates every
//! constraint the moment it is registered.
//!
//! The checker never aborts on a violated constraint. It remembers the path
//! of the first one and keeps counting, so that a circuit can be run to its
//! end and the culprit named afterwards.

use crate::field::{field_mul, modulus, Field};
use crate::r1cs::errors::SynthesisError;
use crate::r1cs::linear_combination::LinearCombination;
use crate::r1cs::lookup_table::LookupTable;
use crate::r1cs::variable::{Index, Variable};
use vstd::arithmetic::div_mod::lemma_add_mod_noop;
use vstd::prelude::*;
use vstd::string::StringExecFns;

verus! {

/// The values of a sequence of field elements.
pub open spec fn values(elements: Seq<Field>) -> Seq<nat> {
    Seq::new(elements.len(), |i: int| elements[i]@)
}

/// The character sequences of a sequence of strings.
pub open spec fn texts(strings: Seq<String>) -> Seq<Seq<char>> {
    Seq::new(strings.len(), |i: int| strings[i]@)
}

/// The maps of a sequence of lookup tables.
pub open spec fn maps(tables: Seq<LookupTable>) -> Seq<Map<(nat, nat), nat>> {
    Seq::new(tables.len(), |i: int| tables[i]@)
}

/// The segments of a path, joined by `/`.
pub open spec fn join_path(segments: Seq<Seq<char>>) -> Seq<char>
    decreases segments.len(),
{
    if segments.len() == 0 {
        Seq::empty()
    } else if segments.len() == 1 {
        segments[0]
    } else {
        join_path(segments.drop_last()) + seq!['/'] + segments.last()
    }
}

/// The path under which the checker records a lookup against a table that
/// was never registered.
pub open spec fn lookup_path() -> Seq<char> {
    seq!['l', 'o', 'o', 'k', 'u', 'p']
}

/// What a checker holds, as mathematics.
pub struct CheckerState {
    /// The public variables; position 0 is the constant one.
    pub public_variables: Seq<nat>,
    /// The private variables.
    pub private_variables: Seq<nat>,
    /// The registered lookup tables, in the order of their registration.
    pub tables: Seq<Map<(nat, nat), nat>>,
    /// Whether no violation has been recorded.
    pub satisfied: bool,
    /// The number of constraints counted so far.
    pub num_constraints: nat,
    /// The namespaces that are open, outermost first.
    pub segments: Seq<Seq<char>>,
    /// The path of the first violation, once there is one.
    pub first_unsatisfied: Option<Seq<char>>,
}

impl CheckerState {
    /// The state of a fresh checker.
    pub open spec fn initial() -> CheckerState {
        CheckerState {
            public_variables: seq![1nat],
            private_variables: Seq::empty(),
            tables: Seq::empty(),
            satisfied: true,
            num_constraints: 0,
            segments: Seq::empty(),
            first_unsatisfied: None,
        }
    }

    /// Position 0 of the public variables exists and holds one, and the
    /// state counts as satisfied exactly as long as no violation is on
    /// record.
    pub open spec fn wf(self) -> bool {
        &&& self.public_variables.len() >= 1
        &&& self.public_variables[0] == 1
        &&& self.satisfied == (self.first_unsatisfied is None)
    }

    /// Whether `index` names a variable that has been allocated.
    pub open spec fn allocated(self, index: Index) -> bool {
        match index {
            Index::Public(i) => i < self.public_variables.len(),
            Index::Private(i) => i < self.private_variables.len(),
        }
    }

    /// Whether every variable of `lc` has been allocated.
    pub open spec fn in_range(self, lc: Seq<(Index, nat)>) -> bool {
        forall|i: int| 0 <= i < lc.len() ==> self.allocated(#[trigger] lc[i].0)
    }

    /// The value assigned to the variable at `index`.
    pub open spec fn value(self, index: Index) -> nat {
        match index {
            Index::Public(i) => self.public_variables[i as int],
            Index::Private(i) => self.private_variables[i as int],
        }
    }

    /// The sum over the terms of `lc` of value times coefficient, as an
    /// integer.
    pub open spec fn sum(self, lc: Seq<(Index, nat)>) -> nat
        decreases lc.len(),
    {
        if lc.len() == 0 {
            0
        } else {
            self.sum(lc.drop_last()) + self.value(lc.last().0) * lc.last().1
        }
    }

    /// The field element that `lc` evaluates to.
    pub open spec fn eval(self, lc: Seq<(Index, nat)>) -> nat {
        self.sum(lc) % modulus()
    }

    /// Whether `a * b = c` fails under the assignment.
    pub open spec fn violates(
        self,
        a: Seq<(Index, nat)>,
        b: Seq<(Index, nat)>,
        c: Seq<(Index, nat)>,
    ) -> bool {
        field_mul(self.eval(a), self.eval(b)) != self.eval(c)
    }

    /// The path of a constraint called `name` in the innermost open namespace.
    pub open spec fn path(self, name: Seq<char>) -> Seq<char> {
        join_path(self.segments.push(name))
    }

    /// The state with `path` recorded as the first violation, unless one is
    /// recorded already.
    pub open spec fn record(self, path: Seq<char>) -> CheckerState {
        if self.first_unsatisfied is None {
            CheckerState { satisfied: false, first_unsatisfied: Some(path), ..self }
        } else {
            self
        }
    }

    /// The state after a private variable with `value` is allocated.
    pub open spec fn alloc_private(self, value: nat) -> CheckerState {
        CheckerState { private_variables: self.private_variables.push(value), ..self }
    }

    /// The state after a public variable with `value` is allocated.
    pub open spec fn alloc_input(self, value: nat) -> CheckerState {
        CheckerState { public_variables: self.public_variables.push(value), ..self }
    }

    /// The state after the constraint `a * b = c` called `name` is registered.
    pub open spec fn enforce(
        self,
        name: Seq<char>,
        a: Seq<(Index, nat)>,
        b: Seq<(Index, nat)>,
        c: Seq<(Index, nat)>,
    ) -> CheckerState {
        let counted = CheckerState { num_constraints: self.num_constraints + 1, ..self };
        if self.violates(a, b, c) {
            counted.record(self.path(name))
        } else {
            counted
        }
    }

    /// What a lookup of `(a, b)` against table `table_index` with the claimed
    /// output `c` returns.
    pub open spec fn lookup_result(
        self,
        a: Seq<(Index, nat)>,
        b: Seq<(Index, nat)>,
        c: Seq<(Index, nat)>,
        table_index: usize,
    ) -> Result<(), SynthesisError> {
        if table_index >= self.tables.len() {
            Err(SynthesisError::LookupTableMissing)
        } else {
            let table = self.tables[table_index as int];
            let key = (self.eval(a), self.eval(b));
            if table.contains_key(key) && table[key] == self.eval(c) {
                Ok(())
            } else {
                Err(SynthesisError::LookupValueMissing)
            }
        }
    }

    /// The state after a lookup constraint is registered.
    pub open spec fn enforce_lookup(
        self,
        a: Seq<(Index, nat)>,
        b: Seq<(Index, nat)>,
        c: Seq<(Index, nat)>,
        table_index: usize,
    ) -> CheckerState {
        match self.lookup_result(a, b, c, table_index) {
            Ok(_) => CheckerState { num_constraints: self.num_constraints + 1, ..self },
            Err(SynthesisError::LookupTableMissing) => self.record(lookup_path()),
            Err(_) => self,
        }
    }
}

/// A lookup succeeds exactly when the referenced table is registered and maps
/// the values of `(a, b)` to the value of `c`. Against a table that was never
/// registered it reports the missing table whatever the values are, and a
/// successful lookup is counted as one constraint.
pub proof fn lemma_lookup_semantics(
    state: CheckerState,
    a: Seq<(Index, nat)>,
    b: Seq<(Index, nat)>,
    c: Seq<(Index, nat)>,
    table_index: usize,
)
    ensures
        state.lookup_result(a, b, c, table_index) is Ok <==> table_index < state.tables.len()
            && state.tables[table_index as int].contains_key((state.eval(a), state.eval(b)))
            && state.tables[table_index as int][(state.eval(a), state.eval(b))] == state.eval(c),
        table_index >= state.tables.len() ==> state.lookup_result(a, b, c, table_index) == Err::<
            (),
            SynthesisError,
        >(SynthesisError::LookupTableMissing),
        table_index < state.tables.len() ==> state.enforce_lookup(
            a,
            b,
            c,
            table_index,
        ).first_unsatisfied == state.first_unsatisfied,
        state.lookup_result(a, b, c, table_index) is Ok ==> state.enforce_lookup(
            a,
            b,
            c,
            table_index,
        ).num_constraints == state.num_constraints + 1,
        state.lookup_result(a, b, c, table_index) is Err ==> state.enforce_lookup(
            a,
            b,
            c,
            table_index,
        ).num_constraints == state.num_constraints,
{
}

/// The first constraint that fails is recorded under the open namespaces and
/// its own name, joined by `/`, and the checker stops being satisfied. A
/// failing constraint is counted like any other.
pub proof fn lemma_first_violation_is_recorded(
    state: CheckerState,
    name: Seq<char>,
    a: Seq<(Index, nat)>,
    b: Seq<(Index, nat)>,
    c: Seq<(Index, nat)>,
)
    requires
        state.first_unsatisfied is None,
        state.violates(a, b, c),
    ensures
        state.enforce(name, a, b, c).first_unsatisfied == Some(
            join_path(state.segments.push(name)),
        ),
        !state.enforce(name, a, b, c).satisfied,
        state.enforce(name, a, b, c).num_constraints == state.num_constraints + 1,
{
}

/// Once a violation is on record, no constraint that is registered later
/// replaces it or makes the state satisfied again, whether it holds, fails,
/// or names a missing table.
pub proof fn lemma_first_violation_is_kept(
    state: CheckerState,
    name: Seq<char>,
    a: Seq<(Index, nat)>,
    b: Seq<(Index, nat)>,
    c: Seq<(Index, nat)>,
    table_index: usize,
)
    requires
        state.wf(),
        state.first_unsatisfied is Some,
    ensures
        state.enforce(name, a, b, c).first_unsatisfied == state.first_unsatisfied,
        !state.enforce(name, a, b, c).satisfied,
        state.enforce_lookup(a, b, c, table_index).first_unsatisfied == state.first_unsatisfied,
        !state.enforce_lookup(a, b, c, table_index).satisfied,
{
}

/// Whatever is allocated or registered, position 0 of the public variables
/// keeps holding the constant one, and the state counts as satisfied exactly
/// as long as no violation is on record.
pub proof fn lemma_constant_one_is_kept(
    state: CheckerState,
    value: nat,
    name: Seq<char>,
    a: Seq<(Index, nat)>,
    b: Seq<(Index, nat)>,
    c: Seq<(Index, nat)>,
    table_index: usize,
)
    requires
        state.wf(),
    ensures
        CheckerState::initial().wf(),
        state.alloc_private(value).wf(),
        state.alloc_input(value).wf(),
        state.enforce(name, a, b, c).wf(),
        state.enforce_lookup(a, b, c, table_index).wf(),
{
}

/// A constraint that holds leaves the record of violations as it was.
pub proof fn lemma_satisfied_constraint_records_nothing(
    state: CheckerState,
    name: Seq<char>,
    a: Seq<(Index, nat)>,
    b: Seq<(Index, nat)>,
    c: Seq<(Index, nat)>,
)
    requires
        !state.violates(a, b, c),
    ensures
        state.enforce(name, a, b, c) == (CheckerState {
            num_constraints: state.num_constraints + 1,
            ..state
        }),
{
}

/// Constraint system that checks every constraint against a full assignment.
pub struct TestConstraintChecker {
    public_variables: Vec<Field>,
    private_variables: Vec<Field>,
    lookup_tables: Vec<LookupTable>,
    found_unsatisfactory_constraint: bool,
    num_constraints: usize,
    segments: Vec<String>,
    first_unsatisfied_constraint: Option<String>,
}

impl View for TestConstraintChecker {
    type V = CheckerState;

    closed spec fn view(&self) -> CheckerState {
        CheckerState {
            public_variables: values(self.public_variables@),
            private_variables: values(self.private_variables@),
            tables: maps(self.lookup_tables@),
            satisfied: !self.found_unsatisfactory_constraint,
            num_constraints: self.num_constraints as nat,
            segments: texts(self.segments@),
            first_unsatisfied: match self.first_unsatisfied_constraint {
                Some(path) => Some(path@),
                None => None,
            },
        }
    }
}

impl Default for TestConstraintChecker {
    fn default() -> (r: TestConstraintChecker)
        ensures
            r@ == CheckerState::initial(),
    {
        let mut public_variables = Vec::new();
        public_variables.push(Field::one());
        let r = TestConstraintChecker {
            public_variables,
            private_variables: Vec::new(),
            lookup_tables: Vec::new(),
            found_unsatisfactory_constraint: false,
            num_constraints: 0,
            segments: Vec::new(),
            first_unsatisfied_constraint: None,
        };
        proof {
            assert(r@.public_variables =~= seq![1nat]);
            assert(r@.private_variables =~= Seq::empty());
            assert(r@.tables =~= Seq::empty());
            assert(r@.segments =~= Seq::empty());
        }
        r
    }
}

impl TestConstraintChecker {
    #[verifier::type_invariant]
    spec fn well_formed(self) -> bool {
        &&& self.public_variables@.len() >= 1
        &&& self.public_variables@[0]@ == 1
        &&& self.found_unsatisfactory_constraint == (self.first_unsatisfied_constraint is Some)
    }

    /// A checker with the constant one as its only variable, no table, no
    /// open namespace and no constraint.
    pub fn new() -> (r: TestConstraintChecker)
        ensures
            r@ == CheckerState::initial(),
    {
        TestConstraintChecker::default()
    }

    /// The path of the first constraint that failed, if any did.
    pub fn which_is_unsatisfied(&self) -> (r: Option<String>)
        ensures
            self@.wf(),
            r is Some <==> self@.first_unsatisfied is Some,
            r is Some ==> r.unwrap()@ == self@.first_unsatisfied.unwrap(),
            r is Some <==> !self@.satisfied,
    {
        proof {
            use_type_invariant(self);
        }
        match &self.first_unsatisfied_constraint {
            Some(path) => Some(path.clone()),
            None => None,
        }
    }

    /// The value of `lc` under the assignment.
    pub fn eval_lc(&self, lc: &LinearCombination) -> (r: Field)
        requires
            self@.in_range(lc@),
        ensures
            r@ == self@.eval(lc@),
    {
        let mut acc = Field::zero();
        let mut i: usize = 0;
        let ghost state = self@;
        let ghost terms = lc@;
        assert(terms.take(0) =~= Seq::empty());
        while i < lc.0.len()
            invariant
                i <= lc.0@.len(),
                terms == lc@,
                state == self@,
                state.in_range(terms),
                acc@ == state.sum(terms.take(i as int)) % modulus(),
            decreases lc.0@.len() - i,
        {
            let (variable, coefficient) = lc.0[i];
            assert(state.allocated(terms[i as int].0));
            let value = match variable.get_unchecked() {
                Index::Public(index) => self.public_variables[index],
                Index::Private(index) => self.private_variables[index],
            };
            let term = value.mul(&coefficient);
            let next = acc.add(&term);
            proof {
                let prefix = terms.take(i + 1);
                assert(prefix.drop_last() =~= terms.take(i as int));
                assert(prefix.last() == terms[i as int]);
                assert(value@ == state.value(terms[i as int].0));
                lemma_add_mod_noop(
                    state.sum(terms.take(i as int)) as int,
                    (value@ * coefficient@) as int,
                    modulus() as int,
                );
            }
            acc = next;
            i += 1;
        }
        assert(terms.take(i as int) =~= terms);
        acc
    }

    /// Whether no violation has been recorded: the flag and the recorded
    /// path always agree.
    pub fn is_satisfied(&self) -> (r: bool)
        ensures
            self@.wf(),
            r == self@.satisfied,
            r == (self@.first_unsatisfied is None),
    {
        proof {
            use_type_invariant(self);
        }
        !self.found_unsatisfactory_constraint
    }

    /// The number of constraints counted so far.
    pub fn num_constraints(&self) -> (r: usize)
        ensures
            r == self@.num_constraints,
    {
        self.num_constraints
    }

    /// The public variables without the constant one.
    pub fn public_inputs(&self) -> (r: Vec<Field>)
        ensures
            self@.wf(),
            values(r@) == self@.public_variables.subrange(1, self@.public_variables.len() as int),
    {
        proof {
            use_type_invariant(self);
        }
        let mut inputs: Vec<Field> = Vec::new();
        let mut i: usize = 1;
        while i < self.public_variables.len()
            invariant
                1 <= i <= self.public_variables@.len(),
                inputs@ == self.public_variables@.subrange(1, i as int),
            decreases self.public_variables@.len() - i,
        {
            inputs.push(self.public_variables[i]);
            assert(inputs@ =~= self.public_variables@.subrange(1, i + 1));
            i += 1;
        }
        assert(values(inputs@) =~= self@.public_variables.subrange(
            1,
            self@.public_variables.len() as int,
        ));
        inputs
    }

    /// The number of public variables, the constant one included.
    pub fn num_public_variables(&self) -> (r: usize)
        ensures
            r == self@.public_variables.len(),
    {
        self.public_variables.len()
    }

    /// The number of private variables.
    pub fn num_private_variables(&self) -> (r: usize)
        ensures
            r == self@.private_variables.len(),
    {
        self.private_variables.len()
    }

    /// A checker always holds an assignment.
    pub fn is_in_setup_mode(&self) -> (r: bool)
        ensures
            !r,
    {
        false
    }

    /// Registers `lookup_table` under the next free table index.
    pub fn add_lookup_table(&mut self, lookup_table: LookupTable)
        ensures
            final(self)@ == (CheckerState {
                tables: old(self)@.tables.push(lookup_table@),
                ..old(self)@
            }),
    {
        proof {
            use_type_invariant(&*self);
        }
        let mut tables = Vec::new();
        std::mem::swap(&mut tables, &mut self.lookup_tables);
        tables.push(lookup_table);
        self.lookup_tables = tables;
        proof {
            assert(final(self)@.tables =~= old(self)@.tables.push(lookup_table@));
        }
    }

    /// Allocates a private variable. Where `value` is an error, nothing is
    /// allocated and the error is handed back.
    pub fn alloc_private(&mut self, annotation: &str, value: Result<Field, SynthesisError>) -> (r: Result<
        Variable,
        SynthesisError,
    >)
        ensures
            match value {
                Ok(v) => r is Ok && r.unwrap().index() == Index::Private(
                    old(self)@.private_variables.len() as usize,
                ) && final(self)@ == old(self)@.alloc_private(v@),
                Err(e) => r == Err::<Variable, SynthesisError>(e) && final(self)@ == old(self)@,
            },
    {
        proof {
            use_type_invariant(&*self);
        }
        let index = self.private_variables.len();
        match value {
            Ok(v) => {
                let mut variables = Vec::new();
                std::mem::swap(&mut variables, &mut self.private_variables);
                variables.push(v);
                self.private_variables = variables;
                proof {
                    assert(final(self)@.private_variables =~= old(self)@.private_variables.push(v@));
                }
                Ok(Variable::new_unchecked(Index::Private(index)))
            },
            Err(e) => Err(e),
        }
    }

    /// Allocates a public variable. Where `value` is an error, nothing is
    /// allocated and the error is handed back.
    pub fn alloc_input(&mut self, annotation: &str, value: Result<Field, SynthesisError>) -> (r:
        Result<Variable, SynthesisError>)
        ensures
            match value {
                Ok(v) => r is Ok && r.unwrap().index() == Index::Public(
                    old(self)@.public_variables.len() as usize,
                ) && final(self)@ == old(self)@.alloc_input(v@),
                Err(e) => r == Err::<Variable, SynthesisError>(e) && final(self)@ == old(self)@,
            },
    {
        proof {
            use_type_invariant(&*self);
        }
        let index = self.public_variables.len();
        match value {
            Ok(v) => {
                let mut variables = Vec::new();
                variables.push(Field::one());
                std::mem::swap(&mut variables, &mut self.public_variables);
                variables.push(v);
                self.public_variables = variables;
                proof {
                    assert(final(self)@.public_variables =~= old(self)@.public_variables.push(v@));
                }
                Ok(Variable::new_unchecked(Index::Public(index)))
            },
            Err(e) => Err(e),
        }
    }

    /// The path of a constraint called `name` in the innermost open namespace.
    fn path_of(&self, name: &str) -> (r: String)
        ensures
            r@ == self@.path(name@),
    {
        let mut path = String::new();
        let mut i: usize = 0;
        let ghost segments = texts(self.segments@);
        proof {
            reveal_strlit("/");
            assert(segments.take(0) =~= Seq::empty());
        }
        while i < self.segments.len()
            invariant
                i <= self.segments@.len(),
                segments == texts(self.segments@),
                path@ == join_path(segments.take(i as int)),
                "/"@ == seq!['/'],
            decreases self.segments@.len() - i,
        {
            if i > 0 {
                path.append("/");
            }
            path.append(self.segments[i].as_str());
            proof {
                let prefix = segments.take(i + 1);
                assert(prefix.drop_last() =~= segments.take(i as int));
                assert(prefix.last() == segments[i as int]);
                if i == 0 {
                    assert(path@ =~= prefix[0]);
                }
            }
            i += 1;
        }
        proof {
            assert(segments.take(i as int) =~= segments);
            let all = segments.push(name@);
            assert(all.drop_last() =~= segments);
            assert(all.last() == name@);
        }
        if i > 0 {
            path.append("/");
        }
        path.append(name);
        proof {
            if i == 0 {
                assert(path@ =~= name@);
            }
        }
        path
    }

    fn record(&mut self, path: String)
        ensures
            final(self)@ == old(self)@.record(path@),
    {
        proof {
            use_type_invariant(&*self);
        }
        if self.first_unsatisfied_constraint.is_none() {
            let mut held = TestConstraintChecker::new();
            std::mem::swap(&mut held, self);
            *self = TestConstraintChecker {
                found_unsatisfactory_constraint: true,
                first_unsatisfied_constraint: Some(path),
                ..held
            };
        }
    }

    /// Registers the constraint `a * b = c` under the name `annotation` and
    /// counts it. Where it fails and no violation is on record, its path is
    /// recorded.
    pub fn enforce(
        &mut self,
        annotation: &str,
        a: &LinearCombination,
        b: &LinearCombination,
        c: &LinearCombination,
    )
        requires
            old(self)@.num_constraints < usize::MAX,
            old(self)@.in_range(a@),
            old(self)@.in_range(b@),
            old(self)@.in_range(c@),
            old(self)@.violates(a@, b@, c@) && old(self)@.first_unsatisfied is None
                ==> !annotation@.contains('/'),
        ensures
            final(self)@ == old(self)@.enforce(annotation@, a@, b@, c@),
    {
        proof {
            use_type_invariant(&*self);
        }
        let a_value = self.eval_lc(a);
        let b_value = self.eval_lc(b);
        let c_value = self.eval_lc(c);
        let product = a_value.mul(&b_value);
        let path = self.path_of(annotation);
        self.num_constraints += 1;
        proof {
            if product@ == c_value@ {
                product.lemma_view_injective(c_value);
            }
        }
        if product != c_value {
            self.record(path);
        }
    }

    /// Registers the lookup constraint that table `table_index` maps the
    /// values of `(a, b)` to the value of `c`. Success is counted as a
    /// constraint. A table that was never registered is recorded as a
    /// violation, under the path `lookup`, where none is on record.
    pub fn enforce_lookup(
        &mut self,
        annotation: &str,
        a: &LinearCombination,
        b: &LinearCombination,
        c: &LinearCombination,
        table_index: usize,
    ) -> (r: Result<(), SynthesisError>)
        requires
            old(self)@.num_constraints < usize::MAX,
            old(self)@.in_range(a@),
            old(self)@.in_range(b@),
            old(self)@.in_range(c@),
        ensures
            r == old(self)@.lookup_result(a@, b@, c@, table_index),
            final(self)@ == old(self)@.enforce_lookup(a@, b@, c@, table_index),
    {
        proof {
            use_type_invariant(&*self);
        }
        let a_value = self.eval_lc(a);
        let b_value = self.eval_lc(b);
        let c_value = self.eval_lc(c);
        if table_index >= self.lookup_tables.len() {
            let mut path = String::new();
            path.append("lookup");
            proof {
                reveal_strlit("lookup");
                assert(path@ =~= lookup_path());
            }
            self.record(path);
            return Err(SynthesisError::LookupTableMissing);
        }
        let key = [a_value, b_value];
        match self.lookup_tables[table_index].lookup(&key) {
            Some(output) => {
                proof {
                    if output@ == c_value@ {
                        output.lemma_view_injective(c_value);
                    }
                }
                if c_value == output {
                    self.num_constraints += 1;
                    Ok(())
                } else {
                    Err(SynthesisError::LookupValueMissing)
                }
            },
            None => Err(SynthesisError::LookupValueMissing),
        }
    }

    /// Opens the namespace `name` inside the innermost open one.
    pub fn push_namespace(&mut self, name: &str)
        requires
            !name@.contains('/'),
        ensures
            final(self)@ == (CheckerState {
                segments: old(self)@.segments.push(name@),
                ..old(self)@
            }),
    {
        proof {
            use_type_invariant(&*self);
        }
        let mut segments = Vec::new();
        std::mem::swap(&mut segments, &mut self.segments);
        segments.push(String::from_str(name));
        self.segments = segments;
        proof {
            assert(final(self)@.segments =~= old(self)@.segments.push(name@));
        }
    }

    /// Closes the innermost open namespace, if one is open.
    pub fn pop_namespace(&mut self)
        ensures
            final(self)@ == (CheckerState {
                segments: if old(self)@.segments.len() > 0 {
                    old(self)@.segments.drop_last()
                } else {
                    old(self)@.segments
                },
                ..old(self)@
            }),
    {
        proof {
            use_type_invariant(&*self);
        }
        let mut segments = Vec::new();
        std::mem::swap(&mut segments, &mut self.segments);
        let _ = segments.pop();
        self.segments = segments;
        proof {
            if old(self)@.segments.len() > 0 {
                assert(final(self)@.segments =~= old(self)@.segments.drop_last());
            } else {
                assert(final(self)@.segments =~= old(self)@.segments);
            }
        }
    }
}

} // verus!
