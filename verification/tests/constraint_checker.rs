use snark_core::field::Field;
use snark_core::r1cs::constraint_checker::TestConstraintChecker;
use snark_core::r1cs::errors::SynthesisError;
use snark_core::r1cs::linear_combination::LinearCombination;
use snark_core::r1cs::lookup_table::LookupTable;
use snark_core::r1cs::variable::{Index, Variable};

fn lc(variable: Variable) -> LinearCombination {
    LinearCombination::from_variable(variable)
}

#[test]
fn fresh_checker_holds_only_the_constant_one() {
    let cs = TestConstraintChecker::new();
    assert!(cs.is_satisfied());
    assert_eq!(cs.num_constraints(), 0);
    assert_eq!(cs.num_public_variables(), 1);
    assert_eq!(cs.num_private_variables(), 0);
    assert_eq!(cs.which_is_unsatisfied(), None);
    assert!(cs.public_inputs().is_empty());
    assert!(!cs.is_in_setup_mode());
    assert_eq!(cs.eval_lc(&lc(Variable::one())), Field::one());
}

#[test]
fn satisfied_multiplication_is_counted() {
    let mut cs = TestConstraintChecker::new();
    let a = cs.alloc_private("a", Ok(Field::from_u64(3))).unwrap();
    let b = cs.alloc_private("b", Ok(Field::from_u64(4))).unwrap();
    let c = cs.alloc_input("c", Ok(Field::from_u64(12))).unwrap();
    assert_eq!(a.get_unchecked(), Index::Private(0));
    assert_eq!(b.get_unchecked(), Index::Private(1));
    assert_eq!(c.get_unchecked(), Index::Public(1));
    cs.enforce("product", &lc(a), &lc(b), &lc(c));
    assert!(cs.is_satisfied());
    assert_eq!(cs.num_constraints(), 1);
    assert_eq!(cs.which_is_unsatisfied(), None);
    assert_eq!(cs.public_inputs(), vec![Field::from_u64(12)]);
}

#[test]
fn wrong_public_input_is_reported_and_still_counted() {
    let mut cs = TestConstraintChecker::new();
    let a = cs.alloc_private("a", Ok(Field::from_u64(3))).unwrap();
    let b = cs.alloc_private("b", Ok(Field::from_u64(4))).unwrap();
    let c = cs.alloc_input("c", Ok(Field::from_u64(11))).unwrap();
    cs.enforce("constraint 0", &lc(a), &lc(b), &lc(c));
    cs.enforce("constraint 1", &lc(a), &lc(b), &lc(c));
    assert!(!cs.is_satisfied());
    assert_eq!(cs.which_is_unsatisfied(), Some("constraint 0".to_string()));
    assert_eq!(cs.num_constraints(), 2);
}

#[test]
fn first_violation_is_named_by_its_namespace_path() {
    let mut cs = TestConstraintChecker::new();
    let a = cs.alloc_private("a", Ok(Field::from_u64(2))).unwrap();
    let b = cs.alloc_private("b", Ok(Field::from_u64(5))).unwrap();
    let good = cs.alloc_private("good", Ok(Field::from_u64(10))).unwrap();
    let bad = cs.alloc_private("bad", Ok(Field::from_u64(9))).unwrap();
    cs.push_namespace("outer");
    cs.enforce("fine", &lc(a), &lc(b), &lc(good));
    cs.push_namespace("inner");
    cs.enforce("X", &lc(a), &lc(b), &lc(bad));
    assert_eq!(cs.which_is_unsatisfied(), Some("outer/inner/X".to_string()));
    cs.enforce("Y", &lc(a), &lc(b), &lc(bad));
    cs.pop_namespace();
    cs.enforce("Z", &lc(a), &lc(b), &lc(bad));
    cs.pop_namespace();
    cs.enforce("top", &lc(a), &lc(b), &lc(bad));
    assert_eq!(
        cs.enforce_lookup("l", &lc(a), &lc(b), &lc(good), 0),
        Err(SynthesisError::LookupTableMissing)
    );
    assert_eq!(cs.which_is_unsatisfied(), Some("outer/inner/X".to_string()));
    assert!(!cs.is_satisfied());
    assert_eq!(cs.num_constraints(), 5);
}

#[test]
fn violation_outside_any_namespace_has_the_bare_name() {
    let mut cs = TestConstraintChecker::new();
    let a = cs.alloc_private("a", Ok(Field::from_u64(2))).unwrap();
    cs.push_namespace("gone");
    cs.pop_namespace();
    cs.pop_namespace();
    cs.enforce("alone", &lc(a), &lc(a), &lc(a));
    assert_eq!(cs.which_is_unsatisfied(), Some("alone".to_string()));
}

#[test]
fn missing_assignment_is_handed_back_and_allocates_nothing() {
    let mut cs = TestConstraintChecker::new();
    assert_eq!(cs.alloc_private("a", Err(SynthesisError::AssignmentMissing)), Err(SynthesisError::AssignmentMissing));
    assert_eq!(cs.alloc_input("b", Err(SynthesisError::AssignmentMissing)), Err(SynthesisError::AssignmentMissing));
    assert_eq!(cs.num_private_variables(), 0);
    assert_eq!(cs.num_public_variables(), 1);
}

#[test]
fn linear_combination_is_evaluated_term_by_term() {
    let mut cs = TestConstraintChecker::new();
    let x = cs.alloc_input("x", Ok(Field::from_u64(7))).unwrap();
    let y = cs.alloc_private("y", Ok(Field::from_u64(5))).unwrap();
    // 1 + 3 * x + y + y = 32
    let combination = LinearCombination::zero()
        .add_variable(Variable::one())
        .add_term(Field::from_u64(3), x)
        .add_variable(y)
        .add_variable(y);
    assert_eq!(combination.len(), 4);
    assert_eq!(cs.eval_lc(&combination), Field::from_u64(32));
    assert_eq!(cs.eval_lc(&LinearCombination::zero()), Field::zero());
}

#[test]
fn lookup_succeeds_only_on_the_row_of_the_table() {
    let (x, y, z) = (Field::from_u64(1), Field::from_u64(0), Field::from_u64(1));
    let mut table = LookupTable::new();
    assert_eq!(table.fill([x, y], z), None);
    let mut cs = TestConstraintChecker::new();
    cs.add_lookup_table(table.clone());
    cs.add_lookup_table(table);
    let a = cs.alloc_input("x", Ok(x)).unwrap();
    let b = cs.alloc_input("y", Ok(y)).unwrap();
    let c = cs.alloc_input("z", Ok(z)).unwrap();
    assert_eq!(cs.enforce_lookup("hit", &lc(a), &lc(b), &lc(c), 0), Ok(()));
    assert_eq!(cs.enforce_lookup("hit", &lc(a), &lc(b), &lc(c), 1), Ok(()));
    assert_eq!(cs.num_constraints(), 2);
    // Mapped to another output.
    assert_eq!(cs.enforce_lookup("miss", &lc(a), &lc(b), &lc(b), 0), Err(SynthesisError::LookupValueMissing));
    // No row for the inputs.
    assert_eq!(cs.enforce_lookup("miss", &lc(b), &lc(b), &lc(c), 0), Err(SynthesisError::LookupValueMissing));
    assert_eq!(cs.num_constraints(), 2);
    assert!(cs.is_satisfied());
    assert_eq!(cs.which_is_unsatisfied(), None);
}

#[test]
fn lookup_without_a_table_is_a_violation() {
    let mut cs = TestConstraintChecker::new();
    let a = cs.alloc_input("x", Ok(Field::from_u64(1))).unwrap();
    assert_eq!(cs.enforce_lookup("l", &lc(a), &lc(a), &lc(a), 0), Err(SynthesisError::LookupTableMissing));
    assert!(!cs.is_satisfied());
    assert_eq!(cs.which_is_unsatisfied(), Some("lookup".to_string()));
    assert_eq!(cs.num_constraints(), 0);
    // An index past the registered tables is missing too.
    let mut cs = TestConstraintChecker::new();
    cs.add_lookup_table(LookupTable::new());
    let a = cs.alloc_input("x", Ok(Field::from_u64(1))).unwrap();
    assert_eq!(cs.enforce_lookup("l", &lc(a), &lc(a), &lc(a), 0), Err(SynthesisError::LookupValueMissing));
    assert_eq!(cs.enforce_lookup("l", &lc(a), &lc(a), &lc(a), 1), Err(SynthesisError::LookupTableMissing));
    assert_eq!(cs.which_is_unsatisfied(), Some("lookup".to_string()));
}

#[test]
fn table_keeps_one_row_per_key() {
    let mut table = LookupTable::new();
    let (a, b) = (Field::from_u64(3), Field::from_u64(4));
    assert_eq!(table.lookup(&[a, b]), None);
    assert_eq!(table.fill([a, b], Field::from_u64(12)), None);
    assert_eq!(table.fill([b, a], Field::from_u64(13)), None);
    assert_eq!(table.fill([a, b], Field::from_u64(14)), Some(Field::from_u64(12)));
    assert_eq!(table.len(), 2);
    assert_eq!(table.lookup(&[a, b]), Some(Field::from_u64(14)));
    assert_eq!(table.lookup(&[b, a]), Some(Field::from_u64(13)));
    assert_eq!(table.lookup(&[a, a]), None);
}

// Registers `x * x = y` through the capability that every constraint system
// offers.
fn square<CS: snark_core::r1cs::constraint_system::ConstraintSystem>(cs: &mut CS, x: u64, y: u64) -> usize {
    let x = cs.alloc_private("x", Ok(Field::from_u64(x))).unwrap();
    let y = cs.alloc_input("y", Ok(Field::from_u64(y))).unwrap();
    cs.push_namespace("square");
    cs.enforce("x * x = y", &lc(x), &lc(x), &lc(y));
    cs.pop_namespace();
    cs.num_constraints()
}

#[test]
fn checker_is_a_constraint_system() {
    let mut cs = TestConstraintChecker::new();
    assert_eq!(square(&mut cs, 5, 25), 1);
    assert!(cs.is_satisfied());
    assert_eq!(square(&mut cs, 5, 24), 2);
    assert_eq!(cs.which_is_unsatisfied(), Some("square/x * x = y".to_string()));
    assert_eq!(cs.num_private_variables(), 2);
    assert_eq!(cs.num_public_variables(), 3);
}

#[test]
fn a_recorded_violation_stays_on_record() {
    let mut cs = TestConstraintChecker::new();
    let x = cs.alloc_private("x", Ok(Field::from_u64(3))).unwrap();
    let y = cs.alloc_private("y", Ok(Field::from_u64(9))).unwrap();
    cs.add_lookup_table(LookupTable::new());
    cs.push_namespace("first");
    cs.enforce("fails", &lc(x), &lc(x), &lc(x));
    cs.pop_namespace();
    let path = Some("first/fails".to_string());
    assert!(!cs.is_satisfied());
    assert_eq!(cs.which_is_unsatisfied(), path);
    // A constraint that holds.
    cs.enforce("holds", &lc(x), &lc(x), &lc(y));
    assert!(!cs.is_satisfied());
    assert_eq!(cs.which_is_unsatisfied(), path);
    // Another that fails, under another namespace.
    cs.push_namespace("second");
    cs.enforce("fails too", &lc(y), &lc(y), &lc(x));
    assert!(!cs.is_satisfied());
    assert_eq!(cs.which_is_unsatisfied(), path);
    // A lookup that finds no row, and one that finds no table.
    assert_eq!(cs.enforce_lookup("l", &lc(x), &lc(x), &lc(y), 0), Err(SynthesisError::LookupValueMissing));
    assert!(!cs.is_satisfied());
    assert_eq!(cs.which_is_unsatisfied(), path);
    assert_eq!(cs.enforce_lookup("l", &lc(x), &lc(x), &lc(y), 7), Err(SynthesisError::LookupTableMissing));
    assert!(!cs.is_satisfied());
    assert_eq!(cs.which_is_unsatisfied(), path);
    assert_eq!(cs.num_constraints(), 3);
}

#[test]
fn the_flag_and_the_path_agree() {
    let mut cs = TestConstraintChecker::new();
    assert_eq!(cs.is_satisfied(), cs.which_is_unsatisfied().is_none());
    let x = cs.alloc_input("x", Ok(Field::from_u64(2))).unwrap();
    assert_eq!(cs.enforce_lookup("l", &lc(x), &lc(x), &lc(x), 0), Err(SynthesisError::LookupTableMissing));
    assert_eq!(cs.is_satisfied(), cs.which_is_unsatisfied().is_none());
    assert!(!cs.is_satisfied());
    let mut cs = TestConstraintChecker::new();
    let x = cs.alloc_input("x", Ok(Field::from_u64(2))).unwrap();
    cs.enforce("two times two is two", &lc(x), &lc(x), &lc(x));
    assert_eq!(cs.is_satisfied(), cs.which_is_unsatisfied().is_none());
    assert!(!cs.is_satisfied());
}
