//! Rank-1 constraint systems with lookup constraints, and a checker that
//! evaluates every constraint as it is registered.

pub mod constraint_checker;
pub mod constraint_system;
pub mod errors;
pub mod linear_combination;
pub mod lookup_table;
pub mod variable;
