//! The data that a proof consists of, and its wire format.

pub mod base_field;
pub mod codec;
pub mod commitment;
pub mod data_structures;
pub mod errors;
pub mod evaluations;
pub mod labels;
pub mod oracles;
pub mod polynomial;
pub mod puzzle_commitment;
