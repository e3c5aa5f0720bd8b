//! Program data: plaintexts, records and their encodings.

pub mod bits;
pub mod crh;
pub mod equal;
pub mod finalize;
pub mod function;
pub mod errors;
pub mod group;
pub mod identifier;
pub mod integer;
pub mod literal;
pub mod network;
pub mod operand;
pub mod plaintext;
pub mod record;
pub mod text;
pub mod transaction_leaf;
pub mod types;
pub mod value;
