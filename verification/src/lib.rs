//! Verified building blocks of a lookup-augmented Marlin proof system over
//! BLS12-377 and of the programs that it runs: field elements, the
//! constraint checker, the oracles of the prover rounds, the proof with its
//! wire format, and the data and statements of programs.

pub mod field;
pub mod program;
pub mod r1cs;
pub mod reader;
pub mod snark;
