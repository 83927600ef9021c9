//! Arithmetization of a Keccak-based Merkle-root verification: column
//! layouts, constraint checks, witness generation and the bus interactions
//! of the chips that make up the machine.

pub mod field;
pub mod trace;
pub mod interaction;
pub mod bus;
pub mod chips;
pub mod machine;
pub mod airs;
