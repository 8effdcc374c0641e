//! A computational-integrity statement for STARK proofs: a single-column
//! trace that starts at a public value and is advanced by cubing and adding
//! a constant, together with the decisions taken when such a proof is
//! checked.

pub mod air;
pub mod decision;
pub mod field;
pub mod inputs;
pub mod shape;
pub mod trace;
