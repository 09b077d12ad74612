//! The pool's operations: opening the pool, depositing a commitment, and
//! spending a note.
pub mod add_commitment;
pub mod initialize;
pub mod private_spend;
