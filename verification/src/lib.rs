//! Shielded-spend verification core of a private payment pool.
//!
//! A spender proves in zero knowledge that an unspent commitment lies in the
//! pool's Merkle accumulator and spends it exactly once.  The crate holds the
//! accumulator, the nullifier ledger, the proof verifier that binds the two,
//! and the coordinator that runs one spend from request to receipt.
pub mod bn254;
pub mod field;
pub mod hash;
pub mod instructions;
pub mod merkle;
pub mod state;
pub mod zk_verifier;
