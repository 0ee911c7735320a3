//! A multi-table STARK proving and verification engine.
//!
//! The engine turns the execution record of a small register machine into a
//! collection of per-chip segment proofs bound together by a Fiat-Shamir
//! transcript, and checks such proofs, including the cross-table
//! cumulative-sum argument.

pub mod alu;
pub mod bigint;
pub mod bytes;
pub mod challenger;
pub mod chips;
pub mod digest;
pub mod field;
pub mod fp12;
pub mod proofs;
pub mod prover;
pub mod record;
pub mod runtime;
pub mod secp256k1;
pub mod trace;
pub mod verify_chip;
