//! In-circuit verifier for the FRI low-degree test, expressed as a set of
//! arithmetic constraints over a 64-bit field and its quadratic extension.
//!
//! Every "value" handled here is an opaque wire handle into a constraint
//! arena owned by a [`crate::builder::CircuitBuilder`]; every check the protocol
//! performs is an emitted constraint, not a runtime assertion.  The library
//! proves what each gadget appends to the arena, that the arena only grows,
//! and the arithmetic of the concrete field constants the circuit needs.

pub mod bits;
pub mod builder;
pub mod challenger;
pub mod config;
pub mod constraint;
pub mod field;
pub mod fri_proof;
pub mod fri_verifier;
pub mod merkle;
pub mod pow;
pub mod reducing;
pub mod target;
