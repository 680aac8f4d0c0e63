//! Composition layer of a multi-table STARK verifier.
//!
//! Five tables each come with a proof of their own. This library holds what
//! binds them into one statement: the fixed table order, the flat layout of
//! the public inputs of a table's recursive proof, the polynomial identity
//! of a table at the challenge point, the cross-table lookup check, and the
//! aggregate checks that run all of these in a fixed order and report the
//! first failure. Field elements of the Goldilocks field are carried as
//! `u64`. The transcript, the low-degree test and the constraint systems of
//! the tables are not part of the library: their results are arguments.

pub mod all_proof;
pub mod compact_prestate_processing;
pub mod config;
pub mod cross_table_lookup;
pub mod error;
pub mod extension;
pub mod field;
pub mod proof_shape;
pub mod public_inputs;
pub mod public_values;
pub mod recursive_verifier;
pub mod stark_verifier;
pub mod table;
