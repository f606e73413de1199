//! Circuit-construction core of a zero-knowledge "stealth drop" claim: a
//! conditional-swap selector gadget, an iterative Merkle-membership check, and
//! the top-level assembly that derives the tree leaf from a public key and
//! binds everything into one constraint system.
//!
//! Every gadget tracks, in ghost state, whether the constraints it has emitted
//! are satisfied by the assigned witness values, so the contracts state exactly
//! when the resulting constraint system is satisfiable.

pub mod cells;
pub mod field;
pub mod gadget;
pub mod laws;
pub mod parse;
