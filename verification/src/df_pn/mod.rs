//! The prover: depth-first proof-number search.

pub mod mate;
pub mod model;
pub mod search;
