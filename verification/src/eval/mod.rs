//! The evaluator: the packed evaluation value and the alpha-beta search over it.

pub mod mate;
pub mod model;
pub mod search;
pub mod value;

pub use value::Value;
