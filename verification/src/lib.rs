//! A mate solver for shogi: a depth-first proof-number prover, an alpha-beta
//! evaluator that turns a proven mate into a shortest mate sequence, and the
//! hashed position and transposition table that both of them share.

pub mod cli;
pub mod df_pn;
pub mod eval;
pub mod keys;
pub mod kif;
pub mod tt;
pub mod usi;
pub mod position_wrapper;
pub mod record;
pub mod solver;
pub mod sort;
pub mod text;
pub mod zobrist;

pub use record::{check_record_type, parse, RecordType};
pub use solver::{search, search_with, search_within, Answer, BranchEntry, ErrType, Eval, OkType, Options, Resolution};
