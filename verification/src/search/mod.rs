//! Offline task search: chunking, folding, query classification and ranking.

pub mod assemble;
pub mod chunker;
pub mod digest;
pub mod fingerprint;
pub mod fold;
pub mod lane;
pub mod literal;
pub mod match_expr;
pub mod query_mode;
pub mod session;
pub mod vectors;
