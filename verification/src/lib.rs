//! Decision logic of a local-first task tracker that mirrors its tasks to a
//! remote issue host.
//!
//! Every rule of the tracker that can be settled from plain values lives here
//! and is proved against its contract. Storage, network and model calls are
//! made by the surrounding application, which hands their outcomes back.

pub mod model;
pub mod search;
pub mod seqs;
pub mod sync;
pub mod task;
pub mod text;
