//! The data the tracker's rules are stated over.

pub mod error;
pub mod ids;
pub mod names;
pub mod outbox;
pub mod project;
pub mod task;
