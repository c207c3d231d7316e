//! Keeping local tasks and their remote issues aligned.

pub mod backoff;
pub mod drain;
pub mod drainer;
pub mod enqueue;
pub mod error;
pub mod filing;
pub mod link;
pub mod list_remote;
pub mod mirror;
pub mod poller;
pub mod promote;
pub mod pull;
pub mod push;
pub mod relations;
pub mod summary;
