//! Operations on tasks.

pub mod clear;
pub mod cycle;
pub mod dto;
pub mod error;
pub mod mint;
pub mod relate;
pub mod request;
pub mod resolve;
pub mod rollback;
pub mod transition;
pub mod update;
