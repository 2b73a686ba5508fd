//! Processes and what they do to each other.
pub mod context;
pub mod error;
pub mod exit;
pub mod laws;
pub mod process;
pub mod processes;
pub mod scope;
