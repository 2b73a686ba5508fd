//! Servers that run as processes.
pub mod error;
pub mod protocol;
