//! Finite state machines that run as processes.
pub mod error;
pub mod laws;
pub mod protocol;
pub mod results;
pub mod server;
pub mod types;
