//! Identities and exit reasons of processes.
pub mod exit_reason;
pub mod message;
pub mod node;
pub mod pid;
pub mod reference;
