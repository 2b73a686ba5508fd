//! Channels: conversations of clients with topic handlers.
pub mod handler;
pub mod laws;
pub mod server;
pub mod socket;
pub mod types;
