//! How values are written as bytes.
//!
//! Numbers, text and byte strings are written by `postcard`. A record is its
//! fields one after the other, and a choice is its number followed by what it
//! carries.
pub mod channel;
pub mod fsm;
pub mod gen_server;
pub mod identity;
pub mod laws;
pub mod list;
pub mod node;
pub mod presence;
pub mod presence_server;
pub mod primitive;
pub mod supervisor;
pub mod system;
