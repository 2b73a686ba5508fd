//! Actor runtime logic with machine-checked contracts.
pub mod application;
pub mod atom;
pub mod base;
pub mod channel;
pub mod data;
pub mod directory;
pub mod distribution;
pub mod gen_fsm;
pub mod gen_server;
pub mod node;
pub mod peer;
pub mod presence;
pub mod registry;
pub mod runtime;
pub mod supervisor;
pub mod table;
pub mod text;
pub mod time;
pub mod timer;
pub mod wire;
