//! Nodes that another node starts and manages.
pub mod laws;
pub mod options;
pub mod peer;
