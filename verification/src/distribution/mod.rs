//! What connects nodes.
pub mod node;
