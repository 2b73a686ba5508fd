//! Who is present where: entries with metadata, grouped by topic and key.
pub mod entries;
pub mod laws;
pub mod server;
pub mod store;
pub mod tracker;
pub mod types;
