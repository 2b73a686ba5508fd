//! Supervisors: processes that start, watch and restart other processes.
pub mod children;
pub mod dynamic_supervisor;
pub mod error;
pub mod intensity;
pub mod laws;
pub mod supervisor;
pub mod types;
