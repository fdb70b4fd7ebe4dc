//! Documents and their synchronisation.

pub mod in_memory;
pub mod laws;
pub mod query;
pub mod types;
