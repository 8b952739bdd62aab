//! A verified single-user task tracker core: an in-memory task collection
//! with validated additions, stable identifier assignment, and a pluggable
//! persistence layer that saves and loads the whole collection.

pub mod errors;
pub mod laws;
pub mod storage;
pub mod store;
pub mod tasks;
