//! A verified orchestration core for a single create-and-merge workflow
//! against a versioned, object-storage-backed table: connection
//! configuration, the fixed table schema, table provisioning, and a
//! key-based merge (upsert) with optimistic concurrency.

pub mod config;
pub mod error;
pub mod laws;
pub mod location;
pub mod merge;
pub mod row;
pub mod schema;
pub mod store;
pub mod workflow;
