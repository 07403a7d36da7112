//! An incremental, content-addressed file synchronization engine.
//!
//! The engine has two symmetric operations. A *snapshot* walks a directory,
//! deduplicates file contents against a blob store keyed by the SHA-256 of
//! the uncompressed bytes, uploads the compressed blobs that are missing,
//! and publishes a versioned manifest describing the tree. A *reconcile*
//! fetches a named manifest and makes a target directory match it, fetching
//! only the blobs whose local counterparts are missing or differ.
//!
//! The store is an injected capability; `store::MemStore` is the in-memory
//! implementation that the verified engine runs against. The decisions the
//! engine takes per file are exposed as verified step functions so an
//! unverified shell can drive the same logic against remote storage.

pub mod assoc;
pub mod cli;
pub mod config;
pub mod codec;
pub mod store;
pub mod content;
pub mod errors;
pub mod laws;
pub mod localdir;
pub mod manifest;
pub mod reconcile;
pub mod report;
pub mod snapshot;
pub mod text;
