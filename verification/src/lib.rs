//! A verified core for a file-cataloging content store.
//!
//! The library models the catalog (posts keyed by content hash, alternate
//! source paths, schema metadata) and the ingestion pipeline that walks a
//! source tree, hashes file contents, and decides for each sighting whether
//! it is a new entry, an update to an existing entry, or a recorded
//! alternate path. The surrounding process (command loop, sqlite
//! persistence, directory walking, file reading) lives outside the library
//! and hands it plain values.

pub mod catalog;
pub mod cli;
pub mod cmdline;
pub mod engine;
pub mod laws;
pub mod hash;
pub mod paths;
pub mod post;
