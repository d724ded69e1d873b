//! A minimal versioned-package registry core.
//!
//! Packages are stored under a `(package id, version)` key. The crate holds the
//! version catalog, the credential store, the artifact store, the resolution
//! engine that answers version-range queries, and the coordinator that keeps
//! catalog rows and stored bytes in step across publish and delete.

pub mod catalog;
pub mod coordinator;
pub mod file_repo;
pub mod keys;
pub mod laws;
pub mod registry;
pub mod requirement;
pub mod resolve;
pub mod text;
pub mod version;
