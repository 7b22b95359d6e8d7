//! Selectively ignore lines of tracked files around a commit: a pattern
//! language decides which lines count as ignored, a content transformer
//! strips them while keeping the rest of the file intact, and a backup
//! protocol restores the original content after the commit, gated by a
//! content-hash check.

pub mod backup;
pub mod config;
pub mod engine;
pub mod error;
pub mod hash;
pub mod importer;
pub mod laws;
pub mod pattern;
pub mod reporter;
pub mod strutil;
pub mod transform;
pub mod validator;
