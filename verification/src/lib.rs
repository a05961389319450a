//! A small registry over a full-text storage engine: callers register named
//! collections of structured records, and the library infers a field schema
//! from a representative value, marshals records into single-valued engine
//! documents, reconstructs ordered payloads from retrieved documents, and
//! tracks the lazy, cached write/read handles of each collection.
//!
//! The storage engine itself (tokenization, ranking, on-disk layout, query
//! grammar) is an external collaborator; this crate decides what schema to
//! build, how records are converted in both directions, and when handles are
//! opened and reused.

pub mod error;
pub mod marshal;
pub mod registry;
pub mod schema;
pub mod utils;
pub mod value;
