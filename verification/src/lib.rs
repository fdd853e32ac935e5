//! Core of a single-user to-do application: the domain model (tasks,
//! settings, statistics), an in-memory document store with the
//! read-modify-write task operations, and the request gateway that wraps
//! every operation in a uniform success/error envelope.
//!
//! Disk I/O lives outside this crate: the store works on already-loaded
//! documents and hands back the documents to persist, and the json module
//! renders and reads the document text itself, verified against a
//! character-exact definition of the format. The readers accept a text if
//! and only if it is the canonical rendering of some value, and the tasks
//! format is proved injective, which pins the save/load round trip.

pub mod models;
pub mod storage;
pub mod commands;
pub mod laws;
pub mod json;
pub mod roundtrip;
