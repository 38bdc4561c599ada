//! Backend core for an ordered prompt-template sequence stored in a
//! key-value store.
//!
//! Order between members of a sequence is defined purely by an opaque,
//! lexicographically ordered position key, so that a member can be inserted
//! between any two neighbours without renumbering the rest. The codec that
//! produces those keys, the planner that picks a key relative to a requested
//! predecessor, and the mutation service that composes them are all verified
//! here; the surrounding transport and storage glue is ordinary Rust kept
//! outside this crate's proofs.

pub mod auth;
pub mod authorizer;
pub mod db;
pub mod lex;
pub mod routes;
pub mod service;
pub mod text;
