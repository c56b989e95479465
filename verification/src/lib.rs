//! A small recipe-catalog library: categories, ingredients, recipes and
//! versioned recipe revisions, kept in a relational store and exposed as
//! read and create operations.
//!
//! The heart of the crate is the entity-retrieval and reference-resolution
//! layer: a uniform contract for fetching an entity by identity, lazy
//! cacheable cross-entity references with dual serialization modes, and
//! transaction-scoped sequential identifier allocation.

pub mod api;
pub mod config;
pub mod error;
pub mod json;
pub mod laws;
pub mod models;
pub mod store;
pub mod text;

pub use error::Error;
