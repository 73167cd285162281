//! The knowledge layer: entries, their schema, index, query, lifecycle and the shared repo.
pub mod extract_gate;
pub mod index;
pub mod kbrepo;
pub mod lifecycle;
pub mod lint;
pub mod model;
pub mod query;
pub mod refs;
pub mod schema;
pub mod vocab;

pub use vocab::{class_rank, maturity_rank};
