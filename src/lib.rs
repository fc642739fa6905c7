//! Infers a per-column type from the text cells of a table with a header row.

pub mod classify;
pub mod error;
pub mod index;
pub mod laws;
pub mod naming;
pub mod scan;
pub mod schema;
