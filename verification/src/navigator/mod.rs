//! The project tree: its data, look-ups, edits, and the laws they keep.
pub mod edit_laws;
pub mod laws;
pub mod model;
pub mod ops;
pub mod queries;
