//! Core of a line-oriented text editor: a buffer of rows addressed by
//! (column, line) positions counted in Unicode scalar values, an edit-sourcing
//! history with a self-correcting cursor, and a validate-then-apply protocol
//! that makes undo/redo safe against content drift.

pub mod apply;
pub mod buffer;
pub mod edit;
pub mod engine;
pub mod file;
pub mod history;
pub mod laws;
pub mod position;
pub mod row;
pub mod text;
