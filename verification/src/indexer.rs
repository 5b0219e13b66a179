//! The symbol index: its data model, queries, store, incremental updates
//! and change detection.

pub mod file_index;
pub mod extract;
pub mod incremental;
pub mod layout;
pub mod model;
pub mod queries;
pub mod refs;
pub mod stmt_refs;
pub mod store;
pub mod watcher;
