//! A to-do list kept in memory: task records, the repository that owns them,
//! the orders in which they can be listed, the snapshot that is persisted, and
//! the decisions of the interactive session that drives all of it.

pub mod date;
pub mod repo;
pub mod session;
pub mod snapshot;
pub mod sort;
pub mod task;
pub mod text;
