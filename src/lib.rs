//! A task list engine: an ordered collection of tasks with a three-state
//! status, compound-description expansion on insertion, stable regrouping by
//! status, substring filtering and completion counts.

pub mod clock;
pub mod task;
pub mod ui;
pub mod text;
pub mod store;
