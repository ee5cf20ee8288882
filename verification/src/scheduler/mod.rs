//! Running named tasks in dependency order, with cooperative shutdown.

pub mod dag_scheduler;
pub mod graph;
pub mod shutdown;

pub use dag_scheduler::{InvalidDagError, TaskSpec};
pub use shutdown::Shutdown;
