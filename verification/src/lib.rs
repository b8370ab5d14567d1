//! A minimal persistent task registry: an in-memory ordered store of
//! to-do records with monotonic id assignment, bounded pagination, and a
//! point-in-time snapshot / restore boundary for persistence across a
//! host-driven teardown.

pub mod laws;
pub mod store;
pub mod task;
