//! Tasks.

pub mod schedule;
