//! Small helpers.

pub mod macros;
pub mod rawbox;
