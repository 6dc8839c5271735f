//! Small helpers.
pub mod testing;
