//! Creating units.
pub mod creator;
