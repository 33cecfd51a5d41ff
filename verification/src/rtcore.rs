//! The light-transport core.

pub mod weekend;
