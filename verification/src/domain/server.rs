//! The mining node's message handling.

pub mod handler;
