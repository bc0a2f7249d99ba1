//! The data that travels through the engine.

pub mod api;
pub mod error;
pub mod grammar;
pub mod query;
