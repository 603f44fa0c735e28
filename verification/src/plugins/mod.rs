//! Compiler plugins.

pub mod context;
pub mod frontend;
pub mod serialization;
