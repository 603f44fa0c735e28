//! The JVM target.

pub mod ir_emit;
