//! The intermediate representation of a file.

pub mod annotations;
pub mod copy;
pub mod expr;
pub mod file;
pub mod generated;
pub mod run;
pub mod tree;
