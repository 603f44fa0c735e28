use vstd::prelude::*;

pub mod ast;
pub mod bindings;
pub mod declarations;
pub mod fir;
pub mod ir;
pub mod jvm;
pub mod kt_string;
pub mod libraries;
pub mod model;
pub mod names;
pub mod plugins;
pub mod resolve;
pub mod symbols;
pub mod text;
pub mod type_laws;
pub mod types;

verus! {

} // verus!
