//! What the generators decide about value classes.

use vstd::prelude::*;

use crate::ir::file::IrFile;
use crate::plugins::serialization::support::{primitive_of, primitive_type};
use crate::text::{concat, followed, option_view};
use crate::types::Ty;

verus! {

/// How a value of the value class `ty` is represented in the end.
pub fn value_class_underlying(ir: &IrFile, ty: &Ty) -> (underlying: Option<Ty>)
    ensures
        option_view(underlying) == ir.terminal(ty@),
{
    ir.terminal_value_class_underlying(ty)
}

/// The members by which an encoder writes and a decoder reads a primitive value outside a
/// structure.
pub struct InlineMethods {
    pub encode_name: String,
    pub encode_descriptor: String,
    pub decode_name: String,
    pub decode_descriptor: String,
}

/// The members for the underlying type of a value class: none where it is no primitive.
pub fn inline_prim_methods(ty: &Ty) -> (methods: Option<InlineMethods>)
    ensures
        match (methods, primitive_of(ty@)) {
            (Some(methods), Some((name, descriptor))) => {
                &&& methods.encode_name@ == "encode"@ + name
                &&& methods.encode_descriptor@ == "("@ + descriptor + ")V"@
                &&& methods.decode_name@ == "decode"@ + name
                &&& methods.decode_descriptor@ == "()"@ + descriptor
            },
            (None, None) => true,
            _ => false,
        },
{
    match primitive_type(ty) {
        Some((name, descriptor)) => Some(
            InlineMethods {
                encode_name: followed("encode", name),
                encode_descriptor: concat("(", descriptor, ")V"),
                decode_name: followed("decode", name),
                decode_descriptor: followed("()", descriptor),
            },
        ),
        None => None,
    }
}

} // verus!
