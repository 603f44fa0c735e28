//! Generic signatures of generated declarations.

use vstd::prelude::*;

use crate::text::views;
use crate::types::{Ty, TyView};

verus! {

broadcast use {crate::text::group_views, crate::types::group_ty_views};

/// A type parameter of a generated declaration.
#[derive(Debug)]
pub struct IrTypeParameter {
    pub semantic_name: String,
    pub bounds: Vec<Ty>,
}

/// The generic signature of a class.
#[derive(Debug)]
pub struct IrGenericSig {
    pub type_params: Vec<IrTypeParameter>,
    pub params: Vec<Ty>,
    pub ret: Option<Ty>,
    pub supers: Vec<Ty>,
}

/// The signature of a generated serializer. It has one even where it has no type parameters: the
/// interface it implements is generic.
pub fn generated_serializer_signature(type_params: Vec<IrTypeParameter>, serialized: Ty) -> (sig:
    IrGenericSig)
    ensures
        sig.type_params == type_params,
        sig.params@ == Seq::<Ty>::empty(),
        sig.ret is None,
        views(sig.supers@) == seq![
            TyView::Obj("kotlin/Any"@, seq![]),
            TyView::Obj("kotlinx/serialization/internal/GeneratedSerializer"@, seq![serialized@]),
        ],
{
    let mut arguments: Vec<Ty> = Vec::new();
    arguments.push(serialized);
    assert(views(arguments@) =~= seq![serialized@]);
    let mut supers: Vec<Ty> = Vec::new();
    supers.push(Ty::obj("kotlin/Any"));
    supers.push(
        Ty::obj_args("kotlinx/serialization/internal/GeneratedSerializer", arguments.as_slice()),
    );
    assert(views(supers@) =~= seq![
        TyView::Obj("kotlin/Any"@, seq![]),
        TyView::Obj("kotlinx/serialization/internal/GeneratedSerializer"@, seq![serialized@]),
    ]);
    IrGenericSig { type_params, params: Vec::new(), ret: None, supers }
}

} // verus!
