//! The iterator protocol of a collection transform, in the scope of the transform's declaration.

use std::collections::HashMap;

use vstd::prelude::*;

use crate::ast::ExprId;
use crate::libraries::FnKind;
use crate::resolve::for_loop_iteration::{
    iterator_protocol_target, protocol, IteratorProtocol, OperatorSource,
};
use crate::types::{Ty, TyView};

verus! {

broadcast use {
    crate::text::group_views,
    crate::types::group_ty_views,
};

/// What was selected among the candidates of one kind.
#[derive(Debug)]
pub enum OperatorSelection {
    Selected { params: Vec<Ty>, context_count: usize, operator: bool, ret: Ty },
    /// No candidate applies.
    Absent,
    Ambiguous,
}

/// The kind and the result of the operator that a selection denotes: one without parameters and
/// without context.
pub open spec fn operator_of(selection: OperatorSelection, kind: FnKind) -> Option<(FnKind, TyView)> {
    match selection {
        OperatorSelection::Selected { params, context_count, operator, ret } => if params@.len()
            == 0 && context_count == 0 && operator {
            Some((kind, ret@))
        } else {
            None
        },
        _ => None,
    }
}

/// The operator that is called: a member, or an extension where no member applies.
pub open spec fn declared_operator(member: OperatorSelection, extension: OperatorSelection) -> Option<
    (FnKind, TyView),
> {
    if member is Absent {
        operator_of(extension, FnKind::Extension)
    } else {
        operator_of(member, FnKind::Member)
    }
}

fn selected_operator(selection: OperatorSelection, kind: FnKind) -> (operator: Option<(FnKind, Ty)>)
    ensures
        operator_of(selection, kind) == match operator {
            Some((kind, ret)) => Some((kind, ret@)),
            None => None,
        },
{
    match selection {
        OperatorSelection::Selected { params, context_count, operator, ret } => {
            if params.len() == 0 && context_count == 0 && operator {
                Some((kind, ret))
            } else {
                None
            }
        },
        _ => None,
    }
}

/// The operator that is called, given what was selected among the members and among the extensions
/// in the scope of the declaration. A member that is no such operator hides the extensions.
pub fn declaration_zero_arg_operator(member: OperatorSelection, extension: OperatorSelection) -> (
    operator: Option<(FnKind, Ty)>)
    ensures
        declared_operator(member, extension) == match operator {
            Some((kind, ret)) => Some((kind, ret@)),
            None => None,
        },
{
    match member {
        OperatorSelection::Absent => selected_operator(extension, FnKind::Extension),
        _ => selected_operator(member, FnKind::Member),
    }
}

/// The element type of a collection transform over the expression `site`, where the protocol of it
/// is recorded. A protocol that is incomplete in any way is none.
pub fn record_declaration_iterator_protocol<S: OperatorSource>(
    source: &S,
    protocols: &mut HashMap<u32, IteratorProtocol>,
    site: ExprId,
    iterable: &Ty,
) -> (element: Option<Ty>)
    ensures
        match protocol(*source, iterable@) {
            Ok(Some(found)) => {
                &&& element matches Some(ty) && ty@ == found.elem_ty
                &&& final(protocols)@.dom() == old(protocols)@.dom().insert(site.0)
                &&& final(protocols)@[site.0]@ == found
                &&& forall|other: u32|
                    other != site.0 ==> (#[trigger] final(protocols)@[other])
                        == old(protocols)@[other]
            },
            _ => element is None && final(protocols)@ == old(protocols)@,
        },
{
    match iterator_protocol_target(source, iterable, false) {
        Ok(Some(target)) => {
            let element = target.elem_ty.clone();
            protocols.insert(site.0, target);
            Some(element)
        },
        _ => None,
    }
}

} // verus!
