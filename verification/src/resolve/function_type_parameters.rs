//! Which callables take a value of a function type, as a value parameter or as the extension
//! receiver.

use std::collections::HashSet;

use vstd::prelude::*;

use crate::fir::{DeclarationId, ResolvedModuleIndex};
use crate::names::TypeName;
use crate::text::{option_view, views};
use crate::types::{Ty, TyView};

verus! {

broadcast use {
    crate::text::group_views,
    crate::types::group_ty_views,
};

/// The identity of a callable.
pub type CallableId = u32;

/// What a classifier says of calling its values.
#[derive(Debug)]
pub struct CallableShape {
    pub classifier: TypeName,
    pub represents_function_type: bool,
    /// Whether the provider normalized a callable shape for the classifier.
    pub has_signature: bool,
    pub supertypes: Vec<TypeName>,
}

/// The shape of a classifier, that of its first record.
pub open spec fn shape_of(shapes: Seq<CallableShape>, name: Seq<char>) -> Option<CallableShape>
    decreases shapes.len(),
{
    if shapes.len() == 0 {
        None
    } else if shapes[0].classifier@ == name {
        Some(shapes[0])
    } else {
        shape_of(shapes.skip(1), name)
    }
}

/// Whether a classifier is that of a function type, or the reflective counterpart of one: a callable
/// shape beside a direct `kotlin.reflect.KFunction` supertype.
pub open spec fn names_function(shape: CallableShape) -> bool {
    shape.represents_function_type || shape.has_signature && views(shape.supertypes@).contains(
        "kotlin/reflect/KFunction"@,
    )
}

/// Whether a type is a function type in any of its forms.
pub open spec fn some_function_type(shapes: Seq<CallableShape>, ty: TyView) -> bool {
    let inner = ty.non_null();
    inner is Fun || match inner.kotlin_class_internal() {
        Some(name) => match shape_of(shapes, name) {
            Some(shape) => names_function(shape),
            None => false,
        },
        None => false,
    }
}

fn find_shape<'a>(shapes: &'a Vec<CallableShape>, name: &TypeName) -> (found: Option<
    &'a CallableShape,
>)
    ensures
        shape_of(shapes@, name@) == match found {
            Some(shape) => Some(*shape),
            None => None,
        },
{
    let mut next: usize = 0;
    assert(shapes@.skip(0) =~= shapes@);
    while next < shapes.len()
        invariant
            next <= shapes@.len(),
            shape_of(shapes@.skip(next as int), name@) == shape_of(shapes@, name@),
        decreases shapes@.len() - next,
    {
        assert(shapes@.skip(next as int).skip(1) =~= shapes@.skip(next as int + 1));
        if shapes[next].classifier == *name {
            return Some(&shapes[next]);
        }
        next += 1;
    }
    None
}

fn holds_path(names: &Vec<TypeName>, path: &str) -> (found: bool)
    ensures
        found == views(names@).contains(path@),
{
    let mut next: usize = 0;
    while next < names.len()
        invariant
            next <= names@.len(),
            forall|k: int| 0 <= k < next ==> names@[k]@ != path@,
        decreases names@.len() - next,
    {
        if names[next].matches(path) {
            assert(views(names@)[next as int] == path@);
            return true;
        }
        next += 1;
    }
    false
}

/// Whether a type is a function type in any of its forms: arrow syntax, the classifier of a function
/// type, or the reflective counterpart of one.
pub fn is_some_function_type(shapes: &Vec<CallableShape>, ty: &Ty) -> (yes: bool)
    ensures
        yes == some_function_type(shapes@, ty@),
{
    let inner = ty.non_null();
    if matches!(inner, Ty::Fun(_)) {
        return true;
    }
    match inner.kotlin_class_internal() {
        Some(name) => match find_shape(shapes, &name) {
            Some(shape) => shape.represents_function_type || shape.has_signature && holds_path(
                &shape.supertypes,
                "kotlin/reflect/KFunction",
            ),
            None => false,
        },
        None => false,
    }
}

/// The header of a callable.
#[derive(Debug)]
pub struct CallableHeader {
    pub id: CallableId,
    pub declaration: DeclarationId,
    /// The declaration that the callable belongs to.
    pub owner: Option<DeclarationId>,
    pub context_parameter_count: usize,
    pub extension_receiver: Option<Ty>,
}

/// Whether a callable takes a value of a function type. One without a settled signature takes none.
pub open spec fn takes_function(
    index: ResolvedModuleIndex,
    shapes: Seq<CallableShape>,
    header: CallableHeader,
) -> bool {
    match index.signature_of(Some(header.declaration)) {
        Some(signature) => (exists|k: int|
            header.context_parameter_count <= k < signature.parameters@.len()
                && some_function_type(shapes, (#[trigger] signature.parameters@[k])@)) || (
        option_view(header.extension_receiver) matches Some(receiver) && some_function_type(
            shapes,
            receiver,
        )),
        None => false,
    }
}

/// Whether a callable takes a value of a function type.
pub fn is_function_typed(
    index: &ResolvedModuleIndex,
    shapes: &Vec<CallableShape>,
    header: &CallableHeader,
) -> (yes: bool)
    ensures
        yes == takes_function(*index, shapes@, *header),
{
    let signature = match index.signature(Some(header.declaration)) {
        Some(signature) => signature,
        None => {
            return false;
        },
    };
    if let Some(receiver) = &header.extension_receiver {
        if is_some_function_type(shapes, receiver) {
            return true;
        }
    }
    let mut next: usize = header.context_parameter_count;
    while next < signature.parameters.len()
        invariant
            header.context_parameter_count <= next,
            forall|k: int|
                header.context_parameter_count <= k < next && k < signature.parameters@.len()
                    ==> !some_function_type(shapes@, (#[trigger] signature.parameters@[k])@),
            index.signature_of(Some(header.declaration)) == Some(*signature),
        decreases signature.parameters@.len() - next,
    {
        if is_some_function_type(shapes, &signature.parameters[next]) {
            return true;
        }
        next += 1;
    }
    false
}

/// Which callables are looked at.
#[derive(Debug)]
pub enum CallableSelection {
    /// All of the module.
    Module,
    /// The members of the given classifiers.
    MembersOf(Vec<DeclarationId>),
}

impl CallableSelection {
    pub open spec fn selects(self, header: CallableHeader) -> bool {
        match self {
            CallableSelection::Module => true,
            CallableSelection::MembersOf(classifiers) => header.owner matches Some(owner)
                && classifiers@.contains(owner),
        }
    }

    fn is_selected(&self, header: &CallableHeader) -> (yes: bool)
        ensures
            yes == self.selects(*header),
    {
        match self {
            CallableSelection::Module => true,
            CallableSelection::MembersOf(classifiers) => match header.owner {
                Some(owner) => holds_declaration(classifiers, owner),
                None => false,
            },
        }
    }
}

fn holds_declaration(declarations: &Vec<DeclarationId>, wanted: DeclarationId) -> (found: bool)
    ensures
        found == declarations@.contains(wanted),
{
    let mut next: usize = 0;
    while next < declarations.len()
        invariant
            next <= declarations@.len(),
            forall|k: int| 0 <= k < next ==> declarations@[k] != wanted,
        decreases declarations@.len() - next,
    {
        if declarations[next] == wanted {
            return true;
        }
        next += 1;
    }
    false
}

/// Publish which of the selected callables take a value of a function type.
pub fn publish_function_type_parameters(
    published: &mut HashSet<CallableId>,
    index: &ResolvedModuleIndex,
    shapes: &Vec<CallableShape>,
    headers: &Vec<CallableHeader>,
    selection: &CallableSelection,
)
    ensures
        forall|id: CallableId| #[trigger]
            final(published)@.contains(id) <==> old(published)@.contains(id) || exists|k: int|
                0 <= k < headers@.len() && (#[trigger] headers@[k]).id == id && selection.selects(
                    headers@[k],
                ) && takes_function(*index, shapes@, headers@[k]),
{
    let ghost start = published@;
    let mut next: usize = 0;
    while next < headers.len()
        invariant
            next <= headers@.len(),
            forall|id: CallableId| #[trigger]
                published@.contains(id) <==> start.contains(id) || exists|k: int|
                    0 <= k < next && (#[trigger] headers@[k]).id == id && selection.selects(
                        headers@[k],
                    ) && takes_function(*index, shapes@, headers@[k]),
        decreases headers@.len() - next,
    {
        let header = &headers[next];
        let ghost before = published@;
        if selection.is_selected(header) && is_function_typed(index, shapes, header) {
            published.insert(header.id);
        }
        proof {
            assert forall|id: CallableId| #[trigger] published@.contains(id) implies start.contains(
                id,
            ) || exists|k: int|
                0 <= k < next + 1 && (#[trigger] headers@[k]).id == id && selection.selects(
                    headers@[k],
                ) && takes_function(*index, shapes@, headers@[k]) by {
                if before.contains(id) && !start.contains(id) {
                    let k = choose|k: int|
                        0 <= k < next && (#[trigger] headers@[k]).id == id && selection.selects(
                            headers@[k],
                        ) && takes_function(*index, shapes@, headers@[k]);
                    assert(headers@[k].id == id);
                } else if !start.contains(id) {
                    assert(headers@[next as int].id == id);
                }
            }
        }
        next += 1;
    }
}

} // verus!
