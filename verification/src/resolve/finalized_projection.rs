//! Settled facts, written back into the declarations that the checker reads.
//!
//! Everything is keyed by stable declaration identity: nothing is looked up by spelling, and nothing
//! is inferred.

use std::collections::HashMap;

use vstd::prelude::*;

use crate::fir::{
    AppliedHierarchy, ClassifierHeader, DeclarationId, ResolvedModuleIndex, ResolvedProperty,
    ResolvedSignature,
};
use crate::libraries::{LibConst, LibConstView};
use crate::model::{deep_views, Modelled};
use crate::names::TypeName;
use crate::resolve::source_table::{
    entries_without, member_spelled, parameter_source, retype, retyped, spelled, spelling_of,
    type_parameter_source_name, without, ClassSig, Declared, ExtensionProperty, MemberProperty,
    Origin, Signature, SourceProperty, SourceTable,
};
use crate::text::{option_view, same_text, views};
use crate::types::{copy_tys, FnSig, FnSigView, Ty, TyView};

verus! {

broadcast use {
    crate::text::group_views,
    crate::types::group_ty_views,
};

/// The first formal that is spelled `source` in the source.
pub open spec fn formal_spelled(
    formals: Seq<Seq<char>>,
    spellings: Seq<(String, String)>,
    source: Seq<char>,
) -> Option<Seq<char>>
    decreases formals.len(),
{
    if formals.len() == 0 {
        None
    } else if parameter_source(spellings, formals[0]) == source {
        Some(formals[0])
    } else {
        formal_spelled(formals.skip(1), spellings, source)
    }
}

/// The formal of a classifier that stands for the type parameter `name`: the one that is spelled
/// like it, or `name` where there is none.
pub open spec fn own_formal(
    formals: Seq<Seq<char>>,
    spellings: Seq<(String, String)>,
    name: Seq<char>,
) -> Seq<char> {
    match formal_spelled(formals, spellings, parameter_source(spellings, name)) {
        Some(formal) => formal,
        None => name,
    }
}

fn own_formal_name<'a>(
    formals: &'a Vec<String>,
    spellings: &Vec<(String, String)>,
    name: &'a str,
) -> (formal: &'a str)
    ensures
        formal@ == own_formal(views(formals@), spellings@, name@),
{
    let source = type_parameter_source_name(spellings, name);
    let ghost all = views(formals@);
    let mut index: usize = 0;
    assert(all.skip(0) =~= all);
    while index < formals.len()
        invariant
            index <= formals@.len(),
            all == views(formals@),
            formal_spelled(all.skip(index as int), spellings@, source@) == formal_spelled(
                all,
                spellings@,
                source@,
            ),
            source@ == parameter_source(spellings@, name@),
        decreases formals@.len() - index,
    {
        assert(all.skip(index as int).skip(1) =~= all.skip(index as int + 1));
        let formal = formals[index].as_str();
        if same_text(type_parameter_source_name(spellings, formal), source) {
            return formal;
        }
        index += 1;
    }
    name
}

/// A type with each type parameter replaced by the formal of the classifier that stands for it.
pub open spec fn relative_type(
    ty: TyView,
    formals: Seq<Seq<char>>,
    spellings: Seq<(String, String)>,
) -> TyView
    decreases ty,
{
    match ty {
        TyView::TyParam(name, bound) => TyView::TyParam(
            own_formal(formals, spellings, name),
            bound,
        ),
        TyView::Obj(name, arguments) => TyView::Obj(
            name,
            Seq::new(
                arguments.len(),
                |i: int|
                    if 0 <= i < arguments.len() {
                        relative_type(arguments[i], formals, spellings)
                    } else {
                        TyView::Error
                    },
            ),
        ),
        TyView::Nullable(inner) => TyView::Nullable(
            Box::new(relative_type(*inner, formals, spellings)),
        ),
        TyView::PlatformNullable(inner) => TyView::PlatformNullable(
            Box::new(relative_type(*inner, formals, spellings)),
        ),
        TyView::InProjection(inner) => TyView::InProjection(
            Box::new(relative_type(*inner, formals, spellings)),
        ),
        TyView::OutProjection(inner) => TyView::OutProjection(
            Box::new(relative_type(*inner, formals, spellings)),
        ),
        TyView::StarProjection(inner) => TyView::StarProjection(
            Box::new(relative_type(*inner, formals, spellings)),
        ),
        TyView::Fun(sig) => TyView::Fun(
            Box::new(
                FnSigView {
                    params: Seq::new(
                        sig.params.len(),
                        |i: int|
                            if 0 <= i < sig.params.len() {
                                relative_type(sig.params[i], formals, spellings)
                            } else {
                                TyView::Error
                            },
                    ),
                    ret: relative_type(sig.ret, formals, spellings),
                    ..*sig
                },
            ),
        ),
        _ => ty,
    }
}

/// The declared type of a member of an anonymous object, over the formals of its own classifier.
/// The type was settled where the expression stands, and names the enclosing declarations; the
/// classifier has formals of its own that are spelled alike.
pub fn classifier_relative_type(
    ty: &Ty,
    formals: &Vec<String>,
    spellings: &Vec<(String, String)>,
) -> (out: Ty)
    ensures
        out@ == relative_type(ty@, views(formals@), spellings@),
    decreases ty,
{
    match ty {
        Ty::TyParam(name, bound) => Ty::TyParam(
            Box::new(own_formal_name(formals, spellings, name.as_str()).to_owned()),
            Box::new((**bound).clone()),
        ),
        Ty::Obj(name, arguments) => {
            let out = Ty::Obj(name.clone(), relative_types(arguments, formals, spellings));
            assert(ty@->Obj_1 == views(arguments@));
            assert(out@->Obj_1 =~= relative_type(ty@, views(formals@), spellings@)->Obj_1);
            out
        },
        Ty::Nullable(inner) => Ty::Nullable(
            Box::new(classifier_relative_type(inner, formals, spellings)),
        ),
        Ty::PlatformNullable(inner) => Ty::PlatformNullable(
            Box::new(classifier_relative_type(inner, formals, spellings)),
        ),
        Ty::InProjection(inner) => Ty::InProjection(
            Box::new(classifier_relative_type(inner, formals, spellings)),
        ),
        Ty::OutProjection(inner) => Ty::OutProjection(
            Box::new(classifier_relative_type(inner, formals, spellings)),
        ),
        Ty::StarProjection(inner) => Ty::StarProjection(
            Box::new(classifier_relative_type(inner, formals, spellings)),
        ),
        Ty::Fun(sig) => {
            let out = Ty::Fun(
                Box::new(
                    FnSig {
                        params: relative_types(&sig.params, formals, spellings),
                        ret: classifier_relative_type(&sig.ret, formals, spellings),
                        context_count: sig.context_count,
                        has_receiver: sig.has_receiver,
                        suspend: sig.suspend,
                    },
                ),
            );
            assert(ty@->Fun_0.params == views(sig.params@));
            assert(out@->Fun_0.params =~= relative_type(
                ty@,
                views(formals@),
                spellings@,
            )->Fun_0.params);
            out
        },
        _ => ty.clone(),
    }
}

fn relative_types(types: &Vec<Ty>, formals: &Vec<String>, spellings: &Vec<(String, String)>) -> (
out: Vec<Ty>)
    ensures
        out@.len() == types@.len(),
        forall|k: int|
            0 <= k < out@.len() ==> (#[trigger] out@[k])@ == relative_type(
                types@[k]@,
                views(formals@),
                spellings@,
            ),
    decreases types,
{
    let mut out: Vec<Ty> = Vec::new();
    let mut index: usize = 0;
    while index < types.len()
        invariant
            index <= types@.len(),
            out@.len() == index,
            forall|k: int|
                0 <= k < index ==> (#[trigger] out@[k])@ == relative_type(
                    types@[k]@,
                    views(formals@),
                    spellings@,
                ),
        decreases types@.len() - index,
    {
        out.push(classifier_relative_type(&types[index], formals, spellings));
        index += 1;
    }
    out
}

/// What a type is for a classifier. Only an anonymous one has formals that are copies.
pub open spec fn seen(
    ty: TyView,
    anonymous: bool,
    formals: Seq<Seq<char>>,
    spellings: Seq<(String, String)>,
) -> TyView {
    if anonymous {
        relative_type(ty, formals, spellings)
    } else {
        ty
    }
}

fn see(ty: &Ty, anonymous: bool, formals: &Vec<String>, spellings: &Vec<(String, String)>) -> (out:
    Ty)
    ensures
        out@ == seen(ty@, anonymous, views(formals@), spellings@),
{
    if anonymous {
        classifier_relative_type(ty, formals, spellings)
    } else {
        ty.clone()
    }
}

/// The settled result of a declaration.
pub open spec fn settled_result(index: ResolvedModuleIndex, origin: Origin) -> Option<TyView> {
    match index.signature_of(origin.stable_declaration) {
        Some(signature) => Some(signature.result@),
        None => None,
    }
}

fn resolved_result(index: &ResolvedModuleIndex, origin: Origin) -> (result: Option<Ty>)
    ensures
        option_view(result) == settled_result(*index, origin),
{
    match index.signature(origin.stable_declaration) {
        Some(signature) => Some(signature.result.clone()),
        None => None,
    }
}

/// Whether `after` is the signature `before` with the settled result and contract, where they are
/// settled.
pub open spec fn callable_projected(
    index: ResolvedModuleIndex,
    before: Signature,
    after: Signature,
    anonymous: bool,
    formals: Seq<Seq<char>>,
    spellings: Seq<(String, String)>,
) -> bool {
    &&& after == (Signature { ret: after.ret, contract: after.contract, ..before })
    &&& match settled_result(index, before.origin) {
        Some(result) => after.ret@ == seen(result, anonymous, formals, spellings)
            && after.contract == index.contract_of(before.origin.stable_declaration),
        None => after.ret@ == seen(before.ret@, anonymous, formals, spellings) && after.contract
            == before.contract,
    }
}

/// Write what is settled of a callable into its signature.
pub fn project_callable(
    index: &ResolvedModuleIndex,
    signature: &mut Signature,
    anonymous: bool,
    formals: &Vec<String>,
    spellings: &Vec<(String, String)>,
)
    ensures
        callable_projected(
            *index,
            *old(signature),
            *final(signature),
            anonymous,
            views(formals@),
            spellings@,
        ),
{
    match resolved_result(index, signature.origin) {
        Some(result) => {
            signature.ret = see(&result, anonymous, formals, spellings);
            signature.contract = index.contract(signature.origin.stable_declaration);
        },
        None => {
            if anonymous {
                signature.ret = classifier_relative_type(&signature.ret, formals, spellings);
            }
        },
    }
}

/// Whether each signature of `after` is the one of `before` with what is settled.
pub open spec fn callables_projected(
    index: ResolvedModuleIndex,
    before: Seq<Signature>,
    after: Seq<Signature>,
    anonymous: bool,
    formals: Seq<Seq<char>>,
    spellings: Seq<(String, String)>,
) -> bool {
    &&& after.len() == before.len()
    &&& forall|k: int|
        0 <= k < before.len() ==> callable_projected(
            index,
            before[k],
            #[trigger] after[k],
            anonymous,
            formals,
            spellings,
        )
}

fn project_callables(
    index: &ResolvedModuleIndex,
    signatures: &mut Vec<Signature>,
    anonymous: bool,
    formals: &Vec<String>,
    spellings: &Vec<(String, String)>,
)
    ensures
        callables_projected(
            *index,
            old(signatures)@,
            final(signatures)@,
            anonymous,
            views(formals@),
            spellings@,
        ),
{
    let ghost start = signatures@;
    let mut next: usize = 0;
    while next < signatures.len()
        invariant
            next <= signatures@.len(),
            signatures@.len() == start.len(),
            forall|k: int| next <= k < start.len() ==> signatures@[k] == start[k],
            forall|k: int|
                0 <= k < next ==> callable_projected(
                    *index,
                    start[k],
                    #[trigger] signatures@[k],
                    anonymous,
                    views(formals@),
                    spellings@,
                ),
        decreases signatures@.len() - next,
    {
        project_callable(index, &mut signatures[next], anonymous, formals, spellings);
        next += 1;
    }
}

/// The parents that are classifiers.
pub open spec fn nominal(parents: Seq<TyView>) -> Seq<TyView>
    decreases parents.len(),
{
    if parents.len() == 0 {
        seq![]
    } else if parents.last() is Obj {
        nominal(parents.drop_last()).push(parents.last())
    } else {
        nominal(parents.drop_last())
    }
}

/// The parents that are function types.
pub open spec fn functional(parents: Seq<TyView>) -> Seq<TyView>
    decreases parents.len(),
{
    if parents.len() == 0 {
        seq![]
    } else if parents.last() is Fun {
        functional(parents.drop_last()).push(parents.last())
    } else {
        functional(parents.drop_last())
    }
}

/// The settled interfaces of a class, as it sees them.
pub open spec fn seen_interfaces(
    header: ClassifierHeader,
    anonymous: bool,
    formals: Seq<Seq<char>>,
    spellings: Seq<(String, String)>,
) -> Seq<TyView> {
    Seq::new(
        header.interfaces@.len(),
        |k: int| seen(header.interfaces@[k]@, anonymous, formals, spellings),
    )
}

/// Whether `after` has the settled direct parents. A function type among them is a callable shape
/// and no classifier.
pub open spec fn parents_projected(
    index: ResolvedModuleIndex,
    before: ClassSig,
    after: ClassSig,
    anonymous: bool,
    spellings: Seq<(String, String)>,
) -> bool {
    match index.header_of(before.origin.stable_declaration) {
        None => {
            &&& after.super_internal == before.super_internal
            &&& after.super_type_args == before.super_type_args
            &&& after.interfaces == before.interfaces
            &&& after.interface_type_args == before.interface_type_args
            &&& after.callable_signature == before.callable_signature
            &&& after.callable_signatures == before.callable_signatures
        },
        Some(header) => {
            let formals = views(before.type_params@);
            let interfaces = seen_interfaces(header, anonymous, formals, spellings);
            &&& match header.superclass {
                Some(parent) => {
                    let parent = seen(parent@, anonymous, formals, spellings);
                    option_view(after.super_internal) == parent.obj_internal() && views(
                        after.super_type_args@,
                    ) == parent.type_args()
                },
                None => after.super_internal is None && after.super_type_args@.len() == 0,
            }
            &&& views(after.interfaces@) == nominal(interfaces).map_values(
                |parent: TyView| parent.obj_internal()->0,
            )
            &&& deep_views(after.interface_type_args@) == nominal(interfaces).map_values(
                |parent: TyView| parent.type_args(),
            )
            &&& views(after.callable_signatures@) == functional(interfaces)
            &&& option_view(after.callable_signature) == if functional(interfaces).len() > 0 {
                Some(functional(interfaces)[0])
            } else {
                None
            }
        },
    }
}

proof fn lemma_seen_keeps_shape(
    ty: TyView,
    anonymous: bool,
    formals: Seq<Seq<char>>,
    spellings: Seq<(String, String)>,
)
    ensures
        ty is Obj ==> seen(ty, anonymous, formals, spellings) is Obj,
        ty is Fun ==> seen(ty, anonymous, formals, spellings) is Fun,
{
}

/// Write the settled direct parents of a class into it.
pub fn project_classifier_parents(
    index: &ResolvedModuleIndex,
    class: &mut ClassSig,
    anonymous: bool,
    spellings: &Vec<(String, String)>,
)
    requires
        index.parents_settled(),
    ensures
        parents_projected(*index, *old(class), *final(class), anonymous, spellings@),
        *final(class) == (ClassSig {
            super_internal: final(class).super_internal,
            super_type_args: final(class).super_type_args,
            interfaces: final(class).interfaces,
            interface_type_args: final(class).interface_type_args,
            callable_signature: final(class).callable_signature,
            callable_signatures: final(class).callable_signatures,
            ..*old(class)
        }),
{
    let header = match index.classifier_header(class.origin.stable_declaration) {
        Some(header) => header,
        None => {
            return;
        },
    };
    let ghost formals = views(class.type_params@);
    match &header.superclass {
        Some(parent) => {
            let parent = see(parent, anonymous, &class.type_params, spellings);
            match parent {
                Ty::Obj(owner, arguments) => {
                    class.super_internal = Some(owner);
                    class.super_type_args = arguments;
                },
                _ => {
                    assert(false);
                },
            }
        },
        None => {
            class.super_internal = None;
            class.super_type_args = Vec::new();
        },
    }
    let ghost wanted = seen_interfaces(*header, anonymous, formals, spellings@);
    let mut interfaces: Vec<TypeName> = Vec::new();
    let mut interface_type_args: Vec<Vec<Ty>> = Vec::new();
    let mut callable_signatures: Vec<Ty> = Vec::new();
    let ghost owner = |parent: TyView| parent.obj_internal()->0;
    let ghost applied = |parent: TyView| parent.type_args();
    let mut next: usize = 0;
    assert(views(interfaces@) =~= nominal(wanted.take(0)).map_values(owner));
    assert(deep_views(interface_type_args@) =~= nominal(wanted.take(0)).map_values(applied));
    assert(views(callable_signatures@) =~= functional(wanted.take(0)));
    while next < header.interfaces.len()
        invariant
            next <= header.interfaces@.len(),
            index.parents_settled(),
            index.header_of(class.origin.stable_declaration) == Some(*header),
            formals == views(class.type_params@),
            wanted == seen_interfaces(*header, anonymous, formals, spellings@),
            owner == (|parent: TyView| parent.obj_internal()->0),
            applied == (|parent: TyView| parent.type_args()),
            views(interfaces@) == nominal(wanted.take(next as int)).map_values(owner),
            deep_views(interface_type_args@) == nominal(wanted.take(next as int)).map_values(
                applied,
            ),
            views(callable_signatures@) == functional(wanted.take(next as int)),
        decreases header.interfaces@.len() - next,
    {
        let parent = see(&header.interfaces[next], anonymous, &class.type_params, spellings);
        assert(parent@ == wanted[next as int]);
        proof {
            assert(wanted.take(next as int + 1).drop_last() =~= wanted.take(next as int));
            lemma_seen_keeps_shape(
                header.interfaces@[next as int]@,
                anonymous,
                formals,
                spellings@,
            );
            assert(header.interfaces@[next as int]@ is Obj || header.interfaces@[next as int]@
                is Fun);
        }
        let ghost before = nominal(wanted.take(next as int));
        let ghost lists = interface_type_args@;
        match parent {
            Ty::Obj(name, arguments) => {
                assert(before.push(parent@).map_values(owner) =~= before.map_values(owner).push(
                    name@,
                ));
                assert(before.push(parent@).map_values(applied) =~= before.map_values(
                    applied,
                ).push(views(arguments@)));
                interfaces.push(name);
                interface_type_args.push(arguments);
                assert(deep_views(interface_type_args@) =~= deep_views(lists).push(
                    views(arguments@),
                ));
            },
            other => {
                callable_signatures.push(other);
            },
        }
        next += 1;
    }
    assert(wanted.take(next as int) =~= wanted);
    class.callable_signature = if callable_signatures.len() > 0 {
        Some(callable_signatures[0].clone())
    } else {
        None
    };
    class.callable_signatures = callable_signatures;
    class.interfaces = interfaces;
    class.interface_type_args = interface_type_args;
}

/// The settled type of the stored value of a property, as a class sees it. Without one the former
/// type stays, unless it was not known.
pub open spec fn settled_storage(
    index: ResolvedModuleIndex,
    origin: Origin,
    former: Option<TyView>,
    anonymous: bool,
    formals: Seq<Seq<char>>,
    spellings: Seq<(String, String)>,
) -> Option<TyView> {
    match index.property_of(origin.stable_declaration) {
        Some(ResolvedProperty { storage_type: Some(storage), .. }) => Some(
            seen(storage@, anonymous, formals, spellings),
        ),
        _ => match former {
            Some(TyView::Pending) => None,
            _ => former,
        },
    }
}

fn storage_after(
    index: &ResolvedModuleIndex,
    origin: Origin,
    former: &Option<Ty>,
    anonymous: bool,
    formals: &Vec<String>,
    spellings: &Vec<(String, String)>,
) -> (storage: Option<Ty>)
    ensures
        option_view(storage) == settled_storage(
            *index,
            origin,
            option_view(*former),
            anonymous,
            views(formals@),
            spellings@,
        ),
{
    match index.property(origin.stable_declaration) {
        Some(property) => match &property.storage_type {
            Some(storage) => {
                return Some(see(storage, anonymous, formals, spellings));
            },
            None => {},
        },
        None => {},
    }
    match former {
        Some(Ty::Pending) => None,
        Some(ty) => Some(ty.clone()),
        None => None,
    }
}

/// The types of the context parameters of a settled signature.
pub open spec fn settled_context(signature: ResolvedSignature) -> Seq<TyView> {
    views(signature.parameters@)
}

/// Whether `after` is the property `before` with what is settled.
pub open spec fn property_projected(
    index: ResolvedModuleIndex,
    before: SourceProperty,
    after: SourceProperty,
) -> bool {
    match index.signature_of(before.origin.stable_declaration) {
        None => after == before,
        Some(signature) => {
            &&& after == (SourceProperty {
                ty: after.ty,
                storage_ty: after.storage_ty,
                context_params: after.context_params,
                ..before
            })
            &&& after.ty@ == signature.result@
            &&& option_view(after.storage_ty) == settled_storage(
                index,
                before.origin,
                option_view(before.storage_ty),
                false,
                seq![],
                seq![],
            )
            &&& views(after.context_params@) == settled_context(signature)
        },
    }
}

/// The types by name once the settled properties `properties` were entered. A property with context
/// parameters has no entry of its own, and none is made for a property without one.
pub open spec fn entered(
    index: ResolvedModuleIndex,
    properties: Seq<SourceProperty>,
    entries: Seq<(Seq<char>, TyView)>,
) -> Seq<(Seq<char>, TyView)>
    decreases properties.len(),
{
    if properties.len() == 0 {
        entries
    } else {
        let rest = entered(index, properties.drop_last(), entries);
        match index.signature_of(properties.last().origin.stable_declaration) {
            Some(signature) if signature.parameters@.len() == 0 => retyped(
                rest,
                properties.last().name@,
                signature.result@,
            ),
            _ => rest,
        }
    }
}

fn project_properties(
    index: &ResolvedModuleIndex,
    properties: &mut Vec<SourceProperty>,
    entries: &mut Vec<(String, Ty)>,
)
    ensures
        final(properties)@.len() == old(properties)@.len(),
        forall|k: int|
            0 <= k < old(properties)@.len() ==> property_projected(
                *index,
                old(properties)@[k],
                #[trigger] final(properties)@[k],
            ),
        views(final(entries)@) == entered(*index, old(properties)@, views(old(entries)@)),
{
    let ghost start = properties@;
    let ghost held = views(entries@);
    let none: Vec<String> = Vec::new();
    let plain: Vec<(String, String)> = Vec::new();
    assert(views(none@) =~= Seq::<Seq<char>>::empty());
    assert(plain@ =~= Seq::<(String, String)>::empty());
    let mut next: usize = 0;
    assert(start.take(0) =~= Seq::<SourceProperty>::empty());
    while next < properties.len()
        invariant
            next <= properties@.len(),
            properties@.len() == start.len(),
            views(none@) == Seq::<Seq<char>>::empty(),
            plain@ == Seq::<(String, String)>::empty(),
            forall|k: int| next <= k < start.len() ==> properties@[k] == start[k],
            forall|k: int|
                0 <= k < next ==> property_projected(
                    *index,
                    start[k],
                    #[trigger] properties@[k],
                ),
            views(entries@) == entered(*index, start.take(next as int), held),
        decreases properties@.len() - next,
    {
        assert(start.take(next as int + 1).drop_last() =~= start.take(next as int));
        let origin = properties[next].origin;
        if let Some(signature) = index.signature(origin.stable_declaration) {
            let storage = storage_after(
                index,
                origin,
                &properties[next].storage_ty,
                false,
                &none,
                &plain,
            );
            properties[next].ty = signature.result.clone();
            properties[next].storage_ty = storage;
            properties[next].context_params = copy_tys(signature.parameters.as_slice());
            if signature.parameters.len() == 0 {
                retype(entries, properties[next].name.as_str(), &signature.result);
            }
        }
        next += 1;
    }
    assert(start.take(next as int) =~= start);
}

/// Whether `after` is the extension property `before` with what is settled, as a class sees it.
pub open spec fn extension_projected(
    index: ResolvedModuleIndex,
    before: ExtensionProperty,
    after: ExtensionProperty,
    anonymous: bool,
    formals: Seq<Seq<char>>,
    spellings: Seq<(String, String)>,
) -> bool {
    match index.signature_of(before.origin.stable_declaration) {
        None => after == before,
        Some(signature) => {
            &&& after.origin == before.origin
            &&& after.ty@ == seen(signature.result@, anonymous, formals, spellings)
            &&& views(after.context_params@) == settled_context(signature)
            &&& after.receiver@ == match index.property_of(before.origin.stable_declaration) {
                Some(ResolvedProperty { extension_receiver: Some(receiver), .. }) => receiver@,
                _ => before.receiver@,
            }
        },
    }
}

/// Whether each property of `after` is the one of `before` with what is settled.
pub open spec fn extensions_projected(
    index: ResolvedModuleIndex,
    before: Seq<ExtensionProperty>,
    after: Seq<ExtensionProperty>,
    anonymous: bool,
    formals: Seq<Seq<char>>,
    spellings: Seq<(String, String)>,
) -> bool {
    &&& after.len() == before.len()
    &&& forall|k: int|
        0 <= k < before.len() ==> extension_projected(
            index,
            before[k],
            #[trigger] after[k],
            anonymous,
            formals,
            spellings,
        )
}

fn project_extensions(
    index: &ResolvedModuleIndex,
    properties: &mut Vec<ExtensionProperty>,
    anonymous: bool,
    formals: &Vec<String>,
    spellings: &Vec<(String, String)>,
)
    ensures
        extensions_projected(
            *index,
            old(properties)@,
            final(properties)@,
            anonymous,
            views(formals@),
            spellings@,
        ),
{
    let ghost start = properties@;
    let mut next: usize = 0;
    while next < properties.len()
        invariant
            next <= properties@.len(),
            properties@.len() == start.len(),
            forall|k: int| next <= k < start.len() ==> properties@[k] == start[k],
            forall|k: int|
                0 <= k < next ==> extension_projected(
                    *index,
                    start[k],
                    #[trigger] properties@[k],
                    anonymous,
                    views(formals@),
                    spellings@,
                ),
        decreases properties@.len() - next,
    {
        let origin = properties[next].origin;
        if let Some(signature) = index.signature(origin.stable_declaration) {
            properties[next].ty = see(&signature.result, anonymous, formals, spellings);
            properties[next].context_params = copy_tys(signature.parameters.as_slice());
            if let Some(property) = index.property(origin.stable_declaration) {
                if let Some(receiver) = &property.extension_receiver {
                    properties[next].receiver = receiver.clone();
                }
            }
        }
        next += 1;
    }
}

/// Whether `after` is the member property `before` with what is settled.
pub open spec fn member_projected(
    index: ResolvedModuleIndex,
    before: MemberProperty,
    after: MemberProperty,
    stored: bool,
    anonymous: bool,
    formals: Seq<Seq<char>>,
    spellings: Seq<(String, String)>,
) -> bool {
    match settled_result(index, before.origin) {
        None => after == before,
        Some(result) => {
            &&& after == (MemberProperty { ty: after.ty, storage_ty: after.storage_ty, ..before })
            &&& after.ty@ == seen(result, anonymous, formals, spellings)
            &&& if stored {
                option_view(after.storage_ty) == settled_storage(
                    index,
                    before.origin,
                    option_view(before.storage_ty),
                    anonymous,
                    formals,
                    spellings,
                )
            } else {
                after.storage_ty == before.storage_ty
            }
        },
    }
}

/// Whether each property of `after` is the one of `before` with what is settled.
pub open spec fn members_projected(
    index: ResolvedModuleIndex,
    before: Seq<MemberProperty>,
    after: Seq<MemberProperty>,
    stored: bool,
    anonymous: bool,
    formals: Seq<Seq<char>>,
    spellings: Seq<(String, String)>,
) -> bool {
    &&& after.len() == before.len()
    &&& forall|k: int|
        0 <= k < before.len() ==> member_projected(
            index,
            before[k],
            #[trigger] after[k],
            stored,
            anonymous,
            formals,
            spellings,
        )
}

fn project_contextual(
    index: &ResolvedModuleIndex,
    properties: &mut Vec<MemberProperty>,
    anonymous: bool,
    formals: &Vec<String>,
    spellings: &Vec<(String, String)>,
)
    ensures
        members_projected(
            *index,
            old(properties)@,
            final(properties)@,
            false,
            anonymous,
            views(formals@),
            spellings@,
        ),
{
    let ghost start = properties@;
    let mut next: usize = 0;
    while next < properties.len()
        invariant
            next <= properties@.len(),
            properties@.len() == start.len(),
            forall|k: int| next <= k < start.len() ==> properties@[k] == start[k],
            forall|k: int|
                0 <= k < next ==> member_projected(
                    *index,
                    start[k],
                    #[trigger] properties@[k],
                    false,
                    anonymous,
                    views(formals@),
                    spellings@,
                ),
        decreases properties@.len() - next,
    {
        if let Some(result) = resolved_result(index, properties[next].origin) {
            properties[next].ty = see(&result, anonymous, formals, spellings);
        }
        next += 1;
    }
}

/// The settled types of the declared properties that hold a type parameter, by name: a property
/// whose settled type holds one is entered, and one whose settled type holds none is taken out.
pub open spec fn settled_shapes(
    index: ResolvedModuleIndex,
    properties: Seq<MemberProperty>,
    anonymous: bool,
    formals: Seq<Seq<char>>,
    spellings: Seq<(String, String)>,
    shapes: Seq<(Seq<char>, TyView)>,
) -> Seq<(Seq<char>, TyView)>
    decreases properties.len(),
{
    if properties.len() == 0 {
        shapes
    } else {
        let rest = settled_shapes(
            index,
            properties.drop_last(),
            anonymous,
            formals,
            spellings,
            shapes,
        );
        match settled_result(index, properties.last().origin) {
            None => rest,
            Some(result) => {
                let ty = seen(result, anonymous, formals, spellings);
                let others = without(rest, properties.last().name@);
                if ty.mentions_ty_param() {
                    others.push((properties.last().name@, ty))
                } else {
                    others
                }
            },
        }
    }
}

/// The types of the stored values of declared properties, by name, once the settled ones were
/// entered.
pub open spec fn settled_entries(
    index: ResolvedModuleIndex,
    properties: Seq<MemberProperty>,
    anonymous: bool,
    formals: Seq<Seq<char>>,
    spellings: Seq<(String, String)>,
    entries: Seq<(Seq<char>, TyView)>,
) -> Seq<(Seq<char>, TyView)>
    decreases properties.len(),
{
    if properties.len() == 0 {
        entries
    } else {
        let rest = settled_entries(
            index,
            properties.drop_last(),
            anonymous,
            formals,
            spellings,
            entries,
        );
        let property = properties.last();
        match settled_result(index, property.origin) {
            None => rest,
            Some(result) => retyped(
                rest,
                property.name@,
                match settled_storage(
                    index,
                    property.origin,
                    option_view(property.storage_ty),
                    anonymous,
                    formals,
                    spellings,
                ) {
                    Some(storage) => storage,
                    None => seen(result, anonymous, formals, spellings),
                },
            ),
        }
    }
}

fn project_declared(
    index: &ResolvedModuleIndex,
    properties: &mut Vec<MemberProperty>,
    shapes: &mut Vec<(String, Ty)>,
    entries: &mut Vec<(String, Ty)>,
    anonymous: bool,
    formals: &Vec<String>,
    spellings: &Vec<(String, String)>,
)
    ensures
        members_projected(
            *index,
            old(properties)@,
            final(properties)@,
            true,
            anonymous,
            views(formals@),
            spellings@,
        ),
        views(final(shapes)@) == settled_shapes(
            *index,
            old(properties)@,
            anonymous,
            views(formals@),
            spellings@,
            views(old(shapes)@),
        ),
        views(final(entries)@) == settled_entries(
            *index,
            old(properties)@,
            anonymous,
            views(formals@),
            spellings@,
            views(old(entries)@),
        ),
{
    let ghost start = properties@;
    let ghost shaped = views(shapes@);
    let ghost held = views(entries@);
    let mut next: usize = 0;
    assert(start.take(0) =~= Seq::<MemberProperty>::empty());
    while next < properties.len()
        invariant
            next <= properties@.len(),
            properties@.len() == start.len(),
            forall|k: int| next <= k < start.len() ==> properties@[k] == start[k],
            forall|k: int|
                0 <= k < next ==> member_projected(
                    *index,
                    start[k],
                    #[trigger] properties@[k],
                    true,
                    anonymous,
                    views(formals@),
                    spellings@,
                ),
            views(shapes@) == settled_shapes(
                *index,
                start.take(next as int),
                anonymous,
                views(formals@),
                spellings@,
                shaped,
            ),
            views(entries@) == settled_entries(
                *index,
                start.take(next as int),
                anonymous,
                views(formals@),
                spellings@,
                held,
            ),
        decreases properties@.len() - next,
    {
        assert(start.take(next as int + 1).drop_last() =~= start.take(next as int));
        if let Some(result) = resolved_result(index, properties[next].origin) {
            let ty = see(&result, anonymous, formals, spellings);
            let storage = storage_after(
                index,
                properties[next].origin,
                &properties[next].storage_ty,
                anonymous,
                formals,
                spellings,
            );
            let name = properties[next].name.as_str();
            let mut kept = entries_without(shapes, name);
            if ty.mentions_ty_param() {
                let ghost before = kept@;
                kept.push((name.to_owned(), ty.clone()));
                assert(views(kept@) =~= views(before).push((name@, ty@)));
            }
            *shapes = kept;
            match &storage {
                Some(stored) => retype(entries, name, stored),
                None => retype(entries, name, &ty),
            }
            properties[next].ty = ty;
            properties[next].storage_ty = storage;
        }
        next += 1;
    }
    assert(start.take(next as int) =~= start);
}

/// Whether `after` is the class `before` with what is settled of it and its members.
pub open spec fn class_projected(
    index: ResolvedModuleIndex,
    before: ClassSig,
    after: ClassSig,
    anonymous: bool,
    spellings: Seq<(String, String)>,
) -> bool {
    let formals = views(before.type_params@);
    &&& after.origin == before.origin
    &&& after.internal == before.internal
    &&& after.is_object == before.is_object
    &&& after.type_params == before.type_params
    &&& after.constants == before.constants
    &&& parents_projected(index, before, after, anonymous, spellings)
    &&& callables_projected(
        index,
        before.source_methods@,
        after.source_methods@,
        anonymous,
        formals,
        spellings,
    )
    &&& callables_projected(
        index,
        before.methods@,
        after.methods@,
        anonymous,
        formals,
        spellings,
    )
    &&& callables_projected(
        index,
        before.member_ext_funs@,
        after.member_ext_funs@,
        anonymous,
        formals,
        spellings,
    )
    &&& members_projected(
        index,
        before.declared_props@,
        after.declared_props@,
        true,
        anonymous,
        formals,
        spellings,
    )
    &&& views(after.generic_property_shapes@) == settled_shapes(
        index,
        before.declared_props@,
        anonymous,
        formals,
        spellings,
        views(before.generic_property_shapes@),
    )
    &&& views(after.props@) == settled_entries(
        index,
        before.declared_props@,
        anonymous,
        formals,
        spellings,
        views(before.props@),
    )
    &&& members_projected(
        index,
        before.contextual_props@,
        after.contextual_props@,
        false,
        anonymous,
        formals,
        spellings,
    )
    &&& extensions_projected(
        index,
        before.member_ext_props@,
        after.member_ext_props@,
        anonymous,
        formals,
        spellings,
    )
}

fn project_class(
    index: &ResolvedModuleIndex,
    class: &mut ClassSig,
    anonymous: bool,
    spellings: &Vec<(String, String)>,
)
    requires
        index.parents_settled(),
    ensures
        class_projected(*index, *old(class), *final(class), anonymous, spellings@),
{
    project_classifier_parents(index, class, anonymous, spellings);
    project_callables(
        index,
        &mut class.source_methods,
        anonymous,
        &class.type_params,
        spellings,
    );
    project_callables(index, &mut class.methods, anonymous, &class.type_params, spellings);
    project_callables(
        index,
        &mut class.member_ext_funs,
        anonymous,
        &class.type_params,
        spellings,
    );
    project_declared(
        index,
        &mut class.declared_props,
        &mut class.generic_property_shapes,
        &mut class.props,
        anonymous,
        &class.type_params,
        spellings,
    );
    project_contextual(
        index,
        &mut class.contextual_props,
        anonymous,
        &class.type_params,
        spellings,
    );
    project_extensions(
        index,
        &mut class.member_ext_props,
        anonymous,
        &class.type_params,
        spellings,
    );
}

/// The stable identity of a declaration and its spelling, where both are recorded. A member is
/// spelled as the member that it is, anything else by its file and declaration.
pub open spec fn stable_spelling(
    declared: Seq<((u32, u32), String)>,
    members: Seq<(u32, String)>,
    member: bool,
    origin: Origin,
) -> Option<(DeclarationId, Seq<char>)> {
    let spelling = if member {
        match origin.source_member {
            Some(place) => spelling_of(members, place),
            None => None,
        }
    } else {
        match (origin.source_file, origin.source_decl) {
            (Some(file), Some(declaration)) => spelling_of(declared, (file, declaration)),
            _ => None,
        }
    };
    match (origin.stable_declaration, spelling) {
        (Some(stable), Some(spelling)) => Some((stable, spelling)),
        _ => None,
    }
}

/// The recorded spellings of some declarations, in order.
pub open spec fn spellings_of<T: Declared>(
    declared: Seq<((u32, u32), String)>,
    members: Seq<(u32, String)>,
    member: bool,
    items: Seq<T>,
) -> Seq<(DeclarationId, Seq<char>)>
    decreases items.len(),
{
    if items.len() == 0 {
        seq![]
    } else {
        let rest = spellings_of(declared, members, member, items.drop_last());
        match stable_spelling(declared, members, member, items.last().declared_at()) {
            Some(found) => rest.push(found),
            None => rest,
        }
    }
}

fn spelling_at(
    declared: &Vec<((u32, u32), String)>,
    members: &Vec<(u32, String)>,
    member: bool,
    origin: Origin,
) -> (found: Option<(DeclarationId, String)>)
    ensures
        stable_spelling(declared@, members@, member, origin) == match found {
            Some((stable, spelling)) => Some((stable, spelling@)),
            None => None,
        },
{
    let stable: DeclarationId = match origin.stable_declaration {
        Some(stable) => stable,
        None => {
            return None;
        },
    };
    let spelling = if member {
        match origin.source_member {
            Some(place) => member_spelled(members, place),
            None => None,
        }
    } else {
        match (origin.source_file, origin.source_decl) {
            (Some(file), Some(declaration)) => spelled(declared, (file, declaration)),
            _ => None,
        }
    };
    match spelling {
        Some(spelling) => Some((stable, spelling.clone())),
        None => None,
    }
}

fn gather<T: Declared>(
    declared: &Vec<((u32, u32), String)>,
    members: &Vec<(u32, String)>,
    member: bool,
    items: &Vec<T>,
    found: &mut Vec<(DeclarationId, String)>,
)
    ensures
        shown(final(found)@) == shown(old(found)@) + spellings_of(
            declared@,
            members@,
            member,
            items@,
        ),
{
    let ghost start = shown(found@);
    let mut next: usize = 0;
    assert(start + spellings_of(declared@, members@, member, items@.take(0)) =~= start);
    while next < items.len()
        invariant
            next <= items@.len(),
            shown(found@) == start + spellings_of(
                declared@,
                members@,
                member,
                items@.take(next as int),
            ),
        decreases items@.len() - next,
    {
        assert(items@.take(next as int + 1).drop_last() =~= items@.take(next as int));
        let ghost before = found@;
        if let Some(entry) = spelling_at(declared, members, member, items[next].origin()) {
            found.push(entry);
            assert(shown(found@) =~= shown(before).push((entry.0, entry.1@)));
            assert(shown(found@) =~= start + spellings_of(
                declared@,
                members@,
                member,
                items@.take(next as int + 1),
            ));
        }
        next += 1;
    }
    assert(items@.take(next as int) =~= items@);
}

/// The recorded spellings of a class and its members.
pub open spec fn class_spellings(table: SourceTable, class: ClassSig) -> Seq<
    (DeclarationId, Seq<char>),
> {
    let declared = table.declared_spellings@;
    let members = table.member_spellings@;
    let own = match stable_spelling(declared, members, false, class.origin) {
        Some(found) => seq![found],
        None => seq![],
    };
    if class.origin.stable_declaration is Some && class.origin.source_decl is Some {
        own + spellings_of(declared, members, true, class.methods@) + spellings_of(
            declared,
            members,
            true,
            class.member_ext_funs@,
        ) + spellings_of(declared, members, true, class.declared_props@) + spellings_of(
            declared,
            members,
            true,
            class.contextual_props@,
        ) + spellings_of(declared, members, true, class.member_ext_props@)
    } else {
        seq![]
    }
}

/// The recorded spellings of some classes and their members.
pub open spec fn classes_spellings(table: SourceTable, classes: Seq<ClassSig>) -> Seq<
    (DeclarationId, Seq<char>),
>
    decreases classes.len(),
{
    if classes.len() == 0 {
        seq![]
    } else {
        classes_spellings(table, classes.drop_last()) + class_spellings(table, classes.last())
    }
}

/// The recorded spellings of all declarations of a table that have a stable identity.
pub open spec fn table_spellings(table: SourceTable) -> Seq<(DeclarationId, Seq<char>)> {
    let declared = table.declared_spellings@;
    let members = table.member_spellings@;
    spellings_of(declared, members, false, table.funs@) + spellings_of(
        declared,
        members,
        false,
        table.ext_funs@,
    ) + spellings_of(declared, members, false, table.source_props@) + spellings_of(
        declared,
        members,
        false,
        table.ext_props@,
    ) + classes_spellings(table, table.classes@)
}

fn gather_class(
    declared: &Vec<((u32, u32), String)>,
    members: &Vec<(u32, String)>,
    class: &ClassSig,
    found: &mut Vec<(DeclarationId, String)>,
    Ghost(table): Ghost<SourceTable>,
)
    requires
        table.declared_spellings == *declared,
        table.member_spellings == *members,
    ensures
        shown(final(found)@) == shown(old(found)@) + class_spellings(
            table,
            *class,
        ),
{
    let ghost start = shown(found@);
    if class.origin.stable_declaration.is_none() || class.origin.source_decl.is_none() {
        assert(start + class_spellings(table, *class) =~= start);
        return;
    }
    let ghost before = found@;
    if let Some(entry) = spelling_at(declared, members, false, class.origin) {
        found.push(entry);
        assert(shown(found@) =~= shown(before).push((entry.0, entry.1@)));
    }
    gather(declared, members, true, &class.methods, found);
    gather(declared, members, true, &class.member_ext_funs, found);
    gather(declared, members, true, &class.declared_props, found);
    gather(declared, members, true, &class.contextual_props, found);
    gather(declared, members, true, &class.member_ext_props, found);
    assert(shown(found@) =~= start + class_spellings(table, *class));
}

fn gather_table(table: &SourceTable) -> (found: Vec<(DeclarationId, String)>)
    ensures
        shown(found@) == table_spellings(*table),
{
    let declared = &table.declared_spellings;
    let members = &table.member_spellings;
    let mut found: Vec<(DeclarationId, String)> = Vec::new();
    assert(shown(found@) =~= seq![]);
    gather(declared, members, false, &table.funs, &mut found);
    gather(declared, members, false, &table.ext_funs, &mut found);
    gather(declared, members, false, &table.source_props, &mut found);
    gather(declared, members, false, &table.ext_props, &mut found);
    let ghost start = shown(found@);
    let mut next: usize = 0;
    assert(start + classes_spellings(*table, table.classes@.take(0)) =~= start);
    while next < table.classes.len()
        invariant
            next <= table.classes@.len(),
            table.declared_spellings == *declared,
            table.member_spellings == *members,
            shown(found@) == start + classes_spellings(
                *table,
                table.classes@.take(next as int),
            ),
        decreases table.classes@.len() - next,
    {
        assert(table.classes@.take(next as int + 1).drop_last() =~= table.classes@.take(
            next as int,
        ));
        gather_class(declared, members, &table.classes[next], &mut found, Ghost(*table));
        assert(shown(found@) =~= start + classes_spellings(
            *table,
            table.classes@.take(next as int + 1),
        ));
        next += 1;
    }
    assert(table.classes@.take(next as int) =~= table.classes@);
    assert(shown(found@) =~= table_spellings(*table));
    found
}

/// Whether a classifier is that of an anonymous object.
pub open spec fn is_anonymous(table: SourceTable, class: ClassSig) -> bool {
    views(table.anonymous_object_types@).contains(class.internal@)
}

fn names_anonymous(names: &Vec<TypeName>, name: &TypeName) -> (yes: bool)
    ensures
        yes == views(names@).contains(name@),
{
    let mut next: usize = 0;
    while next < names.len()
        invariant
            next <= names@.len(),
            forall|k: int| 0 <= k < next ==> (#[trigger] views(names@)[k]) != name@,
        decreases names@.len() - next,
    {
        if names[next] == *name {
            assert(views(names@)[next as int] == name@);
            return true;
        }
        assert(views(names@)[next as int] != name@);
        next += 1;
    }
    false
}

/// Write everything that is settled into the table, and note the spellings of the declarations by
/// their stable identity. What was derived from the former declarations is dropped.
pub fn project_finalized_signatures(index: &ResolvedModuleIndex, table: &mut SourceTable)
    requires
        index.parents_settled(),
    ensures
        shown(final(table).stable_declared_spellings@) == shown(
            old(table).stable_declared_spellings@,
        ) + table_spellings(*old(table)),
        !final(table).derived_symbols_kept,
        callables_projected(
            *index,
            old(table).funs@,
            final(table).funs@,
            false,
            seq![],
            seq![],
        ),
        callables_projected(
            *index,
            old(table).ext_funs@,
            final(table).ext_funs@,
            false,
            seq![],
            seq![],
        ),
        final(table).source_props@.len() == old(table).source_props@.len(),
        forall|k: int|
            0 <= k < old(table).source_props@.len() ==> property_projected(
                *index,
                old(table).source_props@[k],
                #[trigger] final(table).source_props@[k],
            ),
        views(final(table).props@) == entered(
            *index,
            old(table).source_props@,
            views(old(table).props@),
        ),
        extensions_projected(
            *index,
            old(table).ext_props@,
            final(table).ext_props@,
            false,
            seq![],
            seq![],
        ),
        final(table).classes@.len() == old(table).classes@.len(),
        forall|k: int|
            0 <= k < old(table).classes@.len() ==> class_projected(
                *index,
                old(table).classes@[k],
                #[trigger] final(table).classes@[k],
                is_anonymous(*old(table), old(table).classes@[k]),
                old(table).parameter_spellings@,
            ),
        *final(table) == (SourceTable {
            funs: final(table).funs,
            ext_funs: final(table).ext_funs,
            source_props: final(table).source_props,
            ext_props: final(table).ext_props,
            classes: final(table).classes,
            props: final(table).props,
            stable_declared_spellings: final(table).stable_declared_spellings,
            derived_symbols_kept: false,
            ..*old(table)
        }),
{
    let ghost start = *table;
    let mut found = gather_table(table);
    let ghost listed = found@;
    table.stable_declared_spellings.append(&mut found);
    assert(shown(table.stable_declared_spellings@) =~= shown(
        start.stable_declared_spellings@,
    ) + shown(listed));
    table.derived_symbols_kept = false;
    let none: Vec<String> = Vec::new();
    let plain: Vec<(String, String)> = Vec::new();
    assert(views(none@) =~= Seq::<Seq<char>>::empty());
    assert(plain@ =~= Seq::<(String, String)>::empty());
    project_callables(index, &mut table.funs, false, &none, &plain);
    project_callables(index, &mut table.ext_funs, false, &none, &plain);
    project_properties(index, &mut table.source_props, &mut table.props);
    project_extensions(index, &mut table.ext_props, false, &none, &plain);
    let ghost settled = *table;
    let mut next: usize = 0;
    while next < table.classes.len()
        invariant
            next <= table.classes@.len(),
            index.parents_settled(),
            table.classes@.len() == start.classes@.len(),
            *table == (SourceTable { classes: table.classes, ..settled }),
            settled.anonymous_object_types == start.anonymous_object_types,
            settled.parameter_spellings == start.parameter_spellings,
            forall|k: int| next <= k < start.classes@.len() ==> table.classes@[k]
                == start.classes@[k],
            forall|k: int|
                0 <= k < next ==> class_projected(
                    *index,
                    start.classes@[k],
                    #[trigger] table.classes@[k],
                    is_anonymous(start, start.classes@[k]),
                    start.parameter_spellings@,
                ),
        decreases table.classes@.len() - next,
    {
        let anonymous = names_anonymous(
            &table.anonymous_object_types,
            &table.classes[next].internal,
        );
        project_class(index, &mut table.classes[next], anonymous, &table.parameter_spellings);
        next += 1;
    }
}

/// What is recorded of the declaration `id` once `found` was entered in order: the last value
/// stands.
pub open spec fn last_value<V: View>(
    before: Map<DeclarationId, V>,
    found: Seq<(DeclarationId, V::V)>,
    id: DeclarationId,
) -> Option<V::V>
    decreases found.len(),
{
    if found.len() == 0 {
        if before.contains_key(id) {
            Some(before[id]@)
        } else {
            None
        }
    } else if found.last().0 == id {
        Some(found.last().1)
    } else {
        last_value(before, found.drop_last(), id)
    }
}

/// Whether what is recorded in `after` is what was in `before` with `found` entered in order.
pub open spec fn recorded<V: View>(
    before: Map<DeclarationId, V>,
    after: Map<DeclarationId, V>,
    found: Seq<(DeclarationId, V::V)>,
) -> bool {
    forall|id: DeclarationId|
        last_value(before, found, id) == if #[trigger] after.contains_key(id) {
            Some(after[id]@)
        } else {
            None
        }
}

/// What a list of identities and values reads as.
pub open spec fn shown<V: View>(found: Seq<(DeclarationId, V)>) -> Seq<(DeclarationId, V::V)> {
    Seq::new(found.len(), |k: int| (found[k].0, found[k].1@))
}

fn record<V: Modelled>(
    facts: &mut HashMap<DeclarationId, V>,
    found: &Vec<(DeclarationId, V)>,
)
    ensures
        recorded(old(facts)@, final(facts)@, shown(found@)),
{
    let ghost start = facts@;
    let ghost listed = shown(found@);
    let mut next: usize = 0;
    assert(listed.take(0) =~= Seq::<(DeclarationId, V::V)>::empty());
    while next < found.len()
        invariant
            next <= found@.len(),
            listed == shown(found@),
            recorded(start, facts@, listed.take(next as int)),
        decreases found@.len() - next,
    {
        assert(listed.take(next as int + 1).drop_last() =~= listed.take(next as int));
        let ghost before = facts@;
        facts.insert(found[next].0, found[next].1.duplicate());
        assert forall|id: DeclarationId|
            last_value(start, listed.take(next as int + 1), id) == if #[trigger] facts@.contains_key(
                id,
            ) {
                Some(facts@[id]@)
            } else {
                None
            } by {
            if id != found@[next as int].0 {
                assert(facts@.contains_key(id) == before.contains_key(id));
            }
        }
        next += 1;
    }
    assert(listed.take(next as int) =~= listed);
}

/// The hierarchies that are published: those of the classes whose parents are settled. What a local
/// class looks like before its body is checked is not.
pub open spec fn settled_hierarchies(
    index: ResolvedModuleIndex,
    classes: Seq<ClassSig>,
    hierarchies: Seq<AppliedHierarchy>,
) -> Seq<(DeclarationId, Seq<TyView>)>
    decreases classes.len(),
{
    if classes.len() == 0 {
        seq![]
    } else {
        let rest = settled_hierarchies(index, classes.drop_last(), hierarchies);
        match index.header_of(classes.last().origin.stable_declaration) {
            Some(_) => rest.push(
                (
                    classes.last().origin.stable_declaration->0,
                    hierarchies[classes.len() - 1]@,
                ),
            ),
            None => rest,
        }
    }
}

fn gather_hierarchies(
    index: &ResolvedModuleIndex,
    classes: &Vec<ClassSig>,
    hierarchies: &Vec<AppliedHierarchy>,
) -> (found: Vec<(DeclarationId, AppliedHierarchy)>)
    requires
        hierarchies@.len() == classes@.len(),
    ensures
        shown(found@) == settled_hierarchies(*index, classes@, hierarchies@),
{
    let mut found: Vec<(DeclarationId, AppliedHierarchy)> = Vec::new();
    let mut next: usize = 0;
    assert(shown(found@) =~= settled_hierarchies(*index, classes@.take(0), hierarchies@));
    while next < classes.len()
        invariant
            next <= classes@.len(),
            hierarchies@.len() == classes@.len(),
            shown(found@) == settled_hierarchies(
                *index,
                classes@.take(next as int),
                hierarchies@,
            ),
        decreases classes@.len() - next,
    {
        assert(classes@.take(next as int + 1).drop_last() =~= classes@.take(next as int));
        let ghost before = found@;
        if let Some(declaration) = classes[next].origin.stable_declaration {
            if index.classifier_header(Some(declaration)).is_some() {
                found.push((declaration, hierarchies[next].duplicate()));
                assert(shown(found@) =~= shown(before).push(
                    (declaration, hierarchies@[next as int]@),
                ));
            }
        }
        next += 1;
    }
    assert(classes@.take(next as int) =~= classes@);
    found
}

/// The constants of the properties outside of classes.
pub open spec fn property_constants(properties: Seq<SourceProperty>) -> Seq<
    (DeclarationId, LibConstView),
>
    decreases properties.len(),
{
    if properties.len() == 0 {
        seq![]
    } else {
        let rest = property_constants(properties.drop_last());
        match (
            properties.last().origin.stable_declaration,
            properties.last().compile_time_constant,
        ) {
            (Some(declaration), Some(constant)) => rest.push((declaration, constant@)),
            _ => rest,
        }
    }
}

fn gather_property_constants(
    properties: &Vec<SourceProperty>,
    found: &mut Vec<(DeclarationId, LibConst)>,
)
    ensures
        shown(final(found)@) == shown(old(found)@) + property_constants(properties@),
{
    let ghost start = shown(found@);
    let mut next: usize = 0;
    assert(start + property_constants(properties@.take(0)) =~= start);
    while next < properties.len()
        invariant
            next <= properties@.len(),
            shown(found@) == start + property_constants(properties@.take(next as int)),
        decreases properties@.len() - next,
    {
        assert(properties@.take(next as int + 1).drop_last() =~= properties@.take(next as int));
        let ghost before = found@;
        if let (Some(declaration), Some(constant)) = (
            properties[next].origin.stable_declaration,
            &properties[next].compile_time_constant,
        ) {
            found.push((declaration, constant.duplicate()));
            assert(shown(found@) =~= shown(before).push((declaration, constant@)));
            assert(shown(found@) =~= start + property_constants(
                properties@.take(next as int + 1),
            ));
        }
        next += 1;
    }
    assert(properties@.take(next as int) =~= properties@);
}

/// The stable identity of the declared property `name` of a class.
pub open spec fn declared_identity(properties: Seq<MemberProperty>, name: Seq<char>) -> Option<
    DeclarationId,
>
    decreases properties.len(),
{
    if properties.len() == 0 {
        None
    } else if properties[0].name@ == name {
        properties[0].origin.stable_declaration
    } else {
        declared_identity(properties.skip(1), name)
    }
}

fn identity_of(properties: &Vec<MemberProperty>, name: &str) -> (found: Option<DeclarationId>)
    ensures
        found == declared_identity(properties@, name@),
{
    let mut next: usize = 0;
    assert(properties@.skip(0) =~= properties@);
    while next < properties.len()
        invariant
            next <= properties@.len(),
            declared_identity(properties@.skip(next as int), name@) == declared_identity(
                properties@,
                name@,
            ),
        decreases properties@.len() - next,
    {
        assert(properties@.skip(next as int).skip(1) =~= properties@.skip(next as int + 1));
        if same_text(properties[next].name.as_str(), name) {
            return properties[next].origin.stable_declaration;
        }
        next += 1;
    }
    None
}

/// The constants of the declared properties of a class.
pub open spec fn member_constants(
    properties: Seq<MemberProperty>,
    constants: Seq<(String, LibConst)>,
) -> Seq<(DeclarationId, LibConstView)>
    decreases constants.len(),
{
    if constants.len() == 0 {
        seq![]
    } else {
        let rest = member_constants(properties, constants.drop_last());
        match declared_identity(properties, constants.last().0@) {
            Some(declaration) => rest.push((declaration, constants.last().1@)),
            None => rest,
        }
    }
}

fn gather_member_constants(
    properties: &Vec<MemberProperty>,
    constants: &Vec<(String, LibConst)>,
    found: &mut Vec<(DeclarationId, LibConst)>,
)
    ensures
        shown(final(found)@) == shown(old(found)@) + member_constants(properties@, constants@),
{
    let ghost start = shown(found@);
    let mut next: usize = 0;
    assert(start + member_constants(properties@, constants@.take(0)) =~= start);
    while next < constants.len()
        invariant
            next <= constants@.len(),
            shown(found@) == start + member_constants(properties@, constants@.take(next as int)),
        decreases constants@.len() - next,
    {
        assert(constants@.take(next as int + 1).drop_last() =~= constants@.take(next as int));
        let ghost before = found@;
        if let Some(declaration) = identity_of(properties, constants[next].0.as_str()) {
            found.push((declaration, constants[next].1.duplicate()));
            assert(shown(found@) =~= shown(before).push(
                (declaration, constants@[next as int].1@),
            ));
            assert(shown(found@) =~= start + member_constants(
                properties@,
                constants@.take(next as int + 1),
            ));
        }
        next += 1;
    }
    assert(constants@.take(next as int) =~= constants@);
}

/// The constants of the declared properties of some classes.
pub open spec fn class_constants(classes: Seq<ClassSig>) -> Seq<(DeclarationId, LibConstView)>
    decreases classes.len(),
{
    if classes.len() == 0 {
        seq![]
    } else {
        class_constants(classes.drop_last()) + member_constants(
            classes.last().declared_props@,
            classes.last().constants@,
        )
    }
}

fn gather_constants(table: &SourceTable) -> (found: Vec<(DeclarationId, LibConst)>)
    ensures
        shown(found@) == property_constants(table.source_props@) + class_constants(
            table.classes@,
        ),
{
    let mut found: Vec<(DeclarationId, LibConst)> = Vec::new();
    gather_property_constants(&table.source_props, &mut found);
    assert(shown(found@) =~= property_constants(table.source_props@));
    let ghost start = shown(found@);
    let mut next: usize = 0;
    assert(start + class_constants(table.classes@.take(0)) =~= start);
    while next < table.classes.len()
        invariant
            next <= table.classes@.len(),
            shown(found@) == start + class_constants(table.classes@.take(next as int)),
        decreases table.classes@.len() - next,
    {
        assert(table.classes@.take(next as int + 1).drop_last() =~= table.classes@.take(
            next as int,
        ));
        gather_member_constants(
            &table.classes[next].declared_props,
            &table.classes[next].constants,
            &mut found,
        );
        assert(shown(found@) =~= start + class_constants(table.classes@.take(next as int + 1)));
        next += 1;
    }
    assert(table.classes@.take(next as int) =~= table.classes@);
    found
}

/// Publish what the table alone knows of declarations: their hierarchies, their spellings, the
/// visibility checks that they leave out and their constants. `hierarchies` holds the applied
/// ancestors of each class.
pub fn publish_stable_declaration_metadata(
    index: &mut ResolvedModuleIndex,
    table: &SourceTable,
    hierarchies: &Vec<AppliedHierarchy>,
)
    requires
        hierarchies@.len() == table.classes@.len(),
    ensures
        recorded(
            old(index).classifier_hierarchies@,
            final(index).classifier_hierarchies@,
            settled_hierarchies(*old(index), table.classes@, hierarchies@),
        ),
        recorded(
            old(index).declaration_spellings@,
            final(index).declaration_spellings@,
            shown(table.stable_declared_spellings@),
        ),
        recorded(
            old(index).visibility_suppressions@,
            final(index).visibility_suppressions@,
            shown(table.visibility_suppressions@),
        ),
        recorded(
            old(index).compile_time_constants@,
            final(index).compile_time_constants@,
            property_constants(table.source_props@) + class_constants(table.classes@),
        ),
        *final(index) == (ResolvedModuleIndex {
            classifier_hierarchies: final(index).classifier_hierarchies,
            declaration_spellings: final(index).declaration_spellings,
            visibility_suppressions: final(index).visibility_suppressions,
            compile_time_constants: final(index).compile_time_constants,
            ..*old(index)
        }),
{
    let settled = gather_hierarchies(index, &table.classes, hierarchies);
    record(&mut index.classifier_hierarchies, &settled);
    record(&mut index.declaration_spellings, &table.stable_declared_spellings);
    record(&mut index.visibility_suppressions, &table.visibility_suppressions);
    let constants = gather_constants(table);
    record(&mut index.compile_time_constants, &constants);
}

/// Over the formals of a classifier, a type is what it is.
proof fn lemma_relative_settles(
    ty: TyView,
    formals: Seq<Seq<char>>,
    spellings: Seq<(String, String)>,
)
    ensures
        relative_type(relative_type(ty, formals, spellings), formals, spellings) == relative_type(
            ty,
            formals,
            spellings,
        ),
    decreases ty,
{
    let once = relative_type(ty, formals, spellings);
    match ty {
        TyView::TyParam(name, bound) => {
            lemma_formal_found(formals, spellings, parameter_source(spellings, name));
        },
        TyView::Obj(name, arguments) => {
            assert forall|i: int| 0 <= i < arguments.len() implies relative_type(
                #[trigger] once->Obj_1[i],
                formals,
                spellings,
            ) == once->Obj_1[i] by {
                lemma_relative_settles(arguments[i], formals, spellings);
            }
            assert(relative_type(once, formals, spellings)->Obj_1 =~= once->Obj_1);
        },
        TyView::Nullable(inner)
        | TyView::PlatformNullable(inner)
        | TyView::InProjection(inner)
        | TyView::OutProjection(inner)
        | TyView::StarProjection(inner) => {
            lemma_relative_settles(*inner, formals, spellings);
        },
        TyView::Fun(sig) => {
            lemma_relative_settles(sig.ret, formals, spellings);
            assert forall|i: int| 0 <= i < sig.params.len() implies relative_type(
                #[trigger] once->Fun_0.params[i],
                formals,
                spellings,
            ) == once->Fun_0.params[i] by {
                lemma_relative_settles(sig.params[i], formals, spellings);
            }
            assert(relative_type(once, formals, spellings)->Fun_0.params =~= once->Fun_0.params);
        },
        _ => {},
    }
}

proof fn lemma_formal_found(
    formals: Seq<Seq<char>>,
    spellings: Seq<(String, String)>,
    source: Seq<char>,
)
    ensures
        formal_spelled(formals, spellings, source) matches Some(formal) ==> parameter_source(
            spellings,
            formal,
        ) == source,
    decreases formals.len(),
{
    if formals.len() > 0 {
        lemma_formal_found(formals.skip(1), spellings, source);
    }
}

/// Writing the settled facts a second time changes neither the result nor the contract of a
/// callable.
pub proof fn projecting_again_changes_nothing(
    index: ResolvedModuleIndex,
    before: Signature,
    once: Signature,
    twice: Signature,
    anonymous: bool,
    formals: Seq<Seq<char>>,
    spellings: Seq<(String, String)>,
)
    requires
        callable_projected(index, before, once, anonymous, formals, spellings),
        callable_projected(index, once, twice, anonymous, formals, spellings),
    ensures
        twice.ret@ == once.ret@,
        twice == (Signature { ret: twice.ret, ..once }),
{
    lemma_relative_settles(before.ret@, formals, spellings);
}

} // verus!
