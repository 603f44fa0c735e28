//! The abstract members that a concrete class has to implement.
//!
//! A class that is not abstract implements every abstract member that it inherits. A concrete member
//! of its hierarchy discharges an obligation where it overrides it: a Kotlin declaration by its
//! substituted signature, a platform type being equal to either of its bounds, and a Java
//! declaration by erasure within its own hierarchy.

use vstd::prelude::*;

use crate::libraries::{FunctionInfo, FunctionInfoView};
use crate::names::TypeName;
use crate::resolve::callable_reference_selection::Assignability;
use crate::resolve::context_sensitive_resolution::with_name;
use crate::resolve::delegated_properties::{ClassifierBounds, ExternalCallableId};
use crate::text::{decimal, decimal_text, holds_name, option_view, same_text, views};
use crate::types::{copy_tys, FnSig, FnSigView, Ty, TyView};

verus! {

broadcast use {crate::text::group_views, crate::types::group_ty_views};

/// A type without what is not there at run time: arguments, the nullability of references, and the
/// type parameters, which are their bounds. An array keeps its element.
pub open spec fn erased(ty: TyView) -> TyView
    decreases ty,
{
    match ty {
        TyView::Nullable(inner) => match inner.kotlin_class_internal() {
            Some(name) if !(*inner is Obj) => TyView::Obj(name, seq![]),
            _ => erased(*inner),
        },
        TyView::PlatformNullable(inner)
        | TyView::InProjection(inner)
        | TyView::OutProjection(inner)
        | TyView::StarProjection(inner) => erased(*inner),
        TyView::TyParam(_, bound) => erased(*bound),
        TyView::Obj(name, arguments) => if name == "kotlin/Array"@ && arguments.len() == 1 {
            TyView::Obj(name, seq![erased(arguments[0])])
        } else {
            TyView::Obj(name, seq![])
        },
        TyView::Fun(sig) => TyView::Obj(
            "kotlin/Function"@ + decimal(sig.params.len()),
            seq![],
        ),
        _ => ty,
    }
}

/// A type without what is not there at run time.
pub fn erased_type_key(ty: &Ty) -> (key: Ty)
    ensures
        key@ == erased(ty@),
    decreases ty,
{
    match ty {
        Ty::Nullable(inner) => {
            if !matches!(**inner, Ty::Obj(..)) {
                if let Some(name) = inner.kotlin_class_internal() {
                    return Ty::obj_name(&name);
                }
            }
            erased_type_key(inner)
        },
        Ty::PlatformNullable(inner)
        | Ty::InProjection(inner)
        | Ty::OutProjection(inner)
        | Ty::StarProjection(inner) => erased_type_key(inner),
        Ty::TyParam(_, bound) => erased_type_key(bound),
        Ty::Obj(name, arguments) => {
            assert(ty@->Obj_1 == views(arguments@));
            if name.matches("kotlin/Array") && arguments.len() == 1 {
                let mut element: Vec<Ty> = Vec::new();
                element.push(erased_type_key(&arguments[0]));
                assert(views(element@) =~= seq![erased(ty@->Obj_1[0])]);
                Ty::obj_args_name(name, element.as_slice())
            } else {
                Ty::obj_name(name)
            }
        },
        Ty::Fun(sig) => {
            let mut name = "kotlin/Function".to_owned();
            name.append(decimal_text(sig.params.len() as u64).as_str());
            assert(ty@->Fun_0.params.len() == sig.params@.len());
            Ty::obj(name.as_str())
        },
        _ => ty.clone(),
    }
}

/// The erasure of a declared parameter of a Java method. A platform type is erased as its nullable
/// bound, so that a wrapper stays boxed and a primitive stays primitive.
pub open spec fn java_erased(ty: TyView) -> TyView {
    match ty {
        TyView::PlatformNullable(inner) => erased(inner.nullable()),
        _ => erased(ty),
    }
}

fn java_erasure(ty: &Ty) -> (key: Ty)
    ensures
        key@ == java_erased(ty@),
{
    match ty {
        Ty::PlatformNullable(inner) => erased_type_key(&Ty::nullable((**inner).clone())),
        _ => erased_type_key(ty),
    }
}

/// Whether two types are the same where a platform type is equal to either of its bounds.
pub open spec fn same_flexible(left: TyView, right: TyView) -> bool
    decreases left, right,
{
    match (left, right) {
        (TyView::PlatformNullable(inner), TyView::PlatformNullable(other)) => same_flexible(
            *inner,
            *other,
        ),
        (TyView::PlatformNullable(inner), TyView::Nullable(other)) => same_flexible(
            *inner,
            *other,
        ),
        (TyView::Nullable(inner), TyView::PlatformNullable(other)) => same_flexible(
            *inner,
            *other,
        ),
        (TyView::Nullable(inner), TyView::Nullable(other)) => same_flexible(*inner, *other),
        (TyView::PlatformNullable(inner), _) => same_flexible(*inner, right),
        (TyView::InProjection(inner), TyView::InProjection(other)) => same_flexible(
            *inner,
            *other,
        ),
        (TyView::OutProjection(inner), TyView::OutProjection(other)) => same_flexible(
            *inner,
            *other,
        ),
        (TyView::StarProjection(inner), TyView::StarProjection(other)) => same_flexible(
            *inner,
            *other,
        ),
        (TyView::Obj(name, arguments), TyView::Obj(other, others)) => name == other
            && arguments.len() == others.len() && (forall|k: int|
            0 <= k < arguments.len() ==> same_flexible(#[trigger] arguments[k], others[k])),
        (_, TyView::PlatformNullable(other)) => same_flexible(left, *other),
        _ => left == right,
    }
}

fn same_flexible_types(left: &Vec<Ty>, right: &Vec<Ty>) -> (same: bool)
    ensures
        same == (left@.len() == right@.len() && forall|k: int|
            0 <= k < left@.len() ==> same_flexible(
                (#[trigger] views(left@)[k]),
                views(right@)[k],
            )),
    decreases left, right,
{
    if left.len() != right.len() {
        return false;
    }
    let mut index: usize = 0;
    while index < left.len()
        invariant
            index <= left@.len(),
            left@.len() == right@.len(),
            forall|k: int|
                0 <= k < index ==> same_flexible((#[trigger] views(left@)[k]), views(right@)[k]),
        decreases left@.len() - index,
    {
        assert(views(left@)[index as int] == left@[index as int]@);
        if !same_flexible_type(&left[index], &right[index]) {
            return false;
        }
        index += 1;
    }
    true
}

/// Whether two types are the same where a platform type is equal to either of its bounds.
pub fn same_flexible_type(left: &Ty, right: &Ty) -> (same: bool)
    ensures
        same == same_flexible(left@, right@),
    decreases left, right,
{
    match (left, right) {
        (Ty::PlatformNullable(inner), Ty::PlatformNullable(other)) => same_flexible_type(
            inner,
            other,
        ),
        (Ty::PlatformNullable(inner), Ty::Nullable(other)) => same_flexible_type(inner, other),
        (Ty::Nullable(inner), Ty::PlatformNullable(other)) => same_flexible_type(inner, other),
        (Ty::Nullable(inner), Ty::Nullable(other)) => same_flexible_type(inner, other),
        (Ty::PlatformNullable(inner), _) => same_flexible_type(inner, right),
        (Ty::InProjection(inner), Ty::InProjection(other)) => same_flexible_type(inner, other),
        (Ty::OutProjection(inner), Ty::OutProjection(other)) => same_flexible_type(inner, other),
        (Ty::StarProjection(inner), Ty::StarProjection(other)) => same_flexible_type(inner, other),
        (Ty::Obj(name, arguments), Ty::Obj(other, others)) => {
            assert(left@->Obj_1 == views(arguments@));
            assert(right@->Obj_1 == views(others@));
            *name == *other && same_flexible_types(arguments, others)
        },
        (_, Ty::PlatformNullable(other)) => same_flexible_type(left, other),
        _ => *left == *right,
    }
}

/// The position of the formal `name`.
pub open spec fn formal_position(formals: Seq<Seq<char>>, name: Seq<char>) -> Option<nat>
    decreases formals.len(),
{
    if formals.len() == 0 {
        None
    } else {
        match formal_position(formals.drop_last(), name) {
            Some(position) => Some(position),
            None => if formals.last() == name {
                Some((formals.len() - 1) as nat)
            } else {
                None
            },
        }
    }
}

proof fn lemma_formal_position_stays(formals: Seq<Seq<char>>, seen: int, name: Seq<char>)
    requires
        0 <= seen <= formals.len(),
        formal_position(formals.take(seen), name) is Some,
    ensures
        formal_position(formals, name) == formal_position(formals.take(seen), name),
    decreases formals.len() - seen,
{
    if seen < formals.len() {
        assert(formals.take(seen + 1).drop_last() =~= formals.take(seen));
        lemma_formal_position_stays(formals, seen + 1, name);
    } else {
        assert(formals.take(seen) =~= formals);
    }
}

fn position_of_formal(formals: &Vec<String>, name: &str) -> (found: Option<usize>)
    ensures
        formal_position(views(formals@), name@) == match found {
            Some(position) => Some(position as nat),
            None => None,
        },
{
    let ghost all = views(formals@);
    let mut index: usize = 0;
    while index < formals.len()
        invariant
            index <= formals@.len(),
            all == views(formals@),
            formal_position(all.take(index as int), name@) is None,
        decreases formals@.len() - index,
    {
        assert(all.take(index as int + 1).drop_last() =~= all.take(index as int));
        if same_text(formals[index].as_str(), name) {
            proof {
                lemma_formal_position_stays(all, index as int + 1, name@);
            }
            return Some(index);
        }
        index += 1;
    }
    assert(all.take(index as int) =~= all);
    None
}

/// A type with the formals of its declaration called by their position, so that those of two
/// declarations are the same.
pub open spec fn canonical_type(ty: TyView, formals: Seq<Seq<char>>) -> TyView
    decreases ty,
{
    match ty {
        TyView::TyParam(name, _) => match formal_position(formals, name) {
            Some(position) => TyView::TyParam(
                "#"@ + decimal(position),
                Box::new(TyView::Nullable(Box::new(TyView::Obj("kotlin/Any"@, seq![])))),
            ),
            None => ty,
        },
        TyView::Obj(name, arguments) => TyView::Obj(
            name,
            Seq::new(
                arguments.len(),
                |i: int|
                    if 0 <= i < arguments.len() {
                        canonical_type(arguments[i], formals)
                    } else {
                        TyView::Error
                    },
            ),
        ),
        TyView::Nullable(inner) => TyView::Nullable(Box::new(canonical_type(*inner, formals))),
        TyView::PlatformNullable(inner) => TyView::PlatformNullable(
            Box::new(canonical_type(*inner, formals)),
        ),
        TyView::InProjection(inner) => TyView::InProjection(
            Box::new(canonical_type(*inner, formals)),
        ),
        TyView::OutProjection(inner) => TyView::OutProjection(
            Box::new(canonical_type(*inner, formals)),
        ),
        TyView::StarProjection(inner) => TyView::StarProjection(
            Box::new(canonical_type(*inner, formals)),
        ),
        TyView::Fun(sig) => TyView::Fun(
            Box::new(
                FnSigView {
                    params: Seq::new(
                        sig.params.len(),
                        |i: int|
                            if 0 <= i < sig.params.len() {
                                canonical_type(sig.params[i], formals)
                            } else {
                                TyView::Error
                            },
                    ),
                    ret: canonical_type(sig.ret, formals),
                    ..*sig
                },
            ),
        ),
        _ => ty,
    }
}

fn canonicalize(ty: &Ty, formals: &Vec<String>) -> (out: Ty)
    ensures
        out@ == canonical_type(ty@, views(formals@)),
    decreases ty,
{
    match ty {
        Ty::TyParam(name, _) => match position_of_formal(formals, name.as_str()) {
            Some(position) => {
                let mut canonical = "#".to_owned();
                canonical.append(decimal_text(position as u64).as_str());
                Ty::ty_param(canonical.as_str(), Ty::nullable(Ty::obj("kotlin/Any")))
            },
            None => ty.clone(),
        },
        Ty::Obj(name, arguments) => {
            let out = Ty::Obj(name.clone(), canonicalize_all(arguments, formals));
            assert(ty@->Obj_1 == views(arguments@));
            assert(out@->Obj_1 =~= canonical_type(ty@, views(formals@))->Obj_1);
            out
        },
        Ty::Nullable(inner) => Ty::Nullable(Box::new(canonicalize(inner, formals))),
        Ty::PlatformNullable(inner) => Ty::PlatformNullable(
            Box::new(canonicalize(inner, formals)),
        ),
        Ty::InProjection(inner) => Ty::InProjection(Box::new(canonicalize(inner, formals))),
        Ty::OutProjection(inner) => Ty::OutProjection(Box::new(canonicalize(inner, formals))),
        Ty::StarProjection(inner) => Ty::StarProjection(Box::new(canonicalize(inner, formals))),
        Ty::Fun(sig) => {
            let out = Ty::Fun(
                Box::new(
                    FnSig {
                        params: canonicalize_all(&sig.params, formals),
                        ret: canonicalize(&sig.ret, formals),
                        context_count: sig.context_count,
                        has_receiver: sig.has_receiver,
                        suspend: sig.suspend,
                    },
                ),
            );
            assert(ty@->Fun_0.params == views(sig.params@));
            assert(out@->Fun_0.params =~= canonical_type(ty@, views(formals@))->Fun_0.params);
            out
        },
        _ => ty.clone(),
    }
}

fn canonicalize_all(types: &Vec<Ty>, formals: &Vec<String>) -> (out: Vec<Ty>)
    ensures
        out@.len() == types@.len(),
        forall|k: int|
            0 <= k < out@.len() ==> (#[trigger] out@[k])@ == canonical_type(
                types@[k]@,
                views(formals@),
            ),
    decreases types,
{
    let mut out: Vec<Ty> = Vec::new();
    let mut index: usize = 0;
    while index < types.len()
        invariant
            index <= types@.len(),
            out@.len() == index,
            forall|k: int|
                0 <= k < index ==> (#[trigger] out@[k])@ == canonical_type(
                    types@[k]@,
                    views(formals@),
                ),
        decreases types@.len() - index,
    {
        out.push(canonicalize(&types[index], formals));
        index += 1;
    }
    out
}

/// A function of a hierarchy, its types substituted for the class that is checked.
#[derive(Debug)]
pub struct HierarchyFunction {
    pub function: FunctionInfo,
    pub external_identity: Option<ExternalCallableId>,
    pub physical_params: Vec<Ty>,
}

/// An accessor of a property of a hierarchy.
#[derive(Clone, Copy, Debug, PartialEq, Eq, Structural)]
pub struct HierarchyAccessor {
    pub is_abstract: bool,
    pub external_identity: Option<ExternalCallableId>,
}

/// A property of a hierarchy.
#[derive(Clone, Copy, Debug, PartialEq, Eq, Structural)]
pub struct HierarchyProperty {
    pub getter: HierarchyAccessor,
    pub setter: Option<HierarchyAccessor>,
}

/// The callables of a hierarchy that are called `name`.
#[derive(Debug)]
pub struct CallableFamily {
    pub name: String,
    pub functions: Vec<HierarchyFunction>,
    pub properties: Vec<HierarchyProperty>,
}

/// The formals of a function.
pub open spec fn formals_of(function: FunctionInfoView) -> Seq<Seq<char>> {
    match function.generic_sig {
        Some(signature) => signature.formals,
        None => seq![],
    }
}

/// The parameters by which a function overrides another one.
pub open spec fn override_params(function: FunctionInfoView) -> Seq<TyView> {
    Seq::new(
        function.semantic_params().len(),
        |k: int| canonical_type(function.semantic_params()[k], formals_of(function)),
    )
}

fn override_shape(function: &FunctionInfo) -> (shape: Vec<Ty>)
    ensures
        views(shape@) == override_params(function@),
{
    let params = function.semantic_params();
    let none: Vec<String> = Vec::new();
    assert(views(none@) =~= Seq::<Seq<char>>::empty());
    let shape = match &function.generic_sig {
        Some(signature) => canonicalize_all(&params, &signature.formals),
        None => canonicalize_all(&params, &none),
    };
    assert(views(shape@) =~= override_params(function@)) by {
        assert forall|k: int| 0 <= k < shape@.len() implies (#[trigger] views(shape@)[k])
            == override_params(function@)[k] by {
            assert(function@.semantic_params()[k] == params@[k]@);
        }
    }
    shape
}

/// The classifier that declares a function.
pub open spec fn declaring(function: FunctionInfoView) -> Option<Seq<char>> {
    match function.receiver {
        Some(receiver) => receiver.kotlin_class_internal(),
        None => None,
    }
}

fn declaring_classifier(function: &FunctionInfo) -> (name: Option<TypeName>)
    ensures
        option_view(name) == declaring(function@),
{
    match &function.receiver {
        Some(receiver) => receiver.kotlin_class_internal(),
        None => None,
    }
}

/// Whether `classifier` is `owner` or inherits it.
pub open spec fn inherits<A: Assignability>(
    relation: A,
    classifier: Seq<char>,
    owner: Seq<char>,
) -> bool {
    classifier == owner || relation.accepts(
        TyView::Obj(classifier, seq![]),
        TyView::Obj(owner, seq![]),
    )
}

fn does_inherit<A: Assignability>(relation: &A, classifier: &TypeName, owner: &TypeName) -> (yes:
    bool)
    ensures
        yes == inherits(*relation, classifier@, owner@),
{
    *classifier == *owner || relation.is_assignable(
        &Ty::obj_name(classifier),
        &Ty::obj_name(owner),
    )
}

/// Whether physical parameters erase to the same ones.
pub open spec fn erase_alike(left: Seq<TyView>, right: Seq<TyView>) -> bool {
    &&& left.len() == right.len()
    &&& forall|k: int|
        0 <= k < left.len() ==> java_erased(#[trigger] left[k]) == java_erased(right[k])
}

fn erases_alike(left: &Vec<Ty>, right: &Vec<Ty>) -> (same: bool)
    ensures
        same == erase_alike(views(left@), views(right@)),
{
    if left.len() != right.len() {
        return false;
    }
    let mut index: usize = 0;
    while index < left.len()
        invariant
            index <= left@.len(),
            left@.len() == right@.len(),
            forall|k: int|
                0 <= k < index ==> java_erased(#[trigger] views(left@)[k]) == java_erased(
                    views(right@)[k],
                ),
        decreases left@.len() - index,
    {
        assert(views(left@)[index as int] == left@[index as int]@);
        if java_erasure(&left[index]) != java_erasure(&right[index]) {
            return false;
        }
        index += 1;
    }
    true
}

/// Whether some Java classifier of the hierarchy inherits the classifiers that declare two
/// functions: there, and there alone, they override by erasure.
pub open spec fn meet_in_java<A: Assignability>(
    relation: A,
    java_classifiers: Seq<Seq<char>>,
    left: Seq<char>,
    right: Seq<char>,
) -> bool {
    exists|k: int|
        0 <= k < java_classifiers.len() && inherits(
            relation,
            #[trigger] java_classifiers[k],
            left,
        ) && inherits(relation, java_classifiers[k], right)
}

fn meets_in_java<A: Assignability>(
    relation: &A,
    java_classifiers: &Vec<TypeName>,
    left: &TypeName,
    right: &TypeName,
) -> (yes: bool)
    ensures
        yes == meet_in_java(*relation, views(java_classifiers@), left@, right@),
{
    let ghost all = views(java_classifiers@);
    let mut index: usize = 0;
    while index < java_classifiers.len()
        invariant
            index <= java_classifiers@.len(),
            all == views(java_classifiers@),
            forall|k: int|
                0 <= k < index ==> !(inherits(*relation, #[trigger] all[k], left@) && inherits(
                    *relation,
                    all[k],
                    right@,
                )),
        decreases java_classifiers@.len() - index,
    {
        let classifier = &java_classifiers[index];
        assert(all[index as int] == classifier@);
        if does_inherit(relation, classifier, left) && does_inherit(relation, classifier, right) {
            return true;
        }
        index += 1;
    }
    false
}

/// Whether a function overrides another one by erasure.
pub open spec fn java_implements<A: Assignability>(
    relation: A,
    java_classifiers: Seq<Seq<char>>,
    implementation: HierarchyFunction,
    declaration: HierarchyFunction,
) -> bool {
    match (declaring(implementation.function@), declaring(declaration.function@)) {
        (Some(left), Some(right)) => erase_alike(
            views(implementation.physical_params@),
            views(declaration.physical_params@),
        ) && meet_in_java(relation, java_classifiers, left, right),
        _ => false,
    }
}

/// Whether a function overrides another one of its name.
pub open spec fn overrides<A: Assignability>(
    relation: A,
    java_classifiers: Seq<Seq<char>>,
    implementation: HierarchyFunction,
    declaration: HierarchyFunction,
) -> bool {
    let left = override_params(implementation.function@);
    let right = override_params(declaration.function@);
    &&& implementation.function.flags.suspend == declaration.function.flags.suspend
    &&& implementation.function.context_count == declaration.function.context_count
    &&& left.len() == right.len()
    &&& {
        ||| forall|k: int|
            0 <= k < left.len() ==> same_flexible(#[trigger] left[k], right[k])
        ||| java_implements(relation, java_classifiers, implementation, declaration)
    }
}

/// Whether the concrete function `implementation` overrides the abstract one.
pub fn implements_abstract_function<A: Assignability>(
    relation: &A,
    java_classifiers: &Vec<TypeName>,
    implementation: &HierarchyFunction,
    declaration: &HierarchyFunction,
) -> (yes: bool)
    ensures
        yes == overrides(*relation, views(java_classifiers@), *implementation, *declaration),
{
    if implementation.function.flags.suspend != declaration.function.flags.suspend
        || implementation.function.context_count != declaration.function.context_count {
        return false;
    }
    let left = override_shape(&implementation.function);
    let right = override_shape(&declaration.function);
    if left.len() != right.len() {
        return false;
    }
    if same_flexible_types(&left, &right) {
        return true;
    }
    match (
        declaring_classifier(&implementation.function),
        declaring_classifier(&declaration.function),
    ) {
        (Some(owner), Some(other)) => erases_alike(
            &implementation.physical_params,
            &declaration.physical_params,
        ) && meets_in_java(relation, java_classifiers, &owner, &other),
        _ => false,
    }
}

/// A function that a delegation supplies: its name and the parameters of what it overrides.
#[derive(Debug)]
pub struct DelegatedFunction {
    pub name: String,
    pub parameters: Vec<Ty>,
}

/// The erased parameters.
pub open spec fn erased_all(types: Seq<TyView>) -> Seq<TyView> {
    Seq::new(types.len(), |k: int| erased(types[k]))
}

/// Whether a delegation supplies the function `name` with the parameters `params`.
pub open spec fn delegated(
    supplied: Seq<DelegatedFunction>,
    name: Seq<char>,
    params: Seq<TyView>,
) -> bool {
    exists|k: int|
        0 <= k < supplied.len() && (#[trigger] supplied[k]).name@ == name && erased_all(
            views(supplied[k].parameters@),
        ) == erased_all(params)
}

fn erases_to_same(left: &Vec<Ty>, right: &Vec<Ty>) -> (same: bool)
    ensures
        same == (erased_all(views(left@)) == erased_all(views(right@))),
{
    let ghost one = erased_all(views(left@));
    let ghost other = erased_all(views(right@));
    if left.len() != right.len() {
        assert(one.len() != other.len());
        return false;
    }
    let mut index: usize = 0;
    while index < left.len()
        invariant
            index <= left@.len(),
            left@.len() == right@.len(),
            one == erased_all(views(left@)),
            other == erased_all(views(right@)),
            forall|k: int| 0 <= k < index ==> (#[trigger] one[k]) == other[k],
        decreases left@.len() - index,
    {
        assert(one[index as int] == erased(left@[index as int]@));
        assert(other[index as int] == erased(right@[index as int]@));
        if erased_type_key(&left[index]) != erased_type_key(&right[index]) {
            return false;
        }
        index += 1;
    }
    assert(one =~= other);
    true
}

fn is_delegated(supplied: &Vec<DelegatedFunction>, name: &str, params: &Vec<Ty>) -> (yes: bool)
    ensures
        yes == delegated(supplied@, name@, views(params@)),
{
    let mut index: usize = 0;
    while index < supplied.len()
        invariant
            index <= supplied@.len(),
            forall|k: int|
                0 <= k < index ==> !((#[trigger] supplied@[k]).name@ == name@ && erased_all(
                    views(supplied@[k].parameters@),
                ) == erased_all(views(params@))),
        decreases supplied@.len() - index,
    {
        if same_text(supplied[index].name.as_str(), name) && erases_to_same(
            &supplied[index].parameters,
            params,
        ) {
            return true;
        }
        index += 1;
    }
    false
}

/// Whether an accessor of a property is the callable `identity`.
pub open spec fn accesses(property: HierarchyProperty, identity: ExternalCallableId) -> bool {
    ||| property.getter.external_identity == Some(identity)
    ||| property.setter matches Some(setter) && setter.external_identity == Some(identity)
}

/// Whether an accessor of a property of the hierarchy is the callable `identity`.
pub open spec fn is_accessor(families: Seq<CallableFamily>, identity: ExternalCallableId) -> bool {
    exists|i: int, j: int|
        0 <= i < families.len() && 0 <= j < families[i].properties@.len() && accesses(
            #[trigger] families[i].properties@[j],
            identity,
        )
}

fn names_accessor(families: &Vec<CallableFamily>, identity: ExternalCallableId) -> (yes: bool)
    ensures
        yes == is_accessor(families@, identity),
{
    let mut outer: usize = 0;
    while outer < families.len()
        invariant
            outer <= families@.len(),
            forall|i: int, j: int|
                0 <= i < outer && 0 <= j < families@[i].properties@.len() ==> !accesses(
                    #[trigger] families@[i].properties@[j],
                    identity,
                ),
        decreases families@.len() - outer,
    {
        let properties = &families[outer].properties;
        let mut inner: usize = 0;
        while inner < properties.len()
            invariant
                outer < families@.len(),
                *properties == families@[outer as int].properties,
                inner <= properties@.len(),
                forall|j: int|
                    0 <= j < inner ==> !accesses(
                        #[trigger] families@[outer as int].properties@[j],
                        identity,
                    ),
            decreases properties@.len() - inner,
        {
            let property = properties[inner];
            let found = property.getter.external_identity == Some(identity)
                || match property.setter {
                Some(setter) => setter.external_identity == Some(identity),
                None => false,
            };
            if found {
                assert(accesses(families@[outer as int].properties@[inner as int], identity));
                return true;
            }
            inner += 1;
        }
        outer += 1;
    }
    false
}

/// The members of a hierarchy, and what its delegations supply.
#[derive(Debug)]
pub struct Hierarchy {
    pub classifiers: Vec<TypeName>,
    pub java_classifiers: Vec<TypeName>,
    pub families: Vec<CallableFamily>,
    pub delegated_functions: Vec<DelegatedFunction>,
    pub delegated_properties: Vec<String>,
}

impl Hierarchy {
    /// Whether a function has to be implemented: it is abstract, and no accessor of a property that
    /// shows as a function too.
    pub open spec fn obliges(self, function: HierarchyFunction) -> bool {
        &&& function.function.flags.is_abstract
        &&& function.external_identity matches Some(identity) ==> !is_accessor(
            self.families@,
            identity,
        )
    }

    /// Whether a concrete function of the family overrides `declaration`, or a delegation supplies
    /// it.
    pub open spec fn implemented<A: Assignability>(
        self,
        relation: A,
        family: CallableFamily,
        declaration: HierarchyFunction,
    ) -> bool {
        ||| exists|k: int|
            0 <= k < family.functions@.len() && !(
            #[trigger] family.functions@[k]).function.flags.is_abstract && overrides(
                relation,
                views(self.java_classifiers@),
                family.functions@[k],
                declaration,
            )
        ||| delegated(
            self.delegated_functions@,
            family.name@,
            declaration.function@.semantic_params(),
        )
    }

    /// Whether every abstract accessor of the properties of a family has a concrete one, the getter
    /// and the setter each for itself, or a delegation supplies the property.
    pub open spec fn properties_implemented(self, family: CallableFamily) -> bool {
        let properties = family.properties@;
        ||| views(self.delegated_properties@).contains(family.name@)
        ||| {
            &&& (exists|k: int|
                0 <= k < properties.len() && (#[trigger] properties[k]).getter.is_abstract) ==> (
            exists|k: int|
                0 <= k < properties.len() && !(#[trigger] properties[k]).getter.is_abstract)
            &&& (exists|k: int| 0 <= k < properties.len() && abstract_setter(#[trigger] properties[k]))
                ==> (exists|k: int|
                0 <= k < properties.len() && concrete_setter(#[trigger] properties[k]))
        }
    }

    /// Whether every abstract member is implemented.
    pub open spec fn complete<A: Assignability>(self, relation: A) -> bool {
        &&& self.classifiers@.len() > 0
        &&& forall|i: int| 0 <= i < self.families@.len() ==> self.family_complete(
            relation,
            #[trigger] self.families@[i],
        )
    }

    /// Whether every abstract member of a family is implemented.
    pub open spec fn family_complete<A: Assignability>(
        self,
        relation: A,
        family: CallableFamily,
    ) -> bool {
        &&& self.properties_implemented(family)
        &&& forall|j: int|
            0 <= j < family.functions@.len() && self.obliges(#[trigger] family.functions@[j])
                ==> self.implemented(relation, family, family.functions@[j])
    }

    fn has_delegated_property(&self, name: &str) -> (yes: bool)
        ensures
            yes == views(self.delegated_properties@).contains(name@),
    {
        let mut index: usize = 0;
        while index < self.delegated_properties.len()
            invariant
                index <= self.delegated_properties@.len(),
                forall|k: int|
                    0 <= k < index ==> (#[trigger] views(self.delegated_properties@)[k]) != name@,
            decreases self.delegated_properties@.len() - index,
        {
            if same_text(self.delegated_properties[index].as_str(), name) {
                assert(views(self.delegated_properties@)[index as int] == name@);
                return true;
            }
            assert(views(self.delegated_properties@)[index as int] != name@);
            index += 1;
        }
        false
    }

    fn implements_properties(&self, family: &CallableFamily) -> (yes: bool)
        ensures
            yes == self.properties_implemented(*family),
    {
        let mut requires_getter = false;
        let mut requires_setter = false;
        let mut has_concrete_getter = false;
        let mut has_concrete_setter = false;
        let mut index: usize = 0;
        while index < family.properties.len()
            invariant
                index <= family.properties@.len(),
                requires_getter == exists|k: int|
                    0 <= k < index && (#[trigger] family.properties@[k]).getter.is_abstract,
                has_concrete_getter == exists|k: int|
                    0 <= k < index && !(#[trigger] family.properties@[k]).getter.is_abstract,
                requires_setter == exists|k: int|
                    0 <= k < index && abstract_setter(#[trigger] family.properties@[k]),
                has_concrete_setter == exists|k: int|
                    0 <= k < index && concrete_setter(#[trigger] family.properties@[k]),
            decreases family.properties@.len() - index,
        {
            let property = family.properties[index];
            assert(family.properties@[index as int] == property);
            if property.getter.is_abstract {
                requires_getter = true;
            } else {
                has_concrete_getter = true;
            }
            if let Some(setter) = property.setter {
                if setter.is_abstract {
                    requires_setter = true;
                } else {
                    has_concrete_setter = true;
                }
            }
            index += 1;
        }
        if requires_getter && !has_concrete_getter || requires_setter && !has_concrete_setter {
            self.has_delegated_property(family.name.as_str())
        } else {
            true
        }
    }

    fn implements_function<A: Assignability>(
        &self,
        relation: &A,
        family: &CallableFamily,
        declaration: &HierarchyFunction,
    ) -> (yes: bool)
        ensures
            yes == self.implemented(*relation, *family, *declaration),
    {
        let mut index: usize = 0;
        while index < family.functions.len()
            invariant
                index <= family.functions@.len(),
                forall|k: int|
                    0 <= k < index ==> !(!(
                    #[trigger] family.functions@[k]).function.flags.is_abstract && overrides(
                        *relation,
                        views(self.java_classifiers@),
                        family.functions@[k],
                        *declaration,
                    )),
            decreases family.functions@.len() - index,
        {
            let implementation = &family.functions[index];
            if !implementation.function.flags.is_abstract && implements_abstract_function(
                relation,
                &self.java_classifiers,
                implementation,
                declaration,
            ) {
                return true;
            }
            index += 1;
        }
        let params = declaration.function.semantic_params();
        is_delegated(&self.delegated_functions, family.name.as_str(), &params)
    }

    fn implements_family<A: Assignability>(&self, relation: &A, family: &CallableFamily) -> (yes:
        bool)
        ensures
            yes == self.family_complete(*relation, *family),
    {
        let mut index: usize = 0;
        while index < family.functions.len()
            invariant
                index <= family.functions@.len(),
                forall|j: int|
                    0 <= j < index && self.obliges(#[trigger] family.functions@[j])
                        ==> self.implemented(*relation, *family, family.functions@[j]),
            decreases family.functions@.len() - index,
        {
            let function = &family.functions[index];
            assert(family.functions@[index as int] == *function);
            let accessor = match function.external_identity {
                Some(identity) => names_accessor(&self.families, identity),
                None => false,
            };
            if function.function.flags.is_abstract && !accessor && !self.implements_function(
                relation,
                family,
                function,
            ) {
                assert(self.obliges(family.functions@[index as int]));
                return false;
            }
            index += 1;
        }
        self.implements_properties(family)
    }

    /// Whether every abstract member is implemented.
    pub fn has_no_unimplemented_abstract_members<A: Assignability>(&self, relation: &A) -> (yes:
        bool)
        ensures
            yes == self.complete(*relation),
    {
        if self.classifiers.len() == 0 {
            return false;
        }
        let mut index: usize = 0;
        while index < self.families.len()
            invariant
                index <= self.families@.len(),
                forall|i: int| 0 <= i < index ==> self.family_complete(
                    *relation,
                    #[trigger] self.families@[i],
                ),
            decreases self.families@.len() - index,
        {
            if !self.implements_family(relation, &self.families[index]) {
                assert(!self.family_complete(*relation, self.families@[index as int]));
                return false;
            }
            index += 1;
        }
        true
    }
}

/// A member that a delegation supplies.
#[derive(Debug)]
pub enum DelegatedMember {
    Function(DelegatedFunction),
    Property(String),
}

/// What is declared of a classifier.
#[derive(Debug)]
pub struct DeclaredClassifier {
    pub is_kotlin: bool,
    /// The names of the callables that it declares.
    pub callables: Vec<String>,
}

/// A classifier of a hierarchy.
#[derive(Debug)]
pub struct Ancestor {
    pub name: TypeName,
    /// What is declared of it, where it is known.
    pub classifier: Option<DeclaredClassifier>,
    /// What its delegations supply, where it is declared in this module.
    pub delegated: Vec<DelegatedMember>,
}

/// The members that are called by one name.
#[derive(Debug)]
pub struct FamilyMembers {
    pub functions: Vec<HierarchyFunction>,
    pub properties: Vec<HierarchyProperty>,
}

/// The names with more of them, each where it is not among them.
pub open spec fn with_names(names: Seq<Seq<char>>, more: Seq<Seq<char>>) -> Seq<Seq<char>>
    decreases more.len(),
{
    if more.len() == 0 {
        names
    } else {
        with_name(with_names(names, more.drop_last()), more.last())
    }
}

/// The names that a classifier declares callables under.
pub open spec fn declared_names(ancestor: Ancestor) -> Seq<Seq<char>> {
    match ancestor.classifier {
        Some(classifier) => views(classifier.callables@),
        None => seq![],
    }
}

/// The names that the classifiers of a hierarchy declare callables under, each where it is first
/// declared.
pub open spec fn member_names(ancestors: Seq<Ancestor>) -> Seq<Seq<char>>
    decreases ancestors.len(),
{
    if ancestors.len() == 0 {
        seq![]
    } else {
        with_names(member_names(ancestors.drop_last()), declared_names(ancestors.last()))
    }
}

/// Whether a classifier is known and is not a Kotlin one.
pub open spec fn is_java(ancestor: Ancestor) -> bool {
    ancestor.classifier matches Some(classifier) && !classifier.is_kotlin
}

/// The names of the classifiers of a hierarchy that are not Kotlin ones.
pub open spec fn java_names(ancestors: Seq<Ancestor>) -> Seq<Seq<char>>
    decreases ancestors.len(),
{
    if ancestors.len() == 0 {
        seq![]
    } else if is_java(ancestors.last()) {
        java_names(ancestors.drop_last()).push(ancestors.last().name@)
    } else {
        java_names(ancestors.drop_last())
    }
}

/// The functions among delegated members, each with its name and its parameters.
pub open spec fn functions_among(members: Seq<DelegatedMember>) -> Seq<(Seq<char>, Seq<TyView>)>
    decreases members.len(),
{
    if members.len() == 0 {
        seq![]
    } else {
        let rest = functions_among(members.drop_last());
        match members.last() {
            DelegatedMember::Function(function) => rest.push(
                (function.name@, views(function.parameters@)),
            ),
            DelegatedMember::Property(_) => rest,
        }
    }
}

/// The names of the properties among delegated members.
pub open spec fn properties_among(members: Seq<DelegatedMember>) -> Seq<Seq<char>>
    decreases members.len(),
{
    if members.len() == 0 {
        seq![]
    } else {
        let rest = properties_among(members.drop_last());
        match members.last() {
            DelegatedMember::Function(_) => rest,
            DelegatedMember::Property(name) => rest.push(name@),
        }
    }
}

/// The functions that the delegations of a hierarchy supply.
pub open spec fn supplied_functions(ancestors: Seq<Ancestor>) -> Seq<(Seq<char>, Seq<TyView>)>
    decreases ancestors.len(),
{
    if ancestors.len() == 0 {
        seq![]
    } else {
        supplied_functions(ancestors.drop_last()) + functions_among(ancestors.last().delegated@)
    }
}

/// The properties that the delegations of a hierarchy supply.
pub open spec fn supplied_properties(ancestors: Seq<Ancestor>) -> Seq<Seq<char>>
    decreases ancestors.len(),
{
    if ancestors.len() == 0 {
        seq![]
    } else {
        supplied_properties(ancestors.drop_last()) + properties_among(ancestors.last().delegated@)
    }
}

/// Delegated functions, each with its name and its parameters.
pub open spec fn function_keys(functions: Seq<DelegatedFunction>) -> Seq<
    (Seq<char>, Seq<TyView>),
> {
    Seq::new(functions.len(), |k: int| (functions[k].name@, views(functions[k].parameters@)))
}

/// The names that the classifiers of a hierarchy declare callables under, each once.
pub fn hierarchy_names(ancestors: &Vec<Ancestor>) -> (names: Vec<String>)
    ensures
        views(names@) == member_names(ancestors@),
{
    let mut names: Vec<String> = Vec::new();
    let mut next: usize = 0;
    assert(views(names@) =~= member_names(ancestors@.take(0)));
    while next < ancestors.len()
        invariant
            next <= ancestors@.len(),
            views(names@) == member_names(ancestors@.take(next as int)),
        decreases ancestors@.len() - next,
    {
        let ghost before = views(names@);
        let ghost upto = ancestors@.take(next as int + 1);
        assert(upto.drop_last() =~= ancestors@.take(next as int));
        assert(upto.last() == ancestors@[next as int]);
        if let Some(classifier) = &ancestors[next].classifier {
            let callables = &classifier.callables;
            let ghost all = views(callables@);
            let mut inner: usize = 0;
            assert(all.take(0) =~= seq![]);
            while inner < callables.len()
                invariant
                    inner <= callables@.len(),
                    all == views(callables@),
                    views(names@) == with_names(before, all.take(inner as int)),
                decreases callables@.len() - inner,
            {
                let callable = &callables[inner];
                assert(all.take(inner as int + 1).drop_last() =~= all.take(inner as int));
                assert(all.take(inner as int + 1).last() == callable@);
                if !holds_name(&names, callable.as_str()) {
                    names.push(callable.clone());
                }
                inner += 1;
            }
            assert(all.take(inner as int) =~= all);
        }
        next += 1;
    }
    assert(ancestors@.take(next as int) =~= ancestors@);
    names
}

/// The hierarchy of a class: its classifiers, those of them that are not Kotlin ones, and what
/// their delegations supply. `members` are the members that are called by each of
/// [`hierarchy_names`].
pub fn collect_hierarchy(ancestors: &Vec<Ancestor>, members: Vec<FamilyMembers>) -> (hierarchy:
    Hierarchy)
    requires
        members@.len() == member_names(ancestors@).len(),
    ensures
        views(hierarchy.classifiers@) == Seq::new(
            ancestors@.len(),
            |k: int| ancestors@[k].name@,
        ),
        views(hierarchy.java_classifiers@) == java_names(ancestors@),
        hierarchy.families@.len() == members@.len(),
        forall|k: int|
            #![trigger hierarchy.families@[k]]
            0 <= k < members@.len() ==> hierarchy.families@[k].name@ == member_names(
                ancestors@,
            )[k] && hierarchy.families@[k].functions == members@[k].functions
                && hierarchy.families@[k].properties == members@[k].properties,
        function_keys(hierarchy.delegated_functions@) == supplied_functions(ancestors@),
        views(hierarchy.delegated_properties@) == supplied_properties(ancestors@),
{
    let mut classifiers: Vec<TypeName> = Vec::new();
    let mut java_classifiers: Vec<TypeName> = Vec::new();
    let mut delegated_functions: Vec<DelegatedFunction> = Vec::new();
    let mut delegated_properties: Vec<String> = Vec::new();
    let mut next: usize = 0;
    assert(function_keys(delegated_functions@) =~= seq![]);
    while next < ancestors.len()
        invariant
            next <= ancestors@.len(),
            views(classifiers@) == Seq::new(next as nat, |k: int| ancestors@[k].name@),
            views(java_classifiers@) == java_names(ancestors@.take(next as int)),
            function_keys(delegated_functions@) == supplied_functions(
                ancestors@.take(next as int),
            ),
            views(delegated_properties@) == supplied_properties(ancestors@.take(next as int)),
        decreases ancestors@.len() - next,
    {
        let ancestor = &ancestors[next];
        let ghost upto = ancestors@.take(next as int + 1);
        assert(upto.drop_last() =~= ancestors@.take(next as int));
        assert(upto.last() == ancestors@[next as int]);
        classifiers.push(ancestor.name.clone());
        assert(views(classifiers@) =~= Seq::new(next as nat + 1, |k: int| ancestors@[k].name@));
        if let Some(classifier) = &ancestor.classifier {
            if !classifier.is_kotlin {
                java_classifiers.push(ancestor.name.clone());
            }
        }
        gather_delegated(&ancestor.delegated, &mut delegated_functions, &mut delegated_properties);
        next += 1;
    }
    assert(ancestors@.take(next as int) =~= ancestors@);
    let families = named_families(hierarchy_names(ancestors), members);
    Hierarchy {
        classifiers,
        java_classifiers,
        families,
        delegated_functions,
        delegated_properties,
    }
}

fn gather_delegated(
    members: &Vec<DelegatedMember>,
    functions: &mut Vec<DelegatedFunction>,
    properties: &mut Vec<String>,
)
    ensures
        function_keys(final(functions)@) == function_keys(old(functions)@) + functions_among(
            members@,
        ),
        views(final(properties)@) == views(old(properties)@) + properties_among(members@),
{
    let ghost known = function_keys(functions@);
    let ghost named = views(properties@);
    let mut next: usize = 0;
    assert(known =~= known + functions_among(members@.take(0)));
    assert(named =~= named + properties_among(members@.take(0)));
    while next < members.len()
        invariant
            next <= members@.len(),
            function_keys(functions@) == known + functions_among(members@.take(next as int)),
            views(properties@) == named + properties_among(members@.take(next as int)),
        decreases members@.len() - next,
    {
        let ghost upto = members@.take(next as int + 1);
        assert(upto.drop_last() =~= members@.take(next as int));
        assert(upto.last() == members@[next as int]);
        match &members[next] {
            DelegatedMember::Function(function) => {
                let ghost before = functions@;
                functions.push(
                    DelegatedFunction {
                        name: function.name.clone(),
                        parameters: copy_tys(function.parameters.as_slice()),
                    },
                );
                assert(function_keys(functions@) =~= function_keys(before).push(
                    (function.name@, views(function.parameters@)),
                ));
                assert(function_keys(functions@) =~= known + functions_among(upto));
            },
            DelegatedMember::Property(name) => {
                properties.push(name.clone());
                assert(views(properties@) =~= named + properties_among(upto));
            },
        }
        next += 1;
    }
    assert(members@.take(next as int) =~= members@);
}

fn named_families(names: Vec<String>, members: Vec<FamilyMembers>) -> (families: Vec<
    CallableFamily,
>)
    requires
        names@.len() == members@.len(),
    ensures
        families@.len() == members@.len(),
        forall|k: int|
            #![trigger families@[k]]
            0 <= k < members@.len() ==> families@[k].name@ == names@[k]@
                && families@[k].functions == members@[k].functions && families@[k].properties
                == members@[k].properties,
{
    let ghost all_names = names@;
    let ghost all = members@;
    let mut names = names;
    let mut members = members;
    let mut families: Vec<CallableFamily> = Vec::new();
    while names.len() > 0 && members.len() > 0
        invariant
            all_names.len() == all.len(),
            families@.len() <= all.len(),
            names@ == all_names.skip(families@.len() as int),
            members@ == all.skip(families@.len() as int),
            forall|k: int|
                #![trigger families@[k]]
                0 <= k < families@.len() ==> families@[k].name@ == all_names[k]@
                    && families@[k].functions == all[k].functions && families@[k].properties
                    == all[k].properties,
        decreases members@.len(),
    {
        let name = names.remove(0);
        let found = members.remove(0);
        families.push(
            CallableFamily { name, functions: found.functions, properties: found.properties },
        );
        assert(names@ =~= all_names.skip(families@.len() as int));
        assert(members@ =~= all.skip(families@.len() as int));
    }
    families
}

proof fn lemma_with_names(names: Seq<Seq<char>>, more: Seq<Seq<char>>)
    requires
        names.no_duplicates(),
    ensures
        with_names(names, more).no_duplicates(),
        forall|name: Seq<char>| #[trigger]
            with_names(names, more).contains(name) <==> names.contains(name) || more.contains(name),
    decreases more.len(),
{
    if more.len() > 0 {
        let rest = more.drop_last();
        lemma_with_names(names, rest);
        let before = with_names(names, rest);
        assert forall|name: Seq<char>| #[trigger]
            with_names(names, more).contains(name) implies names.contains(name) || more.contains(
            name,
        ) by {
            if before.contains(name) {
                if rest.contains(name) {
                    let k = choose|k: int| 0 <= k < rest.len() && rest[k] == name;
                    assert(more[k] == name);
                }
            } else {
                assert(more[more.len() - 1] == name);
            }
        }
        assert forall|name: Seq<char>|
            names.contains(name) || more.contains(name) implies #[trigger] with_names(
            names,
            more,
        ).contains(name) by {
            let after = with_name(before, more.last());
            if name == more.last() && !before.contains(name) {
                assert(after[after.len() - 1] == name);
            } else {
                if more.contains(name) && !names.contains(name) {
                    let k = choose|k: int| 0 <= k < more.len() && more[k] == name;
                    if k < rest.len() {
                        assert(rest[k] == name);
                        assert(rest.contains(name));
                    }
                }
                assert(before.contains(name));
                let k = choose|k: int| 0 <= k < before.len() && before[k] == name;
                assert(after[k] == name);
            }
        }
    }
}

/// Every name that a classifier of a hierarchy declares callables under is looked at once.
pub proof fn each_declared_name_is_looked_at_once(ancestors: Seq<Ancestor>)
    ensures
        member_names(ancestors).no_duplicates(),
        forall|name: Seq<char>| #[trigger]
            member_names(ancestors).contains(name) <==> exists|k: int|
                0 <= k < ancestors.len() && (#[trigger] declared_names(ancestors[k])).contains(name),
    decreases ancestors.len(),
{
    if ancestors.len() > 0 {
        let rest = ancestors.drop_last();
        each_declared_name_is_looked_at_once(rest);
        lemma_with_names(member_names(rest), declared_names(ancestors.last()));
        assert forall|name: Seq<char>| #[trigger]
            member_names(ancestors).contains(name) implies exists|k: int|
            0 <= k < ancestors.len() && (#[trigger] declared_names(ancestors[k])).contains(name) by {
            if member_names(rest).contains(name) {
                let k = choose|k: int|
                    0 <= k < rest.len() && (#[trigger] declared_names(rest[k])).contains(name);
                assert(declared_names(ancestors[k]).contains(name));
            } else {
                assert(declared_names(ancestors[ancestors.len() - 1]).contains(name));
            }
        }
        assert forall|name: Seq<char>|
            (exists|k: int|
                0 <= k < ancestors.len() && (#[trigger] declared_names(ancestors[k])).contains(
                    name,
                )) implies #[trigger] member_names(ancestors).contains(name) by {
            let k = choose|k: int|
                0 <= k < ancestors.len() && (#[trigger] declared_names(ancestors[k])).contains(
                    name,
                );
            if k < rest.len() {
                assert(declared_names(rest[k]).contains(name));
                assert(member_names(rest).contains(name));
            }
        }
    }
}

/// Whether a property has an abstract setter.
pub open spec fn abstract_setter(property: HierarchyProperty) -> bool {
    property.setter matches Some(setter) && setter.is_abstract
}

/// Whether a property has a concrete setter.
pub open spec fn concrete_setter(property: HierarchyProperty) -> bool {
    property.setter matches Some(setter) && !setter.is_abstract
}

/// The type whose hierarchy is looked at: the class applied to its own type parameters, each with
/// its first bound.
pub open spec fn own_type(owner: Seq<char>, class: Option<ClassifierBounds>) -> TyView {
    match class {
        None => TyView::Obj(owner, seq![]),
        Some(class) => TyView::Obj(
            owner,
            Seq::new(
                class.type_params@.len(),
                |k: int|
                    TyView::TyParam(
                        class.type_params@[k]@,
                        Box::new(
                            if k < class.type_param_bounds@.len()
                                && class.type_param_bounds@[k]@.len() > 0 {
                                class.type_param_bounds@[k]@[0]@
                            } else {
                                TyView::Nullable(Box::new(TyView::Obj("kotlin/Any"@, seq![])))
                            },
                        ),
                    ),
            ),
        ),
    }
}

/// The type whose hierarchy is looked at.
pub fn hierarchy_root(owner: &TypeName, class: Option<&ClassifierBounds>) -> (root: Ty)
    ensures
        root@ == own_type(
            owner@,
            match class {
                Some(class) => Some(*class),
                None => None,
            },
        ),
{
    let class = match class {
        Some(class) => class,
        None => {
            return Ty::obj_name(owner);
        },
    };
    let ghost wanted = own_type(owner@, Some(*class))->Obj_1;
    let mut arguments: Vec<Ty> = Vec::new();
    while arguments.len() < class.type_params.len()
        invariant
            arguments@.len() <= class.type_params@.len(),
            wanted == own_type(owner@, Some(*class))->Obj_1,
            forall|k: int| 0 <= k < arguments@.len() ==> (#[trigger] arguments@[k])@ == wanted[k],
        decreases class.type_params@.len() - arguments@.len(),
    {
        let index: usize = arguments.len();
        let bound = if index < class.type_param_bounds.len()
            && class.type_param_bounds[index].len() > 0 {
            class.type_param_bounds[index][0].clone()
        } else {
            Ty::nullable(Ty::obj("kotlin/Any"))
        };
        arguments.push(Ty::ty_param(class.type_params[index].as_str(), bound));
    }
    assert(views(arguments@) =~= wanted);
    Ty::obj_args_name(owner, arguments.as_slice())
}

/// Every type is the same as itself.
pub proof fn a_type_is_its_own_flexible_type(ty: TyView)
    ensures
        same_flexible(ty, ty),
    decreases ty,
{
    match ty {
        TyView::PlatformNullable(inner)
        | TyView::Nullable(inner)
        | TyView::InProjection(inner)
        | TyView::OutProjection(inner)
        | TyView::StarProjection(inner) => {
            a_type_is_its_own_flexible_type(*inner);
        },
        TyView::Obj(_, arguments) => {
            assert forall|k: int| 0 <= k < arguments.len() implies same_flexible(
                #[trigger] arguments[k],
                arguments[k],
            ) by {
                a_type_is_its_own_flexible_type(arguments[k]);
            }
        },
        _ => {},
    }
}

/// A platform type is the same as either of its bounds, for a type without nullability of its own.
pub proof fn a_platform_type_is_either_of_its_bounds(ty: TyView)
    requires
        !(ty is Nullable),
        !(ty is PlatformNullable),
    ensures
        same_flexible(TyView::PlatformNullable(Box::new(ty)), ty),
        same_flexible(ty, TyView::PlatformNullable(Box::new(ty))),
        same_flexible(TyView::PlatformNullable(Box::new(ty)), TyView::Nullable(Box::new(ty))),
        same_flexible(TyView::Nullable(Box::new(ty)), TyView::PlatformNullable(Box::new(ty))),
{
    a_type_is_its_own_flexible_type(ty);
    reveal_with_fuel(same_flexible, 2);
}

/// A hierarchy that declares nothing abstract has nothing left to implement.
pub proof fn a_hierarchy_without_abstract_members_is_complete<A: Assignability>(
    hierarchy: Hierarchy,
    relation: A,
)
    requires
        hierarchy.classifiers@.len() > 0,
        forall|i: int, j: int|
            0 <= i < hierarchy.families@.len() && 0 <= j < hierarchy.families@[i].functions@.len()
                ==> !(#[trigger] hierarchy.families@[i].functions@[j]).function.flags.is_abstract,
        forall|i: int, j: int|
            0 <= i < hierarchy.families@.len() && 0 <= j < hierarchy.families@[i].properties@.len()
                ==> !(#[trigger] hierarchy.families@[i].properties@[j]).getter.is_abstract
                && !abstract_setter(hierarchy.families@[i].properties@[j]),
    ensures
        hierarchy.complete(relation),
{
}

} // verus!
