//! What holds of overriding and of the members that a class has to implement.

use vstd::prelude::*;

use crate::resolve::abstract_obligations::{
    a_type_is_its_own_flexible_type, abstract_setter, concrete_setter, delegated, erased,
    functions_among, is_java, java_names, override_params, overrides, properties_among,
    same_flexible, supplied_functions, supplied_properties, Ancestor, DelegatedMember, Hierarchy,
    HierarchyFunction,
};
use crate::resolve::callable_reference_selection::Assignability;
use crate::text::views;
use crate::types::TyView;

verus! {

/// Whether a type is there at run time: no nullability, no projection, no type parameter and no
/// function shape, and arguments only on an array.
pub open spec fn is_erased(ty: TyView) -> bool
    decreases ty,
{
    match ty {
        TyView::Nullable(_)
        | TyView::PlatformNullable(_)
        | TyView::InProjection(_)
        | TyView::OutProjection(_)
        | TyView::StarProjection(_)
        | TyView::TyParam(_, _)
        | TyView::Fun(_) => false,
        TyView::Obj(name, arguments) => arguments.len() == 0 || (name == "kotlin/Array"@
            && arguments.len() == 1 && is_erased(arguments[0])),
        _ => true,
    }
}

/// Erasure leaves what is there at run time, and nothing is left to erase.
pub proof fn an_erased_type_is_there_at_run_time(ty: TyView)
    ensures
        is_erased(erased(ty)),
        erased(erased(ty)) == erased(ty),
        is_erased(ty) ==> erased(ty) == ty,
    decreases ty,
{
    reveal_with_fuel(erased, 2);
    reveal_with_fuel(is_erased, 2);
    reveal_strlit("kotlin/Array");
    reveal_strlit("kotlin/Function");
    match ty {
        TyView::Nullable(inner)
        | TyView::PlatformNullable(inner)
        | TyView::InProjection(inner)
        | TyView::OutProjection(inner)
        | TyView::StarProjection(inner) => {
            an_erased_type_is_there_at_run_time(*inner);
        },
        TyView::TyParam(_, bound) => {
            an_erased_type_is_there_at_run_time(*bound);
        },
        TyView::Obj(name, arguments) => {
            if name == "kotlin/Array"@ && arguments.len() == 1 {
                an_erased_type_is_there_at_run_time(arguments[0]);
                assert(erased(ty)->Obj_1 =~= seq![erased(arguments[0])]);
                if is_erased(ty) {
                    assert(erased(ty)->Obj_1 =~= arguments);
                }
            } else if is_erased(ty) {
                assert(arguments =~= seq![]);
            }
        },
        _ => {},
    }
}

/// Arguments and the nullability of a reference are erased; that of a primitive type is not, since
/// its nullable type is boxed.
pub proof fn erasure_drops_arguments_and_nullability(
    name: Seq<char>,
    arguments: Seq<TyView>,
    others: Seq<TyView>,
    bound: TyView,
    formal: Seq<char>,
)
    ensures
        name != "kotlin/Array"@ ==> erased(TyView::Obj(name, arguments)) == erased(
            TyView::Obj(name, others),
        ),
        erased(TyView::Obj(name, arguments).nullable()) == erased(TyView::Obj(name, arguments)),
        erased(TyView::TyParam(formal, Box::new(bound))) == erased(bound),
        erased(TyView::Int.nullable()) != erased(TyView::Int),
        erased(TyView::Int.nullable()).kotlin_class_internal()
            == TyView::Int.kotlin_class_internal(),
{
    reveal_with_fuel(erased, 3);
}

/// It does not matter which of two types is written first.
pub proof fn flexible_sameness_is_symmetric(left: TyView, right: TyView)
    ensures
        same_flexible(left, right) == same_flexible(right, left),
    decreases left, right,
{
    match (left, right) {
        (TyView::PlatformNullable(inner), TyView::PlatformNullable(other))
        | (TyView::PlatformNullable(inner), TyView::Nullable(other))
        | (TyView::Nullable(inner), TyView::PlatformNullable(other))
        | (TyView::Nullable(inner), TyView::Nullable(other))
        | (TyView::InProjection(inner), TyView::InProjection(other))
        | (TyView::OutProjection(inner), TyView::OutProjection(other))
        | (TyView::StarProjection(inner), TyView::StarProjection(other)) => {
            flexible_sameness_is_symmetric(*inner, *other);
        },
        (TyView::PlatformNullable(inner), _) => {
            flexible_sameness_is_symmetric(*inner, right);
        },
        (_, TyView::PlatformNullable(other)) => {
            flexible_sameness_is_symmetric(left, *other);
        },
        (TyView::Obj(_, arguments), TyView::Obj(_, others)) => {
            if arguments.len() == others.len() {
                assert forall|k: int| 0 <= k < arguments.len() implies (same_flexible(
                    #[trigger] arguments[k],
                    others[k],
                ) == same_flexible(others[k], arguments[k])) by {
                    flexible_sameness_is_symmetric(arguments[k], others[k]);
                }
                if same_flexible(left, right) {
                    assert forall|k: int| 0 <= k < others.len() implies same_flexible(
                        #[trigger] others[k],
                        arguments[k],
                    ) by {
                        assert(same_flexible(arguments[k], others[k]));
                    }
                }
                if same_flexible(right, left) {
                    assert forall|k: int| 0 <= k < arguments.len() implies same_flexible(
                        #[trigger] arguments[k],
                        others[k],
                    ) by {
                        assert(same_flexible(others[k], arguments[k]));
                    }
                }
            }
        },
        _ => {},
    }
}

/// Whether a type is written without a platform type, as far as classifiers and projections go.
pub open spec fn is_exact(ty: TyView) -> bool
    decreases ty,
{
    match ty {
        TyView::PlatformNullable(_) => false,
        TyView::Nullable(inner)
        | TyView::InProjection(inner)
        | TyView::OutProjection(inner)
        | TyView::StarProjection(inner) => is_exact(*inner),
        TyView::Obj(_, arguments) => forall|k: int|
            0 <= k < arguments.len() ==> is_exact(#[trigger] arguments[k]),
        _ => true,
    }
}

/// Types without platform types are the same exactly where they are equal.
pub proof fn exact_types_are_the_same_where_they_are_equal(left: TyView, right: TyView)
    requires
        is_exact(left),
        is_exact(right),
    ensures
        same_flexible(left, right) <==> left == right,
    decreases left, right,
{
    if left == right {
        a_type_is_its_own_flexible_type(left);
    }
    match (left, right) {
        (TyView::Nullable(inner), TyView::Nullable(other))
        | (TyView::InProjection(inner), TyView::InProjection(other))
        | (TyView::OutProjection(inner), TyView::OutProjection(other))
        | (TyView::StarProjection(inner), TyView::StarProjection(other)) => {
            exact_types_are_the_same_where_they_are_equal(*inner, *other);
        },
        (TyView::Obj(_, arguments), TyView::Obj(_, others)) => {
            if same_flexible(left, right) {
                assert forall|k: int| 0 <= k < arguments.len() implies (
                #[trigger] arguments[k]) == others[k] by {
                    assert(same_flexible(arguments[k], others[k]));
                    assert(is_exact(arguments[k]) && is_exact(others[k]));
                    exact_types_are_the_same_where_they_are_equal(arguments[k], others[k]);
                }
                assert(arguments =~= others);
            }
        },
        _ => {},
    }
}

/// A function overrides one of its own shape; it overrides none that suspends otherwise, or takes
/// another number of parameters or of context parameters.
pub proof fn a_function_overrides_its_own_shape<A: Assignability>(
    relation: A,
    java_classifiers: Seq<Seq<char>>,
    function: HierarchyFunction,
    other: HierarchyFunction,
)
    ensures
        overrides(relation, java_classifiers, function, function),
        overrides(relation, java_classifiers, function, other)
            ==> function.function.flags.suspend == other.function.flags.suspend
            && function.function.context_count == other.function.context_count && override_params(
            function.function@,
        ).len() == override_params(other.function@).len(),
        java_classifiers.len() == 0 && overrides(relation, java_classifiers, function, other)
            ==> overrides(relation, java_classifiers, other, function),
{
    let own = override_params(function.function@);
    let theirs = override_params(other.function@);
    assert forall|k: int| 0 <= k < own.len() implies same_flexible(#[trigger] own[k], own[k]) by {
        a_type_is_its_own_flexible_type(own[k]);
    }
    if java_classifiers.len() == 0 && overrides(relation, java_classifiers, function, other) {
        assert forall|k: int| 0 <= k < theirs.len() implies same_flexible(
            #[trigger] theirs[k],
            own[k],
        ) by {
            assert(same_flexible(own[k], theirs[k]));
            flexible_sameness_is_symmetric(own[k], theirs[k]);
        }
    }
}

/// A hierarchy is not complete while an abstract function of it is neither overridden by a concrete
/// function nor supplied by a delegation.
pub proof fn an_unimplemented_function_is_missing<A: Assignability>(
    hierarchy: Hierarchy,
    relation: A,
    i: int,
    j: int,
)
    requires
        0 <= i < hierarchy.families@.len(),
        0 <= j < hierarchy.families@[i].functions@.len(),
        hierarchy.obliges(hierarchy.families@[i].functions@[j]),
        forall|k: int|
            0 <= k < hierarchy.families@[i].functions@.len() && !(
            #[trigger] hierarchy.families@[i].functions@[k]).function.flags.is_abstract
                ==> !overrides(
                relation,
                views(hierarchy.java_classifiers@),
                hierarchy.families@[i].functions@[k],
                hierarchy.families@[i].functions@[j],
            ),
        !delegated(
            hierarchy.delegated_functions@,
            hierarchy.families@[i].name@,
            hierarchy.families@[i].functions@[j].function@.semantic_params(),
        ),
    ensures
        !hierarchy.complete(relation),
{
    let family = hierarchy.families@[i];
    assert(!hierarchy.implemented(relation, family, family.functions@[j]));
    assert(!hierarchy.family_complete(relation, family));
}

/// A hierarchy is not complete while an abstract getter has no concrete one, or an abstract setter
/// no concrete one: neither stands in for the other.
pub proof fn an_unimplemented_accessor_is_missing<A: Assignability>(
    hierarchy: Hierarchy,
    relation: A,
    i: int,
    j: int,
)
    requires
        0 <= i < hierarchy.families@.len(),
        0 <= j < hierarchy.families@[i].properties@.len(),
        !views(hierarchy.delegated_properties@).contains(hierarchy.families@[i].name@),
        ({
            let properties = hierarchy.families@[i].properties@;
            ||| properties[j].getter.is_abstract && forall|k: int|
                0 <= k < properties.len() ==> (#[trigger] properties[k]).getter.is_abstract
            ||| abstract_setter(properties[j]) && forall|k: int|
                0 <= k < properties.len() ==> !concrete_setter(#[trigger] properties[k])
        }),
    ensures
        !hierarchy.complete(relation),
{
    let family = hierarchy.families@[i];
    assert(!hierarchy.properties_implemented(family));
    assert(!hierarchy.family_complete(relation, family));
}

/// The classifiers that are not Kotlin ones are exactly those known ones of the hierarchy.
pub proof fn the_java_classifiers_are_those_of_the_hierarchy(
    ancestors: Seq<Ancestor>,
    name: Seq<char>,
)
    ensures
        java_names(ancestors).contains(name) <==> exists|k: int|
            0 <= k < ancestors.len() && is_java(#[trigger] ancestors[k]) && ancestors[k].name@
                == name,
    decreases ancestors.len(),
{
    if ancestors.len() > 0 {
        let front = ancestors.drop_last();
        let earlier = java_names(front);
        let all = java_names(ancestors);
        let last = ancestors.len() - 1;
        the_java_classifiers_are_those_of_the_hierarchy(front, name);
        if all.contains(name) {
            let at = choose|k: int| 0 <= k < all.len() && all[k] == name;
            if at < earlier.len() {
                assert(earlier[at] == name);
                let k = choose|k: int|
                    0 <= k < front.len() && is_java(#[trigger] front[k]) && front[k].name@ == name;
                assert(ancestors[k] == front[k]);
            } else {
                assert(is_java(ancestors[last]));
            }
        }
        if exists|k: int|
            0 <= k < ancestors.len() && is_java(#[trigger] ancestors[k]) && ancestors[k].name@
                == name {
            let k = choose|k: int|
                0 <= k < ancestors.len() && is_java(#[trigger] ancestors[k]) && ancestors[k].name@
                    == name;
            if k < last {
                assert(is_java(front[k]) && front[k].name@ == name);
                let at = choose|i: int| 0 <= i < earlier.len() && earlier[i] == name;
                assert(all[at] == name);
            } else {
                assert(all.last() == name);
                assert(all[all.len() - 1] == name);
            }
        }
    } else {
        assert(!java_names(ancestors).contains(name));
    }
}

/// A property that one of the classifiers delegates is supplied.
pub proof fn a_delegated_property_is_supplied(
    ancestors: Seq<Ancestor>,
    i: int,
    j: int,
)
    requires
        0 <= i < ancestors.len(),
        0 <= j < ancestors[i].delegated@.len(),
    ensures
        match ancestors[i].delegated@[j] {
            DelegatedMember::Property(name) => supplied_properties(ancestors).contains(name@),
            DelegatedMember::Function(function) => supplied_functions(ancestors).contains(
                (function.name@, views(function.parameters@)),
            ),
        },
    decreases ancestors.len(),
{
    let last = ancestors.len() - 1;
    let front = ancestors.drop_last();
    let names = supplied_properties(ancestors);
    let keys = supplied_functions(ancestors);
    let earlier_names = supplied_properties(front);
    let earlier_keys = supplied_functions(front);
    if i < last {
        a_delegated_property_is_supplied(front, i, j);
        match ancestors[i].delegated@[j] {
            DelegatedMember::Property(name) => {
                let at = choose|k: int|
                    0 <= k < earlier_names.len() && earlier_names[k] == name@;
                assert(names[at] == name@);
            },
            DelegatedMember::Function(function) => {
                let key = (function.name@, views(function.parameters@));
                let at = choose|k: int| 0 <= k < earlier_keys.len() && earlier_keys[k] == key;
                assert(keys[at] == key);
            },
        }
    } else {
        lemma_among(ancestors[i].delegated@, j);
        let members = ancestors[i].delegated@;
        match members[j] {
            DelegatedMember::Property(name) => {
                let own = properties_among(members);
                let at = choose|k: int| 0 <= k < own.len() && own[k] == name@;
                assert(names[earlier_names.len() + at] == name@);
            },
            DelegatedMember::Function(function) => {
                let key = (function.name@, views(function.parameters@));
                let own = functions_among(members);
                let at = choose|k: int| 0 <= k < own.len() && own[k] == key;
                assert(keys[earlier_keys.len() + at] == key);
            },
        }
    }
}

proof fn lemma_among(members: Seq<DelegatedMember>, j: int)
    requires
        0 <= j < members.len(),
    ensures
        match members[j] {
            DelegatedMember::Property(name) => properties_among(members).contains(name@),
            DelegatedMember::Function(function) => functions_among(members).contains(
                (function.name@, views(function.parameters@)),
            ),
        },
    decreases members.len(),
{
    let front = members.drop_last();
    let names = properties_among(members);
    let keys = functions_among(members);
    if j < members.len() - 1 {
        lemma_among(front, j);
        match members[j] {
            DelegatedMember::Property(name) => {
                let earlier = properties_among(front);
                let at = choose|k: int| 0 <= k < earlier.len() && earlier[k] == name@;
                assert(names[at] == name@);
            },
            DelegatedMember::Function(function) => {
                let key = (function.name@, views(function.parameters@));
                let earlier = functions_among(front);
                let at = choose|k: int| 0 <= k < earlier.len() && earlier[k] == key;
                assert(keys[at] == key);
            },
        }
    } else {
        match members[j] {
            DelegatedMember::Property(name) => {
                assert(names[names.len() - 1] == name@);
            },
            DelegatedMember::Function(function) => {
                assert(keys[keys.len() - 1] == (function.name@, views(function.parameters@)));
            },
        }
    }
}

} // verus!
