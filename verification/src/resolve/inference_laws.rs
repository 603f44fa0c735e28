//! What holds of the bindings that calls are solved with.

use vstd::prelude::*;

use crate::ast::BinOp;
use crate::bindings::subst_all;
use crate::names::capital;
use crate::resolve::call_constraints::with_observed;
use crate::resolve::callable_reference_selection::Assignability;
use crate::resolve::collection_literals::factory_of;
use crate::resolve::compound_assignments::convention_of;
use crate::resolve::conditional_branch::{joined_branches, joined_try, lexically_fixed};
use crate::resolve::generic_call_bindings::{among_supertypes, applied_supertype, completed, paired};
use crate::symbols::SymbolTable;
use crate::types::{MentionView, TyView};

verus! {

/// Completing bindings binds exactly the formals that were bound before and those that were
/// inferred. What was bound before stands before what was inferred.
pub proof fn a_completed_formal_is_bound_or_inferred(
    formals: Seq<Seq<char>>,
    bindings: Map<Seq<char>, TyView>,
    inferred: Map<Seq<char>, TyView>,
    name: Seq<char>,
)
    ensures
        ({
            let all = completed(formals, bindings, inferred);
            &&& all.contains_key(name) <==> bindings.contains_key(name) || (formals.contains(name)
                && inferred.contains_key(name))
            &&& bindings.contains_key(name) ==> all[name] == bindings[name]
            &&& all.contains_key(name) && !bindings.contains_key(name) ==> all[name]
                == inferred[name]
        }),
    decreases formals.len(),
{
    if formals.len() > 0 {
        let front = formals.drop_last();
        a_completed_formal_is_bound_or_inferred(front, bindings, inferred, name);
        lemma_in_front(formals, name);
    }
}

proof fn lemma_in_front(names: Seq<Seq<char>>, name: Seq<char>)
    requires
        names.len() > 0,
    ensures
        names.contains(name) <==> names.drop_last().contains(name) || name == names.last(),
{
    let front = names.drop_last();
    if front.contains(name) {
        let k = choose|k: int| 0 <= k < front.len() && front[k] == name;
        assert(names[k] == name);
    }
    if names.contains(name) && name != names.last() {
        let k = choose|k: int| 0 <= k < names.len() && names[k] == name;
        assert(front[k] == name);
    }
    assert(names[names.len() - 1] == names.last());
}

/// What was observed of an open formal binds it, where it is known.
pub proof fn a_known_observation_binds(
    formals: Seq<Seq<char>>,
    found: Map<Seq<char>, TyView>,
    formal: Seq<char>,
)
    requires
        formals.contains(formal),
        found.contains_key(formal),
        !found[formal].mentions_pending(),
        !(found[formal] is Error),
    ensures
        with_observed(formals, Map::empty(), found).contains_key(formal),
        with_observed(formals, Map::empty(), found)[formal] == found[formal],
    decreases formals.len(),
{
    lemma_in_front(formals, formal);
    let front = formals.drop_last();
    if front.contains(formal) {
        a_known_observation_binds(front, found, formal);
    } else {
        lemma_unobserved(front, found, formal);
    }
}

proof fn lemma_unobserved(
    formals: Seq<Seq<char>>,
    found: Map<Seq<char>, TyView>,
    formal: Seq<char>,
)
    requires
        !formals.contains(formal),
    ensures
        !with_observed(formals, Map::empty(), found).contains_key(formal),
    decreases formals.len(),
{
    if formals.len() > 0 {
        lemma_in_front(formals, formal);
        lemma_unobserved(formals.drop_last(), found, formal);
    }
}

/// Each formal is bound to the type beside it, and nothing else is bound.
pub proof fn a_formal_is_bound_to_the_type_beside_it(
    formals: Seq<Seq<char>>,
    types: Seq<TyView>,
    name: Seq<char>,
)
    requires
        formals.no_duplicates(),
    ensures
        forall|k: int|
            0 <= k < formals.len() && k < types.len() && #[trigger] formals[k] == name ==> paired(
                formals,
                types,
            ).contains_key(name) && paired(formals, types)[name] == types[k],
        paired(formals, types).contains_key(name) ==> exists|k: int|
            0 <= k < formals.len() && k < types.len() && #[trigger] formals[k] == name,
    decreases formals.len(),
{
    if formals.len() > 0 && types.len() > 0 {
        let count = if formals.len() < types.len() {
            formals.len()
        } else {
            types.len()
        };
        let front = formals.take(count - 1);
        let beside = types.take(count - 1);
        assert(front.no_duplicates()) by {
            assert forall|i: int, j: int|
                0 <= i < front.len() && 0 <= j < front.len() && i != j implies front[i]
                != front[j] by {
                assert(formals[i] != formals[j]);
            }
        }
        a_formal_is_bound_to_the_type_beside_it(front, beside, name);
        assert forall|k: int|
            0 <= k < formals.len() && k < types.len() && #[trigger] formals[k]
                == name implies paired(formals, types).contains_key(name) && paired(
            formals,
            types,
        )[name] == types[k] by {
            assert(k <= count - 1);
            if k < count - 1 {
                assert(front[k] == name);
                assert(beside[k] == types[k]);
                assert(formals[k] != formals[count - 1]);
            }
        }
        if paired(formals, types).contains_key(name) {
            if name == formals[count - 1] {
            } else {
                let k = choose|k: int|
                    0 <= k < front.len() && k < beside.len() && #[trigger] front[k] == name;
                assert(formals[k] == name);
            }
        }
    }
}

/// A type as an instance of a classifier is an instance of that classifier; a type that is one
/// already stays as it is.
pub proof fn an_applied_supertype_is_of_the_wanted_classifier(
    source: SymbolTable,
    ty: TyView,
    wanted: Seq<char>,
    steps: nat,
)
    ensures
        applied_supertype(source, ty, wanted, steps) matches Some(found) ==> found.obj_internal()
            == Some(wanted),
        ty.obj_internal() == Some(wanted) ==> applied_supertype(source, ty, wanted, steps) == Some(
            ty,
        ),
    decreases steps, 1nat, 0nat,
{
    if let TyView::Obj(name, arguments) = ty {
        if name != wanted && steps > 0 {
            if let Some(shape) = source.classifier_of(name) {
                lemma_among(
                    source,
                    subst_all(shape.supertypes, paired(shape.type_params, arguments)),
                    wanted,
                    steps,
                );
            }
        }
    }
}

proof fn lemma_among(source: SymbolTable, types: Seq<TyView>, wanted: Seq<char>, steps: nat)
    ensures
        among_supertypes(source, types, wanted, steps) matches Some(found) ==> found.obj_internal()
            == Some(wanted),
    decreases steps, 0nat, types.len(),
{
    if types.len() > 0 && steps > 0 {
        an_applied_supertype_is_of_the_wanted_classifier(
            source,
            types[0],
            wanted,
            (steps - 1) as nat,
        );
        lemma_among(source, types.skip(1), wanted, steps);
    }
}

/// A class is seen as its direct supertype with the arguments that the class has.
pub proof fn a_direct_supertype_gets_the_arguments_of_the_class(
    source: SymbolTable,
    name: Seq<char>,
    arguments: Seq<TyView>,
    wanted: Seq<char>,
    given: Seq<TyView>,
    steps: nat,
)
    requires
        0 < steps,
        name != wanted,
        source.classifier_of(name) is Some,
        source.classifier_of(name)->0.supertypes.len() > 0,
        source.classifier_of(name)->0.supertypes[0] == TyView::Obj(wanted, given),
    ensures
        applied_supertype(source, TyView::Obj(name, arguments), wanted, steps) == Some(
            TyView::Obj(
                wanted,
                subst_all(given, paired(source.classifier_of(name)->0.type_params, arguments)),
            ),
        ),
{
    let shape = source.classifier_of(name)->0;
    let bound = paired(shape.type_params, arguments);
    let types = subst_all(shape.supertypes, bound);
    assert(types[0] == TyView::Obj(wanted, given).subst(bound));
    assert(types[0]->Obj_1 =~= subst_all(given, bound));
    an_applied_supertype_is_of_the_wanted_classifier(source, types[0], wanted, (steps - 1) as nat);
    reveal_with_fuel(among_supertypes, 2);
}

/// A type is fixed exactly where every type parameter that it mentions is in lexical scope.
pub proof fn a_fixed_type_mentions_only_lexical_parameters(ty: TyView, lexical: Seq<Seq<char>>)
    ensures
        lexically_fixed(ty, lexical) <==> forall|name: Seq<char>| #[trigger]
            ty.mentions_param(name) ==> lexical.contains(name),
    decreases ty,
{
    let scoped = forall|name: Seq<char>| #[trigger]
        ty.mentions_param(name) ==> lexical.contains(name);
    match ty {
        TyView::TyParam(name, _) => {
            assert(ty.mentions_param(name));
        },
        TyView::Obj(_, arguments) => {
            assert forall|i: int| 0 <= i < arguments.len() implies (lexically_fixed(
                #[trigger] arguments[i],
                lexical,
            ) <==> forall|name: Seq<char>| #[trigger]
                arguments[i].mentions_param(name) ==> lexical.contains(name)) by {
                a_fixed_type_mentions_only_lexical_parameters(arguments[i], lexical);
            }
            if scoped {
                assert forall|i: int| 0 <= i < arguments.len() implies lexically_fixed(
                    #[trigger] arguments[i],
                    lexical,
                ) by {
                    assert forall|name: Seq<char>| #[trigger]
                        arguments[i].mentions_param(name) implies lexical.contains(name) by {
                        assert(ty.mentions_param(name));
                    }
                }
            }
            if lexically_fixed(ty, lexical) {
                assert forall|name: Seq<char>| #[trigger]
                    ty.mentions_param(name) implies lexical.contains(name) by {
                    let i = choose|i: int|
                        0 <= i < arguments.len() && (#[trigger] arguments[i]).mentions(
                            MentionView::Param(name),
                        );
                    assert(lexically_fixed(arguments[i], lexical));
                    assert(arguments[i].mentions_param(name));
                }
            }
        },
        TyView::Nullable(inner)
        | TyView::PlatformNullable(inner)
        | TyView::InProjection(inner)
        | TyView::OutProjection(inner)
        | TyView::StarProjection(inner) => {
            a_fixed_type_mentions_only_lexical_parameters(*inner, lexical);
            assert forall|name: Seq<char>| #[trigger] ty.mentions_param(name)
                == inner.mentions_param(name) by {}
            if scoped {
                assert forall|name: Seq<char>| #[trigger]
                    inner.mentions_param(name) implies lexical.contains(name) by {
                    assert(ty.mentions_param(name));
                }
            }
        },
        TyView::Fun(sig) => {
            a_fixed_type_mentions_only_lexical_parameters(sig.ret, lexical);
            assert forall|i: int| 0 <= i < sig.params.len() implies (lexically_fixed(
                #[trigger] sig.params[i],
                lexical,
            ) <==> forall|name: Seq<char>| #[trigger]
                sig.params[i].mentions_param(name) ==> lexical.contains(name)) by {
                a_fixed_type_mentions_only_lexical_parameters(sig.params[i], lexical);
            }
            if scoped {
                assert forall|i: int| 0 <= i < sig.params.len() implies lexically_fixed(
                    #[trigger] sig.params[i],
                    lexical,
                ) by {
                    assert forall|name: Seq<char>| #[trigger]
                        sig.params[i].mentions_param(name) implies lexical.contains(name) by {
                        assert(ty.mentions_param(name));
                    }
                }
                assert forall|name: Seq<char>| #[trigger]
                    sig.ret.mentions_param(name) implies lexical.contains(name) by {
                    assert(ty.mentions_param(name));
                }
            }
            if lexically_fixed(ty, lexical) {
                assert forall|name: Seq<char>| #[trigger]
                    ty.mentions_param(name) implies lexical.contains(name) by {
                    if !sig.ret.mentions_param(name) {
                        let i = choose|i: int|
                            0 <= i < sig.params.len() && (#[trigger] sig.params[i]).mentions(
                                MentionView::Param(name),
                            );
                        assert(lexically_fixed(sig.params[i], lexical));
                        assert(sig.params[i].mentions_param(name));
                    }
                }
            }
        },
        _ => {},
    }
}

/// Whether a type is accepted in place of itself, and one without values in place of any.
pub open spec fn is_order<A: Assignability>(relation: A) -> bool {
    &&& forall|ty: TyView| #[trigger] relation.accepts(ty, ty)
    &&& forall|ty: TyView| #[trigger] relation.accepts(TyView::Nothing, ty)
}

/// A `try` whose value is discarded is worth a type that both branches satisfy, where their common
/// supertype is one, unless the branches are one class with different arguments.
pub proof fn a_discarded_try_is_worth_a_common_supertype<A: Assignability>(
    relation: A,
    left: TyView,
    right: TyView,
    common: TyView,
)
    requires
        is_order(relation),
        relation.accepts(left, common),
        relation.accepts(right, common),
    ensures
        ({
            let joined = joined_try(false, left, right, Some(common));
            (relation.accepts(left, joined) && relation.accepts(right, joined)) || (joined
                == TyView::Obj(left->Obj_0, seq![]) && joined == TyView::Obj(
                right->Obj_0,
                seq![],
            ))
        }),
{
    assert(relation.accepts(left, left) && relation.accepts(right, right));
    assert(relation.accepts(TyView::Nothing, left) && relation.accepts(TyView::Nothing, right));
}

/// A `try` is worth what its branches agree on: a branch that does not return drops out, and where
/// a value is wanted the branches either agree or give none.
pub proof fn a_try_is_worth_what_its_branches_agree_on(
    value_required: bool,
    ty: TyView,
    other: TyView,
    common: Option<TyView>,
)
    ensures
        joined_try(value_required, ty, ty, common) == ty,
        joined_try(value_required, ty, TyView::Nothing, common) == ty,
        joined_try(value_required, TyView::Nothing, ty, common) == ty,
        ty != other && !(ty is Nothing) && !(other is Nothing) && ty.obj_internal()
            != other.obj_internal() ==> joined_try(true, ty, other, common) is Unit,
        joined_try(value_required, ty, other, None) != ty && joined_try(
            value_required,
            ty,
            other,
            None,
        ) != other ==> joined_try(value_required, ty, other, None) is Unit || joined_try(
            value_required,
            ty,
            other,
            None,
        ).type_args().len() == 0,
{
}

/// The common supertype of two branches stands wherever it meets the expectation, and wherever
/// there is none.
pub proof fn a_fitting_supertype_stands<A: Assignability>(
    relation: A,
    lexical: Seq<Seq<char>>,
    expected: TyView,
    left: TyView,
    right: TyView,
    common: TyView,
)
    ensures
        joined_branches(relation, lexical, None, left, right, Some(common)) == Some(common),
        relation.accepts(common, expected) ==> joined_branches(
            relation,
            lexical,
            Some(expected),
            left,
            right,
            Some(common),
        ) == Some(common),
        !relation.accepts(left, expected) || !relation.accepts(right, expected)
            ==> joined_branches(relation, lexical, Some(expected), left, right, Some(common))
            == Some(common),
{
}

/// The word for an operation that a class can define.
pub open spec fn operation_word(operation: BinOp) -> Seq<char> {
    match operation {
        BinOp::Add => "plus"@,
        BinOp::Sub => "minus"@,
        BinOp::Mul => "times"@,
        BinOp::Div => "div"@,
        BinOp::Rem => "rem"@,
        _ => Seq::empty(),
    }
}

/// The in-place convention of an operation is called after the operation.
pub proof fn an_in_place_convention_is_called_after_its_operation(operation: BinOp)
    ensures
        convention_of(operation) matches Some(name) ==> name == operation_word(operation)
            + "Assign"@,
        convention_of(operation) is Some <==> operation_word(operation).len() > 0,
{
    reveal_strlit("Assign");
    reveal_strlit("plus");
    reveal_strlit("minus");
    reveal_strlit("times");
    reveal_strlit("div");
    reveal_strlit("rem");
    reveal_strlit("plusAssign");
    reveal_strlit("minusAssign");
    reveal_strlit("timesAssign");
    reveal_strlit("divAssign");
    reveal_strlit("remAssign");
    if let Some(name) = convention_of(operation) {
        assert(name =~= operation_word(operation) + "Assign"@);
    }
}

/// The factory for a classifier stands in the package of the classifier and is called after it.
pub proof fn a_factory_is_called_after_its_classifier(classifier: Seq<char>)
    ensures
        factory_of(classifier) matches Some((package, callable)) ==> callable.len() > 0
            && classifier + "Of"@ == package + "/"@ + capital(callable[0]) + callable.skip(1),
{
    if let Some((package, callable)) = factory_of(classifier) {
        reveal_strlit("Of");
        reveal_strlit("/");
        reveal_strlit("kotlin/collections");
        reveal_strlit("kotlin/sequences");
        reveal_strlit("kotlin/collections/List");
        reveal_strlit("kotlin/collections/MutableList");
        reveal_strlit("kotlin/collections/Set");
        reveal_strlit("kotlin/collections/MutableSet");
        reveal_strlit("kotlin/sequences/Sequence");
        reveal_strlit("listOf");
        reveal_strlit("mutableListOf");
        reveal_strlit("setOf");
        reveal_strlit("mutableSetOf");
        reveal_strlit("sequenceOf");
        reveal_strlit("ABCDEFGHIJKLMNOPQRSTUVWXYZ");
        assert(classifier + "Of"@ =~= package + "/"@ + capital(callable[0]) + callable.skip(1));
    }
}

} // verus!
