//! What holds of the signature that a callable reference is specialized to.

use vstd::prelude::*;

use crate::bindings::{unified, well_nested};
use crate::libraries::GenericSigView;
use crate::resolve::callable_reference_selection::Assignability;
use crate::resolve::callable_reference_specialization::{
    all_expected_evidence, alpha_equivalent, counterpart, input_evidence_bindings,
    receiver_bindings, reference_bindings, specialization, CallableRefSpecialization, FormalPair,
    ReferenceContext,
};
use crate::resolve::generic_call_bindings::inferred_from_arguments;
use crate::resolve::inference_laws::a_completed_formal_is_bound_or_inferred;
use crate::symbols::SymbolTable;
use crate::type_laws::{a_replaced_parameter_is_gone, inference_finds_what_was_put_in};
use crate::types::TyView;

verus! {

/// Without paired formals types are equal up to names exactly where they are equal.
pub proof fn without_pairs_only_equal_types_are_equivalent(left: TyView, right: TyView)
    ensures
        alpha_equivalent(left, right, seq![]) <==> left == right,
    decreases left,
{
    let none = Seq::<FormalPair>::empty();
    assert(seq![] =~= none);
    if left != right && alpha_equivalent(left, right, none) {
        match (left, right) {
            (TyView::TyParam(name, _), TyView::TyParam(_, _)) => {
                assert(counterpart(none, name) is None);
            },
            (TyView::Nullable(inner), TyView::Nullable(other))
            | (TyView::PlatformNullable(inner), TyView::PlatformNullable(other))
            | (TyView::InProjection(inner), TyView::InProjection(other))
            | (TyView::OutProjection(inner), TyView::OutProjection(other))
            | (TyView::StarProjection(inner), TyView::StarProjection(other)) => {
                without_pairs_only_equal_types_are_equivalent(*inner, *other);
            },
            (TyView::Obj(_, arguments), TyView::Obj(_, others)) => {
                assert forall|k: int| 0 <= k < arguments.len() implies (
                #[trigger] arguments[k]) == others[k] by {
                    assert(alpha_equivalent(arguments[k], others[k], none));
                    without_pairs_only_equal_types_are_equivalent(arguments[k], others[k]);
                }
                assert(arguments =~= others);
            },
            (TyView::Fun(sig), TyView::Fun(other)) => {
                assert forall|k: int| 0 <= k < sig.params.len() implies (
                #[trigger] sig.params[k]) == other.params[k] by {
                    assert(alpha_equivalent(sig.params[k], other.params[k], none));
                    without_pairs_only_equal_types_are_equivalent(sig.params[k], other.params[k]);
                }
                assert(sig.params =~= other.params);
                without_pairs_only_equal_types_are_equivalent(sig.ret, other.ret);
            },
            _ => {},
        }
    }
}

/// The receiver decides before the expected inputs, and these before the expected result. The
/// result decides what they leave open.
pub proof fn the_receiver_decides_before_the_inputs(
    source: SymbolTable,
    generic: GenericSigView,
    vararg: Option<usize>,
    context: ReferenceContext,
    formal: Seq<char>,
)
    ensures
        ({
            let received = receiver_bindings(source, generic, context);
            let inputs = input_evidence_bindings(source, generic, vararg, context);
            let all = reference_bindings(source, generic, vararg, context);
            &&& received.contains_key(formal) ==> inputs.contains_key(formal) && inputs[formal]
                == received[formal]
            &&& inputs.contains_key(formal) ==> all.contains_key(formal) && all[formal]
                == inputs[formal]
            &&& context.expected_ret matches Some(expected) ==> {
                let found = unified(generic.ret, expected, Map::empty());
                !inputs.contains_key(formal) && generic.formals.contains(formal)
                    && found.contains_key(formal) ==> all.contains_key(formal) && all[formal]
                    == found[formal]
            }
            &&& context.expected_params is None ==> inputs == received
            &&& context.expected_ret is None ==> all == inputs
        }),
{
    let received = receiver_bindings(source, generic, context);
    let inputs = input_evidence_bindings(source, generic, vararg, context);
    if let Some(expected) = context.expected_params {
        let inferred = inferred_from_arguments(
            source,
            generic.params,
            vararg,
            all_expected_evidence(
                generic,
                vararg,
                expected,
                expected.len(),
            ),
        );
        a_completed_formal_is_bound_or_inferred(generic.formals, received, inferred, formal);
    }
    if let Some(expected) = context.expected_ret {
        let found = unified(generic.ret, expected, Map::empty());
        a_completed_formal_is_bound_or_inferred(generic.formals, inputs, found, formal);
    }
}

/// A reference that is expected to return the declared result with its formals replaced is
/// specialized with the same replacements, where nothing else decides.
pub proof fn an_expected_result_gives_the_type_arguments<A: Assignability>(
    source: SymbolTable,
    generic: GenericSigView,
    vararg: Option<usize>,
    relation: A,
    replaced: Map<Seq<char>, TyView>,
    i: int,
)
    requires
        0 <= i < generic.formals.len(),
        well_nested(generic.ret),
        forall|name: Seq<char>| #[trigger]
            replaced.contains_key(name) ==> !replaced[name].admits_null(),
        forall|k: int|
            0 <= k < generic.formals.len() ==> generic.ret.mentions_param(
                #[trigger] generic.formals[k],
            ) && replaced.contains_key(generic.formals[k]),
    ensures
        ({
            let context = ReferenceContext {
                extension_receiver: None,
                expected_params: None,
                expected_ret: Some(generic.ret.subst(replaced)),
            };
            match specialization(source, generic, vararg, context, relation) {
                Ok(special) => special.type_arguments[i] == replaced[generic.formals[i]],
                Err(reason) => reason == CallableRefSpecialization::Inapplicable,
            }
        }),
{
    let context = ReferenceContext {
        extension_receiver: None,
        expected_params: None,
        expected_ret: Some(generic.ret.subst(replaced)),
    };
    let empty = Map::<Seq<char>, TyView>::empty();
    let all = reference_bindings(source, generic, vararg, context);
    inference_finds_what_was_put_in(generic.ret, replaced, empty);
    assert forall|k: int| 0 <= k < generic.formals.len() implies all.contains_key(
        #[trigger] generic.formals[k],
    ) && all[generic.formals[k]] == replaced[generic.formals[k]] by {
        let formal = generic.formals[k];
        the_receiver_decides_before_the_inputs(source, generic, vararg, context, formal);
        assert(generic.formals.contains(formal));
        assert(generic.ret.mentions_param(formal));
    }
}

/// No formal is left in a specialized signature, where none stands in what the formals are bound
/// to.
pub proof fn no_formal_is_left_in_a_specialized_signature<A: Assignability>(
    source: SymbolTable,
    generic: GenericSigView,
    vararg: Option<usize>,
    context: ReferenceContext,
    relation: A,
    i: int,
)
    requires
        0 <= i < generic.formals.len(),
        forall|name: Seq<char>| #[trigger]
            reference_bindings(source, generic, vararg, context).contains_key(name)
                ==> !reference_bindings(source, generic, vararg, context)[name].mentions_param(
                generic.formals[i],
            ),
    ensures
        specialization(source, generic, vararg, context, relation) matches Ok(special) ==> {
            &&& special.type_arguments.len() == generic.formals.len()
            &&& !special.ret.mentions_param(generic.formals[i])
            &&& special.params.len() == generic.params.len()
            &&& forall|k: int|
                0 <= k < special.params.len() ==> !(#[trigger] special.params[k]).mentions_param(
                    generic.formals[i],
                )
        },
{
    let bindings = reference_bindings(source, generic, vararg, context);
    let formal = generic.formals[i];
    if let Ok(special) = specialization(source, generic, vararg, context, relation) {
        assert(bindings.contains_key(formal));
        a_replaced_parameter_is_gone(generic.ret, bindings, formal);
        assert forall|k: int| 0 <= k < special.params.len() implies !(
        #[trigger] special.params[k]).mentions_param(formal) by {
            a_replaced_parameter_is_gone(generic.params[k], bindings, formal);
        }
    }
}

} // verus!
