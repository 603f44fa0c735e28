//! What holds of the callable that a reference selects.

use vstd::prelude::*;

use crate::ast::{gathered, lemma_gathered_contains, lemma_gathered_origin};
use crate::bindings::{substitution_fixes_ground_types, unified, well_nested};
use crate::libraries::FunctionInfoView;
use crate::resolve::adapted_instance_selection::{
    adapted_all, cheapest, costs, distinct, finalists, least, nearest, ranks, retained, same_shape,
    the_least_is_among_them, AdaptedCandidateView,
};
use crate::resolve::callable_reference_selection::{
    compatible, cost, input_compatible, input_fits, realized_shape, shape_bindings,
    whole_array_fits, AdaptedRefArgumentView, Assignability,
};
use crate::symbols::SymbolTable;
use crate::types::{FnSigView, TyView};

verus! {

/// How many arguments of a plan are defaults.
pub open spec fn defaults_in(plan: Seq<AdaptedRefArgumentView>) -> nat {
    plan.filter(|argument: AdaptedRefArgumentView| argument is Default).len()
}

/// How many arguments of a plan collect elements.
pub open spec fn collections_in(plan: Seq<AdaptedRefArgumentView>) -> nat {
    plan.filter(
        |argument: AdaptedRefArgumentView|
            argument is Vararg && !argument->Vararg_whole_array,
    ).len()
}

/// How many arguments of a plan are arrays that are passed whole.
pub open spec fn whole_arrays_in(plan: Seq<AdaptedRefArgumentView>) -> nat {
    plan.filter(
        |argument: AdaptedRefArgumentView| argument is Vararg && argument->Vararg_whole_array,
    ).len()
}

/// A plan costs a hundred for each default, ten for each collection of elements and one for each
/// array that is passed whole; an input that is passed as it is costs nothing.
pub proof fn the_cost_counts_what_is_adapted(plan: Seq<AdaptedRefArgumentView>)
    ensures
        cost(plan) == 100 * defaults_in(plan) + 10 * collections_in(plan) + whole_arrays_in(plan),
    decreases plan.len(),
{
    reveal(Seq::filter);
    if plan.len() > 0 {
        the_cost_counts_what_is_adapted(plan.drop_last());
    }
}

/// Whether acceptance carries over: what is accepted where something is accepted is accepted there.
pub open spec fn is_transitive<A: Assignability>(relation: A) -> bool {
    forall|a: TyView, b: TyView, c: TyView|
        #[trigger] relation.accepts(a, b) && #[trigger] relation.accepts(b, c)
            ==> relation.accepts(a, c)
}

/// Whether a type is written without a type parameter in front.
pub open spec fn is_concrete(ty: TyView) -> bool {
    !(ty.non_null() is TyParam)
}

/// Inputs are contravariant: what is passed may be narrower than what fits, and what is declared
/// may be wider.
pub proof fn a_narrower_input_fits_as_well<A: Assignability>(
    relation: A,
    passed: TyView,
    narrower: TyView,
    declared: TyView,
    wider: TyView,
)
    requires
        is_transitive(relation),
        is_concrete(passed),
        is_concrete(narrower),
        is_concrete(declared),
        is_concrete(wider),
        input_fits(relation, passed, declared),
        relation.accepts(narrower, passed),
        relation.accepts(declared, wider),
    ensures
        input_fits(relation, narrower, declared),
        input_fits(relation, passed, wider),
        input_fits(relation, narrower, wider),
        whole_array_fits(relation, narrower, wider),
{
    assert(relation.accepts(narrower, declared));
}

/// An input that is a type parameter is held to its bound, on either side.
pub proof fn a_type_parameter_fits_by_its_bound<A: Assignability>(
    relation: A,
    name: Seq<char>,
    bound: TyView,
    other: TyView,
)
    ensures
        ({
            let open = TyView::TyParam(name, Box::new(bound));
            &&& input_fits(relation, open, other) == relation.accepts(other, bound)
            &&& is_concrete(other) ==> input_fits(relation, other, open) == relation.accepts(
                other,
                bound,
            )
        }),
{
}

/// Whether a shape is written without type parameters.
pub open spec fn is_ground(shape: FnSigView) -> bool {
    &&& !shape.ret.mentions_ty_param() && well_nested(shape.ret)
    &&& forall|k: int|
        0 <= k < shape.params.len() ==> !(#[trigger] shape.params[k]).mentions_ty_param()
            && well_nested(shape.params[k])
}

proof fn lemma_concrete(ty: TyView)
    requires
        !ty.mentions_ty_param(),
    ensures
        is_concrete(ty),
{
    reveal_with_fuel(TyView::mentions, 2);
}

proof fn lemma_ground_inputs<A: Assignability>(
    relation: A,
    params: Seq<TyView>,
    ret: TyView,
    suspend: bool,
    expected: FnSigView,
    coerces: bool,
)
    requires
        is_ground(expected),
    ensures
        compatible(relation, params, ret, suspend, expected, coerces) <==> {
            &&& suspend ==> expected.suspend
            &&& params.len() == expected.params.len()
            &&& forall|k: int|
                0 <= k < params.len() ==> relation.accepts(
                    expected.params[k],
                    #[trigger] params[k],
                )
            &&& (coerces && expected.ret is Unit) || relation.accepts(ret, expected.ret)
        },
{
    let bindings = unified(expected.ret, ret, Map::empty());
    substitution_fixes_ground_types(expected.ret, bindings);
    if params.len() == expected.params.len() {
        assert forall|k: int| 0 <= k < params.len() implies (input_compatible(
            relation,
            expected.params[k].subst(bindings),
            #[trigger] params[k],
        ) <==> relation.accepts(expected.params[k], params[k])) by {
            substitution_fixes_ground_types(expected.params[k], bindings);
            lemma_concrete(expected.params[k]);
        }
    }
}

/// A callable stays compatible where it takes more and returns less: its inputs are contravariant
/// and its result is covariant. One that suspends is compatible only where that is expected.
pub proof fn a_callable_that_takes_more_and_returns_less_is_compatible<A: Assignability>(
    relation: A,
    params: Seq<TyView>,
    wider: Seq<TyView>,
    ret: TyView,
    narrower: TyView,
    suspend: bool,
    expected: FnSigView,
    coerces: bool,
)
    requires
        is_transitive(relation),
        is_ground(expected),
        compatible(relation, params, ret, suspend, expected, coerces),
        params.len() == wider.len(),
        forall|k: int| 0 <= k < params.len() ==> relation.accepts(params[k], #[trigger] wider[k]),
        relation.accepts(narrower, ret),
    ensures
        compatible(relation, wider, narrower, suspend, expected, coerces),
        compatible(relation, params, ret, false, expected, coerces),
        suspend ==> !compatible(
            relation,
            params,
            ret,
            suspend,
            FnSigView { suspend: false, ..expected },
            coerces,
        ),
{
    lemma_ground_inputs(relation, params, ret, suspend, expected, coerces);
    lemma_ground_inputs(relation, params, ret, false, expected, coerces);
    lemma_ground_inputs(relation, wider, narrower, suspend, expected, coerces);
    assert forall|k: int| 0 <= k < wider.len() implies relation.accepts(
        expected.params[k],
        #[trigger] wider[k],
    ) by {
        assert(relation.accepts(expected.params[k], params[k]));
    }
}

/// A callable whose own shape is expected is compatible, and stays so where a result is dropped.
pub proof fn a_callable_is_compatible_with_its_own_shape<A: Assignability>(
    relation: A,
    shape: FnSigView,
)
    requires
        is_ground(shape),
        forall|ty: TyView| #[trigger] relation.accepts(ty, ty),
    ensures
        compatible(relation, shape.params, shape.ret, shape.suspend, shape, false),
        compatible(
            relation,
            shape.params,
            shape.ret,
            shape.suspend,
            FnSigView { ret: TyView::Unit, ..shape },
            true,
        ),
{
    lemma_ground_inputs(relation, shape.params, shape.ret, shape.suspend, shape, false);
    let dropped = FnSigView { ret: TyView::Unit, ..shape };
    assert(is_ground(dropped));
    lemma_ground_inputs(relation, shape.params, shape.ret, shape.suspend, dropped, true);
}

/// An expected shape without type parameters is what is realized, whatever the plan.
pub proof fn a_concrete_shape_is_realized_as_it_is(
    expected: FnSigView,
    targets: Seq<TyView>,
    target_ret: TyView,
    plan: Seq<AdaptedRefArgumentView>,
)
    requires
        is_ground(expected),
    ensures
        realized_shape(expected, targets, target_ret, plan) == expected,
{
    let realized = realized_shape(expected, targets, target_ret, plan);
    let bindings = unified(
        expected.ret,
        target_ret,
        shape_bindings(expected, targets, plan, plan.len()),
    );
    substitution_fixes_ground_types(expected.ret, bindings);
    assert forall|k: int| 0 <= k < expected.params.len() implies (
    #[trigger] realized.params[k]) == expected.params[k] by {
        substitution_fixes_ground_types(expected.params[k], bindings);
    }
    assert(realized.params =~= expected.params);
}

proof fn lemma_retained(
    candidates: Seq<AdaptedCandidateView>,
    keep: spec_fn(AdaptedCandidateView) -> bool,
    candidate: AdaptedCandidateView,
)
    ensures
        retained(candidates, keep).contains(candidate) <==> candidates.contains(candidate) && keep(
            candidate,
        ),
{
    let piece = |candidate: AdaptedCandidateView|
        if keep(candidate) {
            seq![candidate]
        } else {
            Seq::<AdaptedCandidateView>::empty()
        };
    assert(retained(candidates, keep) == gathered(candidates, piece));
    if candidates.contains(candidate) && keep(candidate) {
        let k = choose|k: int| 0 <= k < candidates.len() && candidates[k] == candidate;
        lemma_gathered_contains(candidates, piece, k, 0);
    }
    if retained(candidates, keep).contains(candidate) {
        lemma_gathered_origin(candidates, piece, candidate);
        let k = choose|k: int|
            0 <= k < candidates.len() && piece(#[trigger] candidates[k]).contains(candidate);
        assert(candidates[k] == candidate);
    }
}

/// Whether no candidate is declared nearer to the receiver, and none that is declared as near has a
/// cheaper plan.
pub open spec fn is_best(
    candidates: Seq<AdaptedCandidateView>,
    candidate: AdaptedCandidateView,
) -> bool {
    forall|k: int|
        0 <= k < candidates.len() ==> {
            let other = #[trigger] candidates[k];
            ||| candidate.function.receiver_rank < other.function.receiver_rank
            ||| candidate.function.receiver_rank == other.function.receiver_rank && cost(
                candidate.plan,
            ) <= cost(other.plan)
        }
}

/// What is left among the candidates is the best of them: a candidate is nearest to the receiver
/// and cheapest exactly where no other is declared nearer, and none as near has a cheaper plan.
pub proof fn the_nearest_and_cheapest_are_best(
    candidates: Seq<AdaptedCandidateView>,
    candidate: AdaptedCandidateView,
)
    ensures
        cheapest(nearest(candidates)).contains(candidate) <==> candidates.contains(candidate)
            && is_best(candidates, candidate),
{
    let near = nearest(candidates);
    let by_rank = |candidate: AdaptedCandidateView|
        candidate.function.receiver_rank == least(ranks(candidates));
    let by_cost = |candidate: AdaptedCandidateView| cost(candidate.plan) == least(costs(near));
    assert(near == retained(candidates, by_rank));
    assert(cheapest(near) == retained(near, by_cost));
    lemma_retained(candidates, by_rank, candidate);
    lemma_retained(near, by_cost, candidate);
    if candidates.len() > 0 {
        let all = ranks(candidates);
        the_least_is_among_them(all);
        let first = choose|k: int| 0 <= k < all.len() && all[k] == least(all);
        lemma_retained(candidates, by_rank, candidates[first]);
        assert(candidates.contains(candidates[first]));
        assert(near.contains(candidates[first]));
        assert(near.len() > 0);
        let prices = costs(near);
        the_least_is_among_them(prices);
        let cheap = choose|k: int| 0 <= k < prices.len() && prices[k] == least(prices);
        assert(near.contains(near[cheap]));
        lemma_retained(candidates, by_rank, near[cheap]);
        let place = choose|k: int| 0 <= k < candidates.len() && candidates[k] == near[cheap];
        if cheapest(near).contains(candidate) {
            assert forall|k: int| 0 <= k < candidates.len() implies {
                let other = #[trigger] candidates[k];
                ||| candidate.function.receiver_rank < other.function.receiver_rank
                ||| candidate.function.receiver_rank == other.function.receiver_rank && cost(
                    candidate.plan,
                ) <= cost(other.plan)
            } by {
                assert(least(all) <= all[k]);
                if candidates[k].function.receiver_rank == least(all) {
                    lemma_retained(candidates, by_rank, candidates[k]);
                    assert(candidates.contains(candidates[k]));
                    let at = choose|i: int| 0 <= i < near.len() && near[i] == candidates[k];
                    assert(least(prices) <= prices[at]);
                }
            }
        }
        if candidates.contains(candidate) && is_best(candidates, candidate) {
            let at = choose|k: int| 0 <= k < candidates.len() && candidates[k] == candidate;
            assert(least(all) <= all[at]);
            assert(candidates[first].function.receiver_rank == least(all));
            assert(candidate.function.receiver_rank == least(all));
            assert(near.contains(candidate));
            let inside = choose|i: int| 0 <= i < near.len() && near[i] == candidate;
            assert(least(prices) <= prices[inside]);
            assert(candidates[place].function.receiver_rank == least(all));
        }
    }
}

/// Whether a candidate of the same shape is among some.
pub open spec fn has_shape_of(
    candidates: Seq<AdaptedCandidateView>,
    candidate: AdaptedCandidateView,
) -> bool {
    exists|i: int| 0 <= i < candidates.len() && same_shape(#[trigger] candidates[i], candidate)
}

proof fn lemma_distinct(candidates: Seq<AdaptedCandidateView>)
    ensures
        ({
            let kept = distinct(candidates);
            &&& forall|i: int| 0 <= i < kept.len() ==> candidates.contains(#[trigger] kept[i])
            &&& forall|i: int, j: int|
                0 <= i < j < kept.len() ==> !same_shape(#[trigger] kept[i], #[trigger] kept[j])
            &&& forall|k: int|
                0 <= k < candidates.len() ==> has_shape_of(kept, #[trigger] candidates[k])
        }),
    decreases candidates.len(),
{
    if candidates.len() > 0 {
        let front = candidates.drop_last();
        let last = candidates.last();
        lemma_distinct(front);
        let earlier = distinct(front);
        let kept = distinct(candidates);
        assert forall|i: int| 0 <= i < kept.len() implies candidates.contains(
            #[trigger] kept[i],
        ) by {
            if i < earlier.len() {
                assert(front.contains(earlier[i]));
                let k = choose|k: int| 0 <= k < front.len() && front[k] == earlier[i];
                assert(candidates[k] == kept[i]);
            } else {
                assert(candidates[candidates.len() - 1] == kept[i]);
            }
        }
        assert forall|i: int, j: int| 0 <= i < j < kept.len() implies !same_shape(
            #[trigger] kept[i],
            #[trigger] kept[j],
        ) by {
            assert(kept[i] == earlier[i]);
            if j < earlier.len() {
                assert(kept[j] == earlier[j]);
            }
        }
        assert forall|k: int| 0 <= k < candidates.len() implies has_shape_of(
            kept,
            #[trigger] candidates[k],
        ) by {
            if k < front.len() {
                assert(front[k] == candidates[k]);
                assert(has_shape_of(earlier, front[k]));
                let i = choose|i: int|
                    0 <= i < earlier.len() && same_shape(#[trigger] earlier[i], front[k]);
                assert(same_shape(kept[i], candidates[k]));
            } else if kept.len() > earlier.len() {
                assert(same_shape(kept[kept.len() - 1], candidates[k]));
            } else {
                let i = choose|i: int|
                    0 <= i < earlier.len() && same_shape(#[trigger] earlier[i], last);
                assert(same_shape(kept[i], candidates[k]));
            }
        }
    }
}

/// Specificity decides among the best candidates, and among all of them: each is nearest and
/// cheapest, each best candidate has its shape among them, and no two have one shape.
pub proof fn the_finalists_are_the_best_of_each_shape<A: Assignability>(
    source: SymbolTable,
    overloads: Seq<FunctionInfoView>,
    expected: FnSigView,
    relation: A,
)
    ensures
        ({
            let all = adapted_all(source, overloads, expected, relation);
            let last = finalists(source, overloads, expected, relation);
            &&& forall|i: int|
                0 <= i < last.len() ==> all.contains(#[trigger] last[i]) && is_best(all, last[i])
            &&& forall|i: int, j: int|
                0 <= i < j < last.len() ==> !same_shape(#[trigger] last[i], #[trigger] last[j])
            &&& forall|k: int|
                0 <= k < all.len() && is_best(all, #[trigger] all[k]) ==> has_shape_of(last, all[k])
        }),
{
    let all = adapted_all(source, overloads, expected, relation);
    let best = cheapest(nearest(all));
    let last = finalists(source, overloads, expected, relation);
    lemma_distinct(best);
    assert forall|i: int| 0 <= i < last.len() implies all.contains(#[trigger] last[i]) && is_best(
        all,
        last[i],
    ) by {
        the_nearest_and_cheapest_are_best(all, last[i]);
    }
    assert forall|k: int| 0 <= k < all.len() && is_best(all, #[trigger] all[k]) implies has_shape_of(
        last,
        all[k],
    ) by {
        the_nearest_and_cheapest_are_best(all, all[k]);
        assert(all.contains(all[k]));
        let place = choose|j: int| 0 <= j < best.len() && best[j] == all[k];
        assert(has_shape_of(last, best[place]));
    }
}

} // verus!
