//! Selection of an expected-shape instance reference from ordinary member candidates.

use vstd::prelude::*;

use crate::ast::{
    gathered, lemma_gathered_all, lemma_gathered_origin, lemma_gathered_step, optional,
};
use crate::libraries::{FnKind, FunctionInfo, FunctionInfoView};
use crate::model::{copy_all, same_all, Modelled};
use crate::resolve::callable_reference_selection::{
    a_found_plan_is_right, argument_can_shift, can_shift, compatible, cost, input_fits,
    input_parameter_fits, is_compatible, parameter_plan, shift_plan_values, shifted,
    AdaptedRefArgument, AdaptedRefArgumentView, Assignability, PlanProblem,
};
use crate::resolve::callable_reference_specialization::{
    candidate_specialization, specialize_candidate_with_type_arguments, ReferenceContext,
};
use crate::symbols::SymbolTable;
use crate::text::{option_view, views};
use crate::types::{FnSig, FnSigView, Ty, TyView};

verus! {

broadcast use {crate::text::group_views, crate::types::group_ty_views};

/// Which of two callable shapes is the more specific one.
pub trait ShapeOrder {
    /// Whether the first shape is at least as specific as the second.
    spec fn at_least_as_specific(
        &self,
        params: Seq<TyView>,
        ret: TyView,
        other_params: Seq<TyView>,
        other_ret: TyView,
    ) -> bool;

    fn is_at_least_as_specific(
        &self,
        params: &Vec<Ty>,
        ret: &Ty,
        other_params: &Vec<Ty>,
        other_ret: &Ty,
    ) -> (yes: bool)
        ensures
            yes == self.at_least_as_specific(
                views(params@),
                ret@,
                views(other_params@),
                other_ret@,
            ),
    ;
}

/// The order by which a shape is at least as specific as another where each of its types is accepted
/// in place of the other's.
#[derive(Debug)]
pub struct PairwiseOrder<A: Assignability> {
    pub relation: A,
}

impl<A: Assignability> ShapeOrder for PairwiseOrder<A> {
    open spec fn at_least_as_specific(
        &self,
        params: Seq<TyView>,
        ret: TyView,
        other_params: Seq<TyView>,
        other_ret: TyView,
    ) -> bool {
        &&& params.len() == other_params.len()
        &&& forall|k: int|
            0 <= k < params.len() ==> self.relation.accepts(#[trigger] params[k], other_params[k])
        &&& self.relation.accepts(ret, other_ret)
    }

    fn is_at_least_as_specific(
        &self,
        params: &Vec<Ty>,
        ret: &Ty,
        other_params: &Vec<Ty>,
        other_ret: &Ty,
    ) -> (yes: bool) {
        if params.len() != other_params.len() {
            return false;
        }
        let mut index: usize = 0;
        while index < params.len()
            invariant
                index <= params@.len(),
                params@.len() == other_params@.len(),
                forall|k: int|
                    0 <= k < index ==> self.relation.accepts(
                        #[trigger] views(params@)[k],
                        views(other_params@)[k],
                    ),
            decreases params@.len() - index,
        {
            if !self.relation.is_assignable(&params[index], &other_params[index]) {
                assert(!self.relation.accepts(
                    views(params@)[index as int],
                    views(other_params@)[index as int],
                ));
                return false;
            }
            index += 1;
        }
        self.relation.is_assignable(ret, other_ret)
    }
}

/// A member that can be adapted to the expected shape.
#[derive(Debug)]
pub struct AdaptedCandidate {
    pub function: FunctionInfo,
    pub plan: Vec<AdaptedRefArgument>,
    pub type_arguments: Vec<Ty>,
}

/// The model of an [`AdaptedCandidate`].
pub struct AdaptedCandidateView {
    pub function: FunctionInfoView,
    pub plan: Seq<AdaptedRefArgumentView>,
    pub type_arguments: Seq<TyView>,
}

impl View for AdaptedCandidate {
    type V = AdaptedCandidateView;

    open spec fn view(&self) -> AdaptedCandidateView {
        AdaptedCandidateView {
            function: self.function@,
            plan: views(self.plan@),
            type_arguments: views(self.type_arguments@),
        }
    }
}

/// The overload adapted to the expected shape: it is a member, it suspends only where that is
/// expected, its formals are solved, its inputs can be supplied and its result is accepted.
pub open spec fn adapted<A: Assignability>(
    source: SymbolTable,
    function: FunctionInfoView,
    expected: FnSigView,
    relation: A,
) -> Option<AdaptedCandidateView> {
    let context = ReferenceContext {
        extension_receiver: None,
        expected_params: Some(expected.params),
        expected_ret: Some(expected.ret),
    };
    if function.kind != FnKind::Member || (function.callable.suspend && !expected.suspend) {
        None
    } else {
        match candidate_specialization(source, function, context, relation) {
            Err(_) => None,
            Ok(special) => {
                let problem = PlanProblem {
                    params: special.0.semantic_params(),
                    sig: special.0.call_sig,
                    expected: expected.params,
                    relation,
                };
                match problem.plan_from(0, 0) {
                    Some(plan) if compatible(
                        relation,
                        expected.params,
                        special.0.callable.ret,
                        special.0.callable.suspend,
                        expected,
                        true,
                    ) => Some(
                        AdaptedCandidateView {
                            function: special.0,
                            plan,
                            type_arguments: special.1,
                        },
                    ),
                    _ => None,
                }
            },
        }
    }
}

/// The overloads that can be adapted, in order.
pub open spec fn adapted_all<A: Assignability>(
    source: SymbolTable,
    overloads: Seq<FunctionInfoView>,
    expected: FnSigView,
    relation: A,
) -> Seq<AdaptedCandidateView> {
    gathered(
        overloads,
        |function: FunctionInfoView| optional(adapted(source, function, expected, relation)),
    )
}

/// The candidates for which `keep` holds, in order.
pub open spec fn retained(
    candidates: Seq<AdaptedCandidateView>,
    keep: spec_fn(AdaptedCandidateView) -> bool,
) -> Seq<AdaptedCandidateView> {
    gathered(
        candidates,
        |candidate: AdaptedCandidateView|
            if keep(candidate) {
                seq![candidate]
            } else {
                Seq::empty()
            },
    )
}

/// The least of some numbers, zero for none.
pub open spec fn least(numbers: Seq<nat>) -> nat
    decreases numbers.len(),
{
    if numbers.len() == 0 {
        0
    } else if numbers.len() == 1 {
        numbers[0]
    } else {
        let earlier = least(numbers.drop_last());
        if numbers.last() < earlier {
            numbers.last()
        } else {
            earlier
        }
    }
}

/// The least number is one of them, and none is less.
pub proof fn the_least_is_among_them(numbers: Seq<nat>)
    requires
        numbers.len() > 0,
    ensures
        numbers.contains(least(numbers)),
        forall|k: int| 0 <= k < numbers.len() ==> least(numbers) <= #[trigger] numbers[k],
    decreases numbers.len(),
{
    if numbers.len() == 1 {
        assert(numbers[0] == least(numbers));
    } else {
        let before = numbers.drop_last();
        the_least_is_among_them(before);
        let at = choose|k: int| 0 <= k < before.len() && before[k] == least(before);
        assert(numbers[at] == least(before));
        assert(numbers[numbers.len() - 1] == numbers.last());
        assert forall|k: int| 0 <= k < numbers.len() implies least(numbers) <= #[trigger] numbers[k] by {
            if k < before.len() {
                assert(before[k] == numbers[k]);
            }
        }
    }
}

/// The receiver ranks of the candidates.
pub open spec fn ranks(candidates: Seq<AdaptedCandidateView>) -> Seq<nat> {
    Seq::new(candidates.len(), |i: int| candidates[i].function.receiver_rank as nat)
}

/// The costs of the candidates' plans.
pub open spec fn costs(candidates: Seq<AdaptedCandidateView>) -> Seq<nat> {
    Seq::new(candidates.len(), |i: int| cost(candidates[i].plan))
}

/// The candidates declared nearest to the receiver.
pub open spec fn nearest(candidates: Seq<AdaptedCandidateView>) -> Seq<AdaptedCandidateView> {
    retained(
        candidates,
        |candidate: AdaptedCandidateView|
            candidate.function.receiver_rank == least(ranks(candidates)),
    )
}

/// The candidates with the cheapest plans.
pub open spec fn cheapest(candidates: Seq<AdaptedCandidateView>) -> Seq<AdaptedCandidateView> {
    retained(
        candidates,
        |candidate: AdaptedCandidateView| cost(candidate.plan) == least(costs(candidates)),
    )
}

/// Whether two candidates are one declaration seen along two paths of the hierarchy.
pub open spec fn same_shape(left: AdaptedCandidateView, right: AdaptedCandidateView) -> bool {
    left.function.semantic_params() == right.function.semantic_params()
        && left.function.callable.ret == right.function.callable.ret
        && left.function.callable.suspend == right.function.callable.suspend
}

/// The first candidate of each shape, in order.
pub open spec fn distinct(candidates: Seq<AdaptedCandidateView>) -> Seq<AdaptedCandidateView>
    decreases candidates.len(),
{
    if candidates.len() == 0 {
        Seq::empty()
    } else {
        let earlier = distinct(candidates.drop_last());
        if exists|k: int|
            0 <= k < earlier.len() && same_shape(#[trigger] earlier[k], candidates.last()) {
            earlier
        } else {
            earlier.push(candidates.last())
        }
    }
}

/// Whether one candidate is strictly more specific than another.
pub open spec fn dominates<O: ShapeOrder>(order: O, left: AdaptedCandidateView, right: AdaptedCandidateView) -> bool {
    order.at_least_as_specific(
        left.function.semantic_params(),
        left.function.callable.ret,
        right.function.semantic_params(),
        right.function.callable.ret,
    ) && !order.at_least_as_specific(
        right.function.semantic_params(),
        right.function.callable.ret,
        left.function.semantic_params(),
        left.function.callable.ret,
    )
}

/// Whether no other candidate is strictly more specific than the one at `index`.
pub open spec fn maximal<O: ShapeOrder>(order: O, candidates: Seq<AdaptedCandidateView>, index: int) -> bool {
    0 <= index < candidates.len() && forall|k: int|
        0 <= k < candidates.len() && k != index ==> !dominates(
            order,
            #[trigger] candidates[k],
            candidates[index],
        )
}

/// Whether the candidate at `index` is the only one that no other is strictly more specific than.
pub open spec fn sole_maximal<O: ShapeOrder>(order: O, candidates: Seq<AdaptedCandidateView>, index: int) -> bool {
    maximal(order, candidates, index) && forall|k: int| #[trigger]
        maximal(order, candidates, k) ==> k == index
}

/// The candidates among which specificity decides.
pub open spec fn finalists<A: Assignability>(
    source: SymbolTable,
    overloads: Seq<FunctionInfoView>,
    expected: FnSigView,
    relation: A,
) -> Seq<AdaptedCandidateView> {
    distinct(cheapest(nearest(adapted_all(source, overloads, expected, relation))))
}

fn adapt<A: Assignability>(
    source: &SymbolTable,
    function: &FunctionInfo,
    expected: &FnSig,
    relation: &A,
) -> (out: Option<AdaptedCandidate>)
    ensures
        option_view(out) == adapted(*source, function@, expected@, *relation),
{
    if function.kind != FnKind::Member || (function.callable.suspend && !expected.suspend) {
        return None;
    }
    let mut candidate = function.duplicate();
    let inputs = expected.params.as_slice();
    assert(views(inputs@) == expected@.params);
    let type_arguments = match specialize_candidate_with_type_arguments(
        source,
        &mut candidate,
        None,
        Some(inputs),
        Some(&expected.ret),
        relation,
    ) {
        Ok(type_arguments) => type_arguments,
        Err(_) => {
            return None;
        },
    };
    let params = candidate.semantic_params();
    let plan = match parameter_plan(params.as_slice(), &candidate.call_sig, inputs, relation) {
        Some(plan) => plan,
        None => {
            return None;
        },
    };
    if !is_compatible(
        inputs,
        &candidate.callable.ret,
        candidate.callable.suspend,
        expected,
        true,
        relation,
    ) {
        return None;
    }
    Some(AdaptedCandidate { function: candidate, plan, type_arguments })
}

fn adapt_all<A: Assignability>(
    source: &SymbolTable,
    overloads: &[FunctionInfo],
    expected: &FnSig,
    relation: &A,
) -> (out: Vec<AdaptedCandidate>)
    ensures
        views(out@) == adapted_all(*source, views(overloads@), expected@, *relation),
{
    let ghost piece = |function: FunctionInfoView|
        optional(adapted(*source, function, expected@, *relation));
    let ghost all = views(overloads@);
    let mut out: Vec<AdaptedCandidate> = Vec::new();
    let mut index: usize = 0;
    while index < overloads.len()
        invariant
            index <= overloads@.len(),
            all == views(overloads@),
            piece == (|function: FunctionInfoView|
                optional(adapted(*source, function, expected@, *relation))),
            views(out@) == gathered(all.take(index as int), piece),
        decreases overloads@.len() - index,
    {
        proof {
            lemma_gathered_step(all, index as int, piece);
        }
        if let Some(candidate) = adapt(source, &overloads[index], expected, relation) {
            out.push(candidate);
        }
        assert(views(out@) =~= gathered(all.take(index as int + 1), piece));
        index += 1;
    }
    proof {
        lemma_gathered_all(all, piece);
    }
    out
}

fn wide_cost(plan: &Vec<AdaptedRefArgument>) -> (total: u128)
    ensures
        total == cost(views(plan@)),
{
    let ghost all = views(plan@);
    let mut total: u128 = 0;
    let mut index: usize = 0;
    while index < plan.len()
        invariant
            index <= plan@.len(),
            all == views(plan@),
            total == cost(all.take(index as int)),
            total <= 100 * index,
        decreases plan@.len() - index,
    {
        assert(all.take(index as int + 1).drop_last() =~= all.take(index as int));
        let one: u128 = match &plan[index] {
            AdaptedRefArgument::Value(_) => 0,
            AdaptedRefArgument::Vararg { whole_array, .. } => if *whole_array {
                1
            } else {
                10
            },
            AdaptedRefArgument::Default => 100,
        };
        total += one;
        index += 1;
    }
    assert(all.take(index as int) =~= all);
    total
}

fn retain_nearest(candidates: Vec<AdaptedCandidate>) -> (out: Vec<AdaptedCandidate>)
    ensures
        views(out@) == nearest(views(candidates@)),
{
    let ghost all = views(candidates@);
    let mut best: usize = 0;
    let mut index: usize = 0;
    while index < candidates.len()
        invariant
            index <= candidates@.len(),
            all == views(candidates@),
            best == least(ranks(all.take(index as int))),
        decreases candidates@.len() - index,
    {
        let rank: usize = candidates[index].function.receiver_rank;
        proof {
            let next = ranks(all.take(index as int + 1));
            assert(next.drop_last() =~= ranks(all.take(index as int)));
            assert(next.last() == rank);
        }
        if index == 0 || rank < best {
            best = rank;
        }
        index += 1;
    }
    assert(all.take(index as int) =~= all);
    let ghost keep = |candidate: AdaptedCandidateView|
        candidate.function.receiver_rank == least(ranks(all));
    let ghost piece = |candidate: AdaptedCandidateView|
        if keep(candidate) {
            seq![candidate]
        } else {
            Seq::empty()
        };
    let mut rest = candidates;
    let mut out: Vec<AdaptedCandidate> = Vec::new();
    let ghost mut done: int = 0;
    proof {
        lemma_gathered_all(all, piece);
        assert(all.skip(0) =~= all);
    }
    while rest.len() > 0
        invariant
            0 <= done <= all.len(),
            best == least(ranks(all)),
            keep == (|candidate: AdaptedCandidateView|
                candidate.function.receiver_rank == least(ranks(all))),
            piece == (|candidate: AdaptedCandidateView|
                if keep(candidate) {
                    seq![candidate]
                } else {
                    Seq::empty()
                }),
            views(rest@) == all.skip(done),
            views(out@) == gathered(all.take(done), piece),
        decreases rest@.len(),
    {
        let ghost waiting = views(rest@);
        let candidate = rest.remove(0);
        proof {
            assert(waiting.len() > 0);
            assert(views(rest@) =~= waiting.skip(1));
            assert(waiting.skip(1) =~= all.skip(done + 1));
            assert(waiting[0] == all[done]);
            lemma_gathered_step(all, done, piece);
        }
        let ghost held = views(out@);
        if candidate.function.receiver_rank == best {
            out.push(candidate);
        }
        proof {
            assert(views(out@) =~= held + piece(all[done]));
            done = done + 1;
        }
    }
    assert(all.take(done) =~= all);
    out
}

fn retain_cheapest(candidates: Vec<AdaptedCandidate>) -> (out: Vec<AdaptedCandidate>)
    ensures
        views(out@) == cheapest(views(candidates@)),
{
    let ghost all = views(candidates@);
    let mut best: u128 = 0;
    let mut index: usize = 0;
    while index < candidates.len()
        invariant
            index <= candidates@.len(),
            all == views(candidates@),
            best == least(costs(all.take(index as int))),
        decreases candidates@.len() - index,
    {
        let price: u128 = wide_cost(&candidates[index].plan);
        proof {
            let next = costs(all.take(index as int + 1));
            assert(next.drop_last() =~= costs(all.take(index as int)));
            assert(next.last() == price);
        }
        if index == 0 || price < best {
            best = price;
        }
        index += 1;
    }
    assert(all.take(index as int) =~= all);
    let ghost keep = |candidate: AdaptedCandidateView| cost(candidate.plan) == least(costs(all));
    let ghost piece = |candidate: AdaptedCandidateView|
        if keep(candidate) {
            seq![candidate]
        } else {
            Seq::empty()
        };
    let mut rest = candidates;
    let mut out: Vec<AdaptedCandidate> = Vec::new();
    let ghost mut done: int = 0;
    proof {
        lemma_gathered_all(all, piece);
        assert(all.skip(0) =~= all);
    }
    while rest.len() > 0
        invariant
            0 <= done <= all.len(),
            best == least(costs(all)),
            keep == (|candidate: AdaptedCandidateView| cost(candidate.plan) == least(costs(all))),
            piece == (|candidate: AdaptedCandidateView|
                if keep(candidate) {
                    seq![candidate]
                } else {
                    Seq::empty()
                }),
            views(rest@) == all.skip(done),
            views(out@) == gathered(all.take(done), piece),
        decreases rest@.len(),
    {
        let ghost waiting = views(rest@);
        let candidate = rest.remove(0);
        proof {
            assert(waiting.len() > 0);
            assert(views(rest@) =~= waiting.skip(1));
            assert(waiting.skip(1) =~= all.skip(done + 1));
            assert(waiting[0] == all[done]);
            lemma_gathered_step(all, done, piece);
        }
        let ghost held = views(out@);
        if wide_cost(&candidate.plan) == best {
            out.push(candidate);
        }
        proof {
            assert(views(out@) =~= held + piece(all[done]));
            done = done + 1;
        }
    }
    assert(all.take(done) =~= all);
    out
}

fn is_same_shape(left: &AdaptedCandidate, right: &AdaptedCandidate) -> (same: bool)
    ensures
        same == same_shape(left@, right@),
{
    same_all(&left.function.semantic_params(), &right.function.semantic_params())
        && left.function.callable.ret.same(&right.function.callable.ret)
        && left.function.callable.suspend == right.function.callable.suspend
}

fn retain_distinct(candidates: Vec<AdaptedCandidate>) -> (out: Vec<AdaptedCandidate>)
    ensures
        views(out@) == distinct(views(candidates@)),
{
    let ghost all = views(candidates@);
    let mut rest = candidates;
    let mut out: Vec<AdaptedCandidate> = Vec::new();
    let ghost mut done: int = 0;
    assert(all.skip(0) =~= all);
    while rest.len() > 0
        invariant
            0 <= done <= all.len(),
            views(rest@) == all.skip(done),
            views(out@) == distinct(all.take(done)),
        decreases rest@.len(),
    {
        let ghost waiting = views(rest@);
        let candidate = rest.remove(0);
        proof {
            assert(waiting.len() > 0);
            assert(views(rest@) =~= waiting.skip(1));
            assert(waiting.skip(1) =~= all.skip(done + 1));
            assert(waiting[0] == all[done]);
            assert(all.take(done + 1).drop_last() =~= all.take(done));
        }
        let mut known = false;
        let mut index: usize = 0;
        while index < out.len()
            invariant
                index <= out@.len(),
                known == exists|k: int|
                    0 <= k < index && same_shape(#[trigger] views(out@)[k], candidate@),
            decreases out@.len() - index,
        {
            if is_same_shape(&out[index], &candidate) {
                assert(same_shape(views(out@)[index as int], candidate@));
                known = true;
            } else {
                assert(!same_shape(views(out@)[index as int], candidate@));
            }
            index += 1;
        }
        if !known {
            out.push(candidate);
        }
        proof {
            done = done + 1;
        }
    }
    assert(all.take(done) =~= all);
    out
}

fn is_dominated<O: ShapeOrder>(order: &O, candidates: &Vec<AdaptedCandidate>, index: usize) -> (dominated: bool)
    requires
        index < candidates@.len(),
    ensures
        dominated == !maximal(*order, views(candidates@), index as int),
{
    let ghost all = views(candidates@);
    let current = &candidates[index];
    let current_params = current.function.semantic_params();
    let mut other: usize = 0;
    while other < candidates.len()
        invariant
            other <= candidates@.len(),
            index < candidates@.len(),
            all == views(candidates@),
            current@ == all[index as int],
            views(current_params@) == current@.function.semantic_params(),
            forall|k: int|
                0 <= k < other && k != index ==> !dominates(
                    *order,
                    #[trigger] all[k],
                    all[index as int],
                ),
        decreases candidates@.len() - other,
    {
        if other != index {
            let rival = &candidates[other];
            let rival_params = rival.function.semantic_params();
            assert(rival@ == all[other as int]);
            if order.is_at_least_as_specific(
                &rival_params,
                &rival.function.callable.ret,
                &current_params,
                &current.function.callable.ret,
            ) && !order.is_at_least_as_specific(
                &current_params,
                &current.function.callable.ret,
                &rival_params,
                &rival.function.callable.ret,
            ) {
                assert(dominates(*order, all[other as int], all[index as int]));
                return true;
            }
        }
        other += 1;
    }
    false
}

/// Select an expected-shape instance reference from ordinary member candidates: the nearest to the
/// receiver, with the cheapest plan, and the only most specific among those.
pub fn select_adapted_bound_instance_candidate<A: Assignability, O: ShapeOrder>(
    source: &SymbolTable,
    overloads: &[FunctionInfo],
    expected: &FnSig,
    relation: &A,
    order: &O,
) -> (out: Option<AdaptedCandidate>)
    ensures
        ({
            let left = finalists(*source, views(overloads@), expected@, *relation);
            match out {
                Some(selected) => exists|index: int| #[trigger]
                    sole_maximal(*order, left, index) && selected@ == left[index],
                None => forall|index: int| !#[trigger] sole_maximal(*order, left, index),
            }
        }),
{
    let adaptable = adapt_all(source, overloads, expected, relation);
    let near = retain_nearest(adaptable);
    let cheap = retain_cheapest(near);
    let mut left = retain_distinct(cheap);
    let ghost all = views(left@);
    let mut sole: Option<usize> = None;
    let mut several = false;
    let mut index: usize = 0;
    while index < left.len()
        invariant
            index <= left@.len(),
            all == views(left@),
            match sole {
                Some(found) => found < index && maximal(*order, all, found as int),
                None => forall|k: int| 0 <= k < index ==> !#[trigger] maximal(*order, all, k),
            },
            several ==> exists|j: int, k: int|
                j != k && #[trigger] maximal(*order, all, j) && #[trigger] maximal(*order, all, k),
            !several && sole is Some ==> forall|k: int|
                0 <= k < index && #[trigger] maximal(*order, all, k) ==> k == sole->Some_0,
            several ==> sole is Some,
        decreases left@.len() - index,
    {
        if !is_dominated(order, &left, index) {
            match sole {
                Some(found) => {
                    assert(maximal(*order, all, found as int) && maximal(
                        *order,
                        all,
                        index as int,
                    ));
                    several = true;
                },
                None => {
                    sole = Some(index);
                },
            }
        }
        index += 1;
    }
    assert(all == finalists(*source, views(overloads@), expected@, *relation));
    match sole {
        Some(found) => {
            if several {
                assert forall|k: int| !#[trigger] sole_maximal(*order, all, k) by {
                    let (i, j) = choose|i: int, j: int|
                        i != j && #[trigger] maximal(*order, all, i) && #[trigger] maximal(
                            *order,
                            all,
                            j,
                        );
                    if sole_maximal(*order, all, k) {
                        assert(i == k);
                        assert(j == k);
                    }
                }
                None
            } else {
                assert(sole_maximal(*order, all, found as int));
                let selected = left.swap_remove(found);
                assert(selected@ == all[found as int]);
                Some(selected)
            }
        },
        None => {
            assert forall|k: int| !#[trigger] sole_maximal(*order, all, k) by {
                if maximal(*order, all, k) {
                    assert(0 <= k < all.len());
                }
            }
            None
        },
    }
}

proof fn lemma_distinct_among(candidates: Seq<AdaptedCandidateView>, wanted: AdaptedCandidateView)
    requires
        distinct(candidates).contains(wanted),
    ensures
        candidates.contains(wanted),
    decreases candidates.len(),
{
    if candidates.len() > 0 {
        let earlier = distinct(candidates.drop_last());
        let all = distinct(candidates);
        let k = choose|k: int| 0 <= k < all.len() && all[k] == wanted;
        if k < earlier.len() {
            assert(earlier[k] == wanted);
            lemma_distinct_among(candidates.drop_last(), wanted);
            let j = choose|j: int|
                0 <= j < candidates.drop_last().len() && candidates.drop_last()[j] == wanted;
            assert(candidates[j] == wanted);
        } else {
            assert(candidates[candidates.len() - 1] == wanted);
        }
    }
}

proof fn lemma_retained_among(
    candidates: Seq<AdaptedCandidateView>,
    keep: spec_fn(AdaptedCandidateView) -> bool,
    wanted: AdaptedCandidateView,
)
    requires
        retained(candidates, keep).contains(wanted),
    ensures
        candidates.contains(wanted),
{
    let piece = |candidate: AdaptedCandidateView|
        if keep(candidate) {
            seq![candidate]
        } else {
            Seq::empty()
        };
    lemma_gathered_origin(candidates, piece, wanted);
    let index = choose|index: int|
        0 <= index < candidates.len() && piece(#[trigger] candidates[index]).contains(wanted);
    assert(candidates[index] == wanted);
}

/// Every input that a right plan passes is one of the expected ones, so that it can be moved by one.
proof fn lemma_plan_can_shift<A: Assignability>(
    problem: PlanProblem<A>,
    plan: Seq<AdaptedRefArgumentView>,
    target: int,
    value: int,
)
    requires
        0 <= value <= problem.expected.len(),
        problem.expected.len() <= usize::MAX,
        problem.is_plan(plan, target, value),
    ensures
        can_shift(plan, 0, 1),
    decreases plan.len(),
{
    if plan.len() > 0 {
        let taken = PlanProblem::<A>::taken(plan[0]);
        lemma_plan_can_shift(problem, plan.skip(1), target + 1, value + taken);
        assert forall|k: int| 0 <= k < plan.len() implies argument_can_shift(
            #[trigger] plan[k],
            0,
            1,
        ) by {
            if k > 0 {
                assert(plan.skip(1)[k - 1] == plan[k]);
            }
        }
    }
}

/// The plan of a finalist can be moved by one input.
proof fn lemma_finalist_plan_fits<A: Assignability>(
    source: SymbolTable,
    overloads: Seq<FunctionInfoView>,
    expected: FnSigView,
    relation: A,
    index: int,
)
    requires
        0 <= index < finalists(source, overloads, expected, relation).len(),
        expected.params.len() <= usize::MAX,
        finalists(source, overloads, expected, relation)[index].function.semantic_params().len()
            <= usize::MAX,
    ensures
        can_shift(finalists(source, overloads, expected, relation)[index].plan, 0, 1),
{
    let all = adapted_all(source, overloads, expected, relation);
    let near = nearest(all);
    let cheap = cheapest(near);
    let wanted = finalists(source, overloads, expected, relation)[index];
    assert(distinct(cheap).contains(wanted));
    lemma_distinct_among(cheap, wanted);
    lemma_retained_among(
        near,
        |candidate: AdaptedCandidateView| cost(candidate.plan) == least(costs(near)),
        wanted,
    );
    lemma_retained_among(
        all,
        |candidate: AdaptedCandidateView| candidate.function.receiver_rank == least(ranks(all)),
        wanted,
    );
    let piece = |function: FunctionInfoView|
        optional(adapted(source, function, expected, relation));
    lemma_gathered_origin(overloads, piece, wanted);
    let at = choose|at: int|
        0 <= at < overloads.len() && piece(#[trigger] overloads[at]).contains(wanted);
    assert(adapted(source, overloads[at], expected, relation) == Some(wanted));
    let problem = PlanProblem {
        params: wanted.function.semantic_params(),
        sig: wanted.function.call_sig,
        expected: expected.params,
        relation,
    };
    a_found_plan_is_right(problem, 0, 0);
    lemma_plan_can_shift(problem, wanted.plan, 0, 0);
}

/// The shape that a reference's own inputs have: for an unbound one, without the dispatch receiver.
pub open spec fn method_shape(unbound: bool, expected: FnSigView) -> FnSigView {
    if unbound {
        FnSigView { params: expected.params.skip(1), has_receiver: false, ..expected }
    } else {
        expected
    }
}

/// Select an adapted instance reference. For an unbound reference the leading contextual input
/// supplies the dispatch receiver, and the returned plan owns only the declared value parameters: its
/// input indexes count from behind that receiver.
pub fn select_adapted_instance_candidate<A: Assignability, O: ShapeOrder>(
    source: &SymbolTable,
    overloads: &[FunctionInfo],
    unbound_receiver: Option<&Ty>,
    expected: &FnSig,
    relation: &A,
    order: &O,
) -> (out: Option<AdaptedCandidate>)
    ensures
        match unbound_receiver {
            None => ({
                let left = finalists(*source, views(overloads@), expected@, *relation);
                match out {
                    Some(selected) => exists|index: int| #[trigger]
                        sole_maximal(*order, left, index) && selected@ == left[index],
                    None => forall|index: int| !#[trigger] sole_maximal(*order, left, index),
                }
            }),
            Some(receiver) => if expected@.params.len() == 0 || !input_fits(
                *relation,
                expected@.params[0],
                receiver@,
            ) {
                out is None
            } else {
                let left = finalists(
                    *source,
                    views(overloads@),
                    method_shape(true, expected@),
                    *relation,
                );
                match out {
                    Some(selected) => exists|index: int| #[trigger]
                        sole_maximal(*order, left, index) && selected@ == (AdaptedCandidateView {
                            plan: shifted(left[index].plan, 0, 1),
                            ..left[index]
                        }),
                    None => forall|index: int| !#[trigger] sole_maximal(*order, left, index),
                }
            },
        },
{
    let receiver = match unbound_receiver {
        Some(receiver) => receiver,
        None => {
            return select_adapted_bound_instance_candidate(
                source,
                overloads,
                expected,
                relation,
                order,
            );
        },
    };
    if expected.params.len() == 0 || !input_parameter_fits(
        relation,
        &expected.params[0],
        receiver,
    ) {
        return None;
    }
    let mut values = copy_all(&expected.params);
    let _ = values.remove(0);
    assert(views(values@) =~= expected@.params.skip(1));
    let method = FnSig {
        params: values,
        ret: expected.ret.clone(),
        context_count: expected.context_count,
        has_receiver: false,
        suspend: expected.suspend,
    };
    let ghost left = finalists(*source, views(overloads@), method@, *relation);
    match select_adapted_bound_instance_candidate(source, overloads, &method, relation, order) {
        Some(selected) => {
            let ghost index = choose|index: int| #[trigger]
                sole_maximal(*order, left, index) && selected@ == left[index];
            let mut selected = selected;
            let declared: usize = selected.function.callable.params.len();
            let inputs: usize = expected.params.len();
            proof {
                assert(selected@.function.semantic_params().len() <= declared);
                lemma_finalist_plan_fits(
                    *source,
                    views(overloads@),
                    method@,
                    *relation,
                    index,
                );
            }
            shift_plan_values(&mut selected.plan, 1);
            Some(selected)
        },
        None => None,
    }
}

} // verus!
