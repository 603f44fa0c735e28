//! Provider-neutral callable-reference specialization shared by body checking and compact
//! signature evaluation.

use vstd::prelude::*;

use crate::bindings::{
    subst_all, subst_types, ty_subst_keep_unbound, unified, unify_inferred_ty, Bindings,
};
use crate::libraries::{CallSig, CallSigView};
use crate::model::Modelled;
use crate::text::views;
use crate::types::{FnSig, FnSigView, Ty, TyView};

verus! {

broadcast use {crate::text::group_views, crate::types::group_ty_views};

/// Which types are accepted where another one is wanted.
pub trait Assignability {
    /// Whether a value of type `actual` is accepted where `target` is wanted.
    spec fn accepts(&self, actual: TyView, target: TyView) -> bool;

    fn is_assignable(&self, actual: &Ty, target: &Ty) -> (yes: bool)
        ensures
            yes == self.accepts(actual@, target@),
    ;
}

/// A relation listed pair by pair: beside those pairs, a type is accepted where it itself is wanted.
#[derive(Debug)]
pub struct AssignablePairs {
    pub pairs: Vec<(Ty, Ty)>,
}

impl Assignability for AssignablePairs {
    open spec fn accepts(&self, actual: TyView, target: TyView) -> bool {
        actual == target || exists|k: int|
            0 <= k < self.pairs@.len() && (#[trigger] self.pairs@[k]).0@ == actual
                && self.pairs@[k].1@ == target
    }

    fn is_assignable(&self, actual: &Ty, target: &Ty) -> (yes: bool) {
        if *actual == *target {
            return true;
        }
        let mut index: usize = 0;
        while index < self.pairs.len()
            invariant
                index <= self.pairs@.len(),
                forall|k: int|
                    0 <= k < index ==> !((#[trigger] self.pairs@[k]).0@ == actual@
                        && self.pairs@[k].1@ == target@),
            decreases self.pairs@.len() - index,
        {
            if self.pairs[index].0 == *actual && self.pairs[index].1 == *target {
                return true;
            }
            index += 1;
        }
        false
    }
}

/// What the adapter of a callable reference passes for one declared parameter.
#[derive(Debug)]
pub enum AdaptedRefArgument {
    /// The adapter's input with this index.
    Value(usize),
    /// The default value.
    Default,
    /// The adapter's inputs with these indexes: one array for all of the parameter, or its elements.
    Vararg { values: Vec<usize>, whole_array: bool },
}

/// The model of an [`AdaptedRefArgument`].
pub enum AdaptedRefArgumentView {
    Value(usize),
    Default,
    Vararg { values: Seq<usize>, whole_array: bool },
}

impl View for AdaptedRefArgument {
    type V = AdaptedRefArgumentView;

    open spec fn view(&self) -> AdaptedRefArgumentView {
        match self {
            AdaptedRefArgument::Value(value) => AdaptedRefArgumentView::Value(*value),
            AdaptedRefArgument::Default => AdaptedRefArgumentView::Default,
            AdaptedRefArgument::Vararg { values, whole_array } => AdaptedRefArgumentView::Vararg {
                values: values@,
                whole_array: *whole_array,
            },
        }
    }
}

impl AdaptedRefArgument {
    /// A copy of the argument.
    pub fn duplicate(&self) -> (copy: AdaptedRefArgument)
        ensures
            copy@ == self@,
    {
        match self {
            AdaptedRefArgument::Value(value) => AdaptedRefArgument::Value(*value),
            AdaptedRefArgument::Default => AdaptedRefArgument::Default,
            AdaptedRefArgument::Vararg { values, whole_array } => AdaptedRefArgument::Vararg {
                values: crate::model::copy_plain(values),
                whole_array: *whole_array,
            },
        }
    }
}

/// Whether one contextual input slot may be supplied to a declared input. Function inputs are
/// contravariant: a concrete contextual input must be accepted by the declaration. A contextual
/// type parameter is an inference slot, so its upper bound is tested.
pub open spec fn input_fits<A: Assignability>(relation: A, expected: TyView, target: TyView) -> bool {
    match (expected.non_null(), target.non_null()) {
        (TyView::TyParam(_, bound), _) => relation.accepts(target, *bound),
        (_, TyView::TyParam(_, bound)) => relation.accepts(expected, *bound),
        _ => relation.accepts(expected, target),
    }
}

pub fn input_parameter_fits<A: Assignability>(relation: &A, expected: &Ty, target: &Ty) -> (fits: bool)
    ensures
        fits == input_fits(*relation, expected@, target@),
{
    match (expected.non_null(), target.non_null()) {
        (Ty::TyParam(_, bound), _) => relation.is_assignable(target, bound),
        (_, Ty::TyParam(_, bound)) => relation.is_assignable(expected, bound),
        _ => relation.is_assignable(expected, target),
    }
}

/// Whether one contextual input may be the whole array of a vararg parameter.
pub open spec fn whole_array_fits<A: Assignability>(relation: A, actual: TyView, target: TyView) -> bool {
    input_fits(relation, actual, target) || (actual.is_reference_array()
        && target.is_reference_array() && match (actual.array_read_elem(), target.array_read_elem()) {
        (Some(a), Some(t)) => input_fits(relation, a, t),
        _ => false,
    })
}

fn whole_vararg_array_fits<A: Assignability>(relation: &A, actual: &Ty, target: &Ty) -> (fits: bool)
    ensures
        fits == whole_array_fits(*relation, actual@, target@),
{
    if input_parameter_fits(relation, actual, target) {
        return true;
    }
    if !actual.is_reference_array() || !target.is_reference_array() {
        return false;
    }
    match (actual.array_read_elem(), target.array_read_elem()) {
        (Some(a), Some(t)) => input_parameter_fits(relation, &a, &t),
        _ => false,
    }
}

/// What a plan is made from.
pub struct PlanProblem<A: Assignability> {
    pub params: Seq<TyView>,
    pub sig: CallSigView,
    pub expected: Seq<TyView>,
    pub relation: A,
}

/// The indexes from `start` on.
pub open spec fn index_run(start: int, count: nat) -> Seq<usize> {
    Seq::new(count, |i: int| (start + i) as usize)
}

impl<A: Assignability> PlanProblem<A> {
    /// Whether the inputs from `start` on each fit the element of a vararg parameter.
    pub open spec fn elements_fit(self, element: TyView, start: int, count: int) -> bool {
        forall|k: int|
            start <= k < start + count ==> input_fits(
                self.relation,
                #[trigger] self.expected[k],
                element,
            )
    }

    /// The argument in front of a plan for the parameters behind it.
    pub open spec fn in_front(
        argument: AdaptedRefArgumentView,
        rest: Option<Seq<AdaptedRefArgumentView>>,
    ) -> Option<Seq<AdaptedRefArgumentView>> {
        match rest {
            Some(plan) => Some(seq![argument] + plan),
            None => None,
        }
    }

    /// The argument that stands for no input of a vararg parameter.
    pub open spec fn empty_vararg(self, target: int) -> AdaptedRefArgumentView {
        if self.sig.has_default(target) {
            AdaptedRefArgumentView::Default
        } else {
            AdaptedRefArgumentView::Vararg { values: Seq::empty(), whole_array: false }
        }
    }

    /// The first plan for the parameters from `target` on and the inputs from `value` on. An input
    /// is preferred to a default, a whole array to elements, and more elements to fewer.
    pub open spec fn plan_from(self, target: int, value: int) -> Option<Seq<AdaptedRefArgumentView>>
        decreases self.params.len() - target, 1nat, 0nat,
    {
        if target >= self.params.len() {
            if value == self.expected.len() {
                Some(Seq::empty())
            } else {
                None
            }
        } else if self.sig.vararg_index == Some(target as usize) {
            match self.params[target].array_elem() {
                None => None,
                Some(element) => {
                    let whole = if value < self.expected.len() && whole_array_fits(
                        self.relation,
                        self.expected[value],
                        self.params[target],
                    ) {
                        Self::in_front(
                            AdaptedRefArgumentView::Vararg {
                                values: index_run(value, 1),
                                whole_array: true,
                            },
                            self.plan_from(target + 1, value + 1),
                        )
                    } else {
                        None
                    };
                    if whole is Some {
                        whole
                    } else {
                        let collected = self.collected_from(
                            target,
                            value,
                            element,
                            (self.expected.len() - value) as nat,
                        );
                        if collected is Some {
                            collected
                        } else {
                            Self::in_front(
                                self.empty_vararg(target),
                                self.plan_from(target + 1, value),
                            )
                        }
                    }
                },
            }
        } else {
            let direct = if value < self.expected.len() && input_fits(
                self.relation,
                self.expected[value],
                self.params[target],
            ) {
                Self::in_front(
                    AdaptedRefArgumentView::Value(value as usize),
                    self.plan_from(target + 1, value + 1),
                )
            } else {
                None
            };
            if direct is Some {
                direct
            } else if self.sig.has_default(target) {
                Self::in_front(AdaptedRefArgumentView::Default, self.plan_from(target + 1, value))
            } else {
                None
            }
        }
    }

    /// The first plan that collects at most `count` inputs, but at least one, as elements.
    pub open spec fn collected_from(
        self,
        target: int,
        value: int,
        element: TyView,
        count: nat,
    ) -> Option<Seq<AdaptedRefArgumentView>>
        decreases self.params.len() - target, 0nat, count,
    {
        if count == 0 || target >= self.params.len() {
            None
        } else {
            let rest = if self.elements_fit(element, value, count as int) {
                self.plan_from(target + 1, value + count)
            } else {
                None
            };
            if rest is Some {
                Self::in_front(
                    AdaptedRefArgumentView::Vararg {
                        values: index_run(value, count),
                        whole_array: false,
                    },
                    rest,
                )
            } else {
                self.collected_from(target, value, element, (count - 1) as nat)
            }
        }
    }

    /// How many inputs an argument takes.
    pub open spec fn taken(argument: AdaptedRefArgumentView) -> int {
        match argument {
            AdaptedRefArgumentView::Value(_) => 1,
            AdaptedRefArgumentView::Default => 0,
            AdaptedRefArgumentView::Vararg { values, .. } => values.len() as int,
        }
    }

    /// Whether an argument for the parameter `target` is right where the inputs from `value` on are
    /// left.
    pub open spec fn argument_fits(self, argument: AdaptedRefArgumentView, target: int, value: int) -> bool {
        match argument {
            AdaptedRefArgumentView::Value(input) => input == value && value < self.expected.len()
                && self.sig.vararg_index != Some(target as usize) && input_fits(
                self.relation,
                self.expected[value],
                self.params[target],
            ),
            AdaptedRefArgumentView::Default => self.sig.has_default(target) && (
            self.sig.vararg_index == Some(target as usize) ==> self.params[target].array_elem()
                is Some),
            AdaptedRefArgumentView::Vararg { values, whole_array } => self.sig.vararg_index == Some(
                target as usize,
            ) && values == index_run(value, values.len()) && value + values.len()
                <= self.expected.len() && match self.params[target].array_elem() {
                None => false,
                Some(element) => if whole_array {
                    values.len() == 1 && whole_array_fits(
                        self.relation,
                        self.expected[value],
                        self.params[target],
                    )
                } else {
                    self.elements_fit(element, value, values.len() as int) && (values.len() == 0
                        ==> !self.sig.has_default(target))
                },
            },
        }
    }

    /// Whether a plan gives every parameter from `target` on a right argument and uses the inputs
    /// from `value` on, each once and in order.
    pub open spec fn is_plan(self, plan: Seq<AdaptedRefArgumentView>, target: int, value: int) -> bool
        decreases plan.len(),
    {
        if plan.len() == 0 {
            target >= self.params.len() && value == self.expected.len()
        } else {
            target < self.params.len() && self.argument_fits(plan[0], target, value)
                && self.is_plan(plan.skip(1), target + 1, value + Self::taken(plan[0]))
        }
    }
}

/// A plan that is found is right: it gives every parameter an argument that fits, and passes each
/// input once and in order.
pub proof fn a_found_plan_is_right<A: Assignability>(problem: PlanProblem<A>, target: int, value: int)
    requires
        0 <= target,
        0 <= value <= problem.expected.len(),
        problem.expected.len() <= usize::MAX,
        problem.params.len() <= usize::MAX,
    ensures
        problem.plan_from(target, value) matches Some(plan) ==> problem.is_plan(plan, target, value),
    decreases problem.params.len() - target, 1nat, 0nat,
{
    if target < problem.params.len() {
        if problem.sig.vararg_index == Some(target as usize) {
            if let Some(element) = problem.params[target].array_elem() {
                if value < problem.expected.len() {
                    a_found_plan_is_right(problem, target + 1, value + 1);
                    if let Some(rest) = problem.plan_from(target + 1, value + 1) {
                        lemma_front_of_plan(
                            problem,
                            AdaptedRefArgumentView::Vararg {
                                values: index_run(value, 1),
                                whole_array: true,
                            },
                            rest,
                            target,
                            value,
                        );
                    }
                }
                lemma_collected_plan_is_right(
                    problem,
                    target,
                    value,
                    element,
                    (problem.expected.len() - value) as nat,
                );
                a_found_plan_is_right(problem, target + 1, value);
                if let Some(rest) = problem.plan_from(target + 1, value) {
                    assert(index_run(value, 0) =~= Seq::empty());
                    lemma_front_of_plan(problem, problem.empty_vararg(target), rest, target, value);
                }
            }
        } else {
            if value < problem.expected.len() {
                a_found_plan_is_right(problem, target + 1, value + 1);
                if let Some(rest) = problem.plan_from(target + 1, value + 1) {
                    lemma_front_of_plan(
                        problem,
                        AdaptedRefArgumentView::Value(value as usize),
                        rest,
                        target,
                        value,
                    );
                }
            }
            a_found_plan_is_right(problem, target + 1, value);
            if let Some(rest) = problem.plan_from(target + 1, value) {
                lemma_front_of_plan(problem, AdaptedRefArgumentView::Default, rest, target, value);
            }
        }
    }
}

proof fn lemma_front_of_plan<A: Assignability>(
    problem: PlanProblem<A>,
    argument: AdaptedRefArgumentView,
    rest: Seq<AdaptedRefArgumentView>,
    target: int,
    value: int,
)
    ensures
        problem.is_plan(seq![argument] + rest, target, value) == (target < problem.params.len()
            && problem.argument_fits(argument, target, value) && problem.is_plan(
            rest,
            target + 1,
            value + PlanProblem::<A>::taken(argument),
        )),
{
    let plan = seq![argument] + rest;
    assert(plan.skip(1) =~= rest);
    assert(plan[0] == argument);
}

proof fn lemma_collected_plan_is_right<A: Assignability>(
    problem: PlanProblem<A>,
    target: int,
    value: int,
    element: TyView,
    count: nat,
)
    requires
        0 <= target < problem.params.len(),
        0 <= value,
        value + count <= problem.expected.len(),
        problem.expected.len() <= usize::MAX,
        problem.params.len() <= usize::MAX,
        problem.sig.vararg_index == Some(target as usize),
        problem.params[target].array_elem() == Some(element),
    ensures
        problem.collected_from(target, value, element, count) matches Some(plan)
            ==> problem.is_plan(plan, target, value),
    decreases problem.params.len() - target, 0nat, count,
{
    if count > 0 {
        a_found_plan_is_right(problem, target + 1, value + count);
        if let Some(rest) = problem.plan_from(target + 1, value + count) {
            lemma_front_of_plan(
                problem,
                AdaptedRefArgumentView::Vararg {
                    values: index_run(value, count),
                    whole_array: false,
                },
                rest,
                target,
                value,
            );
        }
        lemma_collected_plan_is_right(problem, target, value, element, (count - 1) as nat);
    }
}

/// Where there is a right plan, one is found.
pub proof fn a_plan_is_found_where_there_is_one<A: Assignability>(
    problem: PlanProblem<A>,
    plan: Seq<AdaptedRefArgumentView>,
    target: int,
    value: int,
)
    requires
        0 <= target,
        0 <= value <= problem.expected.len(),
        problem.expected.len() <= usize::MAX,
        problem.params.len() <= usize::MAX,
        problem.is_plan(plan, target, value),
    ensures
        problem.plan_from(target, value) is Some,
    decreases problem.params.len() - target, 1nat,
{
    if plan.len() > 0 {
        let argument = plan[0];
        let next = value + PlanProblem::<A>::taken(argument);
        a_plan_is_found_where_there_is_one(problem, plan.skip(1), target + 1, next);
        if let AdaptedRefArgumentView::Vararg { values, whole_array } = argument {
            if !whole_array && values.len() > 0 {
                let element = problem.params[target].array_elem()->Some_0;
                lemma_collection_is_found(
                    problem,
                    target,
                    value,
                    element,
                    values.len(),
                    (problem.expected.len() - value) as nat,
                );
            }
        }
    }
}

proof fn lemma_collection_is_found<A: Assignability>(
    problem: PlanProblem<A>,
    target: int,
    value: int,
    element: TyView,
    wanted: nat,
    count: nat,
)
    requires
        0 <= target < problem.params.len(),
        0 < wanted <= count,
        problem.elements_fit(element, value, wanted as int),
        problem.plan_from(target + 1, value + wanted) is Some,
    ensures
        problem.collected_from(target, value, element, count) is Some,
    decreases count,
{
    if count > wanted {
        lemma_collection_is_found(problem, target, value, element, wanted, (count - 1) as nat);
    }
}

/// Whether one argument for a parameter comes before another in the order of preference: an array
/// that is passed whole before everything else, and what takes more inputs before what takes fewer.
/// So an input is preferred to a default, and more elements to fewer.
pub open spec fn preferred(first: AdaptedRefArgumentView, second: AdaptedRefArgumentView) -> bool {
    match (first, second) {
        (_, AdaptedRefArgumentView::Vararg { whole_array: true, .. }) => false,
        (AdaptedRefArgumentView::Vararg { whole_array: true, .. }, _) => true,
        (AdaptedRefArgumentView::Value(_), second) => second == AdaptedRefArgumentView::Default,
        (AdaptedRefArgumentView::Default, _) => false,
        (
            AdaptedRefArgumentView::Vararg { values, .. },
            AdaptedRefArgumentView::Vararg { values: others, .. },
        ) => values.len() > others.len(),
        (AdaptedRefArgumentView::Vararg { values, .. }, _) => values.len() > 0,
    }
}

/// Whether a plan is another one, or comes before it: where the two first differ it has the argument
/// that is preferred.
pub open spec fn comes_first(
    plan: Seq<AdaptedRefArgumentView>,
    other: Seq<AdaptedRefArgumentView>,
) -> bool {
    ||| plan == other
    ||| exists|k: int|
        0 <= k < plan.len() && k < other.len() && plan.take(k) == other.take(k) && preferred(
            #[trigger] plan[k],
            other[k],
        )
}

proof fn lemma_first_in_front(
    argument: AdaptedRefArgumentView,
    plan: Seq<AdaptedRefArgumentView>,
    other: Seq<AdaptedRefArgumentView>,
)
    requires
        comes_first(plan, other),
    ensures
        comes_first(seq![argument] + plan, seq![argument] + other),
{
    let left = seq![argument] + plan;
    let right = seq![argument] + other;
    if plan != other {
        let k = choose|k: int|
            0 <= k < plan.len() && k < other.len() && plan.take(k) == other.take(k) && preferred(
                #[trigger] plan[k],
                other[k],
            );
        assert(left.take(k + 1) =~= seq![argument] + plan.take(k));
        assert(right.take(k + 1) =~= seq![argument] + other.take(k));
        assert(left[k + 1] == plan[k] && right[k + 1] == other[k]);
    }
}

proof fn lemma_preferred_in_front(
    plan: Seq<AdaptedRefArgumentView>,
    other: Seq<AdaptedRefArgumentView>,
)
    requires
        plan.len() > 0,
        other.len() > 0,
        preferred(plan[0], other[0]),
    ensures
        comes_first(plan, other),
{
    assert(plan.take(0) =~= other.take(0));
    assert(preferred(plan[0], other[0]));
}

/// The plan that is found comes before every other right plan: no right plan passes an input to a
/// parameter for which the found one, the same up to there, takes a default.
pub proof fn the_found_plan_comes_first<A: Assignability>(
    problem: PlanProblem<A>,
    plan: Seq<AdaptedRefArgumentView>,
    target: int,
    value: int,
)
    requires
        0 <= target,
        0 <= value <= problem.expected.len(),
        problem.expected.len() <= usize::MAX,
        problem.params.len() <= usize::MAX,
        problem.is_plan(plan, target, value),
    ensures
        problem.plan_from(target, value) matches Some(found) && comes_first(found, plan),
    decreases problem.params.len() - target, 1nat,
{
    a_plan_is_found_where_there_is_one(problem, plan, target, value);
    a_found_plan_is_right(problem, target, value);
    let found = problem.plan_from(target, value)->0;
    if plan.len() > 0 {
        let argument = plan[0];
        let rest = plan.skip(1);
        let next = value + PlanProblem::<A>::taken(argument);
        assert(plan =~= seq![argument] + rest);
        the_found_plan_comes_first(problem, rest, target + 1, next);
        let behind = problem.plan_from(target + 1, next)->0;
        lemma_first_in_front(argument, behind, rest);
        lemma_front_of_found(problem, target, value);
        if found[0] != argument {
            if let AdaptedRefArgumentView::Vararg { values, whole_array } = argument {
                if !whole_array && values.len() > 0 {
                    lemma_more_collected(
                        problem,
                        target,
                        value,
                        problem.params[target].array_elem()->0,
                        values.len(),
                        (problem.expected.len() - value) as nat,
                    );
                }
            }
            lemma_preferred_in_front(found, plan);
        }
    } else {
        assert(found =~= plan);
    }
}

proof fn lemma_front_of_found<A: Assignability>(problem: PlanProblem<A>, target: int, value: int)
    requires
        0 <= target < problem.params.len(),
        0 <= value <= problem.expected.len(),
        problem.expected.len() <= usize::MAX,
        problem.params.len() <= usize::MAX,
        problem.plan_from(target, value) is Some,
    ensures
        ({
            let found = problem.plan_from(target, value)->0;
            &&& found.len() > 0
            &&& problem.plan_from(target + 1, value + PlanProblem::<A>::taken(found[0])) is Some
            &&& found == seq![found[0]] + problem.plan_from(
                target + 1,
                value + PlanProblem::<A>::taken(found[0]),
            )->0
            &&& problem.sig.vararg_index != Some(target as usize) ==> found[0]
                == AdaptedRefArgumentView::Value(value as usize) || found[0]
                == AdaptedRefArgumentView::Default
        }),
{
    let found = problem.plan_from(target, value)->0;
    if problem.sig.vararg_index == Some(target as usize) {
        let element = problem.params[target].array_elem()->0;
        lemma_collected_first(
            problem,
            target,
            value,
            element,
            (problem.expected.len() - value) as nat,
        );
        assert(found[0] == AdaptedRefArgumentView::Vararg {
            values: index_run(value, 1),
            whole_array: true,
        } || found[0] == problem.empty_vararg(target) || problem.collected_from(
            target,
            value,
            element,
            (problem.expected.len() - value) as nat,
        ) is Some);
    } else {
        assert(found[0] == AdaptedRefArgumentView::Value(value as usize) || found[0]
            == AdaptedRefArgumentView::Default);
    }
}

proof fn lemma_collected_first<A: Assignability>(
    problem: PlanProblem<A>,
    target: int,
    value: int,
    element: TyView,
    count: nat,
)
    ensures
        problem.collected_from(target, value, element, count) matches Some(plan) ==> plan.len() > 0
            && (plan[0] matches AdaptedRefArgumentView::Vararg { values, whole_array }
            && !whole_array && 0 < values.len() <= count && values == index_run(value, values.len())
            && (problem.plan_from(target + 1, value + values.len()) matches Some(rest) && plan
            == seq![plan[0]] + rest)),
    decreases count,
{
    if count > 0 {
        lemma_collected_first(problem, target, value, element, (count - 1) as nat);
    }
}

proof fn lemma_more_collected<A: Assignability>(
    problem: PlanProblem<A>,
    target: int,
    value: int,
    element: TyView,
    wanted: nat,
    count: nat,
)
    requires
        0 <= target < problem.params.len(),
        0 < wanted <= count,
        problem.elements_fit(element, value, wanted as int),
        problem.plan_from(target + 1, value + wanted) is Some,
    ensures
        problem.collected_from(target, value, element, count) matches Some(plan) && plan.len() > 0
            && (plan[0] matches AdaptedRefArgumentView::Vararg { values, .. } && values.len()
            >= wanted),
    decreases count,
{
    lemma_collected_first(problem, target, value, element, count);
    if count > wanted {
        lemma_more_collected(problem, target, value, element, wanted, (count - 1) as nat);
    }
}

/// The inputs that a plan passes, in the order of the parameters.
pub open spec fn passed_inputs(plan: Seq<AdaptedRefArgumentView>) -> Seq<usize>
    decreases plan.len(),
{
    if plan.len() == 0 {
        Seq::empty()
    } else {
        (match plan[0] {
            AdaptedRefArgumentView::Value(value) => seq![value],
            AdaptedRefArgumentView::Default => Seq::empty(),
            AdaptedRefArgumentView::Vararg { values, .. } => values,
        }) + passed_inputs(plan.skip(1))
    }
}

/// A right plan passes the inputs one after the other, none twice and none left out.
pub proof fn a_plan_passes_each_input_once<A: Assignability>(
    problem: PlanProblem<A>,
    plan: Seq<AdaptedRefArgumentView>,
    target: int,
    value: int,
)
    requires
        0 <= value <= problem.expected.len(),
        problem.expected.len() <= usize::MAX,
        problem.is_plan(plan, target, value),
    ensures
        passed_inputs(plan) == index_run(value, (problem.expected.len() - value) as nat),
    decreases plan.len(),
{
    if plan.len() > 0 {
        let taken = PlanProblem::<A>::taken(plan[0]);
        a_plan_passes_each_input_once(problem, plan.skip(1), target + 1, value + taken);
    }
    assert(passed_inputs(plan) =~= index_run(value, (problem.expected.len() - value) as nat));
}

fn run_of(start: usize, count: usize) -> (values: Vec<usize>)
    requires
        start + count <= usize::MAX,
    ensures
        values@ == index_run(start as int, count as nat),
{
    let mut values: Vec<usize> = Vec::new();
    let mut index: usize = 0;
    while index < count
        invariant
            index <= count,
            start + count <= usize::MAX,
            values@ == index_run(start as int, index as nat),
        decreases count - index,
    {
        values.push(start + index);
        assert(values@ =~= index_run(start as int, (index + 1) as nat));
        index += 1;
    }
    values
}

struct Planner<'a, A: Assignability> {
    params: &'a [Ty],
    sig: &'a CallSig,
    expected: &'a [Ty],
    relation: &'a A,
}

impl<'a, A: Assignability> Planner<'a, A> {
    spec fn problem(self) -> PlanProblem<A> {
        PlanProblem {
            params: views(self.params@),
            sig: self.sig@,
            expected: views(self.expected@),
            relation: *self.relation,
        }
    }

    fn fits_all(&self, element: &Ty, start: usize, count: usize) -> (fits: bool)
        requires
            start + count <= self.expected@.len(),
        ensures
            fits == self.problem().elements_fit(element@, start as int, count as int),
    {
        let length: usize = self.expected.len();
        let mut index: usize = start;
        while index < start + count
            invariant
                start <= index <= start + count,
                start + count <= length,
                length == self.expected@.len(),
                forall|k: int|
                    start <= k < index ==> input_fits(
                        self.problem().relation,
                        #[trigger] self.problem().expected[k],
                        element@,
                    ),
            decreases start + count - index,
        {
            if !input_parameter_fits(self.relation, &self.expected[index], element) {
                assert(!input_fits(
                    self.problem().relation,
                    self.problem().expected[index as int],
                    element@,
                ));
                return false;
            }
            index += 1;
        }
        true
    }

    /// Put the first plan for what is left behind the plan so far.
    fn map_from(&self, target: usize, value: usize, out: &mut Vec<AdaptedRefArgument>) -> (found: bool)
        requires
            target <= self.params@.len(),
            value <= self.expected@.len(),
        ensures
            match self.problem().plan_from(target as int, value as int) {
                Some(plan) => found && views(final(out)@) == views(old(out)@) + plan,
                None => !found && final(out)@ == old(out)@,
            },
        decreases self.params@.len() - target, 1nat,
    {
        let ghost problem = self.problem();
        let ghost before = out@;
        if target == self.params.len() {
            assert(views(before) + Seq::<AdaptedRefArgumentView>::empty() =~= views(before));
            return value == self.expected.len();
        }
        if self.sig.vararg_index == Some(target) {
            let element = match self.params[target].array_elem() {
                Some(element) => element,
                None => {
                    return false;
                },
            };
            if value < self.expected.len() && whole_vararg_array_fits(
                self.relation,
                &self.expected[value],
                &self.params[target],
            ) {
                out.push(
                    AdaptedRefArgument::Vararg { values: run_of(value, 1), whole_array: true },
                );
                if self.map_from(target + 1, value + 1, out) {
                    assert(views(out@) =~= views(before) + problem.plan_from(
                        target as int,
                        value as int,
                    )->Some_0);
                    return true;
                }
                out.pop();
                assert(out@ =~= before);
            }
            if self.collect_from(target, value, &element, self.expected.len() - value, out) {
                return true;
            }
            if self.sig.param_has_default(target) {
                out.push(AdaptedRefArgument::Default);
            } else {
                out.push(AdaptedRefArgument::Vararg { values: Vec::new(), whole_array: false });
            }
            if self.map_from(target + 1, value, out) {
                assert(views(out@) =~= views(before) + problem.plan_from(
                    target as int,
                    value as int,
                )->Some_0);
                return true;
            }
            out.pop();
            assert(out@ =~= before);
            return false;
        }
        if value < self.expected.len() && input_parameter_fits(
            self.relation,
            &self.expected[value],
            &self.params[target],
        ) {
            out.push(AdaptedRefArgument::Value(value));
            if self.map_from(target + 1, value + 1, out) {
                assert(views(out@) =~= views(before) + problem.plan_from(
                    target as int,
                    value as int,
                )->Some_0);
                return true;
            }
            out.pop();
            assert(out@ =~= before);
        }
        if self.sig.param_has_default(target) {
            out.push(AdaptedRefArgument::Default);
            if self.map_from(target + 1, value, out) {
                assert(views(out@) =~= views(before) + problem.plan_from(
                    target as int,
                    value as int,
                )->Some_0);
                return true;
            }
            out.pop();
            assert(out@ =~= before);
        }
        false
    }

    fn collect_from(
        &self,
        target: usize,
        value: usize,
        element: &Ty,
        available: usize,
        out: &mut Vec<AdaptedRefArgument>,
    ) -> (found: bool)
        requires
            target < self.params@.len(),
            value + available <= self.expected@.len(),
        ensures
            match self.problem().collected_from(
                target as int,
                value as int,
                element@,
                available as nat,
            ) {
                Some(plan) => found && views(final(out)@) == views(old(out)@) + plan,
                None => !found && final(out)@ == old(out)@,
            },
        decreases self.params@.len() - target, 0nat,
    {
        let ghost problem = self.problem();
        let ghost before = out@;
        let parameters: usize = self.params.len();
        let inputs: usize = self.expected.len();
        let mut count: usize = available;
        while count > 0
            invariant
                count <= available,
                target < parameters,
                parameters == self.params@.len(),
                value + available <= inputs,
                inputs == self.expected@.len(),
                problem == self.problem(),
                out@ == before,
                before == old(out)@,
                problem.collected_from(target as int, value as int, element@, count as nat)
                    == problem.collected_from(
                    target as int,
                    value as int,
                    element@,
                    available as nat,
                ),
            decreases count,
        {
            if self.fits_all(element, value, count) {
                out.push(
                    AdaptedRefArgument::Vararg { values: run_of(value, count), whole_array: false },
                );
                if self.map_from(target + 1, value + count, out) {
                    assert(views(out@) =~= views(before) + problem.collected_from(
                        target as int,
                        value as int,
                        element@,
                        count as nat,
                    )->Some_0);
                    return true;
                }
                out.pop();
                assert(out@ =~= before);
            }
            count -= 1;
        }
        false
    }
}

/// Decide which contextual input supplies which declared parameter. The first plan in order of
/// preference is returned, or none where the inputs cannot be passed.
pub fn parameter_plan<A: Assignability>(
    params: &[Ty],
    call_sig: &CallSig,
    expected_params: &[Ty],
    relation: &A,
) -> (plan: Option<Vec<AdaptedRefArgument>>)
    ensures
        ({
            let problem = PlanProblem {
                params: views(params@),
                sig: call_sig@,
                expected: views(expected_params@),
                relation: *relation,
            };
            match plan {
                Some(found) => problem.plan_from(0, 0) == Some(views(found@)),
                None => problem.plan_from(0, 0) is None,
            }
        }),
{
    let planner = Planner { params, sig: call_sig, expected: expected_params, relation };
    let mut out: Vec<AdaptedRefArgument> = Vec::new();
    if planner.map_from(0, 0, &mut out) {
        assert(Seq::<AdaptedRefArgumentView>::empty() + planner.problem().plan_from(0, 0)->Some_0
            =~= planner.problem().plan_from(0, 0)->Some_0);
        Some(out)
    } else {
        None
    }
}

/// What one argument of a plan costs: an input nothing, an array passed whole a little, collected
/// elements more, a default most.
pub open spec fn argument_cost(argument: AdaptedRefArgumentView) -> nat {
    match argument {
        AdaptedRefArgumentView::Value(_) => 0,
        AdaptedRefArgumentView::Vararg { whole_array, .. } => if whole_array {
            1
        } else {
            10
        },
        AdaptedRefArgumentView::Default => 100,
    }
}

/// What a plan costs: the sum over its arguments.
pub open spec fn cost(plan: Seq<AdaptedRefArgumentView>) -> nat
    decreases plan.len(),
{
    if plan.len() == 0 {
        0
    } else {
        cost(plan.drop_last()) + argument_cost(plan.last())
    }
}

proof fn lemma_cost_bound(plan: Seq<AdaptedRefArgumentView>)
    ensures
        cost(plan) <= 100 * plan.len(),
    decreases plan.len(),
{
    if plan.len() > 0 {
        lemma_cost_bound(plan.drop_last());
    }
}

pub fn plan_cost(plan: &Vec<AdaptedRefArgument>) -> (total: usize)
    requires
        100 * plan@.len() <= usize::MAX,
    ensures
        total == cost(views(plan@)),
{
    let ghost all = views(plan@);
    let mut total: usize = 0;
    let mut index: usize = 0;
    while index < plan.len()
        invariant
            index <= plan@.len(),
            100 * plan@.len() <= usize::MAX,
            all == views(plan@),
            total == cost(all.take(index as int)),
            total <= 100 * index,
        decreases plan@.len() - index,
    {
        assert(all.take(index as int + 1).drop_last() =~= all.take(index as int));
        let one: usize = match &plan[index] {
            AdaptedRefArgument::Value(_) => 0,
            AdaptedRefArgument::Vararg { whole_array, .. } => if *whole_array {
                1
            } else {
                10
            },
            AdaptedRefArgument::Default => 100,
        };
        total += one;
        index += 1;
    }
    assert(all.take(index as int) =~= all);
    total
}

/// The cost of a plan is the cost of its parts together.
pub proof fn cost_is_additive(first: Seq<AdaptedRefArgumentView>, second: Seq<AdaptedRefArgumentView>)
    ensures
        cost(first + second) == cost(first) + cost(second),
    decreases second.len(),
{
    if second.len() == 0 {
        assert(first + second =~= first);
    } else {
        assert((first + second).drop_last() =~= first + second.drop_last());
        cost_is_additive(first, second.drop_last());
    }
}

/// Whether a plan passes the inputs from `offset` on, one to each parameter.
pub open spec fn identity_from(plan: Seq<AdaptedRefArgumentView>, offset: int) -> bool {
    forall|k: int|
        0 <= k < plan.len() ==> (#[trigger] plan[k] matches AdaptedRefArgumentView::Value(value)
            && value == k + offset)
}

pub fn plan_is_identity_from(plan: &Vec<AdaptedRefArgument>, value_offset: usize) -> (yes: bool)
    ensures
        yes == identity_from(views(plan@), value_offset as int),
{
    let ghost all = views(plan@);
    let mut index: usize = 0;
    while index < plan.len()
        invariant
            index <= plan@.len(),
            all == views(plan@),
            forall|k: int|
                0 <= k < index ==> (#[trigger] all[k] matches AdaptedRefArgumentView::Value(value)
                    && value == k + value_offset),
        decreases plan@.len() - index,
    {
        let right = match &plan[index] {
            AdaptedRefArgument::Value(value) => *value >= value_offset && *value - value_offset
                == index,
            _ => false,
        };
        if !right {
            assert(!(all[index as int] matches AdaptedRefArgumentView::Value(value) && value
                == index + value_offset));
            return false;
        }
        index += 1;
    }
    true
}

/// An input index, moved where it is at least `first`.
pub open spec fn shifted_value(value: usize, first: int, offset: int) -> usize {
    if value >= first {
        (value + offset) as usize
    } else {
        value
    }
}

/// An argument with its input indexes moved.
pub open spec fn shifted_argument(argument: AdaptedRefArgumentView, first: int, offset: int) -> AdaptedRefArgumentView {
    match argument {
        AdaptedRefArgumentView::Value(value) => AdaptedRefArgumentView::Value(
            shifted_value(value, first, offset),
        ),
        AdaptedRefArgumentView::Default => AdaptedRefArgumentView::Default,
        AdaptedRefArgumentView::Vararg { values, whole_array } => AdaptedRefArgumentView::Vararg {
            values: Seq::new(values.len(), |i: int| shifted_value(values[i], first, offset)),
            whole_array,
        },
    }
}

/// A plan with its input indexes from `first` on moved by `offset`.
pub open spec fn shifted(plan: Seq<AdaptedRefArgumentView>, first: int, offset: int) -> Seq<AdaptedRefArgumentView> {
    Seq::new(plan.len(), |i: int| shifted_argument(plan[i], first, offset))
}

/// Whether moving the input indexes of an argument stays within machine indexes.
pub open spec fn argument_can_shift(argument: AdaptedRefArgumentView, first: int, offset: int) -> bool {
    match argument {
        AdaptedRefArgumentView::Value(value) => value >= first ==> value + offset <= usize::MAX,
        AdaptedRefArgumentView::Default => true,
        AdaptedRefArgumentView::Vararg { values, .. } => forall|k: int|
            0 <= k < values.len() && (#[trigger] values[k]) >= first ==> values[k] + offset
                <= usize::MAX,
    }
}

/// Whether moving the input indexes of a plan stays within machine indexes.
pub open spec fn can_shift(plan: Seq<AdaptedRefArgumentView>, first: int, offset: int) -> bool {
    forall|k: int| 0 <= k < plan.len() ==> argument_can_shift(#[trigger] plan[k], first, offset)
}

fn shift_argument(argument: &AdaptedRefArgument, first_value: usize, offset: usize) -> (out: AdaptedRefArgument)
    requires
        argument_can_shift(argument@, first_value as int, offset as int),
    ensures
        out@ == shifted_argument(argument@, first_value as int, offset as int),
{
    match argument {
        AdaptedRefArgument::Value(value) => AdaptedRefArgument::Value(
            if *value >= first_value {
                *value + offset
            } else {
                *value
            },
        ),
        AdaptedRefArgument::Default => AdaptedRefArgument::Default,
        AdaptedRefArgument::Vararg { values, whole_array } => {
            let mut moved: Vec<usize> = Vec::new();
            let mut index: usize = 0;
            while index < values.len()
                invariant
                    index <= values@.len(),
                    forall|k: int|
                        0 <= k < values@.len() && (#[trigger] values@[k]) >= first_value
                            ==> values@[k] + offset <= usize::MAX,
                    moved@.len() == index,
                    forall|k: int|
                        0 <= k < index ==> moved@[k] == shifted_value(
                            values@[k],
                            first_value as int,
                            offset as int,
                        ),
                decreases values@.len() - index,
            {
                let value: usize = values[index];
                moved.push(
                    if value >= first_value {
                        value + offset
                    } else {
                        value
                    },
                );
                index += 1;
            }
            let out = AdaptedRefArgument::Vararg { values: moved, whole_array: *whole_array };
            assert(out@->values =~= shifted_argument(
                argument@,
                first_value as int,
                offset as int,
            )->values);
            out
        },
    }
}

/// Move the input indexes of a plan from `first_value` on by `offset`.
pub fn shift_plan_values_from(plan: &mut Vec<AdaptedRefArgument>, first_value: usize, offset: usize)
    requires
        can_shift(views(old(plan)@), first_value as int, offset as int),
    ensures
        views(final(plan)@) == shifted(views(old(plan)@), first_value as int, offset as int),
{
    let ghost before = views(plan@);
    let mut index: usize = 0;
    while index < plan.len()
        invariant
            index <= plan@.len(),
            plan@.len() == before.len(),
            can_shift(before, first_value as int, offset as int),
            forall|k: int|
                0 <= k < index ==> plan@[k]@ == shifted_argument(
                    before[k],
                    first_value as int,
                    offset as int,
                ),
            forall|k: int| index <= k < before.len() ==> plan@[k]@ == before[k],
        decreases plan@.len() - index,
    {
        assert(argument_can_shift(before[index as int], first_value as int, offset as int));
        let moved = shift_argument(&plan[index], first_value, offset);
        plan.set(index, moved);
        index += 1;
    }
    assert(views(plan@) =~= shifted(before, first_value as int, offset as int));
}

/// Move every input index of a plan by `offset`.
pub fn shift_plan_values(plan: &mut Vec<AdaptedRefArgument>, offset: usize)
    requires
        can_shift(views(old(plan)@), 0, offset as int),
    ensures
        views(final(plan)@) == shifted(views(old(plan)@), 0, offset as int),
{
    shift_plan_values_from(plan, 0, offset);
}

/// Moving inputs twice is moving them once by the sum.
pub proof fn shifts_add_up(plan: Seq<AdaptedRefArgumentView>, first: int, one: int, two: int)
    requires
        0 <= one,
        0 <= two,
        can_shift(plan, first, one + two),
    ensures
        shifted(shifted(plan, first, one), first, two) == shifted(plan, first, one + two),
{
    assert forall|k: int| 0 <= k < plan.len() implies shifted_argument(
        shifted_argument(plan[k], first, one),
        first,
        two,
    ) == shifted_argument(plan[k], first, one + two) by {
        assert(argument_can_shift(plan[k], first, one + two));
        if let AdaptedRefArgumentView::Vararg { values, whole_array } = plan[k] {
            let once = shifted_argument(plan[k], first, one)->values;
            assert forall|i: int| 0 <= i < values.len() implies shifted_value(once[i], first, two)
                == shifted_value(values[i], first, one + two) by {
                assert(values[i] >= first ==> values[i] + one + two <= usize::MAX);
            }
            assert(shifted_argument(shifted_argument(plan[k], first, one), first, two)->values
                =~= shifted_argument(plan[k], first, one + two)->values);
        }
    }
    assert(shifted(shifted(plan, first, one), first, two) =~= shifted(plan, first, one + two));
}

/// Moving inputs does not change what a plan costs.
pub proof fn a_shift_keeps_the_cost(plan: Seq<AdaptedRefArgumentView>, first: int, offset: int)
    ensures
        cost(shifted(plan, first, offset)) == cost(plan),
    decreases plan.len(),
{
    if plan.len() > 0 {
        a_shift_keeps_the_cost(plan.drop_last(), first, offset);
        assert(shifted(plan, first, offset).drop_last() =~= shifted(
            plan.drop_last(),
            first,
            offset,
        ));
    }
}

/// The bindings that some inputs give where they all supply one type.
pub open spec fn input_bindings(
    expected: FnSigView,
    values: Seq<usize>,
    supplied: TyView,
    bindings: Map<Seq<char>, TyView>,
) -> Map<Seq<char>, TyView>
    decreases values.len(),
{
    if values.len() == 0 {
        bindings
    } else {
        let earlier = input_bindings(expected, values.drop_last(), supplied, bindings);
        let value = values.last() as int;
        if value < expected.params.len() {
            unified(expected.params[value], supplied, earlier)
        } else {
            earlier
        }
    }
}

/// The bindings of a contextual shape's type variables by the parameters that its inputs supply,
/// for the first `count` arguments of the plan.
pub open spec fn shape_bindings(
    expected: FnSigView,
    targets: Seq<TyView>,
    plan: Seq<AdaptedRefArgumentView>,
    count: nat,
) -> Map<Seq<char>, TyView>
    decreases count,
{
    if count == 0 {
        Map::empty()
    } else {
        let earlier = shape_bindings(expected, targets, plan, (count - 1) as nat);
        let index = count - 1;
        if index < targets.len() {
            match plan[index] {
                AdaptedRefArgumentView::Value(value) => input_bindings(
                    expected,
                    seq![value],
                    targets[index],
                    earlier,
                ),
                AdaptedRefArgumentView::Vararg { values, whole_array } => input_bindings(
                    expected,
                    values,
                    if whole_array {
                        targets[index]
                    } else {
                        match targets[index].array_read_elem() {
                            Some(element) => element,
                            None => targets[index],
                        }
                    },
                    earlier,
                ),
                AdaptedRefArgumentView::Default => earlier,
            }
        } else {
            earlier
        }
    }
}

/// The contextual shape with its type variables replaced by what the plan supplies.
pub open spec fn realized_shape(
    expected: FnSigView,
    targets: Seq<TyView>,
    target_ret: TyView,
    plan: Seq<AdaptedRefArgumentView>,
) -> FnSigView {
    let bindings = unified(
        expected.ret,
        target_ret,
        shape_bindings(expected, targets, plan, plan.len()),
    );
    FnSigView {
        params: subst_all(expected.params, bindings),
        ret: expected.ret.subst(bindings),
        ..expected
    }
}

fn add_input_bindings(expected: &FnSig, values: &Vec<usize>, supplied: &Ty, bindings: &mut Bindings)
    ensures
        final(bindings)@ == input_bindings(expected@, values@, supplied@, old(bindings)@),
{
    let ghost before = bindings@;
    let mut index: usize = 0;
    while index < values.len()
        invariant
            index <= values@.len(),
            bindings@ == input_bindings(
                expected@,
                values@.take(index as int),
                supplied@,
                before,
            ),
        decreases values@.len() - index,
    {
        assert(values@.take(index as int + 1).drop_last() =~= values@.take(index as int));
        let value: usize = values[index];
        if value < expected.params.len() {
            unify_inferred_ty(&expected.params[value], supplied, bindings);
        }
        index += 1;
    }
    assert(values@.take(index as int) =~= values@);
}

/// Replace the type variables of an expected callable shape with the concrete slots selected from
/// one declaration. The plan records which adapter input supplies each declared parameter.
pub fn realize_expected_shape(
    expected: &FnSig,
    target_params: &[Ty],
    target_ret: &Ty,
    plan: &Vec<AdaptedRefArgument>,
) -> (shape: Ty)
    ensures
        shape@ == TyView::Fun(
            Box::new(
                realized_shape(expected@, views(target_params@), target_ret@, views(plan@)),
            ),
        ),
{
    let mut bindings = Bindings::new();
    let ghost targets = views(target_params@);
    let ghost all = views(plan@);
    let mut index: usize = 0;
    while index < plan.len()
        invariant
            index <= plan@.len(),
            targets == views(target_params@),
            all == views(plan@),
            bindings@ == shape_bindings(expected@, targets, all, index as nat),
        decreases plan@.len() - index,
    {
        if index < target_params.len() {
            let target = &target_params[index];
            match &plan[index] {
                AdaptedRefArgument::Value(value) => {
                    let mut values: Vec<usize> = Vec::new();
                    values.push(*value);
                    assert(values@ =~= seq![*value]);
                    add_input_bindings(expected, &values, target, &mut bindings);
                },
                AdaptedRefArgument::Vararg { values, whole_array } => {
                    let element = if *whole_array {
                        None
                    } else {
                        target.array_read_elem()
                    };
                    match element {
                        Some(element) => {
                            add_input_bindings(expected, values, &element, &mut bindings);
                        },
                        None => {
                            add_input_bindings(expected, values, target, &mut bindings);
                        },
                    }
                },
                AdaptedRefArgument::Default => {},
            }
        }
        index += 1;
    }
    unify_inferred_ty(&expected.ret, target_ret, &mut bindings);
    Ty::fun_with_shape(
        subst_types(&expected.params, &bindings),
        ty_subst_keep_unbound(&expected.ret, &bindings),
        expected.context_count,
        expected.has_receiver,
        expected.suspend,
    )
}

/// Whether one declared input is compatible with the contextual one.
pub open spec fn input_compatible<A: Assignability>(relation: A, expected: TyView, actual: TyView) -> bool {
    match expected.non_null() {
        TyView::TyParam(_, bound) => relation.accepts(actual, *bound),
        _ => relation.accepts(expected, actual),
    }
}

/// Whether a callable can stand where a function of the expected shape is wanted.
pub open spec fn compatible<A: Assignability>(
    relation: A,
    params: Seq<TyView>,
    ret: TyView,
    suspend: bool,
    expected: FnSigView,
    allow_unit_coercion: bool,
) -> bool {
    let bindings = unified(expected.ret, ret, Map::empty());
    &&& suspend ==> expected.suspend
    &&& params.len() == expected.params.len()
    &&& forall|k: int|
        0 <= k < params.len() ==> input_compatible(
            relation,
            expected.params[k].subst(bindings),
            #[trigger] params[k],
        )
    &&& (allow_unit_coercion && expected.ret is Unit) || relation.accepts(
        ret,
        expected.ret.subst(bindings),
    )
}

pub fn is_compatible<A: Assignability>(
    params: &[Ty],
    ret: &Ty,
    suspend: bool,
    expected: &FnSig,
    allow_unit_coercion: bool,
    relation: &A,
) -> (yes: bool)
    ensures
        yes == compatible(
            *relation,
            views(params@),
            ret@,
            suspend,
            expected@,
            allow_unit_coercion,
        ),
{
    if (suspend && !expected.suspend) || params.len() != expected.params.len() {
        return false;
    }
    let mut bindings = Bindings::new();
    unify_inferred_ty(&expected.ret, ret, &mut bindings);
    let mut index: usize = 0;
    while index < params.len()
        invariant
            index <= params@.len(),
            params@.len() == expected.params@.len(),
            bindings@ == unified(expected@.ret, ret@, Map::empty()),
            forall|k: int|
                0 <= k < index ==> input_compatible(
                    *relation,
                    expected@.params[k].subst(bindings@),
                    #[trigger] views(params@)[k],
                ),
        decreases params@.len() - index,
    {
        let wanted = ty_subst_keep_unbound(&expected.params[index], &bindings);
        assert(wanted@ == expected@.params[index as int].subst(bindings@));
        let fits = match wanted.non_null() {
            Ty::TyParam(_, bound) => relation.is_assignable(&params[index], bound),
            _ => relation.is_assignable(&wanted, &params[index]),
        };
        if !fits {
            assert(!input_compatible(
                *relation,
                expected@.params[index as int].subst(bindings@),
                views(params@)[index as int],
            ));
            return false;
        }
        index += 1;
    }
    let unit = match &expected.ret {
        Ty::Unit => true,
        _ => false,
    };
    (allow_unit_coercion && unit) || relation.is_assignable(
        ret,
        &ty_subst_keep_unbound(&expected.ret, &bindings),
    )
}

/// Realize the semantic function shape of a selected instance reference. The plan leaves out the
/// dispatch receiver; it is added here as the first input of an unbound reference. The complete
/// natural parameter list is returned with the shape.
pub fn realize_adapted_instance_shape(
    expected: &FnSig,
    unbound_receiver: Option<&Ty>,
    target_params: &[Ty],
    target_ret: &Ty,
    argument_mapping: &Vec<AdaptedRefArgument>,
) -> (out: (Ty, Vec<Ty>))
    ensures
        ({
            let (params, plan) = match unbound_receiver {
                Some(receiver) => (
                    seq![receiver@] + views(target_params@),
                    seq![AdaptedRefArgumentView::Value(0)] + views(argument_mapping@),
                ),
                None => (views(target_params@), views(argument_mapping@)),
            };
            &&& views(out.1@) == params
            &&& out.0@ == TyView::Fun(
                Box::new(realized_shape(expected@, params, target_ret@, plan)),
            )
        }),
{
    let mut natural: Vec<Ty> = Vec::new();
    let mut plan: Vec<AdaptedRefArgument> = Vec::new();
    if let Some(receiver) = unbound_receiver {
        natural.push(receiver.clone());
        plan.push(AdaptedRefArgument::Value(0));
    }
    let ghost first_params = views(natural@);
    let ghost first_plan = views(plan@);
    let mut index: usize = 0;
    while index < target_params.len()
        invariant
            index <= target_params@.len(),
            views(natural@) == first_params + views(target_params@).take(index as int),
        decreases target_params@.len() - index,
    {
        natural.push(target_params[index].clone());
        assert(views(natural@) =~= first_params + views(target_params@).take(index as int + 1));
        index += 1;
    }
    assert(views(target_params@).take(index as int) =~= views(target_params@));
    index = 0;
    while index < argument_mapping.len()
        invariant
            index <= argument_mapping@.len(),
            views(plan@) == first_plan + views(argument_mapping@).take(index as int),
        decreases argument_mapping@.len() - index,
    {
        plan.push(argument_mapping[index].duplicate());
        assert(views(plan@) =~= first_plan + views(argument_mapping@).take(index as int + 1));
        index += 1;
    }
    assert(views(argument_mapping@).take(index as int) =~= views(argument_mapping@));
    proof {
        if unbound_receiver is None {
            assert(first_params + views(target_params@) =~= views(target_params@));
            assert(first_plan + views(argument_mapping@) =~= views(argument_mapping@));
        } else {
            assert(first_params =~= seq![unbound_receiver->Some_0@]);
            assert(first_plan =~= seq![AdaptedRefArgumentView::Value(0)]);
        }
    }
    let shape = realize_expected_shape(expected, natural.as_slice(), target_ret, &plan);
    (shape, natural)
}

} // verus!
