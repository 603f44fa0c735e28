//! What a `for` loop iterates through: the iterator protocol, and the `first`, `last` and `step`
//! members that a counted loop over a `kotlin.ranges` progression reads in place of it.

use std::collections::HashMap;

use vstd::prelude::*;

use crate::ast::ExprId;
use crate::libraries::FnKind;
use crate::names::{qualified, TypeName};
use crate::resolve::delegated_properties::ExternalCallableId;
use crate::resolve::source_names::{source_name, spell};
use crate::text::{concat, option_view, same_text, views};
use crate::types::{copy_tys, Ty, TyView};

verus! {

broadcast use {
    crate::text::group_views,
    crate::types::group_ty_views,
};

/// The identity of a property of a dependency.
pub type ExternalPropertyId = u32;

/// The progression classes that the compiler knows.
#[derive(Clone, Copy, Debug, PartialEq, Eq, Structural)]
pub enum ProgressionClass {
    IntRange,
    IntProgression,
    LongRange,
    LongProgression,
    CharRange,
    CharProgression,
    UIntRange,
    UIntProgression,
    ULongRange,
    ULongProgression,
}

/// The progression class of a name.
pub open spec fn class_named(name: Seq<char>) -> Option<ProgressionClass> {
    if name == "kotlin/ranges/IntRange"@ {
        Some(ProgressionClass::IntRange)
    } else if name == "kotlin/ranges/IntProgression"@ {
        Some(ProgressionClass::IntProgression)
    } else if name == "kotlin/ranges/LongRange"@ {
        Some(ProgressionClass::LongRange)
    } else if name == "kotlin/ranges/LongProgression"@ {
        Some(ProgressionClass::LongProgression)
    } else if name == "kotlin/ranges/CharRange"@ {
        Some(ProgressionClass::CharRange)
    } else if name == "kotlin/ranges/CharProgression"@ {
        Some(ProgressionClass::CharProgression)
    } else if name == "kotlin/ranges/UIntRange"@ {
        Some(ProgressionClass::UIntRange)
    } else if name == "kotlin/ranges/UIntProgression"@ {
        Some(ProgressionClass::UIntProgression)
    } else if name == "kotlin/ranges/ULongRange"@ {
        Some(ProgressionClass::ULongRange)
    } else if name == "kotlin/ranges/ULongProgression"@ {
        Some(ProgressionClass::ULongProgression)
    } else {
        None
    }
}

/// The progression class of a name.
pub fn progression_class(name: &TypeName) -> (class: Option<ProgressionClass>)
    ensures
        class == class_named(name@),
{
    if name.matches("kotlin/ranges/IntRange") {
        Some(ProgressionClass::IntRange)
    } else if name.matches("kotlin/ranges/IntProgression") {
        Some(ProgressionClass::IntProgression)
    } else if name.matches("kotlin/ranges/LongRange") {
        Some(ProgressionClass::LongRange)
    } else if name.matches("kotlin/ranges/LongProgression") {
        Some(ProgressionClass::LongProgression)
    } else if name.matches("kotlin/ranges/CharRange") {
        Some(ProgressionClass::CharRange)
    } else if name.matches("kotlin/ranges/CharProgression") {
        Some(ProgressionClass::CharProgression)
    } else if name.matches("kotlin/ranges/UIntRange") {
        Some(ProgressionClass::UIntRange)
    } else if name.matches("kotlin/ranges/UIntProgression") {
        Some(ProgressionClass::UIntProgression)
    } else if name.matches("kotlin/ranges/ULongRange") {
        Some(ProgressionClass::ULongRange)
    } else if name.matches("kotlin/ranges/ULongProgression") {
        Some(ProgressionClass::ULongProgression)
    } else {
        None
    }
}

/// A member property of a progression class, read on a receiver of that class.
#[derive(Clone, Debug, PartialEq)]
pub struct ProgressionMember {
    pub property: ExternalPropertyId,
    /// The type of the property on the progression.
    pub ty: Ty,
}

/// A function of the standard library that a counted loop calls on its own.
#[derive(Clone, Debug, PartialEq)]
pub struct RuntimeFunction {
    pub function: ExternalCallableId,
    pub parameters: Vec<Ty>,
    pub result: Ty,
}

/// The members of a progression class that a counted loop reads. The element type is that of
/// `first`.
#[derive(Clone, Debug, PartialEq)]
pub struct ProgressionPlan {
    pub class: ProgressionClass,
    pub first: ProgressionMember,
    pub last: ProgressionMember,
    pub step: ProgressionMember,
    /// The comparison that orders unsigned elements. A signed or `Char` element has none.
    pub compare: Option<RuntimeFunction>,
}

/// What is recorded per type, in the order in which it was recorded.
#[derive(Debug)]
pub struct TypeTable<T> {
    entries: Vec<(Ty, T)>,
}

/// What the entries record per type: the last entry of a type stands.
pub open spec fn tabled<T>(entries: Seq<(Ty, T)>) -> Map<TyView, T>
    decreases entries.len(),
{
    if entries.len() == 0 {
        Map::empty()
    } else {
        tabled(entries.drop_last()).insert(entries.last().0@, entries.last().1)
    }
}

impl<T> View for TypeTable<T> {
    type V = Map<TyView, T>;

    closed spec fn view(&self) -> Map<TyView, T> {
        tabled(self.entries@)
    }
}

impl<T> TypeTable<T> {
    pub fn new() -> (table: Self)
        ensures
            table@ == Map::<TyView, T>::empty(),
    {
        TypeTable { entries: Vec::new() }
    }

    pub fn insert(&mut self, key: Ty, value: T)
        ensures
            final(self)@ == old(self)@.insert(key@, value),
    {
        let ghost start = self.entries@;
        self.entries.push((key, value));
        assert(self.entries@.drop_last() =~= start);
    }

    pub fn get(&self, key: &Ty) -> (found: Option<&T>)
        ensures
            match found {
                Some(value) => self@.contains_key(key@) && self@[key@] == *value,
                None => !self@.contains_key(key@),
            },
    {
        let mut index: usize = self.entries.len();
        assert(self.entries@.take(index as int) =~= self.entries@);
        while index > 0
            invariant
                index <= self.entries@.len(),
                tabled(self.entries@.take(index as int)).contains_key(key@)
                    == self@.contains_key(key@),
                self@.contains_key(key@) ==> tabled(self.entries@.take(index as int))[key@]
                    == self@[key@],
            decreases index,
        {
            let ghost shown = self.entries@.take(index as int);
            assert(shown.drop_last() =~= self.entries@.take(index as int - 1));
            assert(shown.last() == self.entries@[index as int - 1]);
            index -= 1;
            if self.entries[index].0 == *key {
                return Some(&self.entries[index].1);
            }
        }
        None
    }
}

/// What counted loops read, by progression class. The members of a class and the function that a
/// `step` over it calls are recorded apart, so that a loop that does not step does not depend on
/// that function.
#[derive(Debug)]
pub struct ProgressionPlans {
    members: TypeTable<ProgressionPlan>,
    last_elements: TypeTable<RuntimeFunction>,
}

/// The model of [`ProgressionPlans`].
pub struct ProgressionPlansView {
    pub members: Map<TyView, ProgressionPlan>,
    pub last_elements: Map<TyView, RuntimeFunction>,
}

impl View for ProgressionPlans {
    type V = ProgressionPlansView;

    closed spec fn view(&self) -> ProgressionPlansView {
        ProgressionPlansView { members: self.members@, last_elements: self.last_elements@ }
    }
}

/// What the providers select for a progression class.
#[derive(Debug)]
pub struct ProgressionOffer {
    pub first: Option<ProgressionMember>,
    pub last: Option<ProgressionMember>,
    pub step: Option<ProgressionMember>,
    /// The overload of `getProgressionLastElement` that accepts [`last_element_arguments`].
    pub helper: Option<RuntimeFunction>,
    /// The comparison of unsigned elements, as [`unsigned_loop_compare`] finds it.
    pub compare: Option<RuntimeFunction>,
}

/// The class that is looked at for a type of an iterable.
pub open spec fn progression_receiver(ty: TyView) -> TyView {
    (match ty {
        TyView::PlatformNullable(inner) => *inner,
        _ => ty,
    }).non_null()
}

/// The type of the positions that a progression counts: its elements, or the steps between `Char`
/// elements.
pub open spec fn counted(first: TyView, step: TyView) -> TyView {
    if first is Char {
        step
    } else {
        first
    }
}

/// The type of the positions that a progression counts.
pub fn progression_element<'a>(first: &'a Ty, step: &'a Ty) -> (element: &'a Ty)
    ensures
        element@ == counted(first@, step@),
{
    match first {
        Ty::Char => step,
        _ => first,
    }
}

/// The types of what a stepped progression calls `getProgressionLastElement` with.
pub fn last_element_arguments(element: &Ty, step: &Ty) -> (arguments: Vec<Ty>)
    ensures
        views(arguments@) == seq![element@, element@, step@],
{
    let mut arguments: Vec<Ty> = Vec::new();
    arguments.push(element.clone());
    arguments.push(element.clone());
    arguments.push(step.clone());
    assert(views(arguments@) =~= seq![element@, element@, step@]);
    arguments
}

/// The plans after a progression class was looked at.
pub open spec fn after_record(
    plans: ProgressionPlansView,
    ty: TyView,
    offer: ProgressionOffer,
) -> ProgressionPlansView {
    let receiver = progression_receiver(ty);
    match receiver {
        TyView::Obj(name, arguments) => match (
            class_named(name),
            offer.first,
            offer.last,
            offer.step,
        ) {
            (Some(class), Some(first), Some(last), Some(step)) => if arguments.len() > 0
                || plans.members.contains_key(receiver) {
                plans
            } else {
                let last_elements = match offer.helper {
                    Some(helper) => if helper.result@ == counted(first.ty@, step.ty@) {
                        plans.last_elements.insert(receiver, helper)
                    } else {
                        plans.last_elements
                    },
                    None => plans.last_elements,
                };
                let members = if first.ty@.is_unsigned() {
                    match offer.compare {
                        Some(_) => plans.members.insert(
                            receiver,
                            ProgressionPlan { class, first, last, step, compare: offer.compare },
                        ),
                        None => plans.members,
                    }
                } else {
                    plans.members.insert(
                        receiver,
                        ProgressionPlan { class, first, last, step, compare: None },
                    )
                };
                ProgressionPlansView { members, last_elements }
            },
            _ => plans,
        },
        _ => plans,
    }
}

impl ProgressionPlans {
    pub fn new() -> (plans: Self)
        ensures
            plans@.members == Map::<TyView, ProgressionPlan>::empty(),
            plans@.last_elements == Map::<TyView, RuntimeFunction>::empty(),
    {
        ProgressionPlans { members: TypeTable::new(), last_elements: TypeTable::new() }
    }

    /// The selected `first`, `last` and `step` of a progression class.
    pub fn plan(&self, class: &Ty) -> (plan: Option<&ProgressionPlan>)
        ensures
            match plan {
                Some(found) => self@.members.contains_key(class@) && self@.members[class@]
                    == *found,
                None => !self@.members.contains_key(class@),
            },
    {
        self.members.get(class)
    }

    /// The overload of `getProgressionLastElement` that a `step` over a progression class calls.
    pub fn last_element(&self, class: &Ty) -> (function: Option<&RuntimeFunction>)
        ensures
            match function {
                Some(found) => self@.last_elements.contains_key(class@)
                    && self@.last_elements[class@] == *found,
                None => !self@.last_elements.contains_key(class@),
            },
    {
        self.last_elements.get(class)
    }

    /// Record what a progression class offers, once per class. A class that does not publish one of
    /// the members, or no comparison for its unsigned elements, gets no plan.
    pub fn record_progression_plan(&mut self, ty: &Ty, offer: ProgressionOffer)
        ensures
            final(self)@ == after_record(old(self)@, ty@, offer),
    {
        let lower: &Ty = match ty {
            Ty::PlatformNullable(inner) => inner,
            _ => ty,
        };
        let receiver = lower.non_null();
        let class = match receiver {
            Ty::Obj(name, arguments) => {
                assert(receiver@->Obj_1 == views(arguments@));
                if arguments.len() > 0 || self.members.get(receiver).is_some() {
                    return;
                }
                match progression_class(name) {
                    Some(class) => class,
                    None => {
                        return;
                    },
                }
            },
            _ => {
                return;
            },
        };
        match (offer.first, offer.last, offer.step) {
            (Some(first), Some(last), Some(step)) => {
                if let Some(helper) = offer.helper {
                    if helper.result == *progression_element(&first.ty, &step.ty) {
                        self.last_elements.insert(receiver.clone(), helper);
                    }
                }
                if first.ty.is_unsigned() {
                    match offer.compare {
                        Some(compare) => {
                            self.members.insert(
                                receiver.clone(),
                                ProgressionPlan { class, first, last, step, compare: Some(compare) },
                            );
                        },
                        None => {},
                    }
                } else {
                    self.members.insert(
                        receiver.clone(),
                        ProgressionPlan { class, first, last, step, compare: None },
                    );
                }
            },
            _ => {},
        }
    }
}

/// The names of the progression classes that the compiler knows, each once.
pub open spec fn known_classes() -> Seq<Seq<char>> {
    seq![
        "kotlin/ranges/IntRange"@,
        "kotlin/ranges/IntProgression"@,
        "kotlin/ranges/LongRange"@,
        "kotlin/ranges/LongProgression"@,
        "kotlin/ranges/CharRange"@,
        "kotlin/ranges/CharProgression"@,
        "kotlin/ranges/UIntRange"@,
        "kotlin/ranges/UIntProgression"@,
        "kotlin/ranges/ULongRange"@,
        "kotlin/ranges/ULongProgression"@,
    ]
}

/// The progression classes that the compiler knows, in the order in which they are looked at.
pub fn progression_classes() -> (classes: Vec<TypeName>)
    ensures
        views(classes@) == known_classes(),
{
    let mut classes: Vec<TypeName> = Vec::new();
    classes.push(qualified("kotlin/ranges/IntRange"));
    classes.push(qualified("kotlin/ranges/IntProgression"));
    classes.push(qualified("kotlin/ranges/LongRange"));
    classes.push(qualified("kotlin/ranges/LongProgression"));
    classes.push(qualified("kotlin/ranges/CharRange"));
    classes.push(qualified("kotlin/ranges/CharProgression"));
    classes.push(qualified("kotlin/ranges/UIntRange"));
    classes.push(qualified("kotlin/ranges/UIntProgression"));
    classes.push(qualified("kotlin/ranges/ULongRange"));
    classes.push(qualified("kotlin/ranges/ULongProgression"));
    assert(views(classes@) =~= known_classes());
    classes
}

/// The known class at `place` as a type.
pub open spec fn known_class(place: int) -> TyView {
    TyView::Obj(known_classes()[place], seq![])
}

/// The plans after the first `count` known classes were looked at, each with its offer.
pub open spec fn after_records(
    plans: ProgressionPlansView,
    offers: Seq<ProgressionOffer>,
    count: nat,
) -> ProgressionPlansView
    decreases count,
{
    if count == 0 {
        plans
    } else {
        after_record(
            after_records(plans, offers, (count - 1) as nat),
            known_class(count - 1),
            offers[count - 1],
        )
    }
}

impl ProgressionPlans {
    /// Record what the progression classes offer: each of [`progression_classes`] once, with the
    /// offer in its place.
    pub fn record_progression_plans(&mut self, offers: Vec<ProgressionOffer>)
        requires
            offers@.len() == known_classes().len(),
        ensures
            final(self)@ == after_records(old(self)@, offers@, known_classes().len()),
    {
        let ghost start = self@;
        let ghost all = offers@;
        let classes = progression_classes();
        assert(classes@.len() == views(classes@).len());
        let mut offers = offers;
        let mut next: usize = 0;
        assert(offers@ =~= all.skip(0));
        while next < classes.len()
            invariant
                next <= classes@.len(),
                views(classes@) == known_classes(),
                classes@.len() == known_classes().len(),
                all.len() == known_classes().len(),
                offers@ == all.skip(next as int),
                self@ == after_records(start, all, next as nat),
            decreases classes@.len() - next,
        {
            let offer = offers.remove(0);
            assert(offers@ =~= all.skip(next as int + 1));
            assert(classes@[next as int]@ == views(classes@)[next as int]);
            self.record_progression_plan(&Ty::obj_name(&classes[next]), offer);
            next += 1;
        }
    }
}

proof fn lemma_known_classes_differ(left: int, right: int)
    requires
        0 <= left < known_classes().len(),
        0 <= right < known_classes().len(),
        left != right,
    ensures
        known_classes()[left] != known_classes()[right],
{
    reveal_strlit("kotlin/ranges/IntRange");
    reveal_strlit("kotlin/ranges/IntProgression");
    reveal_strlit("kotlin/ranges/LongRange");
    reveal_strlit("kotlin/ranges/LongProgression");
    reveal_strlit("kotlin/ranges/CharRange");
    reveal_strlit("kotlin/ranges/CharProgression");
    reveal_strlit("kotlin/ranges/UIntRange");
    reveal_strlit("kotlin/ranges/UIntProgression");
    reveal_strlit("kotlin/ranges/ULongRange");
    reveal_strlit("kotlin/ranges/ULongProgression");
    let a = known_classes()[left];
    let b = known_classes()[right];
    assert(a.len() != b.len() || a[14] != b[14] || a[15] != b[15]);
}

/// A helper that moves the last element of a class whose members are planned returns the type of
/// the positions that the plan counts, once every known class was looked at.
pub proof fn a_recorded_helper_returns_what_is_counted(
    offers: Seq<ProgressionOffer>,
    class: TyView,
)
    ensures
        ({
            let plans = after_records(
                ProgressionPlansView { members: Map::empty(), last_elements: Map::empty() },
                offers,
                known_classes().len(),
            );
            plans.members.contains_key(class) && plans.last_elements.contains_key(class)
                ==> plans.last_elements[class].result@ == counted(
                plans.members[class].first.ty@,
                plans.members[class].step.ty@,
            )
        }),
{
    lemma_helpers_fit(offers, known_classes().len(), class);
}

proof fn lemma_helpers_fit(offers: Seq<ProgressionOffer>, count: nat, class: TyView)
    requires
        count <= known_classes().len(),
    ensures
        ({
            let plans = after_records(
                ProgressionPlansView { members: Map::empty(), last_elements: Map::empty() },
                offers,
                count,
            );
            &&& plans.members.contains_key(class) || plans.last_elements.contains_key(class)
                ==> exists|place: int| 0 <= place < count && class == #[trigger] known_class(place)
            &&& plans.members.contains_key(class) && plans.last_elements.contains_key(class)
                ==> plans.last_elements[class].result@ == counted(
                plans.members[class].first.ty@,
                plans.members[class].step.ty@,
            )
        }),
    decreases count,
{
    if count > 0 {
        lemma_helpers_fit(offers, (count - 1) as nat, class);
        let added = known_class(count - 1);
        assert(progression_receiver(added) == added);
        if class == added {
            let before = after_records(
                ProgressionPlansView { members: Map::empty(), last_elements: Map::empty() },
                offers,
                (count - 1) as nat,
            );
            if before.members.contains_key(class) || before.last_elements.contains_key(class) {
                let place = choose|place: int|
                    0 <= place < count - 1 && class == #[trigger] known_class(place);
                lemma_known_classes_differ(place, count - 1);
            }
        }
    }
}

/// What the check of a source file publishes for counted loops.
#[derive(Debug)]
pub struct TypeInfo {
    pub progression_plans: ProgressionPlans,
}

impl TypeInfo {
    /// The selected `first`, `last` and `step` of a progression class.
    pub fn progression_plan(&self, class: &Ty) -> (plan: Option<&ProgressionPlan>)
        ensures
            match plan {
                Some(found) => self.progression_plans@.members.contains_key(class@)
                    && self.progression_plans@.members[class@] == *found,
                None => !self.progression_plans@.members.contains_key(class@),
            },
    {
        self.progression_plans.plan(class)
    }

    /// The overload of `getProgressionLastElement` that a `step` over a progression class calls.
    pub fn progression_last_element(&self, class: &Ty) -> (function: Option<&RuntimeFunction>)
        ensures
            match function {
                Some(found) => self.progression_plans@.last_elements.contains_key(class@)
                    && self.progression_plans@.last_elements[class@] == *found,
                None => !self.progression_plans@.last_elements.contains_key(class@),
            },
    {
        self.progression_plans.last_element(class)
    }
}

/// A function that a counted loop may call, as its declaration publishes it.
#[derive(Debug)]
pub struct RuntimeCandidate {
    pub external_identity: Option<ExternalCallableId>,
    pub parameters: Vec<Ty>,
    pub result: Ty,
    /// The type whose unsigned comparison the declaration is, where it is one.
    pub unsigned_carrier: Option<Ty>,
}

/// Whether `function` is what a loop calls for a candidate.
pub open spec fn runs(candidate: RuntimeCandidate, function: Option<RuntimeFunction>) -> bool {
    match candidate.external_identity {
        Some(identity) => function matches Some(found) && found.function == identity && views(
            found.parameters@,
        ) == views(candidate.parameters@) && found.result@ == candidate.result@,
        None => function is None,
    }
}

/// The function that a loop calls for a selected candidate: one that the provider can name.
pub fn select_runtime_function(candidate: &RuntimeCandidate) -> (function: Option<RuntimeFunction>)
    ensures
        runs(*candidate, function),
{
    match candidate.external_identity {
        Some(identity) => Some(
            RuntimeFunction {
                function: identity,
                parameters: copy_tys(candidate.parameters.as_slice()),
                result: candidate.result.clone(),
            },
        ),
        None => None,
    }
}

/// How many of the first `count` candidates compare values of `carrier`.
pub open spec fn comparisons(candidates: Seq<RuntimeCandidate>, carrier: TyView, count: nat) -> nat
    decreases count,
{
    if count == 0 {
        0
    } else {
        let rest = comparisons(candidates, carrier, (count - 1) as nat);
        if option_view(candidates[count - 1].unsigned_carrier) == Some(carrier) {
            rest + 1
        } else {
            rest
        }
    }
}

/// The comparison that a counted loop orders unsigned elements with, given the carrier of the
/// element: the one declaration that is it. Where more than one claims to be, none is taken, so that
/// the order of the candidates does not decide.
pub fn unsigned_loop_compare(candidates: &Vec<RuntimeCandidate>, carrier: Option<&Ty>) -> (function:
    Option<RuntimeFunction>)
    ensures
        match carrier {
            Some(carrier) => if comparisons(candidates@, carrier@, candidates@.len()) == 1 {
                exists|k: int|
                    0 <= k < candidates@.len() && option_view(
                        (#[trigger] candidates@[k]).unsigned_carrier,
                    ) == Some(carrier@) && runs(candidates@[k], function)
            } else {
                function is None
            },
            None => function is None,
        },
{
    let carrier = match carrier {
        Some(carrier) => carrier,
        None => {
            return None;
        },
    };
    let mut found: Option<usize> = None;
    let mut several = false;
    let mut next: usize = 0;
    while next < candidates.len()
        invariant
            next <= candidates@.len(),
            several ==> comparisons(candidates@, carrier@, next as nat) > 1,
            !several ==> comparisons(candidates@, carrier@, next as nat) == if found is Some {
                1nat
            } else {
                0nat
            },
            found matches Some(place) ==> place < next && option_view(
                candidates@[place as int].unsigned_carrier,
            ) == Some(carrier@),
        decreases candidates@.len() - next,
    {
        let compares = match &candidates[next].unsigned_carrier {
            Some(compared) => *compared == *carrier,
            None => false,
        };
        if compares {
            if found.is_some() {
                several = true;
            }
            found = Some(next);
        }
        next += 1;
    }
    if several {
        return None;
    }
    match found {
        Some(place) => {
            let function = select_runtime_function(&candidates[place]);
            assert(runs(candidates@[place as int], function));
            function
        },
        None => None,
    }
}

/// Whether every plan belongs to the class it is recorded for, and compares its elements where they
/// are unsigned and only there.
pub open spec fn consistent(plans: ProgressionPlansView) -> bool {
    forall|class: TyView| #[trigger]
        plans.members.contains_key(class) ==> {
            let plan = plans.members[class];
            &&& class is Obj
            &&& class->Obj_1.len() == 0
            &&& class_named(class->Obj_0) == Some(plan.class)
            &&& plan.compare is Some == plan.first.ty@.is_unsigned()
        }
}

/// Recording a class keeps the plans consistent, and keeps every plan that was recorded before.
pub proof fn recording_keeps_the_plans(
    plans: ProgressionPlansView,
    ty: TyView,
    offer: ProgressionOffer,
    class: TyView,
)
    requires
        consistent(plans),
    ensures
        consistent(after_record(plans, ty, offer)),
        plans.members.contains_key(class) ==> after_record(
            plans,
            ty,
            offer,
        ).members.contains_key(class) && after_record(plans, ty, offer).members[class]
            == plans.members[class],
{
    let after = after_record(plans, ty, offer);
    assert forall|other: TyView| #[trigger] after.members.contains_key(other) implies {
        let plan = after.members[other];
        &&& other is Obj
        &&& other->Obj_1.len() == 0
        &&& class_named(other->Obj_0) == Some(plan.class)
        &&& plan.compare is Some == plan.first.ty@.is_unsigned()
    } by {
        if other != progression_receiver(ty) {
            assert(plans.members.contains_key(other));
        }
    }
}

/// A class that publishes `first`, `last` and `step`, and a comparison where its elements are
/// unsigned, has a plan once it was looked at.
pub proof fn a_complete_class_gets_a_plan(
    plans: ProgressionPlansView,
    ty: TyView,
    offer: ProgressionOffer,
)
    requires
        progression_receiver(ty) is Obj,
        progression_receiver(ty)->Obj_1.len() == 0,
        class_named(progression_receiver(ty)->Obj_0) is Some,
        offer.first is Some,
        offer.last is Some,
        offer.step is Some,
        offer.first->0.ty@.is_unsigned() ==> offer.compare is Some,
    ensures
        after_record(plans, ty, offer).members.contains_key(progression_receiver(ty)),
{
}

/// A selected call of an operator without arguments.
#[derive(Debug)]
pub struct OperatorCall {
    /// The identity of the callable.
    pub callable: u32,
    /// Whether it is a member or an extension.
    pub kind: FnKind,
    pub ret: Ty,
}

/// The model of an [`OperatorCall`].
pub struct OperatorCallView {
    pub callable: u32,
    pub kind: FnKind,
    pub ret: TyView,
}

impl View for OperatorCall {
    type V = OperatorCallView;

    open spec fn view(&self) -> OperatorCallView {
        OperatorCallView { callable: self.callable, kind: self.kind, ret: self.ret@ }
    }
}

impl OperatorCall {
    pub fn duplicate(&self) -> (copy: OperatorCall)
        ensures
            copy@ == self@,
    {
        OperatorCall { callable: self.callable, kind: self.kind, ret: self.ret.clone() }
    }
}

/// The source of the operators without arguments that iteration calls.
pub trait OperatorSource {
    /// The selected call of the operator `name` on a receiver: none where there is no such
    /// operator, and an error where its selection failed.
    spec fn selected(&self, receiver: TyView, name: Seq<char>) -> Result<
        Option<OperatorCallView>,
        (),
    >;

    fn zero_arg_operator_call(&self, receiver: &Ty, name: &str) -> (call: Result<
        Option<OperatorCall>,
        (),
    >)
        ensures
            self.selected(receiver@, name@) == match call {
                Ok(found) => Ok(option_view(found)),
                Err(_) => Err(()),
            },
    ;
}

/// An operator that was selected on a receiver.
#[derive(Debug)]
pub struct SelectedOperator {
    pub receiver: Ty,
    pub name: String,
    pub call: Result<Option<OperatorCall>, ()>,
}

/// Operators listed one by one. One that is not listed does not exist.
#[derive(Debug)]
pub struct SelectedOperators {
    pub operators: Vec<SelectedOperator>,
}

/// The call of the first listed operator for a receiver and a name.
pub open spec fn listed(
    operators: Seq<SelectedOperator>,
    receiver: TyView,
    name: Seq<char>,
) -> Result<Option<OperatorCallView>, ()>
    decreases operators.len(),
{
    if operators.len() == 0 {
        Ok(None)
    } else if operators[0].receiver@ == receiver && operators[0].name@ == name {
        match operators[0].call {
            Ok(found) => Ok(option_view(found)),
            Err(_) => Err(()),
        }
    } else {
        listed(operators.skip(1), receiver, name)
    }
}

impl OperatorSource for SelectedOperators {
    open spec fn selected(&self, receiver: TyView, name: Seq<char>) -> Result<
        Option<OperatorCallView>,
        (),
    > {
        listed(self.operators@, receiver, name)
    }

    fn zero_arg_operator_call(&self, receiver: &Ty, name: &str) -> (call: Result<
        Option<OperatorCall>,
        (),
    >) {
        let mut next: usize = 0;
        assert(self.operators@.skip(0) =~= self.operators@);
        while next < self.operators.len()
            invariant
                next <= self.operators@.len(),
                listed(self.operators@.skip(next as int), receiver@, name@) == listed(
                    self.operators@,
                    receiver@,
                    name@,
                ),
            decreases self.operators@.len() - next,
        {
            let operator = &self.operators[next];
            assert(self.operators@.skip(next as int).skip(1) =~= self.operators@.skip(
                next as int + 1,
            ));
            if operator.receiver == *receiver && same_text(operator.name.as_str(), name) {
                return match &operator.call {
                    Ok(Some(found)) => Ok(Some(found.duplicate())),
                    Ok(None) => Ok(None),
                    Err(_) => Err(()),
                };
            }
            next += 1;
        }
        Ok(None)
    }
}

/// The iterator protocol of an iterable: the selected calls, and what `iterator()` and `next()`
/// return.
#[derive(Debug)]
pub struct IteratorProtocol {
    pub iterator: OperatorCall,
    pub has_next: OperatorCall,
    pub next: OperatorCall,
    pub iter_ty: Ty,
    pub elem_ty: Ty,
}

/// The model of an [`IteratorProtocol`].
pub struct IteratorProtocolView {
    pub iterator: OperatorCallView,
    pub has_next: OperatorCallView,
    pub next: OperatorCallView,
    pub iter_ty: TyView,
    pub elem_ty: TyView,
}

impl View for IteratorProtocol {
    type V = IteratorProtocolView;

    open spec fn view(&self) -> IteratorProtocolView {
        IteratorProtocolView {
            iterator: self.iterator@,
            has_next: self.has_next@,
            next: self.next@,
            iter_ty: self.iter_ty@,
            elem_ty: self.elem_ty@,
        }
    }
}

/// Why an iterable has no iterator protocol.
pub enum IterationFailureView {
    /// The selection of an operator failed.
    Selection,
    /// `hasNext()` returns the type.
    HasNext(TyView),
}

/// The iterator protocol of an iterable, selected operator by operator.
pub open spec fn protocol<S: OperatorSource>(source: S, iterable: TyView) -> Result<
    Option<IteratorProtocolView>,
    IterationFailureView,
> {
    match source.selected(iterable, "iterator"@) {
        Err(_) => Err(IterationFailureView::Selection),
        Ok(None) => Ok(None),
        Ok(Some(iterator)) => match source.selected(iterator.ret, "hasNext"@) {
            Err(_) => Err(IterationFailureView::Selection),
            Ok(None) => Ok(None),
            Ok(Some(has_next)) => if !(has_next.ret is Boolean) {
                Err(IterationFailureView::HasNext(has_next.ret))
            } else {
                match source.selected(iterator.ret, "next"@) {
                    Err(_) => Err(IterationFailureView::Selection),
                    Ok(None) => Ok(None),
                    Ok(Some(next)) => Ok(
                        Some(
                            IteratorProtocolView {
                                iterator,
                                has_next,
                                next,
                                iter_ty: iterator.ret,
                                elem_ty: next.ret,
                            },
                        ),
                    ),
                }
            },
        },
    }
}

/// What is said of a `hasNext()` that returns `found`.
pub open spec fn has_next_complaint(found: TyView) -> Seq<char> {
    "the 'iterator().hasNext()' function of the loop range must return 'Boolean', but returns '"@
        + source_name(found) + "'."@
}

/// The iterator protocol of an iterable. The error of a `hasNext()` that does not return a
/// `Boolean` holds the complaint, where complaints are wanted.
pub fn iterator_protocol_target<S: OperatorSource>(
    source: &S,
    iterable: &Ty,
    diagnose: bool,
) -> (target: Result<Option<IteratorProtocol>, Option<String>>)
    ensures
        match protocol(*source, iterable@) {
            Ok(found) => target matches Ok(selected) && option_view(selected) == found,
            Err(IterationFailureView::Selection) => target == Err::<
                Option<IteratorProtocol>,
                Option<String>,
            >(None),
            Err(IterationFailureView::HasNext(found)) => target matches Err(complaint)
                && option_view(complaint) == if diagnose {
                Some(has_next_complaint(found))
            } else {
                None
            },
        },
{
    let iterator = match source.zero_arg_operator_call(iterable, "iterator") {
        Err(_) => {
            return Err(None);
        },
        Ok(None) => {
            return Ok(None);
        },
        Ok(Some(found)) => found,
    };
    let has_next = match source.zero_arg_operator_call(&iterator.ret, "hasNext") {
        Err(_) => {
            return Err(None);
        },
        Ok(None) => {
            return Ok(None);
        },
        Ok(Some(found)) => found,
    };
    if !matches!(has_next.ret, Ty::Boolean) {
        return if diagnose {
            Err(
                Some(
                    concat(
                        "the 'iterator().hasNext()' function of the loop range must return 'Boolean', but returns '",
                        spell(&has_next.ret).as_str(),
                        "'.",
                    ),
                ),
            )
        } else {
            Err(None)
        };
    }
    match source.zero_arg_operator_call(&iterator.ret, "next") {
        Err(_) => Err(None),
        Ok(None) => Ok(None),
        Ok(Some(next)) => {
            let iter_ty = iterator.ret.clone();
            let elem_ty = next.ret.clone();
            Ok(Some(IteratorProtocol { iterator, has_next, next, iter_ty, elem_ty }))
        },
    }
}

/// The element type that iteration over the expression `site` gives, where the protocol of it is
/// recorded. A statement wants complaints.
pub fn record_iterator_protocol<S: OperatorSource>(
    source: &S,
    protocols: &mut HashMap<u32, IteratorProtocol>,
    site: ExprId,
    iterable: &Ty,
    is_statement: bool,
) -> (element: Result<Option<Ty>, Option<String>>)
    ensures
        match protocol(*source, iterable@) {
            Ok(Some(found)) => {
                &&& element matches Ok(Some(ty)) && ty@ == found.elem_ty
                &&& final(protocols)@.dom() == old(protocols)@.dom().insert(site.0)
                &&& final(protocols)@[site.0]@ == found
                &&& forall|other: u32|
                    other != site.0 ==> (#[trigger] final(protocols)@[other])
                        == old(protocols)@[other]
            },
            Ok(None) => element == Ok::<Option<Ty>, Option<String>>(None) && final(protocols)@
                == old(protocols)@,
            Err(IterationFailureView::Selection) => element == Err::<Option<Ty>, Option<String>>(
                None,
            ) && final(protocols)@ == old(protocols)@,
            Err(IterationFailureView::HasNext(found)) => element matches Err(complaint)
                && option_view(complaint) == (if is_statement {
                Some(has_next_complaint(found))
            } else {
                None
            }) && final(protocols)@ == old(protocols)@,
        },
{
    match iterator_protocol_target(source, iterable, is_statement) {
        Ok(Some(target)) => {
            let element = target.elem_ty.clone();
            protocols.insert(site.0, target);
            Ok(Some(element))
        },
        Ok(None) => Ok(None),
        Err(complaint) => Err(complaint),
    }
}

} // verus!
