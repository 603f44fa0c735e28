//! What holds of the loops that are planned and of the bindings that are shared.

use vstd::prelude::*;

use crate::ast::DeclId;
use crate::resolve::capture_storage::{
    first_owner, AnonymousLexicalClassScope, CapturedBinding, OwnerLink,
};
use crate::resolve::for_loop_iteration::{
    after_record, class_named, counted, progression_receiver, protocol, IterationFailureView,
    OperatorCallView, OperatorSource, ProgressionClass, ProgressionOffer, ProgressionPlansView,
};
use crate::types::TyView;

verus! {

/// The word for what a progression class counts.
pub open spec fn counted_word(class: ProgressionClass) -> Seq<char> {
    match class {
        ProgressionClass::IntRange | ProgressionClass::IntProgression => "Int"@,
        ProgressionClass::LongRange | ProgressionClass::LongProgression => "Long"@,
        ProgressionClass::CharRange | ProgressionClass::CharProgression => "Char"@,
        ProgressionClass::UIntRange | ProgressionClass::UIntProgression => "UInt"@,
        ProgressionClass::ULongRange | ProgressionClass::ULongProgression => "ULong"@,
    }
}

/// The word for whether a progression class steps by one.
pub open spec fn step_word(class: ProgressionClass) -> Seq<char> {
    match class {
        ProgressionClass::IntRange
        | ProgressionClass::LongRange
        | ProgressionClass::CharRange
        | ProgressionClass::UIntRange
        | ProgressionClass::ULongRange => "Range"@,
        _ => "Progression"@,
    }
}

/// A progression class is called after what it counts and how it steps.
pub proof fn a_progression_class_is_called_after_what_it_counts(name: Seq<char>)
    ensures
        class_named(name) matches Some(class) ==> name == "kotlin/ranges/"@ + counted_word(class)
            + step_word(class),
{
    if let Some(class) = class_named(name) {
        reveal_strlit("kotlin/ranges/");
        reveal_strlit("Int");
        reveal_strlit("Long");
        reveal_strlit("Char");
        reveal_strlit("UInt");
        reveal_strlit("ULong");
        reveal_strlit("Range");
        reveal_strlit("Progression");
        reveal_strlit("kotlin/ranges/IntRange");
        reveal_strlit("kotlin/ranges/IntProgression");
        reveal_strlit("kotlin/ranges/LongRange");
        reveal_strlit("kotlin/ranges/LongProgression");
        reveal_strlit("kotlin/ranges/CharRange");
        reveal_strlit("kotlin/ranges/CharProgression");
        reveal_strlit("kotlin/ranges/UIntRange");
        reveal_strlit("kotlin/ranges/UIntProgression");
        reveal_strlit("kotlin/ranges/ULongRange");
        reveal_strlit("kotlin/ranges/ULongProgression");
        assert(name =~= "kotlin/ranges/"@ + counted_word(class) + step_word(class));
    }
}

/// A plan that is new holds what the class offered, and is recorded for the class alone: the plans
/// of other classes stay as they are.
pub proof fn a_new_plan_holds_what_was_offered(
    plans: ProgressionPlansView,
    ty: TyView,
    offer: ProgressionOffer,
    class: TyView,
)
    ensures
        ({
            let after = after_record(plans, ty, offer);
            let receiver = progression_receiver(ty);
            &&& class != receiver ==> after.members.contains_key(class)
                == plans.members.contains_key(class) && after.last_elements.contains_key(class)
                == plans.last_elements.contains_key(class) && (plans.last_elements.contains_key(
                class,
            ) ==> after.last_elements[class] == plans.last_elements[class])
            &&& after.members.contains_key(receiver) && !plans.members.contains_key(receiver) ==> {
                let plan = after.members[receiver];
                &&& offer.first == Some(plan.first)
                &&& offer.last == Some(plan.last)
                &&& offer.step == Some(plan.step)
                &&& plan.first.ty@.is_unsigned() ==> plan.compare is Some && plan.compare
                    == offer.compare
                &&& receiver.type_args().len() == 0
                &&& offer.helper matches Some(helper) ==> (helper.result@ == counted(
                    plan.first.ty@,
                    plan.step.ty@,
                ) ==> after.last_elements.contains_key(receiver)
                    && after.last_elements[receiver] == helper)
            }
        }),
{
}

/// A loop over an iterable has a protocol exactly where the iterable has an iterator, and that a
/// `hasNext` that returns a Boolean and a `next`; it counts what `next` returns.
pub proof fn an_iteration_needs_all_three_operators<S: OperatorSource>(source: S, iterable: TyView)
    ensures
        match protocol(source, iterable) {
            Ok(Some(found)) => {
                &&& source.selected(iterable, "iterator"@) == Ok::<_, ()>(Some(found.iterator))
                &&& source.selected(found.iterator.ret, "hasNext"@) == Ok::<_, ()>(
                    Some(found.has_next),
                )
                &&& source.selected(found.iterator.ret, "next"@) == Ok::<_, ()>(Some(found.next))
                &&& found.has_next.ret == TyView::Boolean
                &&& found.iter_ty == found.iterator.ret
                &&& found.elem_ty == found.next.ret
            },
            Ok(None) => {
                ||| source.selected(iterable, "iterator"@) == Ok::<Option<OperatorCallView>, ()>(None)
                ||| exists|ty: TyView|
                    #[trigger] source.selected(ty, "hasNext"@) == Ok::<Option<OperatorCallView>, ()>(None)
                        || source.selected(ty, "next"@) == Ok::<Option<OperatorCallView>, ()>(None)
            },
            Err(IterationFailureView::HasNext(found)) => found != TyView::Boolean,
            Err(_) => true,
        },
{
    if let Ok(Some(iterator)) = source.selected(iterable, "iterator"@) {
        let asked = source.selected(iterator.ret, "hasNext"@);
        assert(asked == source.selected(iterator.ret, "hasNext"@));
    }
}

/// A delegated binding is never shared and an unwritten one only where it is shared already; a
/// variable that is written here is shared.
pub proof fn a_written_variable_is_shared(binding: CapturedBinding)
    ensures
        binding.delegated ==> !binding.shared_cell(),
        !binding.written_here && !binding.already_shared ==> !binding.shared_cell(),
        binding.mutable && binding.written_here && !binding.delegated ==> binding.shared_cell(),
{
}

/// The owner of a class is the one in its first link.
pub proof fn the_first_link_of_a_class_names_its_owner(links: Seq<OwnerLink>, class: DeclId)
    ensures
        match first_owner(links, class) {
            Some(owner) => exists|k: int|
                0 <= k < links.len() && (#[trigger] links[k]).class == class && links[k].owner
                    == owner && forall|j: int| 0 <= j < k ==> (#[trigger] links[j]).class != class,
            None => forall|k: int| 0 <= k < links.len() ==> (#[trigger] links[k]).class != class,
        },
    decreases links.len(),
{
    if links.len() > 0 {
        let rest = links.skip(1);
        the_first_link_of_a_class_names_its_owner(rest, class);
        assert forall|j: int| 1 <= j < links.len() implies (#[trigger] links[j]) == rest[j - 1] by {}
        if links[0].class == class {
            assert(links[0].class == class);
        } else if first_owner(rest, class) is Some {
            let owner = first_owner(rest, class)->0;
            let k = choose|k: int|
                0 <= k < rest.len() && (#[trigger] rest[k]).class == class && rest[k].owner == owner
                    && forall|j: int| 0 <= j < k ==> (#[trigger] rest[j]).class != class;
            assert(links[k + 1].class == class && links[k + 1].owner == owner);
            assert forall|j: int| 0 <= j < k + 1 implies (#[trigger] links[j]).class != class by {
                if j > 0 {
                    assert(rest[j - 1].class != class);
                }
            }
        }
    }
}

/// A class is inside what its owner is or is inside of, and inside nothing else but itself.
pub proof fn a_class_is_inside_its_owner(
    scope: AnonymousLexicalClassScope,
    class: DeclId,
    outer: DeclId,
)
    requires
        scope.owners@.len() > 0,
    ensures
        scope.descends(class, class),
        scope.owner_of(class) == Some(outer) ==> scope.descends(class, outer),
        scope.descends(class, outer) && class != outer ==> (scope.owner_of(class) matches Some(owner)
            && (owner == outer || scope.owner_of(owner) is Some)),
{
    reveal_with_fuel(AnonymousLexicalClassScope::written_in, 3);
}

} // verus!
