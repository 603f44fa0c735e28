//! What holds of the conventions that a delegate is called with.

use vstd::prelude::*;

use crate::bindings::{unified, well_nested};
use crate::libraries::{FnKind, FunctionInfo, FunctionInfoView};
use crate::resolve::callable_reference_selection::Assignability;
use crate::resolve::delegated_properties::{
    bounded, delegate_constraint, offered, selected_convention, usable, within_bound,
    ClassifierBounds, ConventionStep, DelegateGetValueTarget, MemberExtensionFunctionSelection,
    ReceiverFunctionSelection,
};
use crate::type_laws::inference_finds_what_was_put_in;
use crate::types::TyView;

verus! {

/// A member comes before a member extension, and that before an extension. What comes later counts
/// only where everything before it is absent: an ambiguity is not passed over.
pub proof fn a_member_comes_before_an_extension(
    optional: bool,
    members: Vec<FunctionInfo>,
    extensions: Vec<FunctionInfo>,
    member: ReceiverFunctionSelection,
    member_extension: MemberExtensionFunctionSelection,
    extension: ReceiverFunctionSelection,
)
    ensures
        ({
            let step = selected_convention(
                optional,
                members,
                extensions,
                member,
                member_extension,
                extension,
            );
            &&& member matches ReceiverFunctionSelection::Selected(selected, ret, receiver)
                ==> step == ConventionStep::Ordinary(selected, ret, receiver)
            &&& member is Absent
                ==> (member_extension matches MemberExtensionFunctionSelection::Selected(selected)
                ==> step == ConventionStep::MemberExtension(selected))
            &&& member is Absent && member_extension is Absent
                ==> (extension matches ReceiverFunctionSelection::Selected(
                selected,
                ret,
                receiver,
            ) ==> step == ConventionStep::Ordinary(selected, ret, receiver))
            &&& member is Ambiguous ==> step is Settled
            &&& member is Absent && member_extension is Ambiguous ==> step is Settled
            &&& step matches ConventionStep::Settled(settled) ==> !(settled is Selected)
            &&& !optional && (member is Ambiguous || (member is Absent && member_extension
                is Ambiguous)) ==> (step matches ConventionStep::Settled(settled) && settled
                is Failure)
        }),
{
}

proof fn lemma_offered(functions: Seq<FunctionInfoView>, kind: Option<FnKind>)
    ensures
        offered(functions, kind) == functions.filter(
            |function: FunctionInfoView| kind is None || kind == Some(function.kind),
        ),
    decreases functions.len(),
{
    reveal(Seq::filter);
    if functions.len() > 0 {
        lemma_offered(functions.drop_last(), kind);
    } else {
        assert(offered(functions, kind) =~= seq![]);
    }
}

proof fn lemma_usable(functions: Seq<FunctionInfoView>)
    ensures
        usable(functions) == functions.filter(
            |function: FunctionInfoView| function.flags.operator && function.context_count == 0,
        ),
    decreases functions.len(),
{
    reveal(Seq::filter);
    if functions.len() > 0 {
        lemma_usable(functions.drop_last());
    }
}

/// The functions that may be selected are the operators of the wanted kind that need no context,
/// all of them and in their order.
pub proof fn the_usable_functions_are_the_operators_without_context(
    functions: Seq<FunctionInfoView>,
    kind: Option<FnKind>,
)
    ensures
        offered(functions, kind) == functions.filter(
            |function: FunctionInfoView| kind is None || kind == Some(function.kind),
        ),
        usable(offered(functions, kind)) == offered(functions, kind).filter(
            |function: FunctionInfoView| function.flags.operator && function.context_count == 0,
        ),
{
    lemma_offered(functions, kind);
    lemma_usable(offered(functions, kind));
}

/// A substitution depends only on the type parameters that a type mentions.
pub proof fn a_substitution_depends_on_what_is_mentioned(
    ty: TyView,
    left: Map<Seq<char>, TyView>,
    right: Map<Seq<char>, TyView>,
)
    requires
        forall|name: Seq<char>| #[trigger]
            ty.mentions_param(name) ==> left.contains_key(name) && right.contains_key(name)
                && left[name] == right[name],
    ensures
        ty.subst(left) == ty.subst(right),
    decreases ty,
{
    match ty {
        TyView::TyParam(name, _) => {
            assert(ty.mentions_param(name));
        },
        TyView::Obj(_, arguments) => {
            assert forall|i: int| 0 <= i < arguments.len() implies (#[trigger] arguments[i]).subst(
                left,
            ) == arguments[i].subst(right) by {
                assert forall|name: Seq<char>| #[trigger]
                    arguments[i].mentions_param(name) implies left.contains_key(name)
                    && right.contains_key(name) && left[name] == right[name] by {
                    assert(ty.mentions_param(name));
                }
                a_substitution_depends_on_what_is_mentioned(arguments[i], left, right);
            }
            assert(ty.subst(left)->Obj_1 =~= ty.subst(right)->Obj_1);
        },
        TyView::Nullable(inner)
        | TyView::PlatformNullable(inner)
        | TyView::InProjection(inner)
        | TyView::OutProjection(inner)
        | TyView::StarProjection(inner) => {
            assert forall|name: Seq<char>| #[trigger]
                inner.mentions_param(name) implies left.contains_key(name) && right.contains_key(
                name,
            ) && left[name] == right[name] by {
                assert(ty.mentions_param(name));
            }
            a_substitution_depends_on_what_is_mentioned(*inner, left, right);
        },
        TyView::Fun(sig) => {
            assert forall|i: int| 0 <= i < sig.params.len() implies (
            #[trigger] sig.params[i]).subst(left) == sig.params[i].subst(right) by {
                assert forall|name: Seq<char>| #[trigger]
                    sig.params[i].mentions_param(name) implies left.contains_key(name)
                    && right.contains_key(name) && left[name] == right[name] by {
                    assert(ty.mentions_param(name));
                }
                a_substitution_depends_on_what_is_mentioned(sig.params[i], left, right);
            }
            assert forall|name: Seq<char>| #[trigger]
                sig.ret.mentions_param(name) implies left.contains_key(name) && right.contains_key(
                name,
            ) && left[name] == right[name] by {
                assert(ty.mentions_param(name));
            }
            a_substitution_depends_on_what_is_mentioned(sig.ret, left, right);
            assert(ty.subst(left)->Fun_0.params =~= ty.subst(right)->Fun_0.params);
        },
        _ => {},
    }
}

/// The receiver is found again from the result: where the expected result is the declared one with
/// its type parameters replaced, the receiver is the declared one with the same replacements.
pub proof fn the_receiver_is_found_from_the_result(
    target: DelegateGetValueTarget,
    declared_receiver: TyView,
    declared_ret: TyView,
    replaced: Map<Seq<char>, TyView>,
    formal: Seq<char>,
)
    requires
        target is Member,
        target->Member_declared_receiver@ == declared_receiver,
        target->Member_declared_ret@ == declared_ret,
        well_nested(declared_ret),
        declared_ret.mentions_param(formal),
        forall|name: Seq<char>| #[trigger]
            replaced.contains_key(name) ==> !replaced[name].admits_null(),
        forall|name: Seq<char>| #[trigger]
            declared_receiver.mentions_param(name) ==> declared_ret.mentions_param(name)
                && replaced.contains_key(name),
    ensures
        target.constrained(declared_ret.subst(replaced)) == Some(declared_receiver.subst(replaced)),
{
    let empty = Map::<Seq<char>, TyView>::empty();
    let found = unified(declared_ret, declared_ret.subst(replaced), empty);
    inference_finds_what_was_put_in(declared_ret, replaced, empty);
    assert(found.contains_key(formal));
    assert(found != empty);
    assert forall|name: Seq<char>| #[trigger]
        declared_receiver.mentions_param(name) implies found.contains_key(name)
        && replaced.contains_key(name) && found[name] == replaced[name] by {
        assert(declared_ret.mentions_param(name));
    }
    a_substitution_depends_on_what_is_mentioned(declared_receiver, found, replaced);
}

/// The constraint on a delegate goes through `provideDelegate` where there is one: the delegate is
/// what `provideDelegate` makes the receiver of `getValue` from.
pub proof fn a_provided_delegate_is_found_from_what_it_provides(
    provide: DelegateGetValueTarget,
    target: DelegateGetValueTarget,
    expected: TyView,
    replaced: Map<Seq<char>, TyView>,
    formal: Seq<char>,
)
    requires
        provide is Member,
        well_nested(provide->Member_declared_ret@),
        provide->Member_declared_ret@.mentions_param(formal),
        forall|name: Seq<char>| #[trigger]
            replaced.contains_key(name) ==> !replaced[name].admits_null(),
        forall|name: Seq<char>| #[trigger]
            provide->Member_declared_receiver@.mentions_param(name)
                ==> provide->Member_declared_ret@.mentions_param(name) && replaced.contains_key(
                name,
            ),
        target.constrained(expected) == Some(provide->Member_declared_ret@.subst(replaced)),
    ensures
        delegate_constraint(Some(provide), target, expected) == Some(
            provide->Member_declared_receiver@.subst(replaced),
        ),
        delegate_constraint(None, target, expected) == target.constrained(expected),
{
    the_receiver_is_found_from_the_result(
        provide,
        provide->Member_declared_receiver@,
        provide->Member_declared_ret@,
        replaced,
        formal,
    );
}

/// An argument is brought within its bound by dropping the null it admits, where that is what is
/// out of bounds, and never otherwise.
pub proof fn an_argument_within_its_bound_is_kept<A: Assignability>(
    relation: A,
    argument: TyView,
    bound: TyView,
)
    ensures
        ({
            let kept = within_bound(relation, argument, Some(bound));
            &&& kept == argument || kept == argument.non_null()
            &&& relation.accepts(argument, bound) || !argument.is_nullable() ==> kept == argument
            &&& argument.is_nullable() && relation.accepts(argument.non_null(), bound)
                ==> relation.accepts(kept, bound)
            &&& !relation.accepts(argument.non_null(), bound) ==> kept == argument
            &&& within_bound(relation, argument, None) == argument
        }),
{
}

/// Bringing arguments within their bounds changes nothing but the null that they admit, and binds
/// each type parameter to the argument that it has then.
pub proof fn bounded_arguments_keep_their_types<A: Assignability>(
    relation: A,
    class: ClassifierBounds,
    arguments: Seq<TyView>,
    count: nat,
)
    requires
        count <= arguments.len(),
        count <= class.type_params@.len(),
    ensures
        ({
            let (kept, bindings) = bounded(relation, class, arguments, count);
            &&& kept.len() == arguments.len()
            &&& forall|k: int|
                0 <= k < arguments.len() ==> #[trigger] kept[k] == arguments[k] || kept[k]
                    == arguments[k].non_null()
            &&& forall|k: int|
                count <= k < arguments.len() ==> #[trigger] kept[k] == arguments[k]
            &&& count > 0 ==> bindings.contains_key(class.type_params@[count - 1]@)
                && bindings[class.type_params@[count - 1]@] == kept[count - 1]
        }),
    decreases count,
{
    if count > 0 {
        bounded_arguments_keep_their_types(relation, class, arguments, (count - 1) as nat);
        let (earlier, bindings) = bounded(relation, class, arguments, (count - 1) as nat);
        assert(earlier[count - 1] == arguments[count - 1]);
        let (kept, _) = bounded(relation, class, arguments, count);
        assert forall|k: int| 0 <= k < arguments.len() implies #[trigger] kept[k] == arguments[k]
            || kept[k] == arguments[k].non_null() by {
            if k != count - 1 {
                assert(kept[k] == earlier[k]);
            }
        }
        assert forall|k: int| count <= k < arguments.len() implies #[trigger] kept[k]
            == arguments[k] by {
            assert(kept[k] == earlier[k]);
        }
    }
}

} // verus!
