//! Generic specialization of callable references, and the selection among specialized members.

use vstd::prelude::*;

use crate::bindings::{
    subst_all, subst_types, ty_subst_keep_unbound, unified, unify_inferred_ty, Bindings,
};
use crate::libraries::{
    CallSig, FunctionInfo, FunctionInfoView, GenericSig, GenericSigView, LibraryCallableView,
    LibraryTypeView,
};
use crate::model::holds;
use crate::resolve::callable_reference_selection::Assignability;
use crate::resolve::generic_call_bindings::{
    completed, infer_from_arguments, inferred_from_arguments, merge_generic_bindings, paired,
    seen_as, unify_from_symbols, ArgumentEvidence, ArgumentEvidenceView,
};
use crate::symbols::SymbolTable;
use crate::text::{holds_name, option_view, same_text, views};
use crate::types::{Ty, TyView};

verus! {

broadcast use {crate::text::group_views, crate::types::group_ty_views};

/// Why a generic callable reference has no specialization.
#[derive(Clone, Copy, Debug, PartialEq, Eq, Structural)]
pub enum CallableRefSpecialization {
    Specialized,
    UnresolvedTypeArguments,
    Inapplicable,
}

/// Which formal of one declaration stands for which formal of another.
#[derive(Debug)]
pub struct FormalPair {
    pub method: String,
    pub classifier: String,
}

/// The classifier formal that a method formal was last paired with.
pub open spec fn counterpart(pairs: Seq<FormalPair>, method: Seq<char>) -> Option<Seq<char>>
    decreases pairs.len(),
{
    if pairs.len() == 0 {
        None
    } else if pairs.last().method@ == method {
        Some(pairs.last().classifier@)
    } else {
        counterpart(pairs.drop_last(), method)
    }
}

fn find_counterpart(pairs: &Vec<FormalPair>, method: &str, wanted: &str) -> (paired_up: bool)
    ensures
        paired_up == (counterpart(pairs@, method@) == Some(wanted@)),
{
    let mut end: usize = pairs.len();
    assert(pairs@.take(end as int) =~= pairs@);
    while end > 0
        invariant
            end <= pairs@.len(),
            counterpart(pairs@, method@) == counterpart(pairs@.take(end as int), method@),
        decreases end,
    {
        assert(pairs@.take(end as int).drop_last() =~= pairs@.take(end as int - 1));
        let pair = &pairs[end - 1];
        if same_text(pair.method.as_str(), method) {
            return same_text(pair.classifier.as_str(), wanted);
        }
        end -= 1;
    }
    false
}

/// Whether two types are equal up to the names of paired formals.
pub open spec fn alpha_equivalent(left: TyView, right: TyView, formals: Seq<FormalPair>) -> bool
    decreases left,
{
    left == right || match (left, right) {
        (TyView::TyParam(a, _), TyView::TyParam(b, _)) => counterpart(formals, a) == Some(b),
        (TyView::Nullable(a), TyView::Nullable(b))
        | (TyView::PlatformNullable(a), TyView::PlatformNullable(b))
        | (TyView::InProjection(a), TyView::InProjection(b))
        | (TyView::OutProjection(a), TyView::OutProjection(b))
        | (TyView::StarProjection(a), TyView::StarProjection(b)) => alpha_equivalent(
            *a,
            *b,
            formals,
        ),
        (TyView::Obj(a, a_arguments), TyView::Obj(b, b_arguments)) => a == b && a_arguments.len()
            == b_arguments.len() && forall|k: int|
            0 <= k < a_arguments.len() ==> alpha_equivalent(
                #[trigger] a_arguments[k],
                b_arguments[k],
                formals,
            ),
        (TyView::Fun(a), TyView::Fun(b)) => {
            &&& a.params.len() == b.params.len()
            &&& a.context_count == b.context_count
            &&& a.has_receiver == b.has_receiver
            &&& a.suspend == b.suspend
            &&& forall|k: int|
                0 <= k < a.params.len() ==> alpha_equivalent(
                    #[trigger] a.params[k],
                    b.params[k],
                    formals,
                )
            &&& alpha_equivalent(a.ret, b.ret, formals)
        },
        _ => false,
    }
}

pub fn alpha_equivalent_type(left: &Ty, right: &Ty, formals: &Vec<FormalPair>) -> (same: bool)
    ensures
        same == alpha_equivalent(left@, right@, formals@),
    decreases left,
{
    if *left == *right {
        return true;
    }
    match (left, right) {
        (Ty::TyParam(a, _), Ty::TyParam(b, _)) => find_counterpart(
            formals,
            a.as_str(),
            b.as_str(),
        ),
        (Ty::Nullable(a), Ty::Nullable(b)) => alpha_equivalent_type(a, b, formals),
        (Ty::PlatformNullable(a), Ty::PlatformNullable(b)) => alpha_equivalent_type(a, b, formals),
        (Ty::InProjection(a), Ty::InProjection(b)) => alpha_equivalent_type(a, b, formals),
        (Ty::OutProjection(a), Ty::OutProjection(b)) => alpha_equivalent_type(a, b, formals),
        (Ty::StarProjection(a), Ty::StarProjection(b)) => alpha_equivalent_type(a, b, formals),
        (Ty::Obj(a, a_arguments), Ty::Obj(b, b_arguments)) => {
            assert(left@->Obj_1 == views(a_arguments@));
            assert(right@->Obj_1 == views(b_arguments@));
            a == b && alpha_equivalent_types(a_arguments, b_arguments, formals)
        },
        (Ty::Fun(a), Ty::Fun(b)) => {
            assert(left@->Fun_0.params == views(a.params@));
            assert(right@->Fun_0.params == views(b.params@));
            a.context_count == b.context_count && a.has_receiver == b.has_receiver && a.suspend
                == b.suspend && alpha_equivalent_types(&a.params, &b.params, formals)
                && alpha_equivalent_type(&a.ret, &b.ret, formals)
        },
        _ => false,
    }
}

fn alpha_equivalent_types(left: &Vec<Ty>, right: &Vec<Ty>, formals: &Vec<FormalPair>) -> (same: bool)
    ensures
        same == (views(left@).len() == views(right@).len() && forall|k: int|
            0 <= k < views(left@).len() ==> alpha_equivalent(
                #[trigger] views(left@)[k],
                views(right@)[k],
                formals@,
            )),
    decreases left,
{
    if left.len() != right.len() {
        return false;
    }
    let mut index: usize = 0;
    while index < left.len()
        invariant
            index <= left@.len(),
            left@.len() == right@.len(),
            forall|k: int|
                0 <= k < index ==> alpha_equivalent(
                    #[trigger] views(left@)[k],
                    views(right@)[k],
                    formals@,
                ),
        decreases left@.len() - index,
    {
        if !alpha_equivalent_type(&left[index], &right[index], formals) {
            assert(!alpha_equivalent(
                views(left@)[index as int],
                views(right@)[index as int],
                formals@,
            ));
            return false;
        }
        index += 1;
    }
    true
}

/// The formal of a method that a declared receiver argument is.
pub open spec fn formal_of(generic: GenericSigView, declared: TyView) -> Option<Seq<char>> {
    let inner = match declared.projection_inner() {
        Some(argument) => argument,
        None => declared,
    };
    match inner {
        TyView::TyParam(name, _) => if generic.formals.contains(name) {
            Some(name)
        } else {
            None
        },
        _ => None,
    }
}

fn find_formal<'a>(generic: &GenericSig, declared: &'a Ty) -> (formal: Option<&'a str>)
    ensures
        match formal {
            Some(name) => formal_of(generic@, declared@) == Some(name@),
            None => formal_of(generic@, declared@) is None,
        },
{
    let inner = match declared.projection_inner() {
        Some(argument) => argument,
        None => declared,
    };
    match inner {
        Ty::TyParam(name, _) => if holds_name(&generic.formals, name.as_str()) {
            Some(name.as_str())
        } else {
            None
        },
        _ => None,
    }
}

/// The pairs of formals that the arguments of a declared receiver give, for the first `count` of
/// them.
pub open spec fn pairs_match(
    pairs: Seq<FormalPair>,
    generic: GenericSigView,
    declared: Seq<TyView>,
    classifier_formals: Seq<Seq<char>>,
    count: int,
) -> bool
    decreases count,
{
    if count <= 0 {
        pairs.len() == 0
    } else {
        match formal_of(generic, declared[count - 1]) {
            Some(name) => pairs.len() > 0 && pairs.last().method@ == name
                && pairs.last().classifier@ == classifier_formals[count - 1] && pairs_match(
                pairs.drop_last(),
                generic,
                declared,
                classifier_formals,
                count - 1,
            ),
            None => pairs_match(pairs, generic, declared, classifier_formals, count - 1),
        }
    }
}

/// The first position of a formal.
pub open spec fn formal_position(formals: Seq<Seq<char>>, formal: Seq<char>) -> int
    decreases formals.len(),
{
    if formals.len() == 0 {
        -1
    } else if formals[0] == formal {
        0
    } else {
        let later = formal_position(formals.skip(1), formal);
        if later < 0 {
            -1
        } else {
            later + 1
        }
    }
}

fn find_position(formals: &Vec<String>, formal: &str) -> (position: Option<usize>)
    ensures
        match position {
            Some(found) => found < formals@.len() && found == formal_position(
                views(formals@),
                formal@,
            ),
            None => formal_position(views(formals@), formal@) == -1,
        },
{
    let ghost all = views(formals@);
    let mut index: usize = 0;
    assert(all.skip(0) =~= all);
    while index < formals.len()
        invariant
            index <= formals@.len(),
            all == views(formals@),
            formal_position(all, formal@) == (if formal_position(
                all.skip(index as int),
                formal@,
            ) < 0 {
                -1
            } else {
                formal_position(all.skip(index as int), formal@) + index
            }),
        decreases formals@.len() - index,
    {
        assert(all.skip(index as int).skip(1) =~= all.skip(index as int + 1));
        if same_text(formals[index].as_str(), formal) {
            return Some(index);
        }
        index += 1;
    }
    None
}

/// The bounds at a position, none where there is no such position.
pub open spec fn bounds_at(bounds: Seq<Seq<TyView>>, index: int) -> Seq<TyView> {
    if 0 <= index < bounds.len() {
        bounds[index]
    } else {
        Seq::empty()
    }
}

/// Whether a bound occurs among the classifier's bounds, up to the names of paired formals.
pub open spec fn bound_known(bound: TyView, classifier: Seq<TyView>, pairs: Seq<FormalPair>) -> bool {
    exists|j: int|
        0 <= j < classifier.len() && alpha_equivalent(bound, #[trigger] classifier[j], pairs)
}

/// Whether each bound occurs among the classifier's bounds, up to the names of paired formals.
pub open spec fn bounds_covered(
    method: Seq<TyView>,
    classifier: Seq<TyView>,
    pairs: Seq<FormalPair>,
) -> bool {
    forall|k: int| 0 <= k < method.len() ==> bound_known(#[trigger] method[k], classifier, pairs)
}

fn is_bound_known(bound: &Ty, classifier: &Vec<Ty>, pairs: &Vec<FormalPair>) -> (known: bool)
    ensures
        known == bound_known(bound@, views(classifier@), pairs@),
{
    let mut index: usize = 0;
    while index < classifier.len()
        invariant
            index <= classifier@.len(),
            forall|j: int|
                0 <= j < index ==> !alpha_equivalent(
                    bound@,
                    #[trigger] views(classifier@)[j],
                    pairs@,
                ),
        decreases classifier@.len() - index,
    {
        if alpha_equivalent_type(bound, &classifier[index], pairs) {
            assert(alpha_equivalent(bound@, views(classifier@)[index as int], pairs@));
            return true;
        }
        index += 1;
    }
    false
}

fn are_bounds_covered(method: &Vec<Ty>, classifier: &Vec<Ty>, pairs: &Vec<FormalPair>) -> (covered: bool)
    ensures
        covered == bounds_covered(views(method@), views(classifier@), pairs@),
{
    let mut index: usize = 0;
    while index < method.len()
        invariant
            index <= method@.len(),
            forall|k: int|
                0 <= k < index ==> bound_known(
                    #[trigger] views(method@)[k],
                    views(classifier@),
                    pairs@,
                ),
        decreases method@.len() - index,
    {
        if !is_bound_known(&method[index], classifier, pairs) {
            assert(!bound_known(views(method@)[index as int], views(classifier@), pairs@));
            return false;
        }
        index += 1;
    }
    true
}

/// Whether the receiver argument at `index` validates the method formal `name`: it captures a
/// projection of the actual receiver, and every bound of the formal is a bound of the classifier's
/// own parameter there.
pub open spec fn validates(
    generic: GenericSigView,
    shape: LibraryTypeView,
    declared: Seq<TyView>,
    actual: Seq<TyView>,
    pairs: Seq<FormalPair>,
    index: int,
    name: Seq<char>,
) -> bool {
    &&& actual[index].projection_inner() is Some
    &&& formal_of(generic, declared[index]) == Some(name)
    &&& bounds_covered(
        bounds_at(generic.formal_bounds, formal_position(generic.formals, name)),
        bounds_at(shape.type_param_bounds, index),
        pairs,
    )
}

/// Whether a method formal needs no test of its own bounds, because the classifier of the receiver
/// has already made it.
///
/// A formal bound from a projected receiver denotes the receiver's capture, not its readable upper
/// bound. The capture satisfies the classifier's bounds, so a method bound that is one of those
/// holds of it, even where the upper bound does not satisfy it as a type of its own.
pub open spec fn receiver_validates(
    source: SymbolTable,
    generic: GenericSigView,
    declared_receiver: TyView,
    actual_receiver: TyView,
    name: Seq<char>,
) -> bool {
    match (declared_receiver.non_null(), actual_receiver.non_null()) {
        (TyView::Obj(owner, declared), TyView::Obj(actual_owner, actual)) => {
            &&& owner == actual_owner
            &&& declared.len() == actual.len()
            &&& source.classifier_of(owner) matches Some(shape)
            &&& shape.type_params.len() == declared.len()
            &&& exists|index: int, pairs: Seq<FormalPair>|
                0 <= index < declared.len() && pairs_match(
                    pairs,
                    generic,
                    declared,
                    shape.type_params,
                    declared.len() as int,
                ) && #[trigger] validates(generic, shape, declared, actual, pairs, index, name)
        },
        _ => false,
    }
}

proof fn lemma_same_pairs(
    one: Seq<FormalPair>,
    two: Seq<FormalPair>,
    generic: GenericSigView,
    declared: Seq<TyView>,
    classifier_formals: Seq<Seq<char>>,
    count: int,
    method: Seq<char>,
)
    requires
        pairs_match(one, generic, declared, classifier_formals, count),
        pairs_match(two, generic, declared, classifier_formals, count),
    ensures
        counterpart(one, method) == counterpart(two, method),
    decreases count,
{
    if count > 0 {
        match formal_of(generic, declared[count - 1]) {
            Some(_) => {
                lemma_same_pairs(
                    one.drop_last(),
                    two.drop_last(),
                    generic,
                    declared,
                    classifier_formals,
                    count - 1,
                    method,
                );
            },
            None => {
                lemma_same_pairs(
                    one,
                    two,
                    generic,
                    declared,
                    classifier_formals,
                    count - 1,
                    method,
                );
            },
        }
    }
}

proof fn lemma_alpha_same_pairs(left: TyView, right: TyView, one: Seq<FormalPair>, two: Seq<FormalPair>)
    requires
        forall|method: Seq<char>| #[trigger] counterpart(one, method) == counterpart(two, method),
    ensures
        alpha_equivalent(left, right, one) == alpha_equivalent(left, right, two),
    decreases left,
{
    match (left, right) {
        (TyView::TyParam(a, _), TyView::TyParam(_, _)) => {
            assert(counterpart(one, a) == counterpart(two, a));
        },
        (TyView::Nullable(a), TyView::Nullable(b))
        | (TyView::PlatformNullable(a), TyView::PlatformNullable(b))
        | (TyView::InProjection(a), TyView::InProjection(b))
        | (TyView::OutProjection(a), TyView::OutProjection(b))
        | (TyView::StarProjection(a), TyView::StarProjection(b)) => {
            lemma_alpha_same_pairs(*a, *b, one, two);
        },
        (TyView::Obj(_, a), TyView::Obj(_, b)) => {
            assert forall|k: int| 0 <= k < a.len() && k < b.len() implies alpha_equivalent(
                #[trigger] a[k],
                b[k],
                one,
            ) == alpha_equivalent(a[k], b[k], two) by {
                lemma_alpha_same_pairs(a[k], b[k], one, two);
            }
        },
        (TyView::Fun(a), TyView::Fun(b)) => {
            assert forall|k: int| 0 <= k < a.params.len() && k < b.params.len() implies
                alpha_equivalent(#[trigger] a.params[k], b.params[k], one) == alpha_equivalent(
                a.params[k],
                b.params[k],
                two,
            ) by {
                lemma_alpha_same_pairs(a.params[k], b.params[k], one, two);
            }
            lemma_alpha_same_pairs(a.ret, b.ret, one, two);
        },
        _ => {},
    }
}

proof fn lemma_covered_same_pairs(
    method: Seq<TyView>,
    classifier: Seq<TyView>,
    one: Seq<FormalPair>,
    two: Seq<FormalPair>,
)
    requires
        forall|name: Seq<char>| #[trigger] counterpart(one, name) == counterpart(two, name),
        bounds_covered(method, classifier, one),
    ensures
        bounds_covered(method, classifier, two),
{
    assert forall|k: int| 0 <= k < method.len() implies bound_known(
        #[trigger] method[k],
        classifier,
        two,
    ) by {
        assert(bound_known(method[k], classifier, one));
        let j = choose|j: int|
            0 <= j < classifier.len() && alpha_equivalent(method[k], #[trigger] classifier[j], one);
        lemma_alpha_same_pairs(method[k], classifier[j], one, two);
    }
}

/// The method formals whose bounds the classifier of the receiver has already tested.
pub fn receiver_validated_projected_formals(
    source: &SymbolTable,
    generic: &GenericSig,
    declared_receiver: &Ty,
    actual_receiver: &Ty,
) -> (validated: Vec<String>)
    ensures
        forall|name: Seq<char>| #[trigger]
            views(validated@).contains(name) == receiver_validates(
                *source,
                generic@,
                declared_receiver@,
                actual_receiver@,
                name,
            ),
{
    let mut validated: Vec<String> = Vec::new();
    let (owner, declared, actual_owner, actual) = match (
        declared_receiver.non_null(),
        actual_receiver.non_null(),
    ) {
        (Ty::Obj(owner, declared), Ty::Obj(actual_owner, actual)) => (
            owner,
            declared,
            actual_owner,
            actual,
        ),
        _ => {
            return validated;
        },
    };
    let ghost d = views(declared@);
    let ghost a = views(actual@);
    assert(declared_receiver@.non_null()->Obj_1 == d);
    assert(actual_receiver@.non_null()->Obj_1 == a);
    if owner != actual_owner || declared.len() != actual.len() {
        return validated;
    }
    let shape = match source.classifier(owner) {
        Some(shape) => shape,
        None => {
            return validated;
        },
    };
    if shape.type_params.len() != declared.len() {
        return validated;
    }
    let ghost formals = views(shape.type_params@);
    let mut pairs: Vec<FormalPair> = Vec::new();
    let mut index: usize = 0;
    while index < declared.len()
        invariant
            index <= declared@.len(),
            d == views(declared@),
            formals == views(shape.type_params@),
            formals.len() == d.len(),
            pairs_match(pairs@, generic@, d, formals, index as int),
        decreases declared@.len() - index,
    {
        if let Some(formal) = find_formal(generic, &declared[index]) {
            let ghost before = pairs@;
            pairs.push(
                FormalPair {
                    method: formal.to_owned(),
                    classifier: shape.type_params[index].clone(),
                },
            );
            assert(pairs@.drop_last() =~= before);
        }
        index += 1;
    }
    index = 0;
    while index < declared.len()
        invariant
            index <= declared@.len(),
            d == views(declared@),
            a == views(actual@),
            d.len() == a.len(),
            forall|name: Seq<char>| #[trigger]
                views(validated@).contains(name) == exists|k: int|
                    0 <= k < index && #[trigger] validates(
                        generic@,
                        shape@,
                        d,
                        a,
                        pairs@,
                        k,
                        name,
                    ),
        decreases declared@.len() - index,
    {
        let ghost before = views(validated@);
        let mut added = false;
        if actual[index].projection_inner().is_some() {
            if let Some(formal) = find_formal(generic, &declared[index]) {
                let none: Vec<Ty> = Vec::new();
                let method_bounds = match find_position(&generic.formals, formal) {
                    Some(position) => if position < generic.formal_bounds.len() {
                        &generic.formal_bounds[position]
                    } else {
                        &none
                    },
                    None => &none,
                };
                let classifier_bounds = if index < shape.type_param_bounds.len() {
                    &shape.type_param_bounds[index]
                } else {
                    &none
                };
                assert(views(none@) =~= Seq::empty());
                if are_bounds_covered(method_bounds, classifier_bounds, &pairs) {
                    validated.push(formal.to_owned());
                    added = true;
                    assert(validates(generic@, shape@, d, a, pairs@, index as int, formal@));
                }
            }
        }
        proof {
            assert forall|name: Seq<char>| #[trigger]
                views(validated@).contains(name) == exists|k: int|
                    0 <= k < index + 1 && #[trigger] validates(
                        generic@,
                        shape@,
                        d,
                        a,
                        pairs@,
                        k,
                        name,
                    ) by {
                let here = validates(generic@, shape@, d, a, pairs@, index as int, name);
                assert(here == (added && views(validated@).last() == name));
                if views(validated@).contains(name) {
                    let k = choose|k: int|
                        0 <= k < views(validated@).len() && views(validated@)[k] == name;
                    if k < before.len() {
                        assert(before[k] == name);
                        assert(before.contains(name));
                    }
                }
                if before.contains(name) {
                    let k = choose|k: int| 0 <= k < before.len() && before[k] == name;
                    assert(views(validated@)[k] == name);
                }
                if here {
                    assert(views(validated@)[views(validated@).len() - 1] == name);
                }
            }
        }
        index += 1;
    }
    proof {
        assert forall|name: Seq<char>| #[trigger]
            views(validated@).contains(name) == receiver_validates(
                *source,
                generic@,
                declared_receiver@,
                actual_receiver@,
                name,
            ) by {
            if receiver_validates(
                *source,
                generic@,
                declared_receiver@,
                actual_receiver@,
                name,
            ) {
                let (k, other) = choose|k: int, other: Seq<FormalPair>|
                    0 <= k < d.len() && pairs_match(
                        other,
                        generic@,
                        d,
                        shape@.type_params,
                        d.len() as int,
                    ) && #[trigger] validates(generic@, shape@, d, a, other, k, name);
                assert forall|method: Seq<char>| #[trigger]
                    counterpart(other, method) == counterpart(pairs@, method) by {
                    lemma_same_pairs(
                        other,
                        pairs@,
                        generic@,
                        d,
                        formals,
                        d.len() as int,
                        method,
                    );
                }
                lemma_covered_same_pairs(
                    bounds_at(
                        generic@.formal_bounds,
                        formal_position(generic@.formals, name),
                    ),
                    bounds_at(shape@.type_param_bounds, k),
                    other,
                    pairs@,
                );
                assert(validates(generic@, shape@, d, a, pairs@, k, name));
            }
        }
    }
    validated
}

/// A generic signature with its formals replaced.
#[derive(Debug)]
pub struct SpecializedGenericCallableReference {
    pub receiver: Option<Ty>,
    pub params: Vec<Ty>,
    pub ret: Ty,
    /// Final arguments in the order of the declared formals.
    pub type_arguments: Vec<Ty>,
}

/// The model of a [`SpecializedGenericCallableReference`].
pub struct SpecializedView {
    pub receiver: Option<TyView>,
    pub params: Seq<TyView>,
    pub ret: TyView,
    pub type_arguments: Seq<TyView>,
}

impl View for SpecializedGenericCallableReference {
    type V = SpecializedView;

    open spec fn view(&self) -> SpecializedView {
        SpecializedView {
            receiver: option_view(self.receiver),
            params: views(self.params@),
            ret: self.ret@,
            type_arguments: views(self.type_arguments@),
        }
    }
}

/// What a callable reference is specialized against.
pub struct ReferenceContext {
    pub extension_receiver: Option<TyView>,
    pub expected_params: Option<Seq<TyView>>,
    pub expected_ret: Option<TyView>,
}

/// Whether the expected inputs pass the array of the vararg parameter whole.
pub open spec fn whole_vararg(generic: GenericSigView, vararg: Option<usize>, expected: Seq<TyView>) -> bool {
    vararg matches Some(index) && expected.len() == generic.params.len() && index < expected.len()
        && expected[index as int].array_elem() is Some
}

/// The evidence that the expected input at `index` is.
pub open spec fn expected_evidence(
    generic: GenericSigView,
    vararg: Option<usize>,
    expected: Seq<TyView>,
    index: int,
) -> Seq<ArgumentEvidenceView> {
    if vararg matches Some(position) && index >= position {
        seq![
            ArgumentEvidenceView {
                parameter: vararg->Some_0,
                actual: expected[index],
                whole_array: whole_vararg(generic, vararg, expected) && index == vararg->Some_0,
            },
        ]
    } else if index < generic.params.len() {
        seq![
            ArgumentEvidenceView {
                parameter: index as usize,
                actual: expected[index],
                whole_array: whole_vararg(generic, vararg, expected),
            },
        ]
    } else {
        Seq::empty()
    }
}

/// The evidence that the first `count` expected inputs are.
pub open spec fn all_expected_evidence(
    generic: GenericSigView,
    vararg: Option<usize>,
    expected: Seq<TyView>,
    count: nat,
) -> Seq<ArgumentEvidenceView>
    decreases count,
{
    if count == 0 {
        Seq::empty()
    } else {
        all_expected_evidence(generic, vararg, expected, (count - 1) as nat) + expected_evidence(
            generic,
            vararg,
            expected,
            count - 1,
        )
    }
}

/// The bindings that the receiver gives.
pub open spec fn receiver_bindings(
    source: SymbolTable,
    generic: GenericSigView,
    context: ReferenceContext,
) -> Map<Seq<char>, TyView> {
    match (generic.receiver, context.extension_receiver) {
        (Some(declared), Some(actual)) => completed(
            generic.formals,
            Map::empty(),
            unified(declared, seen_as(source, declared, actual), Map::empty()),
        ),
        _ => Map::empty(),
    }
}

/// The bindings that the receiver and the expected inputs give.
pub open spec fn input_evidence_bindings(
    source: SymbolTable,
    generic: GenericSigView,
    vararg: Option<usize>,
    context: ReferenceContext,
) -> Map<Seq<char>, TyView> {
    match context.expected_params {
        Some(expected) => completed(
            generic.formals,
            receiver_bindings(source, generic, context),
            inferred_from_arguments(
                source,
                generic.params,
                vararg,
                all_expected_evidence(generic, vararg, expected, expected.len()),
            ),
        ),
        None => receiver_bindings(source, generic, context),
    }
}

/// The bindings of a generic reference: the receiver's, then those of the expected inputs, then that
/// of the expected result.
pub open spec fn reference_bindings(
    source: SymbolTable,
    generic: GenericSigView,
    vararg: Option<usize>,
    context: ReferenceContext,
) -> Map<Seq<char>, TyView> {
    let inputs = input_evidence_bindings(source, generic, vararg, context);
    match context.expected_ret {
        Some(expected) => completed(
            generic.formals,
            inputs,
            unified(generic.ret, expected, Map::empty()),
        ),
        None => inputs,
    }
}

/// Whether the classifier of the receiver has already tested the bounds of a formal.
pub open spec fn exempt(
    source: SymbolTable,
    generic: GenericSigView,
    context: ReferenceContext,
    name: Seq<char>,
) -> bool {
    match (generic.receiver, context.extension_receiver) {
        (Some(declared), Some(actual)) => receiver_validates(
            source,
            generic,
            declared,
            actual,
            name,
        ),
        _ => false,
    }
}

/// Whether the type bound to a formal satisfies all its bounds.
pub open spec fn formal_satisfied<A: Assignability>(
    relation: A,
    generic: GenericSigView,
    bindings: Map<Seq<char>, TyView>,
    index: int,
) -> bool {
    let name = generic.formals[index];
    let bounds = bounds_at(generic.formal_bounds, index);
    bindings.contains_key(name) ==> forall|k: int|
        0 <= k < bounds.len() ==> relation.accepts(
            bindings[name],
            (#[trigger] bounds[k]).subst(bindings),
        )
}

/// Whether every bound formal satisfies its bounds.
pub open spec fn bounds_satisfied<A: Assignability>(
    relation: A,
    generic: GenericSigView,
    bindings: Map<Seq<char>, TyView>,
) -> bool {
    forall|i: int|
        0 <= i < generic.formals.len() ==> #[trigger] formal_satisfied(
            relation,
            generic,
            bindings,
            i,
        )
}

fn is_formal_satisfied<A: Assignability>(
    relation: &A,
    generic: &GenericSig,
    bindings: &Bindings,
    index: usize,
) -> (yes: bool)
    requires
        index < generic.formals@.len(),
    ensures
        yes == formal_satisfied(*relation, generic@, bindings@, index as int),
{
    let actual = match bindings.get(generic.formals[index].as_str()) {
        Some(actual) => actual,
        None => {
            return true;
        },
    };
    if index >= generic.formal_bounds.len() {
        return true;
    }
    let bounds = &generic.formal_bounds[index];
    assert(bounds_at(generic@.formal_bounds, index as int) == views(bounds@));
    let mut k: usize = 0;
    while k < bounds.len()
        invariant
            k <= bounds@.len(),
            bounds_at(generic@.formal_bounds, index as int) == views(bounds@),
            bindings@.contains_key(generic@.formals[index as int]),
            bindings@[generic@.formals[index as int]] == actual@,
            forall|j: int|
                0 <= j < k ==> relation.accepts(
                    actual@,
                    (#[trigger] views(bounds@)[j]).subst(bindings@),
                ),
        decreases bounds@.len() - k,
    {
        if !relation.is_assignable(actual, &ty_subst_keep_unbound(&bounds[k], bindings)) {
            assert(!relation.accepts(actual@, views(bounds@)[k as int].subst(bindings@)));
            return false;
        }
        k += 1;
    }
    true
}

/// Whether every bound formal satisfies its bounds.
pub fn generic_bindings_satisfy_bounds<A: Assignability>(
    relation: &A,
    generic: &GenericSig,
    bindings: &Bindings,
) -> (yes: bool)
    ensures
        yes == bounds_satisfied(*relation, generic@, bindings@),
{
    let mut index: usize = 0;
    while index < generic.formals.len()
        invariant
            index <= generic.formals@.len(),
            forall|i: int|
                0 <= i < index ==> #[trigger] formal_satisfied(
                    *relation,
                    generic@,
                    bindings@,
                    i,
                ),
        decreases generic.formals@.len() - index,
    {
        if !is_formal_satisfied(relation, generic, bindings, index) {
            return false;
        }
        index += 1;
    }
    true
}

/// The bindings without those of exempt formals.
pub open spec fn validation_bindings(
    source: SymbolTable,
    generic: GenericSigView,
    context: ReferenceContext,
    bindings: Map<Seq<char>, TyView>,
) -> Map<Seq<char>, TyView> {
    Map::new(
        |name: Seq<char>| bindings.contains_key(name) && !exempt(source, generic, context, name),
        |name: Seq<char>| bindings[name],
    )
}

/// The signature with its formals replaced by their bindings.
pub open spec fn specialized_by(
    generic: GenericSigView,
    context: ReferenceContext,
    bindings: Map<Seq<char>, TyView>,
) -> SpecializedView {
    SpecializedView {
        receiver: match generic.receiver {
            Some(receiver) => Some(receiver.subst(bindings)),
            None => context.extension_receiver,
        },
        params: subst_all(generic.params, bindings),
        ret: generic.ret.subst(bindings),
        type_arguments: Seq::new(
            generic.formals.len(),
            |i: int| bindings[generic.formals[i]],
        ),
    }
}

/// The specialization of a generic reference: inapplicable where a bound is violated, unresolved
/// where a formal has no binding.
pub open spec fn specialization<A: Assignability>(
    source: SymbolTable,
    generic: GenericSigView,
    vararg: Option<usize>,
    context: ReferenceContext,
    relation: A,
) -> Result<SpecializedView, CallableRefSpecialization> {
    let bindings = reference_bindings(source, generic, vararg, context);
    if !bounds_satisfied(
        relation,
        generic,
        validation_bindings(source, generic, context, bindings),
    ) {
        Err(CallableRefSpecialization::Inapplicable)
    } else if exists|i: int|
        0 <= i < generic.formals.len() && !bindings.contains_key(#[trigger] generic.formals[i]) {
        Err(CallableRefSpecialization::UnresolvedTypeArguments)
    } else {
        Ok(specialized_by(generic, context, bindings))
    }
}

fn evidence_of_expected(generic: &GenericSig, vararg: Option<usize>, expected: &[Ty]) -> (evidence: Vec<ArgumentEvidence>)
    ensures
        views(evidence@) == all_expected_evidence(
            generic@,
            vararg,
            views(expected@),
            expected@.len(),
        ),
{
    let ghost all = views(expected@);
    let whole = match vararg {
        Some(index) => expected.len() == generic.params.len() && index < expected.len()
            && expected[index].array_elem().is_some(),
        None => false,
    };
    assert(whole == whole_vararg(generic@, vararg, all));
    let mut evidence: Vec<ArgumentEvidence> = Vec::new();
    let mut index: usize = 0;
    while index < expected.len()
        invariant
            index <= expected@.len(),
            all == views(expected@),
            whole == whole_vararg(generic@, vararg, all),
            views(evidence@) == all_expected_evidence(generic@, vararg, all, index as nat),
        decreases expected@.len() - index,
    {
        let position: Option<usize> = match vararg {
            Some(position) => if index >= position {
                Some(position)
            } else if index < generic.params.len() {
                Some(index)
            } else {
                None
            },
            None => if index < generic.params.len() {
                Some(index)
            } else {
                None
            },
        };
        if let Some(parameter) = position {
            evidence.push(
                ArgumentEvidence {
                    parameter,
                    actual: expected[index].clone(),
                    whole_array: whole && index == parameter,
                },
            );
        }
        assert(views(evidence@) =~= all_expected_evidence(
            generic@,
            vararg,
            all,
            (index + 1) as nat,
        ));
        index += 1;
    }
    evidence
}

/// The context that borrowed facts stand for.
pub open spec fn context_of(
    extension_receiver: Option<&Ty>,
    expected_params: Option<&[Ty]>,
    expected_ret: Option<&Ty>,
) -> ReferenceContext {
    ReferenceContext {
        extension_receiver: match extension_receiver {
            Some(ty) => Some(ty@),
            None => None,
        },
        expected_params: match expected_params {
            Some(types) => Some(views(types@)),
            None => None,
        },
        expected_ret: match expected_ret {
            Some(ty) => Some(ty@),
            None => None,
        },
    }
}

fn infer_reference_bindings(
    source: &SymbolTable,
    generic: &GenericSig,
    vararg: Option<usize>,
    extension_receiver: Option<&Ty>,
    expected_params: Option<&[Ty]>,
    expected_ret: Option<&Ty>,
) -> (bindings: Bindings)
    ensures
        bindings@ == reference_bindings(
            *source,
            generic@,
            vararg,
            context_of(extension_receiver, expected_params, expected_ret),
        ),
{
    let mut bindings = Bindings::new();
    if let (Some(declared), Some(actual)) = (&generic.receiver, extension_receiver) {
        let mut inferred = Bindings::new();
        unify_from_symbols(source, declared, actual, &mut inferred);
        merge_generic_bindings(&generic.formals, &mut bindings, &inferred);
    }
    if let Some(expected) = expected_params {
        let evidence = evidence_of_expected(generic, vararg, expected);
        let inferred = infer_from_arguments(source, &generic.params, vararg, &evidence);
        merge_generic_bindings(&generic.formals, &mut bindings, &inferred);
    }
    if let Some(expected) = expected_ret {
        let mut inferred = Bindings::new();
        unify_inferred_ty(&generic.ret, expected, &mut inferred);
        merge_generic_bindings(&generic.formals, &mut bindings, &inferred);
    }
    bindings
}

/// Specialize a generic signature against what a callable reference is expected to be.
pub fn specialize_generic_signature<A: Assignability>(
    source: &SymbolTable,
    generic: &GenericSig,
    call_sig: &CallSig,
    extension_receiver: Option<&Ty>,
    expected_params: Option<&[Ty]>,
    expected_ret: Option<&Ty>,
    relation: &A,
) -> (out: Result<SpecializedGenericCallableReference, CallableRefSpecialization>)
    ensures
        ({
            let wanted = specialization(
                *source,
                generic@,
                call_sig@.vararg_index,
                context_of(extension_receiver, expected_params, expected_ret),
                *relation,
            );
            match out {
                Ok(found) => wanted == Ok::<SpecializedView, CallableRefSpecialization>(found@),
                Err(failure) => wanted == Err::<SpecializedView, CallableRefSpecialization>(failure),
            }
        }),
{
    let ghost context = context_of(extension_receiver, expected_params, expected_ret);
    let bindings = infer_reference_bindings(
        source,
        generic,
        call_sig.vararg_index,
        extension_receiver,
        expected_params,
        expected_ret,
    );
    let mut tested = bindings.clone();
    if let (Some(declared), Some(actual)) = (&generic.receiver, extension_receiver) {
        let validated = receiver_validated_projected_formals(source, generic, declared, actual);
        remove_all(&mut tested, &validated);
    }
    proof {
        assert(tested@ =~= validation_bindings(*source, generic@, context, bindings@));
    }
    if !generic_bindings_satisfy_bounds(relation, generic, &tested) {
        return Err(CallableRefSpecialization::Inapplicable);
    }
    let mut type_arguments: Vec<Ty> = Vec::new();
    let mut index: usize = 0;
    while index < generic.formals.len()
        invariant
            index <= generic.formals@.len(),
            type_arguments@.len() == index,
            bounds_satisfied(
                *relation,
                generic@,
                validation_bindings(*source, generic@, context, bindings@),
            ),
            context == context_of(extension_receiver, expected_params, expected_ret),
            bindings@ == reference_bindings(*source, generic@, call_sig@.vararg_index, context),
            forall|i: int|
                0 <= i < index ==> bindings@.contains_key(#[trigger] generic@.formals[i])
                    && type_arguments@[i]@ == bindings@[generic@.formals[i]],
        decreases generic.formals@.len() - index,
    {
        match bindings.get(generic.formals[index].as_str()) {
            Some(ty) => {
                type_arguments.push(ty.clone());
            },
            None => {
                assert(!bindings@.contains_key(generic@.formals[index as int]));
                return Err(CallableRefSpecialization::UnresolvedTypeArguments);
            },
        }
        index += 1;
    }
    let receiver = match &generic.receiver {
        Some(declared) => Some(ty_subst_keep_unbound(declared, &bindings)),
        None => match extension_receiver {
            Some(actual) => Some(actual.clone()),
            None => None,
        },
    };
    let out = SpecializedGenericCallableReference {
        receiver,
        params: subst_types(&generic.params, &bindings),
        ret: ty_subst_keep_unbound(&generic.ret, &bindings),
        type_arguments,
    };
    assert(out@.type_arguments =~= specialized_by(generic@, context, bindings@).type_arguments);
    Ok(out)
}

fn remove_all(bindings: &mut Bindings, names: &Vec<String>)
    ensures
        forall|name: Seq<char>| #[trigger]
            final(bindings)@.contains_key(name) == (old(bindings)@.contains_key(name) && !views(
                names@,
            ).contains(name)),
        forall|name: Seq<char>| #[trigger]
            final(bindings)@.contains_key(name) ==> final(bindings)@[name] == old(bindings)@[name],
{
    let ghost before = bindings@;
    let ghost all = views(names@);
    let mut index: usize = 0;
    while index < names.len()
        invariant
            index <= names@.len(),
            all == views(names@),
            forall|name: Seq<char>| #[trigger]
                bindings@.contains_key(name) == (before.contains_key(name) && !all.take(
                    index as int,
                ).contains(name)),
            forall|name: Seq<char>| #[trigger]
                bindings@.contains_key(name) ==> bindings@[name] == before[name],
        decreases names@.len() - index,
    {
        bindings.remove(names[index].as_str());
        proof {
            let done = all.take(index as int);
            assert(all.take(index as int + 1) =~= done.push(all[index as int]));
            assert forall|name: Seq<char>| #[trigger]
                done.push(all[index as int]).contains(name) == (done.contains(name) || name
                    == all[index as int]) by {
                if done.contains(name) {
                    let k = choose|k: int| 0 <= k < done.len() && done[k] == name;
                    assert(done.push(all[index as int])[k] == name);
                }
                assert(done.push(all[index as int])[done.len() as int] == all[index as int]);
                if done.push(all[index as int]).contains(name) && name != all[index as int] {
                    let k = choose|k: int|
                        0 <= k < done.push(all[index as int]).len() && done.push(
                            all[index as int],
                        )[k] == name;
                    assert(done[k] == name);
                }
            }
        }
        index += 1;
    }
    assert(all.take(index as int) =~= all);
}

/// A function with its generic signature specialized away.
pub open spec fn with_specialization(function: FunctionInfoView, special: SpecializedView) -> FunctionInfoView {
    FunctionInfoView {
        receiver: special.receiver,
        generic_sig: None,
        callable: LibraryCallableView {
            params: if function.is_extension() {
                match special.receiver {
                    Some(receiver) => seq![receiver] + special.params,
                    None => special.params,
                }
            } else {
                special.params
            },
            ret: special.ret,
            ..function.callable
        },
        ..function
    }
}

/// The specialization of a candidate with its type arguments: a function that is not generic is its
/// own.
pub open spec fn candidate_specialization<A: Assignability>(
    source: SymbolTable,
    function: FunctionInfoView,
    context: ReferenceContext,
    relation: A,
) -> Result<(FunctionInfoView, Seq<TyView>), CallableRefSpecialization> {
    match function.generic_sig {
        None => Ok((function, Seq::empty())),
        Some(generic) => match specialization(
            source,
            generic,
            function.call_sig.vararg_index,
            context,
            relation,
        ) {
            Ok(special) => Ok((with_specialization(function, special), special.type_arguments)),
            Err(failure) => Err(failure),
        },
    }
}

/// Specialize a candidate in place. A candidate that cannot be specialized is left as it was.
pub fn specialize_candidate_with_type_arguments<A: Assignability>(
    source: &SymbolTable,
    function: &mut FunctionInfo,
    extension_receiver: Option<&Ty>,
    expected_params: Option<&[Ty]>,
    expected_ret: Option<&Ty>,
    relation: &A,
) -> (out: Result<Vec<Ty>, CallableRefSpecialization>)
    ensures
        ({
            let wanted = candidate_specialization(
                *source,
                old(function)@,
                context_of(extension_receiver, expected_params, expected_ret),
                *relation,
            );
            match out {
                Ok(arguments) => wanted == Ok::<
                    (FunctionInfoView, Seq<TyView>),
                    CallableRefSpecialization,
                >((final(function)@, views(arguments@))),
                Err(failure) => wanted == Err::<
                    (FunctionInfoView, Seq<TyView>),
                    CallableRefSpecialization,
                >(failure) && *final(function) == *old(function),
            }
        }),
{
    let special = match &function.generic_sig {
        None => {
            let none: Vec<Ty> = Vec::new();
            assert(views(none@) =~= Seq::empty());
            return Ok(none);
        },
        Some(generic) => match specialize_generic_signature(
            source,
            generic,
            &function.call_sig,
            extension_receiver,
            expected_params,
            expected_ret,
            relation,
        ) {
            Ok(special) => special,
            Err(failure) => {
                return Err(failure);
            },
        },
    };
    let ghost model = special@;
    let mut params: Vec<Ty> = Vec::new();
    if function.is_extension() {
        if let Some(receiver) = &special.receiver {
            params.push(receiver.clone());
        }
    }
    let ghost first = views(params@);
    let mut values = special.params;
    params.append(&mut values);
    proof {
        assert(views(params@) =~= first + model.params);
        assert(views(params@) =~= with_specialization(old(function)@, model).callable.params);
    }
    function.receiver = special.receiver;
    function.callable.params = params;
    function.callable.ret = special.ret;
    function.generic_sig = None;
    Ok(special.type_arguments)
}

/// Specialize a candidate in place and say how it went.
pub fn specialize_candidate<A: Assignability>(
    source: &SymbolTable,
    function: &mut FunctionInfo,
    extension_receiver: Option<&Ty>,
    expected_params: Option<&[Ty]>,
    expected_ret: Option<&Ty>,
    relation: &A,
) -> (out: CallableRefSpecialization)
    ensures
        match candidate_specialization(
            *source,
            old(function)@,
            context_of(extension_receiver, expected_params, expected_ret),
            *relation,
        ) {
            Ok(special) => out == CallableRefSpecialization::Specialized && final(function)@
                == special.0,
            Err(failure) => out == failure && *final(function) == *old(function),
        },
{
    match specialize_candidate_with_type_arguments(
        source,
        function,
        extension_receiver,
        expected_params,
        expected_ret,
        relation,
    ) {
        Ok(_) => CallableRefSpecialization::Specialized,
        Err(failure) => failure,
    }
}

} // verus!
