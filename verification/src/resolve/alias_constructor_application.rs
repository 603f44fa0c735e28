//! What a constructor call through a type alias fixes about the classifier it constructs.
//!
//! A call through a generic alias that leaves out the type arguments expands to the target of the
//! alias with the formals of the alias open. They are type variables of the call: its arguments and
//! its expected type decide them. Only what does not mention an open formal is fixed by the alias.

use vstd::prelude::*;

use crate::bindings::{ty_subst_keep_unbound, unified, Bindings};
use crate::libraries::{GenericReturnPolicy, GenericSig, GenericSigView};
use crate::model::copy_all;
use crate::resolve::call_result_templates::{mentions_any, some_mentions, ty_mentions_param};
use crate::resolve::callable_reference_selection::Assignability;
use crate::resolve::generic_call_bindings::{seen_as, unify_from_symbols};
use crate::symbols::SymbolTable;
use crate::text::{option_view, views};
use crate::types::{any_nullable, Ty, TyView};

verus! {

broadcast use {crate::text::group_views, crate::types::group_ty_views};

/// The signature of a call through an alias with open formals. A formal of an alias has no bound
/// but `Any?`.
pub open spec fn alias_template(formals: Seq<Seq<char>>, expansion: TyView) -> GenericSigView {
    GenericSigView {
        formals,
        formal_bounds: Seq::new(formals.len(), |i: int| seq![any_nullable()]),
        receiver: None,
        params: seq![],
        ret: expansion,
        return_policy: GenericReturnPolicy::Exact,
    }
}

/// The signature of a call through an alias with open formals.
pub fn alias_signature(formals: &Vec<String>, expansion: &Ty) -> (signature: GenericSig)
    ensures
        signature@ == alias_template(views(formals@), expansion@),
{
    let mut formal_bounds: Vec<Vec<Ty>> = Vec::new();
    while formal_bounds.len() < formals.len()
        invariant
            formal_bounds@.len() <= formals@.len(),
            forall|k: int|
                0 <= k < formal_bounds@.len() ==> views((#[trigger] formal_bounds@[k])@)
                    == seq![any_nullable()],
        decreases formals@.len() - formal_bounds@.len(),
    {
        let mut bounds: Vec<Ty> = Vec::new();
        bounds.push(Ty::nullable(Ty::obj("kotlin/Any")));
        assert(views(bounds@) =~= seq![any_nullable()]);
        formal_bounds.push(bounds);
    }
    let signature = GenericSig {
        formals: copy_all(formals),
        formal_bounds,
        receiver: None,
        params: Vec::new(),
        ret: expansion.clone(),
        return_policy: GenericReturnPolicy::Exact,
    };
    assert(signature@.formal_bounds =~= alias_template(
        views(formals@),
        expansion@,
    ).formal_bounds);
    signature
}

/// Whether what was found for the formals stays within their bound.
pub open spec fn within_bound<A: Assignability>(
    relation: A,
    formals: Seq<Seq<char>>,
    found: Map<Seq<char>, TyView>,
) -> bool {
    forall|i: int|
        0 <= i < formals.len() && found.contains_key(#[trigger] formals[i]) ==> relation.accepts(
            found[formals[i]],
            any_nullable(),
        )
}

/// What the expected type of a call says of the formals of an alias: what makes the expansion read
/// as it, where that stays within the bounds.
pub open spec fn alias_bindings<A: Assignability>(
    source: SymbolTable,
    relation: A,
    formals: Seq<Seq<char>>,
    expansion: TyView,
    expected: Option<TyView>,
) -> Map<Seq<char>, TyView> {
    match expected {
        Some(wanted) if !(wanted is Error) => {
            let found = unified(
                expansion,
                seen_as(source, expansion, wanted.non_null()),
                Map::empty(),
            );
            if within_bound(relation, formals, found) {
                found
            } else {
                Map::empty()
            }
        },
        _ => Map::empty(),
    }
}

fn stays_within_bound<A: Assignability>(
    relation: &A,
    formals: &Vec<String>,
    found: &Bindings,
) -> (yes: bool)
    ensures
        yes == within_bound(*relation, views(formals@), found@),
{
    let bound = Ty::nullable(Ty::obj("kotlin/Any"));
    let mut next: usize = 0;
    while next < formals.len()
        invariant
            next <= formals@.len(),
            bound@ == any_nullable(),
            forall|i: int|
                0 <= i < next && found@.contains_key(#[trigger] views(formals@)[i])
                    ==> relation.accepts(found@[views(formals@)[i]], any_nullable()),
        decreases formals@.len() - next,
    {
        assert(views(formals@)[next as int] == formals@[next as int]@);
        if let Some(actual) = found.get(formals[next].as_str()) {
            if !relation.is_assignable(actual, &bound) {
                return false;
            }
        }
        next += 1;
    }
    true
}

fn infer_alias_bindings<A: Assignability>(
    source: &SymbolTable,
    relation: &A,
    formals: &Vec<String>,
    expansion: &Ty,
    expected: Option<&Ty>,
) -> (bindings: Bindings)
    ensures
        bindings@ == alias_bindings(
            *source,
            *relation,
            views(formals@),
            expansion@,
            match expected {
                Some(wanted) => Some(wanted@),
                None => None,
            },
        ),
{
    match expected {
        Some(wanted) => {
            if matches!(wanted, Ty::Error) {
                return Bindings::new();
            }
            let mut found = Bindings::new();
            unify_from_symbols(source, expansion, wanted.non_null(), &mut found);
            if stays_within_bound(relation, formals, &found) {
                found
            } else {
                Bindings::new()
            }
        },
        None => Bindings::new(),
    }
}

/// A constructor call through an alias whose formals are open.
#[derive(Debug)]
pub struct OpenAliasCall {
    /// The signature that constructor selection and inference read back.
    pub signature: GenericSig,
    /// The target of the alias as far as the expected type completes it.
    pub applied: Ty,
}

/// What a constructor call through an alias with the formals `formals` denotes, where the call
/// writes no type arguments and the alias has formals. The formals stay open, as variables of the
/// call, as far as the expected type does not decide them. Any other call is an ordinary
/// application of the alias.
pub fn scoped_source_alias_call_ty<A: Assignability>(
    source: &SymbolTable,
    relation: &A,
    formals: &Vec<String>,
    expansion: &Ty,
    written_arguments: usize,
    expected: Option<&Ty>,
) -> (call: Option<OpenAliasCall>)
    ensures
        if written_arguments == 0 && formals@.len() > 0 {
            call matches Some(open) && open.signature@ == alias_template(
                views(formals@),
                expansion@,
            ) && open.applied@ == expansion@.subst(
                alias_bindings(
                    *source,
                    *relation,
                    views(formals@),
                    expansion@,
                    match expected {
                        Some(wanted) => Some(wanted@),
                        None => None,
                    },
                ),
            )
        } else {
            call is None
        },
{
    if written_arguments > 0 || formals.len() == 0 {
        return None;
    }
    let bindings = infer_alias_bindings(source, relation, formals, expansion, expected);
    Some(
        OpenAliasCall {
            signature: alias_signature(formals, expansion),
            applied: ty_subst_keep_unbound(expansion, &bindings),
        },
    )
}

/// The type arguments with those that mention an open formal left out.
pub open spec fn fixed_arguments(arguments: Seq<TyView>, open: Seq<Seq<char>>) -> Seq<TyView> {
    Seq::new(
        arguments.len(),
        |i: int|
            if mentions_any(arguments[i], open) {
                TyView::Error
            } else {
                arguments[i]
            },
    )
}

/// What an application of an alias fixes, given the open formals of the call.
pub open spec fn fixed_application(open: Option<Seq<Seq<char>>>, applied: TyView) -> TyView {
    match (open, applied) {
        (Some(open), TyView::Obj(owner, arguments)) => if some_mentions(arguments, open) {
            TyView::Obj(owner, fixed_arguments(arguments, open))
        } else {
            applied
        },
        _ => applied,
    }
}

/// What constructor selection may take as written type arguments of an application of an alias.
/// An argument that still mentions an open formal is to be inferred, and is marked by the error
/// type, as a placeholder is.
pub fn alias_constructor_fixed_application(
    open: Option<&Vec<String>>,
    applied: Option<&Ty>,
) -> (fixed: Option<Ty>)
    ensures
        option_view(fixed) == match applied {
            Some(applied) => Some(
                fixed_application(
                    match open {
                        Some(open) => Some(views(open@)),
                        None => None,
                    },
                    applied@,
                ),
            ),
            None => None,
        },
{
    let applied = match applied {
        Some(applied) => applied,
        None => {
            return None;
        },
    };
    match (open, applied) {
        (Some(open), Ty::Obj(owner, arguments)) => {
            let mut fixed: Vec<Ty> = Vec::new();
            let mut mentioned = false;
            let ghost shown = views(arguments@);
            while fixed.len() < arguments.len()
                invariant
                    fixed@.len() <= arguments@.len(),
                    shown == views(arguments@),
                    forall|k: int|
                        0 <= k < fixed@.len() ==> (#[trigger] fixed@[k])@ == fixed_arguments(
                            shown,
                            views(open@),
                        )[k],
                    mentioned == (exists|k: int|
                        0 <= k < fixed@.len() && mentions_any(#[trigger] shown[k], views(open@))),
                decreases arguments@.len() - fixed@.len(),
            {
                let argument = &arguments[fixed.len()];
                assert(shown[fixed@.len() as int] == argument@);
                if ty_mentions_param(argument, open) {
                    mentioned = true;
                    fixed.push(Ty::Error);
                } else {
                    fixed.push(argument.clone());
                }
            }
            assert(applied@->Obj_1 == shown);
            if mentioned {
                assert(views(fixed@) =~= fixed_arguments(shown, views(open@)));
                Some(Ty::Obj(owner.clone(), fixed))
            } else {
                Some(applied.clone())
            }
        },
        _ => Some(applied.clone()),
    }
}

/// What constrains the result of a constructor call through an alias: the application where it is
/// wholly fixed, and else the expected type of the call.
pub open spec fn result_constraint(fixed: Option<TyView>, expected: Option<TyView>) -> Option<
    TyView,
> {
    match fixed {
        Some(applied) if !applied.mentions_error() => Some(applied),
        _ => expected,
    }
}

/// What constrains the result of a constructor call through an alias.
pub fn alias_constructor_result_constraint(fixed: Option<Ty>, expected: Option<Ty>) -> (constraint:
    Option<Ty>)
    ensures
        option_view(constraint) == result_constraint(option_view(fixed), option_view(expected)),
{
    match fixed {
        Some(applied) => if applied.mentions_error() {
            expected
        } else {
            Some(applied)
        },
        None => expected,
    }
}

/// An application with an argument that is still to be inferred does not constrain the result of
/// its call: the expected type does.
pub proof fn an_open_application_leaves_the_result_to_the_expectation(
    open: Seq<Seq<char>>,
    owner: Seq<char>,
    arguments: Seq<TyView>,
    expected: Option<TyView>,
)
    requires
        some_mentions(arguments, open),
    ensures
        result_constraint(
            Some(fixed_application(Some(open), TyView::Obj(owner, arguments))),
            expected,
        ) == expected,
{
    let k = choose|k: int|
        0 <= k < arguments.len() && mentions_any(#[trigger] arguments[k], open);
    let fixed = fixed_arguments(arguments, open);
    reveal_with_fuel(TyView::mentions, 2);
    assert(fixed[k].mentions(crate::types::MentionView::Error));
    let whole = TyView::Obj(owner, fixed);
    assert(whole->Obj_1[k].mentions(crate::types::MentionView::Error));
    assert(whole.mentions(crate::types::MentionView::Error));
}

/// What is fixed of an application mentions no open formal.
pub proof fn a_fixed_application_has_no_open_formal(
    open: Seq<Seq<char>>,
    owner: Seq<char>,
    arguments: Seq<TyView>,
)
    ensures
        fixed_application(Some(open), TyView::Obj(owner, arguments)) matches TyView::Obj(_, fixed)
            && !some_mentions(fixed, open),
{
    let fixed = fixed_arguments(arguments, open);
    assert forall|i: int| 0 <= i < fixed.len() implies !mentions_any(#[trigger] fixed[i], open) by {
        if mentions_any(arguments[i], open) {
            assert(fixed[i] == TyView::Error);
            reveal_with_fuel(TyView::mentions, 2);
        }
    }
}

} // verus!
