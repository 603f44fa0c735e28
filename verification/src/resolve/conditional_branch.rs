//! How the values of conditional branches are joined, and which expression a branch is worth.

use vstd::prelude::*;

use crate::ast::{Expr, ExprId, File, Node};
use crate::resolve::callable_reference_selection::Assignability;
use crate::text::{holds_name, option_view, views};
use crate::types::{Ty, TyView};

verus! {

broadcast use {crate::text::group_views, crate::types::group_ty_views};

/// Whether each type parameter of a type is one of those in lexical scope.
pub open spec fn lexically_fixed(ty: TyView, lexical: Seq<Seq<char>>) -> bool
    decreases ty,
{
    match ty {
        TyView::TyParam(name, _) => lexical.contains(name),
        TyView::Obj(_, arguments) => forall|i: int|
            0 <= i < arguments.len() ==> lexically_fixed(#[trigger] arguments[i], lexical),
        TyView::Nullable(inner)
        | TyView::PlatformNullable(inner)
        | TyView::InProjection(inner)
        | TyView::OutProjection(inner)
        | TyView::StarProjection(inner) => lexically_fixed(*inner, lexical),
        TyView::Fun(sig) => lexically_fixed(sig.ret, lexical) && forall|i: int|
            0 <= i < sig.params.len() ==> lexically_fixed(#[trigger] sig.params[i], lexical),
        _ => true,
    }
}

/// Whether each type parameter of a type is one of those in lexical scope.
pub fn type_is_lexically_fixed(ty: &Ty, lexical: &Vec<String>) -> (fixed: bool)
    ensures
        fixed == lexically_fixed(ty@, views(lexical@)),
    decreases ty,
{
    match ty {
        Ty::TyParam(name, _) => holds_name(lexical, name.as_str()),
        Ty::Obj(_, arguments) => {
            assert(ty@->Obj_1 == views(arguments@));
            all_fixed(arguments, lexical)
        },
        Ty::Nullable(inner)
        | Ty::PlatformNullable(inner)
        | Ty::InProjection(inner)
        | Ty::OutProjection(inner)
        | Ty::StarProjection(inner) => type_is_lexically_fixed(inner, lexical),
        Ty::Fun(sig) => {
            assert(ty@->Fun_0.params == views(sig.params@));
            type_is_lexically_fixed(&sig.ret, lexical) && all_fixed(&sig.params, lexical)
        },
        _ => true,
    }
}

fn all_fixed(types: &Vec<Ty>, lexical: &Vec<String>) -> (fixed: bool)
    ensures
        fixed == (forall|i: int|
            0 <= i < views(types@).len() ==> lexically_fixed(
                #[trigger] views(types@)[i],
                views(lexical@),
            )),
    decreases types,
{
    let mut next: usize = 0;
    while next < types.len()
        invariant
            next <= types@.len(),
            forall|i: int|
                0 <= i < next ==> lexically_fixed(#[trigger] views(types@)[i], views(lexical@)),
        decreases types@.len() - next,
    {
        assert(views(types@)[next as int] == types@[next as int]@);
        if !type_is_lexically_fixed(&types[next], lexical) {
            return false;
        }
        next += 1;
    }
    true
}

/// Whether an expected type can constrain a branch: it is known, and its type parameters are those
/// in lexical scope. A variable that a surrounding call still has to solve cannot.
pub open spec fn usable(expected: TyView, lexical: Seq<Seq<char>>) -> bool {
    !(expected is Error) && !expected.mentions_pending() && lexically_fixed(expected, lexical)
}

/// The expected type where it can constrain a branch.
pub fn usable_expected<'a>(lexical: &Vec<String>, expected: Option<&'a Ty>) -> (out: Option<&'a Ty>)
    ensures
        out == match expected {
            Some(expected) if usable(expected@, views(lexical@)) => Some(expected),
            _ => None,
        },
{
    match expected {
        Some(expected) => if !matches!(expected, Ty::Error) && !expected.mentions_pending()
            && type_is_lexically_fixed(expected, lexical) {
            Some(expected)
        } else {
            None
        },
        None => None,
    }
}

/// What two branches are worth together, given their common supertype: that supertype, or the
/// expected type where both branches satisfy it and the supertype does not.
pub open spec fn joined_branches<A: Assignability>(
    relation: A,
    lexical: Seq<Seq<char>>,
    expected: Option<TyView>,
    left: TyView,
    right: TyView,
    common: Option<TyView>,
) -> Option<TyView> {
    match expected {
        Some(expected) if !(left is Nothing) && !(right is Nothing) && usable(expected, lexical)
            && !(common matches Some(joined) && relation.accepts(joined, expected))
            && relation.accepts(left, expected) && relation.accepts(right, expected) => Some(
            expected,
        ),
        _ => common,
    }
}

/// What two branches are worth together. An expected type that both branches satisfy is an upper
/// bound that can be written down, where their exact common type may be an intersection. Nothing is
/// given where the branches have no common supertype: then only the ordinary join, which may
/// complain, can tell.
pub fn join_types<A: Assignability>(
    relation: &A,
    lexical: &Vec<String>,
    expected: Option<&Ty>,
    left: &Ty,
    right: &Ty,
    common: Option<Ty>,
) -> (joined: Option<Ty>)
    ensures
        option_view(joined) == joined_branches(
            *relation,
            views(lexical@),
            match expected {
                Some(expected) => Some(expected@),
                None => None,
            },
            left@,
            right@,
            option_view(common),
        ),
{
    if !matches!(left, Ty::Nothing) && !matches!(right, Ty::Nothing) {
        if let Some(expected) = usable_expected(lexical, expected) {
            let fits = match &common {
                Some(joined) => relation.is_assignable(joined, expected),
                None => false,
            };
            if !fits && relation.is_assignable(left, expected) && relation.is_assignable(
                right,
                expected,
            ) {
                return Some(expected.clone());
            }
        }
    }
    common
}

/// What the body and a catch of a `try` are worth together where [`joined_branches`] does not apply.
pub open spec fn joined_try(
    value_required: bool,
    left: TyView,
    right: TyView,
    common: Option<TyView>,
) -> TyView {
    if left == right {
        left
    } else if left is Nothing {
        right
    } else if right is Nothing {
        left
    } else if left is Obj && right is Obj && left->Obj_0 == right->Obj_0 {
        TyView::Obj(left->Obj_0, seq![])
    } else if value_required || common is None {
        TyView::Unit
    } else {
        common->0
    }
}

/// What the body and a catch of a `try` are worth together, given their common supertype. A branch
/// that does not return drops out. Two types of one class with different arguments give the class
/// without arguments. Branches that otherwise disagree give their common supertype where the value
/// is discarded, and `Unit` where it is wanted: each branch is stored into one slot that cannot be
/// widened per branch.
pub fn try_branch_join(value_required: bool, left: &Ty, right: &Ty, common: Option<Ty>) -> (joined:
    Ty)
    ensures
        joined@ == joined_try(value_required, left@, right@, option_view(common)),
{
    if *left == *right {
        return left.clone();
    }
    match (left, right) {
        (Ty::Nothing, _) => right.clone(),
        (_, Ty::Nothing) => left.clone(),
        (Ty::Obj(first, _), Ty::Obj(second, _)) if *first == *second => Ty::obj_name(first),
        _ => match common {
            Some(common) if !value_required => common,
            _ => Ty::Unit,
        },
    }
}

/// The expression whose value a branch gives: blocks are transparent as far as they have a trailing
/// expression.
pub open spec fn branch_value(file: File, expression: ExprId) -> ExprId
    decreases file.height(Node::Expr(expression)),
{
    match file.expr_at(expression) {
        Expr::Block { trailing: Some(trailing), .. } => if file.below(
            Node::Expr(trailing),
            Node::Expr(expression),
        ) {
            branch_value(file, trailing)
        } else {
            expression
        },
        _ => expression,
    }
}

/// The expression whose value a branch gives. A block without a trailing expression gives no value,
/// and stays the expression itself.
pub fn branch_value_expression(file: &File, expression: ExprId) -> (value: ExprId)
    requires
        file.well_formed(),
        file.has(Node::Expr(expression)),
    ensures
        value == branch_value(*file, expression),
        file.has(Node::Expr(value)),
{
    let mut current = expression;
    loop
        invariant
            file.well_formed(),
            file.has(Node::Expr(current)),
            branch_value(*file, current) == branch_value(*file, expression),
        decreases file.height(Node::Expr(current)),
    {
        match file.expr(current) {
            Expr::Block { stmts, trailing: Some(trailing) } => {
                let trailing: ExprId = *trailing;
                proof {
                    lemma_trailing_is_inside(*file, current, trailing);
                }
                current = trailing;
            },
            _ => {
                return current;
            },
        }
    }
}

proof fn lemma_trailing_is_inside(file: File, block: ExprId, trailing: ExprId)
    requires
        file.well_formed(),
        file.has(Node::Expr(block)),
        file.expr_at(block) matches Expr::Block { trailing: Some(last), .. } && last == trailing,
    ensures
        file.below(Node::Expr(trailing), Node::Expr(block)),
{
    let children = file.children(Node::Expr(block));
    assert(children.last() == Node::Expr(trailing));
    file.lemma_child(Node::Expr(block), children.len() - 1);
}

/// The expression that a branch is worth is no block that ends in an expression.
pub proof fn a_branch_value_is_no_valued_block(file: File, expression: ExprId)
    requires
        file.well_formed(),
        file.has(Node::Expr(expression)),
    ensures
        !(file.expr_at(branch_value(file, expression)) matches Expr::Block {
            trailing: Some(_),
            ..
        }),
    decreases file.height(Node::Expr(expression)),
{
    match file.expr_at(expression) {
        Expr::Block { trailing: Some(trailing), .. } => {
            lemma_trailing_is_inside(file, expression, trailing);
            a_branch_value_is_no_valued_block(file, trailing);
        },
        _ => {},
    }
}

/// The order of the two branches of a `try` does not matter where their common supertype does not
/// depend on it.
pub proof fn a_try_join_is_symmetric(
    value_required: bool,
    left: TyView,
    right: TyView,
    common: Option<TyView>,
)
    ensures
        joined_try(value_required, left, right, common) == joined_try(
            value_required,
            right,
            left,
            common,
        ),
{
}

/// Two branches that both satisfy a usable expected type give a type that satisfies it, or the
/// expected type itself.
pub proof fn joined_branches_meet_the_expectation<A: Assignability>(
    relation: A,
    lexical: Seq<Seq<char>>,
    expected: TyView,
    left: TyView,
    right: TyView,
    common: Option<TyView>,
)
    requires
        usable(expected, lexical),
        !(left is Nothing),
        !(right is Nothing),
        relation.accepts(left, expected),
        relation.accepts(right, expected),
    ensures
        joined_branches(relation, lexical, Some(expected), left, right, common) matches Some(joined)
            && (joined == expected || relation.accepts(joined, expected)),
{
}

} // verus!
