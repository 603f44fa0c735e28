//! Selection of augmented assignments as calls of the in-place conventions.

use std::collections::HashMap;

use vstd::prelude::*;

use crate::ast::{BinOp, Expr, ExprId, File, Node, StmtId};
use crate::resolve::calls::ResolvedCall;
use crate::types::{Ty, TyView};

verus! {

broadcast use crate::types::group_ty_views;

/// The name of the in-place convention of an operation.
pub open spec fn convention_of(operation: BinOp) -> Option<Seq<char>> {
    match operation {
        BinOp::Add => Some("plusAssign"@),
        BinOp::Sub => Some("minusAssign"@),
        BinOp::Mul => Some("timesAssign"@),
        BinOp::Div => Some("divAssign"@),
        BinOp::Rem => Some("remAssign"@),
        _ => None,
    }
}

/// The name of the in-place convention of an operation.
pub fn assign_op_name(operation: BinOp) -> (name: Option<&'static str>)
    ensures
        convention_of(operation) == match name {
            Some(name) => Some(name@),
            None => None,
        },
{
    match operation {
        BinOp::Add => Some("plusAssign"),
        BinOp::Sub => Some("minusAssign"),
        BinOp::Mul => Some("timesAssign"),
        BinOp::Div => Some("divAssign"),
        BinOp::Rem => Some("remAssign"),
        _ => None,
    }
}

/// The operation and the operands of an augmented assignment, where the assigned value is a binary
/// operation.
pub fn assignment_operands(file: &File, value: ExprId) -> (operands: Option<(BinOp, ExprId, ExprId)>)
    requires
        file.has(Node::Expr(value)),
    ensures
        operands == match file.expr_at(value) {
            Expr::Binary { op, lhs, rhs } => Some((op, lhs, rhs)),
            _ => None,
        },
{
    match file.expr(value) {
        Expr::Binary { op, lhs, rhs } => Some((*op, *lhs, *rhs)),
        _ => None,
    }
}

/// The type that the argument of an in-place convention is checked against, given the parameter
/// that was selected: a lambda or a callable reference, whose own type depends on it, and a call
/// whose result it may bind.
pub fn argument_expectation<'a>(
    file: &File,
    argument: ExprId,
    selected: Option<&'a Ty>,
    result_can_bind: bool,
) -> (expected: Option<&'a Ty>)
    requires
        file.has(Node::Expr(argument)),
    ensures
        expected == if file.expr_at(argument) is Lambda || file.expr_at(argument) is CallableRef
            || result_can_bind {
            selected
        } else {
            None
        },
{
    let postponed = match file.expr(argument) {
        Expr::Lambda { .. } => true,
        Expr::CallableRef { .. } => true,
        _ => false,
    };
    if postponed || result_can_bind {
        selected
    } else {
        None
    }
}

/// Whether a call can be made in place of an assignment.
pub open spec fn assigns_in_place(call: ResolvedCall) -> bool {
    call is Member || call is Extension || call is LocalFunction
}

/// Whether the selected call takes the place of the assignment: a convention exists for the
/// operation, and the call returns `Unit`.
pub open spec fn replaces_assignment(
    operation: BinOp,
    receiver: TyView,
    selected: Option<(Ty, ResolvedCall)>,
) -> bool {
    &&& convention_of(operation) is Some
    &&& !(receiver is Error)
    &&& selected matches Some((result, call)) && result@ is Unit && assigns_in_place(call)
}

/// Whether the selection of the call already complained.
pub open spec fn assignment_failed(
    operation: BinOp,
    receiver: TyView,
    selected: Option<(Ty, ResolvedCall)>,
) -> bool {
    &&& convention_of(operation) is Some
    &&& !(receiver is Error)
    &&& selected matches Some((result, _)) && result@ is Error
}

/// Take the call of an in-place convention for an augmented assignment, given what was selected for
/// it. The assignment is dealt with where the call is taken, and where its selection complained.
pub fn try_in_place_assignment_operands(
    targets: &mut HashMap<u32, ResolvedCall>,
    statement: StmtId,
    operation: BinOp,
    receiver: &Ty,
    selected: Option<(Ty, ResolvedCall)>,
) -> (handled: bool)
    ensures
        handled == (replaces_assignment(operation, receiver@, selected) || assignment_failed(
            operation,
            receiver@,
            selected,
        )),
        final(targets)@ == if replaces_assignment(operation, receiver@, selected) {
            old(targets)@.insert(statement.0, (selected->0).1)
        } else {
            old(targets)@
        },
{
    if assign_op_name(operation).is_none() || matches!(receiver, Ty::Error) {
        return false;
    }
    match selected {
        Some((result, call)) => {
            if matches!(result, Ty::Error) {
                return true;
            }
            if !matches!(result, Ty::Unit) {
                return false;
            }
            let in_place = match &call {
                ResolvedCall::Member(_) => true,
                ResolvedCall::Extension { .. } => true,
                ResolvedCall::LocalFunction(_) => true,
                _ => false,
            };
            if !in_place {
                return false;
            }
            targets.insert(statement.0, call);
            true
        },
        None => false,
    }
}

} // verus!
