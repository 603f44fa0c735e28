//! The relation between what a selected callable returns and what its call expression is worth.

use vstd::prelude::*;

use crate::libraries::{GenericSig, GenericSigView};
use crate::model::Modelled;
use crate::text::option_view;
use crate::types::{nullable_is_idempotent, Ty, TyView};

verus! {

broadcast use {crate::text::group_views, crate::types::group_ty_views};

/// The type that is expected of a call expression, and how the expression relates to what its
/// callable returns.
///
/// An ordinary call is worth what its callable returns. A safe call is worth the nullable lift of
/// it. The lift is kept explicit, since an expected `R?` does not say whether the callable returns
/// `R` or `R?`.
#[derive(Debug)]
pub enum CallResultConstraint {
    /// Nothing is expected.
    Absent,
    Direct(Ty),
    SafeLifted(Ty),
}

/// The model of a [`CallResultConstraint`].
pub enum CallResultConstraintView {
    Absent,
    Direct(TyView),
    SafeLifted(TyView),
}

impl View for CallResultConstraint {
    type V = CallResultConstraintView;

    open spec fn view(&self) -> CallResultConstraintView {
        match *self {
            CallResultConstraint::Absent => CallResultConstraintView::Absent,
            CallResultConstraint::Direct(expected) => CallResultConstraintView::Direct(expected@),
            CallResultConstraint::SafeLifted(expected) => CallResultConstraintView::SafeLifted(
                expected@,
            ),
        }
    }
}

impl CallResultConstraintView {
    /// The type that is expected of the expression.
    pub open spec fn expected(self) -> Option<TyView> {
        match self {
            CallResultConstraintView::Absent => None,
            CallResultConstraintView::Direct(expected) => Some(expected),
            CallResultConstraintView::SafeLifted(expected) => Some(expected),
        }
    }

    /// What the expression is worth where its callable returns `declared`.
    pub open spec fn result(self, declared: TyView) -> TyView {
        if self is SafeLifted {
            declared.nullable()
        } else {
            declared
        }
    }

    /// The signature of the callable as the expression shows it.
    pub open spec fn shown(self, signature: GenericSigView) -> GenericSigView {
        GenericSigView { ret: self.result(signature.ret), ..signature }
    }

    /// What is expected of the callable itself where it returns `declared`.
    pub open spec fn approximation(self, declared: TyView) -> Option<TyView> {
        match self {
            CallResultConstraintView::Absent => None,
            CallResultConstraintView::Direct(expected) => Some(expected),
            CallResultConstraintView::SafeLifted(expected) => Some(
                if declared.admits_null() {
                    expected
                } else {
                    expected.non_null()
                },
            ),
        }
    }
}

impl CallResultConstraint {
    /// The constraint of an ordinary call.
    pub fn direct(expected: Option<Ty>) -> (constraint: CallResultConstraint)
        ensures
            constraint@ == match option_view(expected) {
                Some(wanted) => CallResultConstraintView::Direct(wanted),
                None => CallResultConstraintView::Absent,
            },
    {
        match expected {
            Some(expected) => CallResultConstraint::Direct(expected),
            None => CallResultConstraint::Absent,
        }
    }

    /// The constraint of a safe call.
    pub fn safe_lifted(expected: Option<Ty>) -> (constraint: CallResultConstraint)
        ensures
            constraint@ == match option_view(expected) {
                Some(wanted) => CallResultConstraintView::SafeLifted(wanted),
                None => CallResultConstraintView::Absent,
            },
    {
        match expected {
            Some(expected) => CallResultConstraint::SafeLifted(expected),
            None => CallResultConstraint::Absent,
        }
    }

    /// The type that is expected of the expression.
    pub fn expected(&self) -> (expected: Option<Ty>)
        ensures
            option_view(expected) == self@.expected(),
    {
        match self {
            CallResultConstraint::Absent => None,
            CallResultConstraint::Direct(expected) => Some(expected.clone()),
            CallResultConstraint::SafeLifted(expected) => Some(expected.clone()),
        }
    }

    /// The signature of the callable as the expression shows it. Only the result is lifted; the
    /// parameters, formals and bounds stay as they were declared.
    pub fn signature(&self, signature: &GenericSig) -> (shown: GenericSig)
        ensures
            shown@ == self@.shown(signature@),
    {
        let mut shown = signature.duplicate();
        match self {
            CallResultConstraint::SafeLifted(_) => {
                shown.ret = Ty::nullable(signature.ret.clone());
            },
            _ => {},
        }
        shown
    }

    /// What the expression is worth where its callable returns `declared`.
    pub fn declaration_result(&self, declared: &Ty) -> (result: Ty)
        ensures
            result@ == self@.result(declared@),
    {
        match self {
            CallResultConstraint::SafeLifted(_) => Ty::nullable(declared.clone()),
            _ => declared.clone(),
        }
    }

    /// What is expected of the callable itself where it returns `declared`. The boundary of a safe
    /// call is taken off for a callable that does not return null, and kept for one that does.
    pub fn selected_result_approximation(&self, declared: &Ty) -> (approximation: Option<Ty>)
        ensures
            option_view(approximation) == self@.approximation(declared@),
    {
        match self {
            CallResultConstraint::Absent => None,
            CallResultConstraint::Direct(expected) => Some(expected.clone()),
            CallResultConstraint::SafeLifted(expected) => if declared.admits_null() {
                Some(expected.clone())
            } else {
                Some(expected.non_null().clone())
            },
        }
    }
}

/// Showing a signature at an expression a second time changes nothing: the lift of a safe call is
/// idempotent.
pub proof fn a_shown_signature_is_shown_once(
    constraint: CallResultConstraintView,
    signature: GenericSigView,
)
    ensures
        constraint.shown(constraint.shown(signature)) == constraint.shown(signature),
{
    nullable_is_idempotent(signature.ret);
}

/// A safe call of a callable that already returns a nullable type is worth just what the callable
/// returns.
pub proof fn a_nullable_return_is_not_lifted_again(expected: TyView, signature: GenericSigView)
    requires
        signature.ret is Nullable,
    ensures
        CallResultConstraintView::SafeLifted(expected).shown(signature) == signature,
{
}

/// Lifting what is expected of the callable of a safe call gives the lift of what is expected of
/// the call, for every type with at most one layer of nullability.
pub proof fn an_approximation_lifts_to_its_expectation(expected: TyView, declared: TyView)
    requires
        expected.admits_null() ==> !expected.non_null().admits_null(),
    ensures
        CallResultConstraintView::SafeLifted(expected).approximation(declared) matches Some(found)
            && found.nullable() == expected.nullable(),
{
}

} // verus!
