//! Which facts of a checked receiver enter the complaint about a member that was not found.

use vstd::prelude::*;

use crate::resolve::source_names::{source_name, spell};
use crate::types::{Ty, TyView};

verus! {

broadcast use {crate::text::group_views, crate::types::group_ty_views};

/// What is said of a name that was not found, on a receiver type where one is told.
pub open spec fn unresolved(name: Seq<char>, receiver: Option<Seq<char>>) -> Seq<char> {
    match receiver {
        Some(receiver) => "unresolved reference '"@ + name + "' on receiver of type '"@ + receiver
            + "'."@,
        None => "unresolved reference '"@ + name + "'."@,
    }
}

/// What is said of a name that was not found, on a receiver type where one is told.
pub fn unresolved_reference_on(name: &str, receiver: Option<&str>) -> (text: String)
    ensures
        text@ == unresolved(
            name@,
            match receiver {
                Some(receiver) => Some(receiver@),
                None => None,
            },
        ),
{
    let mut text = "unresolved reference '".to_owned();
    text.append(name);
    match receiver {
        Some(receiver) => {
            text.append("' on receiver of type '");
            text.append(receiver);
            text.append("'.");
        },
        None => {
            text.append("'.");
        },
    }
    text
}

/// The receiver type that a complaint tells: none for a type parameter or a type that could not be
/// resolved, and the Kotlin spelling of a platform type.
pub open spec fn reported_receiver(receiver: TyView) -> Option<Seq<char>> {
    match receiver {
        TyView::Error | TyView::Pending | TyView::TyParam(_, _) => None,
        TyView::Nullable(inner) => if *inner is TyParam {
            None
        } else {
            Some(source_name(receiver))
        },
        TyView::Null => Some("Nothing?"@),
        TyView::PlatformNullable(inner) => Some(source_name(*inner)),
        _ => Some(source_name(receiver)),
    }
}

/// What is said of a member that was not found on a receiver.
pub open spec fn unresolved_member(
    name: Seq<char>,
    receiver: TyView,
    hidden_deprecated: bool,
) -> Seq<char> {
    unresolved(
        name,
        if hidden_deprecated {
            None
        } else {
            reported_receiver(receiver)
        },
    )
}

/// What is said of a member that was not found on a receiver. A smart cast names the narrowed type,
/// a safe call the one without null, a platform type its Kotlin spelling, and the null literal
/// `Nothing?`. A deprecated member that is hidden takes the receiver out of the complaint.
pub fn unresolved_member_message(name: &str, receiver: &Ty, hidden_deprecated: bool) -> (text: String)
    ensures
        text@ == unresolved_member(name@, receiver@, hidden_deprecated),
{
    if hidden_deprecated {
        return unresolved_reference_on(name, None);
    }
    let rendered: Option<String> = match receiver {
        Ty::Error | Ty::Pending | Ty::TyParam(_, _) => None,
        Ty::Nullable(inner) => match inner.ty_param_name() {
            Some(_) => None,
            None => Some(spell(receiver)),
        },
        Ty::Null => Some("Nothing?".to_owned()),
        Ty::PlatformNullable(inner) => Some(spell(inner)),
        _ => Some(spell(receiver)),
    };
    match &rendered {
        Some(rendered) => unresolved_reference_on(name, Some(rendered.as_str())),
        None => unresolved_reference_on(name, None),
    }
}

/// What is said of a member that was not found, where the receiver may be a classifier: a classifier
/// is no receiver value, so its type is not told.
pub fn unresolved_member_diagnostic(
    classifier_qualifier: bool,
    name: &str,
    receiver: &Ty,
    hidden_deprecated: bool,
) -> (text: String)
    ensures
        text@ == if classifier_qualifier {
            unresolved(name@, None)
        } else {
            unresolved_member(name@, receiver@, hidden_deprecated)
        },
{
    if classifier_qualifier {
        unresolved_reference_on(name, None)
    } else {
        unresolved_member_message(name, receiver, hidden_deprecated)
    }
}

} // verus!
