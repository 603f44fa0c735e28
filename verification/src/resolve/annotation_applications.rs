//! The check of one annotation against the annotation class that it names.

use vstd::prelude::*;

use crate::declarations::ResolvedAnnotation;
use crate::plugins::frontend::Span;
use crate::resolve::checked_annotation_publication::{checked_at, CheckedAnnotation};
use crate::resolve::diagnostic_selection::{unresolved, unresolved_reference_on};
use crate::text::option_view;
use crate::types::Ty;

verus! {

/// What is known of one written annotation whose class was settled.
#[derive(Debug)]
pub struct AnnotationApplication {
    pub name: String,
    pub span: Span,
    /// Whether the syntax of each argument is still there. A pass that enters a declaration only to
    /// rebuild its scopes may find it released.
    pub argument_syntax: Vec<bool>,
    /// Whether the pass may meet released syntax.
    pub restricted_pass: bool,
    pub common_source: bool,
    /// Whether the annotation class is an optional expectation.
    pub optional_expectation: bool,
    /// Whether the use of optional expectations outside common sources is not to be complained of.
    pub usage_suppressed: bool,
    /// Whether the elements of the annotation class are known.
    pub has_shape: bool,
    /// Whether the arguments passed their own check, which complains itself.
    pub arguments_accepted: bool,
    /// The annotation with its arguments evaluated.
    pub folded: Option<ResolvedAnnotation>,
}

/// What the check of an annotation comes to.
pub enum Verdict {
    /// Nothing is checked, or the complaint was already made.
    Passed,
    Complaint(Seq<char>),
    Applied,
}

impl AnnotationApplication {
    /// Whether an argument was released.
    pub open spec fn released(self) -> bool {
        exists|k: int| 0 <= k < self.argument_syntax@.len() && !(#[trigger] self.argument_syntax@[k])
    }

    pub open spec fn verdict(self) -> Verdict {
        if self.released() {
            Verdict::Passed
        } else if !self.common_source && self.optional_expectation && !self.usage_suppressed {
            Verdict::Complaint(unresolved(self.name@, None))
        } else if !self.has_shape {
            Verdict::Complaint("resolved annotation has no semantic element declaration"@)
        } else if !self.arguments_accepted {
            Verdict::Passed
        } else if self.folded is None {
            Verdict::Complaint("annotation argument is not a supported compile-time constant"@)
        } else {
            Verdict::Applied
        }
    }

    fn is_released(&self) -> (yes: bool)
        ensures
            yes == self.released(),
    {
        let mut next: usize = 0;
        while next < self.argument_syntax.len()
            invariant
                next <= self.argument_syntax@.len(),
                forall|k: int| 0 <= k < next ==> (#[trigger] self.argument_syntax@[k]),
            decreases self.argument_syntax@.len() - next,
        {
            if !self.argument_syntax[next] {
                return true;
            }
            next += 1;
        }
        false
    }
}

/// Check one annotation and keep it where it is right. A complaint is given back. A complete pass
/// never meets released syntax.
pub fn check_bound_annotation_application(
    checked: &mut Vec<CheckedAnnotation>,
    application: AnnotationApplication,
) -> (complaint: Option<String>)
    requires
        application.released() ==> application.restricted_pass,
    ensures
        option_view(complaint) == match application.verdict() {
            Verdict::Complaint(text) => Some(text),
            _ => None,
        },
        application.verdict() is Applied ==> checked_at(final(checked)@, application.span) == Some(
            application.folded->0@,
        ) && forall|other: Span|
            other != application.span ==> #[trigger] checked_at(final(checked)@, other)
                == checked_at(old(checked)@, other),
        !(application.verdict() is Applied) ==> final(checked)@ == old(checked)@,
{
    if application.is_released() {
        return None;
    }
    if !application.common_source && application.optional_expectation
        && !application.usage_suppressed {
        return Some(unresolved_reference_on(application.name.as_str(), None));
    }
    if !application.has_shape {
        return Some("resolved annotation has no semantic element declaration".to_owned());
    }
    if !application.arguments_accepted {
        return None;
    }
    match application.folded {
        Some(annotation) => {
            let ghost before = checked@;
            checked.insert(0, CheckedAnnotation { span: application.span, annotation });
            assert(checked@.skip(1) =~= before);
            None
        },
        None => Some("annotation argument is not a supported compile-time constant".to_owned()),
    }
}

/// Check one annotation whose name resolves to `ty`. Where that is no classifier there is nothing to
/// check it against, and its resolution has complained.
pub fn check_annotation_application(
    checked: &mut Vec<CheckedAnnotation>,
    ty: &Ty,
    application: AnnotationApplication,
) -> (complaint: Option<String>)
    requires
        ty@.kotlin_class_internal() is Some && application.released()
            ==> application.restricted_pass,
    ensures
        option_view(complaint) == match application.verdict() {
            Verdict::Complaint(text) if ty@.kotlin_class_internal() is Some => Some(text),
            _ => None,
        },
        ty@.kotlin_class_internal() is Some && application.verdict() is Applied ==> checked_at(
            final(checked)@,
            application.span,
        ) == Some(application.folded->0@) && forall|other: Span|
            other != application.span ==> #[trigger] checked_at(final(checked)@, other)
                == checked_at(old(checked)@, other),
        ty@.kotlin_class_internal() is None || !(application.verdict() is Applied)
            ==> final(checked)@ == old(checked)@,
{
    match ty.kotlin_class_internal() {
        Some(_) => check_bound_annotation_application(checked, application),
        None => None,
    }
}

} // verus!
