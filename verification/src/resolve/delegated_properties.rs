//! The conventions of delegated properties: which declarations serve as `provideDelegate`,
//! `getValue` and `setValue` of a delegate.

use std::collections::HashMap;

use vstd::prelude::*;

use crate::bindings::{
    ty_subst_keep_unbound, unified, unified_all, unify_inferred_ty, Bindings,
};
use crate::fir::{DeclarationId, ResolvedModuleIndex};
use crate::libraries::{
    FnKind, FunctionInfo, FunctionInfoView, InlineKind, LibraryCallable, Visibility,
};
use crate::model::Modelled;
use crate::names::TypeName;
use crate::resolve::callable_reference_selection::Assignability;
use crate::resolve::calls::ImplicitReceiverSelection;
use crate::resolve::delegate_diagnostics::{
    context_prefix, convention_failure, convention_message,
    delegate_convention_ambiguity_message_with_candidates,
    delegate_convention_candidates_from_functions, delegate_convention_diagnostic_candidate,
    delegate_convention_message, delegate_convention_message_with_candidates, inapplicable,
    listed_candidate, listed_candidates, listed_function, listings,
    DelegateConventionDiagnosticCandidate, DelegateConventionFailureView, DelegateConventionSite,
    DiagnosticCandidateView, DiagnosticId,
};
use crate::text::{option_view, same_text, views};
use crate::types::{copy_tys, Ty, TyView};

verus! {

broadcast use {
    crate::text::group_views,
    crate::types::group_ty_views,
};

/// The identity of a callable of another module.
pub type ExternalCallableId = u32;

/// The identity of the plan of an inlined body.
pub type InlineBodyPlanId = u32;

/// The declaration that a convention was resolved to.
#[allow(inconsistent_fields)]
#[derive(Debug)]
pub enum DelegateGetValueTarget {
    Member {
        applied_receiver: Ty,
        declared_receiver: Ty,
        /// The value parameters as they are declared, type parameters included.
        declared_params: Vec<Ty>,
        declared_ret: Ty,
        stable_declaration: Option<DeclarationId>,
        external_identity: Option<ExternalCallableId>,
        external_default_provider: Option<ExternalCallableId>,
        owner: TypeName,
        name: String,
        params: Vec<Ty>,
        ret: Ty,
        physical_params: Vec<Ty>,
        physical_ret: Ty,
        descriptor: String,
        interface: bool,
    },
    Extension {
        callable: Box<LibraryCallable>,
        stable_declaration: Option<DeclarationId>,
    },
    MemberExtension {
        stable_declaration: Option<DeclarationId>,
        external_identity: Option<ExternalCallableId>,
        external_default_provider: Option<ExternalCallableId>,
        owner: TypeName,
        name: String,
        extension_receiver: Ty,
        dispatch_receiver: ImplicitReceiverSelection,
        context_count: usize,
        params: Vec<Ty>,
        ret: Ty,
        physical_params: Vec<Ty>,
        physical_ret: Ty,
        inline: InlineKind,
        inline_body_plan: Option<InlineBodyPlanId>,
        suspend: bool,
        declared_params: Vec<Ty>,
        declared_ret: Option<Ty>,
        interface: bool,
    },
}

impl DelegateGetValueTarget {
    /// What the convention returns.
    pub open spec fn result(self) -> TyView {
        match self {
            DelegateGetValueTarget::Member { ret, .. } => ret@,
            DelegateGetValueTarget::Extension { callable, .. } => callable.ret@,
            DelegateGetValueTarget::MemberExtension { ret, .. } => ret@,
        }
    }

    /// What the convention returns.
    pub fn ret(&self) -> (ret: &Ty)
        ensures
            ret@ == self.result(),
    {
        match self {
            DelegateGetValueTarget::Member { ret, .. } => ret,
            DelegateGetValueTarget::Extension { callable, .. } => &callable.ret,
            DelegateGetValueTarget::MemberExtension { ret, .. } => ret,
        }
    }

    /// The receiver that the convention was applied to, with its arguments.
    pub open spec fn receiver(self) -> Option<TyView> {
        match self {
            DelegateGetValueTarget::Member { applied_receiver, .. } => Some(applied_receiver@),
            DelegateGetValueTarget::Extension { callable, .. } => option_view(
                callable.source_receiver,
            ),
            DelegateGetValueTarget::MemberExtension { extension_receiver, .. } => Some(
                extension_receiver@,
            ),
        }
    }

    pub fn applied_receiver(&self) -> (receiver: Option<&Ty>)
        ensures
            self.receiver() == match receiver {
                Some(ty) => Some(ty@),
                None => None,
            },
    {
        match self {
            DelegateGetValueTarget::Member { applied_receiver, .. } => Some(applied_receiver),
            DelegateGetValueTarget::Extension { callable, .. } => callable.source_receiver.as_ref(),
            DelegateGetValueTarget::MemberExtension { extension_receiver, .. } => Some(
                extension_receiver,
            ),
        }
    }

    /// The declared receiver of a member, read so that the member returns `expected`.
    pub open spec fn constrained(self, expected: TyView) -> Option<TyView> {
        match self {
            DelegateGetValueTarget::Member { declared_receiver, declared_ret, .. } => {
                let bindings = unified(declared_ret@, expected, Map::empty());
                if bindings == Map::<Seq<char>, TyView>::empty() {
                    None
                } else {
                    Some(declared_receiver@.subst(bindings))
                }
            },
            _ => None,
        }
    }

    pub fn receiver_constrained_by_result(&self, expected: &Ty) -> (receiver: Option<Ty>)
        ensures
            option_view(receiver) == self.constrained(expected@),
    {
        match self {
            DelegateGetValueTarget::Member { declared_receiver, declared_ret, .. } => {
                let mut bindings = Bindings::new();
                unify_inferred_ty(declared_ret, expected, &mut bindings);
                if bindings.is_empty() {
                    None
                } else {
                    Some(ty_subst_keep_unbound(declared_receiver, &bindings))
                }
            },
            _ => None,
        }
    }
}

/// Whether a declaration can be a convention at all. A convention is called from a generated
/// accessor, in which nothing supplies a context.
pub fn is_usable_delegate_convention(is_operator: bool, context_count: usize) -> (usable: bool)
    ensures
        usable == (is_operator && context_count == 0),
{
    is_operator && context_count == 0
}

/// The type of the property reference that every convention is given, where the dependencies
/// declare its classifier. Without it no convention applies.
pub fn delegate_property_reference_type(declared: bool) -> (ty: Option<Ty>)
    ensures
        option_view(ty) == if declared {
            Some(TyView::Obj("kotlin/reflect/KProperty"@, seq![]))
        } else {
            None
        },
{
    if declared {
        Some(Ty::obj("kotlin/reflect/KProperty"))
    } else {
        None
    }
}

/// The functions of a kind.
pub open spec fn offered(
    functions: Seq<FunctionInfoView>,
    kind: Option<FnKind>,
) -> Seq<FunctionInfoView>
    decreases functions.len(),
{
    if functions.len() == 0 {
        seq![]
    } else {
        let rest = offered(functions.drop_last(), kind);
        if kind is None || kind == Some(functions.last().kind) {
            rest.push(functions.last())
        } else {
            rest
        }
    }
}

/// The functions that can be a convention.
pub open spec fn usable(functions: Seq<FunctionInfoView>) -> Seq<FunctionInfoView>
    decreases functions.len(),
{
    if functions.len() == 0 {
        seq![]
    } else {
        let rest = usable(functions.drop_last());
        if functions.last().flags.operator && functions.last().context_count == 0 {
            rest.push(functions.last())
        } else {
            rest
        }
    }
}

/// The functions of a kind: those that are listed where none is selected, and those among them that
/// may be selected. An ordinary function of the name does not displace a convention.
pub fn convention_candidates(functions: &[FunctionInfo], kind: Option<FnKind>) -> (out: (
    Vec<FunctionInfo>,
    Vec<FunctionInfo>,
))
    ensures
        views(out.0@) == offered(views(functions@), kind),
        views(out.1@) == usable(offered(views(functions@), kind)),
{
    let ghost all = views(functions@);
    let mut listed: Vec<FunctionInfo> = Vec::new();
    let mut overloads: Vec<FunctionInfo> = Vec::new();
    let mut index: usize = 0;
    assert(views(listed@) =~= offered(all.take(0), kind));
    assert(views(overloads@) =~= usable(offered(all.take(0), kind)));
    while index < functions.len()
        invariant
            index <= functions@.len(),
            all == views(functions@),
            views(listed@) == offered(all.take(index as int), kind),
            views(overloads@) == usable(offered(all.take(index as int), kind)),
        decreases functions@.len() - index,
    {
        assert(all.take(index as int + 1).drop_last() =~= all.take(index as int));
        let function = &functions[index];
        let wanted = match kind {
            Some(kind) => function.kind == kind,
            None => true,
        };
        if wanted {
            let ghost before = offered(all.take(index as int), kind);
            listed.push(function.duplicate());
            assert(before.push(function@).drop_last() =~= before);
            if is_usable_delegate_convention(function.flags.operator, function.context_count) {
                overloads.push(function.duplicate());
            }
        }
        index += 1;
    }
    assert(all.take(index as int) =~= all);
    (listed, overloads)
}

/// What overload selection made of the functions that may be selected.
#[derive(Debug)]
pub enum ReceiverFunctionSelection {
    Absent,
    /// A function, what it returns, and the receiver that it is applied to.
    Selected(Box<FunctionInfo>, Ty, Ty),
    Ambiguous(Vec<FunctionInfo>),
}

/// A convention, or the functions of its name that are not it.
#[derive(Debug)]
pub enum DelegateConventionSelection {
    Absent(Vec<FunctionInfo>),
    Selected(Box<FunctionInfo>, Ty),
    Ambiguous(Vec<FunctionInfo>),
}

/// A convention among the functions of one kind, or the functions of its name that are not it.
#[derive(Debug)]
pub enum OrdinaryDelegateSelection {
    Absent(Vec<FunctionInfo>),
    Selected(Box<FunctionInfo>, Ty, Ty),
    Ambiguous(Vec<FunctionInfo>),
}

/// The convention that was selected among `listed`.
pub fn convention_selection(
    listed: Vec<FunctionInfo>,
    selection: ReceiverFunctionSelection,
) -> (out: DelegateConventionSelection)
    ensures
        out == match selection {
            ReceiverFunctionSelection::Selected(selected, ret, _) => {
                DelegateConventionSelection::Selected(selected, ret)
            },
            ReceiverFunctionSelection::Absent => DelegateConventionSelection::Absent(listed),
            ReceiverFunctionSelection::Ambiguous(candidates) => {
                DelegateConventionSelection::Ambiguous(candidates)
            },
        },
{
    match selection {
        ReceiverFunctionSelection::Selected(selected, ret, _) => {
            DelegateConventionSelection::Selected(selected, ret)
        },
        ReceiverFunctionSelection::Absent => DelegateConventionSelection::Absent(listed),
        ReceiverFunctionSelection::Ambiguous(candidates) => {
            DelegateConventionSelection::Ambiguous(candidates)
        },
    }
}

/// What the selected convention returns.
pub fn select_delegate_operator_return(selection: &DelegateConventionSelection) -> (ret: Option<&Ty>)
    ensures
        match (*selection, ret) {
            (DelegateConventionSelection::Selected(_, wanted), Some(ret)) => *ret == wanted,
            (DelegateConventionSelection::Selected(_, _), None) => false,
            (_, ret) => ret is None,
        },
{
    match selection {
        DelegateConventionSelection::Selected(_, ret) => Some(ret),
        _ => None,
    }
}

/// The convention of one kind that was selected among `listed`.
pub fn ordinary_selection(listed: Vec<FunctionInfo>, selection: ReceiverFunctionSelection) -> (out:
    OrdinaryDelegateSelection)
    ensures
        out == match selection {
            ReceiverFunctionSelection::Selected(selected, ret, receiver) => {
                OrdinaryDelegateSelection::Selected(selected, ret, receiver)
            },
            ReceiverFunctionSelection::Absent => OrdinaryDelegateSelection::Absent(listed),
            ReceiverFunctionSelection::Ambiguous(candidates) => {
                OrdinaryDelegateSelection::Ambiguous(candidates)
            },
        },
{
    match selection {
        ReceiverFunctionSelection::Selected(selected, ret, receiver) => {
            OrdinaryDelegateSelection::Selected(selected, ret, receiver)
        },
        ReceiverFunctionSelection::Absent => OrdinaryDelegateSelection::Absent(listed),
        ReceiverFunctionSelection::Ambiguous(candidates) => {
            OrdinaryDelegateSelection::Ambiguous(candidates)
        },
    }
}

/// A member extension that was found through an implicit receiver.
#[derive(Debug)]
pub struct MemberExtensionFunctionCandidate {
    pub stable_declaration: Option<DeclarationId>,
    pub external_identity: Option<ExternalCallableId>,
    pub external_default_provider: Option<ExternalCallableId>,
    pub owner: TypeName,
    pub physical_name: String,
    pub extension_receiver: Ty,
    pub dispatch_receiver: ImplicitReceiverSelection,
    pub context_count: usize,
    pub params: Vec<Ty>,
    pub diagnostic_param_names: Vec<String>,
    pub ret: Ty,
    pub physical_params: Vec<Ty>,
    pub physical_ret: Ty,
    pub inline: InlineKind,
    pub inline_body_plan: Option<InlineBodyPlanId>,
    pub suspend: bool,
    pub declared_params: Vec<Ty>,
    pub declared_ret: Option<Ty>,
    pub visibility: Visibility,
}

/// A member extension that was not selected.
#[derive(Debug)]
pub struct MemberExtensionConventionDiagnosticCandidate {
    pub stable_declaration: Option<DeclarationId>,
    pub extension_receiver: Ty,
    pub context_count: usize,
    pub params: Vec<Ty>,
    pub parameter_names: Vec<String>,
    pub ret: Ty,
}

/// What selection among member extensions came to.
#[derive(Debug)]
pub enum MemberExtensionFunctionSelection {
    Absent(Vec<MemberExtensionConventionDiagnosticCandidate>),
    Selected(Box<MemberExtensionFunctionCandidate>),
    Ambiguous(Vec<MemberExtensionFunctionCandidate>),
}

/// Why there is no convention.
#[derive(Debug)]
pub enum DelegateOperatorFailure {
    AmbiguousOrdinary(Vec<FunctionInfo>),
    /// The functions of the name that are not applicable, by where they were found.
    InapplicableCandidates {
        members: Vec<FunctionInfo>,
        member_extensions: Vec<MemberExtensionConventionDiagnosticCandidate>,
        extensions: Vec<FunctionInfo>,
    },
    AmbiguousMemberExtensions(Vec<MemberExtensionFunctionCandidate>),
}

/// The convention of a delegate.
#[derive(Debug)]
pub enum DelegateOperatorSelection {
    Selected(Box<DelegateGetValueTarget>),
    Absent,
    Failure(DelegateOperatorFailure),
}

/// What is looked at next for the convention of a delegate.
#[derive(Debug)]
pub enum ConventionStep {
    /// The member extensions in scope; no member applies.
    MemberExtensions { members: Vec<FunctionInfo> },
    /// The extensions; no member and no member extension applies.
    Extensions {
        members: Vec<FunctionInfo>,
        excluded: Vec<MemberExtensionConventionDiagnosticCandidate>,
    },
    /// Nothing: a member or an extension is the convention.
    Ordinary(Box<FunctionInfo>, Ty, Ty),
    /// Nothing: a member extension is the convention.
    MemberExtension(Box<MemberExtensionFunctionCandidate>),
    /// Nothing: there is no convention.
    Settled(DelegateOperatorSelection),
}

/// The step after a failure. The absence of an optional convention is no failure.
pub open spec fn failed(optional: bool, failure: DelegateOperatorFailure) -> ConventionStep {
    ConventionStep::Settled(
        if optional {
            DelegateOperatorSelection::Absent
        } else {
            DelegateOperatorSelection::Failure(failure)
        },
    )
}

fn fail(optional: bool, failure: DelegateOperatorFailure) -> (step: ConventionStep)
    ensures
        step == failed(optional, failure),
{
    ConventionStep::Settled(
        if optional {
            DelegateOperatorSelection::Absent
        } else {
            DelegateOperatorSelection::Failure(failure)
        },
    )
}

/// The step after the members of the delegate were looked at.
pub open spec fn members_step(
    optional: bool,
    selection: OrdinaryDelegateSelection,
) -> ConventionStep {
    match selection {
        OrdinaryDelegateSelection::Selected(selected, ret, receiver) => ConventionStep::Ordinary(
            selected,
            ret,
            receiver,
        ),
        OrdinaryDelegateSelection::Ambiguous(candidates) => failed(
            optional,
            DelegateOperatorFailure::AmbiguousOrdinary(candidates),
        ),
        OrdinaryDelegateSelection::Absent(members) => ConventionStep::MemberExtensions { members },
    }
}

/// Go on after the members of the delegate.
pub fn after_members(optional: bool, selection: OrdinaryDelegateSelection) -> (step: ConventionStep)
    ensures
        step == members_step(optional, selection),
{
    match selection {
        OrdinaryDelegateSelection::Selected(selected, ret, receiver) => ConventionStep::Ordinary(
            selected,
            ret,
            receiver,
        ),
        OrdinaryDelegateSelection::Ambiguous(candidates) => fail(
            optional,
            DelegateOperatorFailure::AmbiguousOrdinary(candidates),
        ),
        OrdinaryDelegateSelection::Absent(members) => ConventionStep::MemberExtensions { members },
    }
}

/// The step after the member extensions in scope were looked at.
pub open spec fn member_extensions_step(
    optional: bool,
    members: Vec<FunctionInfo>,
    selection: MemberExtensionFunctionSelection,
) -> ConventionStep {
    match selection {
        MemberExtensionFunctionSelection::Selected(selected) => ConventionStep::MemberExtension(
            selected,
        ),
        MemberExtensionFunctionSelection::Absent(excluded) => ConventionStep::Extensions {
            members,
            excluded,
        },
        MemberExtensionFunctionSelection::Ambiguous(candidates) => failed(
            optional,
            DelegateOperatorFailure::AmbiguousMemberExtensions(candidates),
        ),
    }
}

/// Go on after the member extensions in scope.
pub fn after_member_extensions(
    optional: bool,
    members: Vec<FunctionInfo>,
    selection: MemberExtensionFunctionSelection,
) -> (step: ConventionStep)
    ensures
        step == member_extensions_step(optional, members, selection),
{
    match selection {
        MemberExtensionFunctionSelection::Selected(selected) => ConventionStep::MemberExtension(
            selected,
        ),
        MemberExtensionFunctionSelection::Absent(excluded) => ConventionStep::Extensions {
            members,
            excluded,
        },
        MemberExtensionFunctionSelection::Ambiguous(candidates) => fail(
            optional,
            DelegateOperatorFailure::AmbiguousMemberExtensions(candidates),
        ),
    }
}

/// The step after the extensions were looked at. Where nothing of the name was found anywhere, the
/// convention is absent; where something was, it is not applicable.
pub open spec fn extensions_step(
    optional: bool,
    members: Vec<FunctionInfo>,
    excluded: Vec<MemberExtensionConventionDiagnosticCandidate>,
    selection: OrdinaryDelegateSelection,
) -> ConventionStep {
    match selection {
        OrdinaryDelegateSelection::Selected(selected, ret, receiver) => ConventionStep::Ordinary(
            selected,
            ret,
            receiver,
        ),
        OrdinaryDelegateSelection::Ambiguous(candidates) => failed(
            optional,
            DelegateOperatorFailure::AmbiguousOrdinary(candidates),
        ),
        OrdinaryDelegateSelection::Absent(extensions) => if members@.len() == 0
            && excluded@.len() == 0 && extensions@.len() == 0 {
            ConventionStep::Settled(DelegateOperatorSelection::Absent)
        } else {
            failed(
                optional,
                DelegateOperatorFailure::InapplicableCandidates {
                    members,
                    member_extensions: excluded,
                    extensions,
                },
            )
        },
    }
}

/// Go on after the extensions.
pub fn after_extensions(
    optional: bool,
    members: Vec<FunctionInfo>,
    excluded: Vec<MemberExtensionConventionDiagnosticCandidate>,
    selection: OrdinaryDelegateSelection,
) -> (step: ConventionStep)
    ensures
        step == extensions_step(optional, members, excluded, selection),
{
    match selection {
        OrdinaryDelegateSelection::Selected(selected, ret, receiver) => ConventionStep::Ordinary(
            selected,
            ret,
            receiver,
        ),
        OrdinaryDelegateSelection::Ambiguous(candidates) => fail(
            optional,
            DelegateOperatorFailure::AmbiguousOrdinary(candidates),
        ),
        OrdinaryDelegateSelection::Absent(extensions) => {
            if members.len() == 0 && excluded.len() == 0 && extensions.len() == 0 {
                return ConventionStep::Settled(DelegateOperatorSelection::Absent);
            }
            fail(
                optional,
                DelegateOperatorFailure::InapplicableCandidates {
                    members,
                    member_extensions: excluded,
                    extensions,
                },
            )
        },
    }
}

/// What selection among the functions of one kind came to, where those in `listed` have the name.
pub open spec fn ordinary_outcome(
    listed: Vec<FunctionInfo>,
    selection: ReceiverFunctionSelection,
) -> OrdinaryDelegateSelection {
    match selection {
        ReceiverFunctionSelection::Selected(selected, ret, receiver) => {
            OrdinaryDelegateSelection::Selected(selected, ret, receiver)
        },
        ReceiverFunctionSelection::Absent => OrdinaryDelegateSelection::Absent(listed),
        ReceiverFunctionSelection::Ambiguous(candidates) => {
            OrdinaryDelegateSelection::Ambiguous(candidates)
        },
    }
}

/// The convention of a delegate: a member, else a member extension in scope, else an extension.
pub open spec fn selected_convention(
    optional: bool,
    members: Vec<FunctionInfo>,
    extensions: Vec<FunctionInfo>,
    member: ReceiverFunctionSelection,
    member_extension: MemberExtensionFunctionSelection,
    extension: ReceiverFunctionSelection,
) -> ConventionStep {
    match members_step(optional, ordinary_outcome(members, member)) {
        ConventionStep::MemberExtensions { members } => match member_extensions_step(
            optional,
            members,
            member_extension,
        ) {
            ConventionStep::Extensions { members, excluded } => extensions_step(
                optional,
                members,
                excluded,
                ordinary_outcome(extensions, extension),
            ),
            step => step,
        },
        step => step,
    }
}

/// Whether a delegate may do without the convention `name`: only `provideDelegate` is optional.
pub open spec fn optional_convention(name: Seq<char>) -> bool {
    name == "provideDelegate"@
}

/// The convention `name` of a delegate among the functions of that name, given what overload
/// selection makes of the members, of the member extensions in scope and of the extensions. The
/// functions of a kind that were passed over are kept for the complaint.
pub fn select_delegate_operator(
    name: &str,
    functions: &[FunctionInfo],
    member: ReceiverFunctionSelection,
    member_extension: MemberExtensionFunctionSelection,
    extension: ReceiverFunctionSelection,
) -> (step: ConventionStep)
    ensures
        exists|members: Vec<FunctionInfo>, extensions: Vec<FunctionInfo>|
            #![trigger views(members@), views(extensions@)]
            views(members@) == offered(views(functions@), Some(FnKind::Member)) && views(
                extensions@,
            ) == offered(views(functions@), Some(FnKind::Extension)) && step
                == selected_convention(
                optional_convention(name@),
                members,
                extensions,
                member,
                member_extension,
                extension,
            ),
        !(step is MemberExtensions) && !(step is Extensions),
{
    let optional = same_text(name, "provideDelegate");
    let (members, _) = convention_candidates(functions, Some(FnKind::Member));
    let (extensions, _) = convention_candidates(functions, Some(FnKind::Extension));
    assert(views(members@) == offered(views(functions@), Some(FnKind::Member)));
    assert(views(extensions@) == offered(views(functions@), Some(FnKind::Extension)));
    match after_members(optional, ordinary_selection(members, member)) {
        ConventionStep::MemberExtensions { members } => match after_member_extensions(
            optional,
            members,
            member_extension,
        ) {
            ConventionStep::Extensions { members, excluded } => after_extensions(
                optional,
                members,
                excluded,
                ordinary_selection(extensions, extension),
            ),
            step => step,
        },
        step => step,
    }
}

/// An optional convention is found or absent: no step towards it fails.
pub proof fn an_optional_convention_never_fails(
    members: OrdinaryDelegateSelection,
    seen: Vec<FunctionInfo>,
    member_extensions: MemberExtensionFunctionSelection,
    excluded: Vec<MemberExtensionConventionDiagnosticCandidate>,
    extensions: OrdinaryDelegateSelection,
)
    ensures
        members_step(true, members) matches ConventionStep::Settled(settled)
            ==> settled == DelegateOperatorSelection::Absent,
        member_extensions_step(true, seen, member_extensions) matches ConventionStep::Settled(
            settled,
        ) ==> settled == DelegateOperatorSelection::Absent,
        extensions_step(true, seen, excluded, extensions) matches ConventionStep::Settled(settled)
            ==> settled == DelegateOperatorSelection::Absent,
{
}

/// A required convention that is not found fails wherever a function of its name was seen.
pub proof fn a_required_convention_fails_where_a_candidate_was_seen(
    seen: Vec<FunctionInfo>,
    excluded: Vec<MemberExtensionConventionDiagnosticCandidate>,
    extensions: Vec<FunctionInfo>,
)
    requires
        seen@.len() + excluded@.len() + extensions@.len() > 0,
    ensures
        extensions_step(
            false,
            seen,
            excluded,
            OrdinaryDelegateSelection::Absent(extensions),
        ) == ConventionStep::Settled(
            DelegateOperatorSelection::Failure(
                DelegateOperatorFailure::InapplicableCandidates {
                    members: seen,
                    member_extensions: excluded,
                    extensions,
                },
            ),
        ),
{
}

/// The sum of the first `count` scores.
pub open spec fn total(scores: Seq<u32>, count: nat) -> nat
    decreases count,
{
    if count == 0 {
        0
    } else {
        total(scores, (count - 1) as nat) + scores[count - 1] as nat
    }
}

/// How well the arguments fit the parameters that they are mapped to: not at all where one of them
/// is not admitted or has no score.
pub open spec fn arguments_fit(
    parameters: nat,
    mapped: Seq<usize>,
    admitted: Seq<bool>,
    scores: Seq<Option<u32>>,
) -> bool {
    forall|k: int|
        0 <= k < mapped.len() ==> #[trigger] mapped[k] < parameters && k < admitted.len()
            && admitted[k] && scores[k] is Some
}

/// The score of a member extension as the convention. Each argument has the parameter that it is
/// mapped to, whether that admits it, and how well it fits.
pub fn convention_score(
    parameters: usize,
    mapped: &Vec<usize>,
    admitted: &Vec<bool>,
    scores: &Vec<Option<u32>>,
) -> (score: Option<u64>)
    requires
        mapped@.len() <= u32::MAX,
        scores@.len() == admitted@.len(),
    ensures
        score == if arguments_fit(parameters as nat, mapped@, admitted@, scores@) {
            Some(
                total(
                    Seq::new(mapped@.len(), |k: int| scores@[k]->0),
                    mapped@.len(),
                ) as u64,
            )
        } else {
            None::<u64>
        },
{
    let ghost known = Seq::new(mapped@.len(), |k: int| scores@[k]->0);
    let mut sum: u64 = 0;
    let mut index: usize = 0;
    while index < mapped.len()
        invariant
            index <= mapped@.len(),
            mapped@.len() <= u32::MAX,
            scores@.len() == admitted@.len(),
            known == Seq::new(mapped@.len(), |k: int| scores@[k]->0),
            sum == total(known, index as nat),
            sum <= index * u32::MAX as int,
            forall|k: int|
                0 <= k < index ==> #[trigger] mapped@[k] < parameters && k < admitted@.len()
                    && admitted@[k] && scores@[k] is Some,
        decreases mapped@.len() - index,
    {
        if mapped[index] >= parameters || index >= admitted.len() || !admitted[index] {
            assert(!(mapped@[index as int] < parameters && index < admitted@.len()
                && admitted@[index as int]));
            return None;
        }
        match scores[index] {
            None => {
                assert(mapped@[index as int] < parameters);
                return None;
            },
            Some(score) => {
                assert(index * u32::MAX as int + u32::MAX as int <= u32::MAX as int * u32::MAX
                    as int) by (nonlinear_arith)
                    requires
                        index < u32::MAX,
                        0 <= index,
                ;
                assert((index + 1) * u32::MAX as int == index * u32::MAX as int + u32::MAX as int)
                    by (nonlinear_arith);
                assert(u32::MAX as int * u32::MAX as int <= u64::MAX as int) by (nonlinear_arith);
                sum = sum + score as u64;
            },
        }
        index += 1;
    }
    Some(sum)
}

/// A callable of this module, as it was settled: what its own declaration says of it.
#[derive(Debug)]
pub struct StableCallableShape {
    pub extension_receiver: Option<Ty>,
    /// The classifier that declares it, where one does, with its type parameters and their bounds.
    pub owner: Option<(TypeName, Vec<(String, Vec<Ty>)>)>,
    pub parameters: Vec<Ty>,
    pub result: Ty,
}

/// A type parameter as an argument, with its first bound; one without a bound is bounded by
/// `Any?`.
pub open spec fn formal_argument(formal: (String, Vec<Ty>)) -> TyView {
    TyView::TyParam(
        formal.0@,
        Box::new(
            if formal.1@.len() > 0 {
                formal.1@[0]@
            } else {
                TyView::Nullable(Box::new(TyView::Obj("kotlin/Any"@, seq![])))
            },
        ),
    )
}

/// The receiver of a callable as its declaration says it: the receiver of an extension, or its
/// classifier applied to its own type parameters.
pub open spec fn declared_receiver(shape: StableCallableShape) -> Option<TyView> {
    match (shape.extension_receiver, shape.owner) {
        (Some(receiver), _) => Some(receiver@),
        (None, Some((classifier, formals))) => Some(
            TyView::Obj(
                classifier@,
                Seq::new(formals@.len(), |k: int| formal_argument(formals@[k])),
            ),
        ),
        (None, None) => None,
    }
}

/// The declared receiver, parameters and result of a callable of this module. Type parameters stay
/// type parameters: what they are at run time is left to the target.
pub fn stable_callable_declared_shape(shape: &StableCallableShape) -> (out: Option<
    (Ty, Vec<Ty>, Ty),
>)
    ensures
        match (out, declared_receiver(*shape)) {
            (Some((receiver, parameters, result)), Some(wanted)) => receiver@ == wanted && views(
                parameters@,
            ) == views(shape.parameters@) && result@ == shape.result@,
            (None, None) => true,
            _ => false,
        },
{
    let receiver = match (&shape.extension_receiver, &shape.owner) {
        (Some(receiver), _) => receiver.clone(),
        (None, Some((classifier, formals))) => {
            let mut arguments: Vec<Ty> = Vec::new();
            while arguments.len() < formals.len()
                invariant
                    arguments@.len() <= formals@.len(),
                    forall|k: int|
                        0 <= k < arguments@.len() ==> (#[trigger] arguments@[k])@
                            == formal_argument(formals@[k]),
                decreases formals@.len() - arguments@.len(),
            {
                let formal = &formals[arguments.len()];
                let bound = if formal.1.len() > 0 {
                    formal.1[0].clone()
                } else {
                    Ty::nullable(Ty::obj("kotlin/Any"))
                };
                arguments.push(Ty::ty_param(formal.0.as_str(), bound));
            }
            assert(views(arguments@) =~= Seq::new(
                formals@.len(),
                |k: int| formal_argument(formals@[k]),
            ));
            Ty::obj_args_name(classifier, arguments.as_slice())
        },
        (None, None) => {
            return None;
        },
    };
    Some((receiver, copy_tys(shape.parameters.as_slice()), shape.result.clone()))
}

/// Whether a convention is the member extension `selected`, with the parameters that it declares.
pub open spec fn is_member_extension(
    out: DelegateOperatorSelection,
    selected: MemberExtensionFunctionCandidate,
    interface: bool,
    declared: Seq<TyView>,
) -> bool {
    out matches DelegateOperatorSelection::Selected(target)
        && *target matches DelegateGetValueTarget::MemberExtension { declared_params, .. } && views(
        declared_params@,
    ) == declared && *target == (DelegateGetValueTarget::MemberExtension {
        stable_declaration: selected.stable_declaration,
        external_identity: selected.external_identity,
        external_default_provider: selected.external_default_provider,
        owner: selected.owner,
        name: selected.physical_name,
        extension_receiver: selected.extension_receiver,
        dispatch_receiver: selected.dispatch_receiver,
        context_count: selected.context_count,
        params: selected.params,
        ret: selected.ret,
        physical_params: selected.physical_params,
        physical_ret: selected.physical_ret,
        inline: selected.inline,
        inline_body_plan: selected.inline_body_plan,
        suspend: selected.suspend,
        declared_params,
        declared_ret: selected.declared_ret,
        interface,
    })
}

/// The convention that a member extension is, where it is accessible. `declared` are its declared
/// parameters where it is declared in this module; `interface` says whether its owner is one.
pub fn member_extension_target(
    selected: MemberExtensionFunctionCandidate,
    accessible: bool,
    interface: bool,
    declared: Option<Vec<Ty>>,
) -> (out: DelegateOperatorSelection)
    requires
        accessible && selected.stable_declaration is Some ==> declared is Some,
    ensures
        if accessible {
            is_member_extension(
                out,
                selected,
                interface,
                if selected.stable_declaration is Some {
                    views(declared->0@)
                } else {
                    views(selected.declared_params@)
                },
            )
        } else {
            out is Absent
        },
{
    if !accessible {
        return DelegateOperatorSelection::Absent;
    }
    let declared_params = match (selected.stable_declaration, declared) {
        (Some(_), Some(declared)) => declared,
        _ => selected.declared_params,
    };
    DelegateOperatorSelection::Selected(
        Box::new(
            DelegateGetValueTarget::MemberExtension {
                stable_declaration: selected.stable_declaration,
                external_identity: selected.external_identity,
                external_default_provider: selected.external_default_provider,
                owner: selected.owner,
                name: selected.physical_name,
                extension_receiver: selected.extension_receiver,
                dispatch_receiver: selected.dispatch_receiver,
                context_count: selected.context_count,
                params: selected.params,
                ret: selected.ret,
                physical_params: selected.physical_params,
                physical_ret: selected.physical_ret,
                inline: selected.inline,
                inline_body_plan: selected.inline_body_plan,
                suspend: selected.suspend,
                declared_params,
                declared_ret: selected.declared_ret,
                interface,
            },
        ),
    )
}

/// Whether a convention is the extension that `callable` calls; without a callable there is none.
pub open spec fn is_extension_call(
    out: DelegateOperatorSelection,
    callable: Option<LibraryCallable>,
    stable_declaration: Option<DeclarationId>,
) -> bool {
    match (out, callable) {
        (DelegateOperatorSelection::Selected(target), Some(callable)) => *target
            == (DelegateGetValueTarget::Extension {
            callable: Box::new(callable),
            stable_declaration,
        }),
        (DelegateOperatorSelection::Absent, None) => true,
        _ => false,
    }
}

/// The convention that an extension is, where its callable could be built.
pub fn extension_target(
    callable: Option<LibraryCallable>,
    stable_declaration: Option<DeclarationId>,
) -> (out: DelegateOperatorSelection)
    ensures
        is_extension_call(out, callable, stable_declaration),
{
    match callable {
        Some(callable) => DelegateOperatorSelection::Selected(
            Box::new(
                DelegateGetValueTarget::Extension {
                    callable: Box::new(callable),
                    stable_declaration,
                },
            ),
        ),
        None => DelegateOperatorSelection::Absent,
    }
}

/// A member as it is called on a delegate.
#[derive(Debug)]
pub struct ResolvedConventionMember {
    pub stable_declaration: Option<DeclarationId>,
    pub external_identity: Option<ExternalCallableId>,
    pub external_default_provider: Option<ExternalCallableId>,
    pub owner: Option<TypeName>,
    pub name: String,
    pub physical_name: Option<String>,
    pub params: Vec<Ty>,
    pub physical_params: Vec<Ty>,
    pub physical_ret: Ty,
    pub descriptor: String,
    pub interface: bool,
}

/// The declared receiver, parameters and result of a callable.
pub struct DeclaredShapeView {
    pub receiver: TyView,
    pub params: Seq<TyView>,
    pub ret: TyView,
}

/// Whether a convention is `member`, declared with `shape`, on a delegate of the classifier
/// `internal`. Where the member does not say which classifier declares it, that of the delegate
/// does.
pub open spec fn is_member_call(
    out: DelegateOperatorSelection,
    internal: Seq<char>,
    ret: Ty,
    applied_receiver: Ty,
    shape: DeclaredShapeView,
    member: ResolvedConventionMember,
    owner_is_interface: bool,
) -> bool {
    out matches DelegateOperatorSelection::Selected(target)
        && *target matches DelegateGetValueTarget::Member {
        applied_receiver: received,
        declared_receiver,
        declared_params,
        declared_ret,
        stable_declaration,
        external_identity,
        external_default_provider,
        owner,
        name,
        params,
        ret: returned,
        physical_params,
        physical_ret,
        descriptor,
        interface,
    } && received == applied_receiver && declared_receiver@ == shape.receiver && views(
        declared_params@,
    ) == shape.params && declared_ret@ == shape.ret && stable_declaration
        == member.stable_declaration && external_identity == member.external_identity
        && external_default_provider == member.external_default_provider && owner@ == (
    match member.owner {
        Some(owner) => owner@,
        None => internal,
    }) && name@ == (match member.physical_name {
        Some(name) => name@,
        None => member.name@,
    }) && params == member.params && returned == ret && physical_params == member.physical_params
        && physical_ret == member.physical_ret && descriptor == member.descriptor && interface == (
    member.interface || owner_is_interface)
}

/// The convention that a member is. The delegate has to be of a classifier. `shape` is the declared
/// shape.
pub fn member_target(
    delegate_ty: &Ty,
    ret: Ty,
    applied_receiver: Ty,
    shape: (Ty, Vec<Ty>, Ty),
    member: ResolvedConventionMember,
    owner_is_interface: bool,
) -> (out: DelegateOperatorSelection)
    ensures
        match delegate_ty@.obj_internal() {
            None => out is Absent,
            Some(internal) => is_member_call(
                out,
                internal,
                ret,
                applied_receiver,
                (DeclaredShapeView {
                    receiver: shape.0@,
                    params: views(shape.1@),
                    ret: shape.2@,
                }),
                member,
                owner_is_interface,
            ),
        },
{
    let internal = match delegate_ty.obj_internal() {
        Some(internal) => internal,
        None => {
            return DelegateOperatorSelection::Absent;
        },
    };
    let owner = match member.owner {
        Some(owner) => owner,
        None => internal.clone(),
    };
    let name = match member.physical_name {
        Some(name) => name,
        None => member.name,
    };
    DelegateOperatorSelection::Selected(
        Box::new(
            DelegateGetValueTarget::Member {
                applied_receiver,
                declared_receiver: shape.0,
                declared_params: shape.1,
                declared_ret: shape.2,
                stable_declaration: member.stable_declaration,
                external_identity: member.external_identity,
                external_default_provider: member.external_default_provider,
                owner,
                name,
                params: member.params,
                ret,
                physical_params: member.physical_params,
                physical_ret: member.physical_ret,
                descriptor: member.descriptor,
                interface: member.interface || owner_is_interface,
            },
        ),
    )
}

/// Whether what the declaration of a callable says of it is there, its receiver with it.
pub open spec fn shape_kept(shape: Option<StableCallableShape>) -> bool {
    shape matches Some(shape) && declared_receiver(shape) is Some
}

/// What is known of a member or an extension that was selected as a convention.
#[derive(Debug)]
pub struct OrdinaryConvention {
    pub stable_declaration: Option<DeclarationId>,
    /// What its declaration says of it, where it is declared in this module.
    pub stable_shape: Option<StableCallableShape>,
    pub semantic_receiver: Option<Ty>,
    pub semantic_params: Vec<Ty>,
    pub semantic_ret: Ty,
    /// The callable of an extension, where it could be built.
    pub callable: Option<LibraryCallable>,
    /// A member as it is called on the delegate.
    pub member: Option<ResolvedConventionMember>,
    /// Whether the classifier that declares a member is an interface.
    pub owner_is_interface: bool,
}

impl OrdinaryConvention {
    /// The declared shape: that of the declaration in this module, or else the semantic one, on the
    /// type of the delegate where the function has no receiver of its own.
    pub open spec fn declared_shape(self, delegate: TyView) -> DeclaredShapeView {
        match (self.stable_declaration, self.stable_shape) {
            (Some(_), Some(shape)) => DeclaredShapeView {
                receiver: declared_receiver(shape)->0,
                params: views(shape.parameters@),
                ret: shape.result@,
            },
            _ => DeclaredShapeView {
                receiver: match self.semantic_receiver {
                    Some(receiver) => receiver@,
                    None => delegate,
                },
                params: views(self.semantic_params@),
                ret: self.semantic_ret@,
            },
        }
    }

    /// Whether a function declared in this module has kept its shape, and a member of a classifier
    /// is known as it is called.
    pub open spec fn complete(self, extension: bool, delegate: TyView) -> bool {
        &&& self.stable_declaration is Some ==> shape_kept(self.stable_shape)
        &&& !extension && delegate.obj_internal() is Some ==> self.member is Some
    }
}

/// What is known of a member extension that was selected as a convention.
#[derive(Debug)]
pub struct MemberExtensionConvention {
    pub accessible: bool,
    /// Whether the classifier that declares it is an interface.
    pub interface: bool,
    /// What its declaration says of it, where it is declared in this module.
    pub stable_shape: Option<StableCallableShape>,
}

/// Whether `out` is the convention of a delegate that the last step of the selection comes to.
pub open spec fn finishes(
    out: DelegateOperatorSelection,
    delegate: TyView,
    step: ConventionStep,
    ordinary: Option<OrdinaryConvention>,
    member_extension: Option<MemberExtensionConvention>,
) -> bool {
    match step {
        ConventionStep::Settled(settled) => out == settled,
        ConventionStep::MemberExtension(selected) => if (member_extension->0).accessible {
            is_member_extension(
                out,
                *selected,
                (member_extension->0).interface,
                if selected.stable_declaration is Some {
                    views(((member_extension->0).stable_shape->0).parameters@)
                } else {
                    views(selected.declared_params@)
                },
            )
        } else {
            out is Absent
        },
        ConventionStep::Ordinary(selected, ret, applied_receiver) => {
            let known = ordinary->0;
            if selected@.is_extension() {
                is_extension_call(out, known.callable, known.stable_declaration)
            } else {
                match delegate.obj_internal() {
                    None => out is Absent,
                    Some(internal) => is_member_call(
                        out,
                        internal,
                        ret,
                        applied_receiver,
                        known.declared_shape(delegate),
                        known.member->0,
                        known.owner_is_interface,
                    ),
                }
            }
        },
        _ => true,
    }
}

/// The convention of a delegate that the last step of the selection comes to, given what is known of
/// the function that was selected: `ordinary` of a member or an extension, `member_extension` of a
/// member extension.
pub fn finish_delegate_operator(
    delegate_ty: &Ty,
    step: ConventionStep,
    ordinary: Option<OrdinaryConvention>,
    member_extension: Option<MemberExtensionConvention>,
) -> (out: DelegateOperatorSelection)
    requires
        match step {
            ConventionStep::Ordinary(selected, _, _) => ordinary matches Some(known)
                && known.complete(selected@.is_extension(), delegate_ty@),
            ConventionStep::MemberExtension(selected) => member_extension matches Some(known) && (
            known.accessible && selected.stable_declaration is Some ==> shape_kept(
                known.stable_shape,
            )),
            ConventionStep::Settled(_) => true,
            _ => false,
        },
    ensures
        finishes(out, delegate_ty@, step, ordinary, member_extension),
{
    match (step, ordinary, member_extension) {
        (ConventionStep::Settled(settled), _, _) => settled,
        (ConventionStep::MemberExtension(selected), _, Some(known)) => {
            let declared = match &known.stable_shape {
                Some(shape) => match stable_callable_declared_shape(shape) {
                    Some((_, parameters, _)) => Some(parameters),
                    None => None,
                },
                None => None,
            };
            member_extension_target(*selected, known.accessible, known.interface, declared)
        },
        (ConventionStep::Ordinary(selected, ret, applied_receiver), Some(known), _) => {
            if selected.is_extension() {
                return extension_target(known.callable, known.stable_declaration);
            }
            let declared = match (known.stable_declaration, &known.stable_shape) {
                (Some(_), Some(shape)) => stable_callable_declared_shape(shape),
                _ => None,
            };
            let shape = match declared {
                Some(shape) => shape,
                None => {
                    let receiver = match known.semantic_receiver {
                        Some(receiver) => receiver,
                        None => delegate_ty.clone(),
                    };
                    (receiver, known.semantic_params, known.semantic_ret)
                },
            };
            match known.member {
                Some(member) => member_target(
                    delegate_ty,
                    ret,
                    applied_receiver,
                    shape,
                    member,
                    known.owner_is_interface,
                ),
                None => DelegateOperatorSelection::Absent,
            }
        },
        _ => DelegateOperatorSelection::Absent,
    }
}

/// Whether the receiver that a convention was applied to is the delegate with its arguments found:
/// a delegate without arguments gets them all, and one with arguments has type parameters for them.
pub open spec fn completes(receiver: TyView, delegate: TyView, stored: TyView) -> bool {
    let bindings = unified(delegate, receiver, Map::empty());
    &&& receiver != delegate
    &&& receiver.obj_internal() == stored.obj_internal()
    &&& stored.obj_internal() == delegate.obj_internal()
    &&& {
        ||| delegate.type_args().len() == 0 && receiver.type_args().len() > 0
        ||| bindings != Map::<Seq<char>, TyView>::empty() && delegate.subst(bindings) == receiver
    }
}

fn type_arguments(ty: &Ty) -> (count: usize)
    ensures
        count == ty@.type_args().len(),
{
    match ty {
        Ty::Obj(_, arguments) => arguments.len(),
        _ => 0,
    }
}

fn same_classifier(left: &Ty, right: &Ty) -> (same: bool)
    ensures
        same == (left@.obj_internal() == right@.obj_internal()),
{
    match (left.obj_internal(), right.obj_internal()) {
        (Some(left), Some(right)) => *left == *right,
        (None, None) => true,
        _ => false,
    }
}

fn receiver_completes(receiver: &Ty, delegate: &Ty, stored: &Ty) -> (yes: bool)
    ensures
        yes == completes(receiver@, delegate@, stored@),
{
    if *receiver == *delegate || !same_classifier(receiver, stored) || !same_classifier(
        stored,
        delegate,
    ) {
        return false;
    }
    if type_arguments(delegate) == 0 && type_arguments(receiver) > 0 {
        return true;
    }
    let mut bindings = Bindings::new();
    unify_inferred_ty(delegate, receiver, &mut bindings);
    !bindings.is_empty() && ty_subst_keep_unbound(delegate, &bindings) == *receiver
}

/// The receiver that the delegate has to have for the property to be of the type `expected`: that
/// of `getValue`, read back through `provideDelegate` where there is one.
pub open spec fn delegate_constraint(
    provide: Option<DelegateGetValueTarget>,
    target: DelegateGetValueTarget,
    expected: TyView,
) -> Option<TyView> {
    match (provide, target.constrained(expected)) {
        (Some(provide), Some(stored)) => provide.constrained(stored),
        (None, constrained) => constrained,
        (Some(_), None) => None,
    }
}

/// The receiver that the delegate has to have for the property to be of the type `expected`.
pub fn constrained_delegate_receiver(
    provide: Option<&DelegateGetValueTarget>,
    target: &DelegateGetValueTarget,
    expected: &Ty,
) -> (receiver: Option<Ty>)
    ensures
        option_view(receiver) == delegate_constraint(
            match provide {
                Some(provide) => Some(*provide),
                None => None,
            },
            *target,
            expected@,
        ),
{
    match (provide, target.receiver_constrained_by_result(expected)) {
        (Some(provide), Some(stored)) => provide.receiver_constrained_by_result(&stored),
        (None, constrained) => constrained,
        (Some(_), None) => None,
    }
}

/// A type where it is not `found`, and `wanted` where it is.
pub open spec fn replaced(ty: TyView, found: TyView, wanted: TyView) -> TyView {
    if ty == found {
        wanted
    } else {
        ty
    }
}

/// The delegate, read so that `getValue` returns `expected` in place of `ret`.
pub open spec fn refined_by_result(delegate: TyView, ret: TyView, expected: TyView) -> TyView {
    let refined = delegate.subst(unified(ret, expected, Map::empty()));
    match refined {
        TyView::Obj(name, arguments) if arguments.contains(ret) => TyView::Obj(
            name,
            Seq::new(arguments.len(), |k: int| replaced(arguments[k], ret, expected)),
        ),
        _ => refined,
    }
}

fn holds_type(types: &Vec<Ty>, wanted: &Ty) -> (found: bool)
    ensures
        found == views(types@).contains(wanted@),
{
    let mut index: usize = 0;
    while index < types.len()
        invariant
            index <= types@.len(),
            forall|k: int| 0 <= k < index ==> (#[trigger] views(types@)[k]) != wanted@,
        decreases types@.len() - index,
    {
        if types[index] == *wanted {
            assert(views(types@)[index as int] == wanted@);
            return true;
        }
        assert(views(types@)[index as int] != wanted@);
        index += 1;
    }
    false
}

fn refine_by_result(delegate: &Ty, ret: &Ty, expected: &Ty) -> (out: Ty)
    ensures
        out@ == refined_by_result(delegate@, ret@, expected@),
{
    let mut bindings = Bindings::new();
    unify_inferred_ty(ret, expected, &mut bindings);
    let refined = ty_subst_keep_unbound(delegate, &bindings);
    match &refined {
        Ty::Obj(name, arguments) => {
            if holds_type(arguments, ret) {
                let mut replaced_arguments: Vec<Ty> = Vec::new();
                while replaced_arguments.len() < arguments.len()
                    invariant
                        replaced_arguments@.len() <= arguments@.len(),
                        forall|k: int|
                            0 <= k < replaced_arguments@.len() ==> (
                            #[trigger] replaced_arguments@[k])@ == replaced(
                                arguments@[k]@,
                                ret@,
                                expected@,
                            ),
                    decreases arguments@.len() - replaced_arguments@.len(),
                {
                    let argument = &arguments[replaced_arguments.len()];
                    replaced_arguments.push(
                        if *argument == *ret {
                            expected.clone()
                        } else {
                            argument.clone()
                        },
                    );
                }
                let ghost shown = refined@->Obj_1;
                assert(shown == views(arguments@));
                assert(views(replaced_arguments@) =~= Seq::new(
                    shown.len(),
                    |k: int| replaced(shown[k], ret@, expected@),
                ));
                return Ty::obj_args_name(name, replaced_arguments.as_slice());
            }
        },
        _ => {},
    }
    refined
}

/// The type parameters of a classifier with their bounds.
#[derive(Debug)]
pub struct ClassifierBounds {
    pub name: TypeName,
    pub type_params: Vec<String>,
    pub type_param_bounds: Vec<Vec<Ty>>,
}

/// The type parameters of the classifier `name`.
pub open spec fn bounds_of(classes: Seq<ClassifierBounds>, name: Seq<char>) -> Option<
    ClassifierBounds,
>
    decreases classes.len(),
{
    if classes.len() == 0 {
        None
    } else if classes[0].name@ == name {
        Some(classes[0])
    } else {
        bounds_of(classes.skip(1), name)
    }
}

fn find_bounds<'a>(classes: &'a Vec<ClassifierBounds>, name: &TypeName) -> (found: Option<
    &'a ClassifierBounds,
>)
    ensures
        bounds_of(classes@, name@) == match found {
            Some(class) => Some(*class),
            None => None,
        },
{
    let mut index: usize = 0;
    assert(classes@.skip(0) =~= classes@);
    while index < classes.len()
        invariant
            index <= classes@.len(),
            bounds_of(classes@.skip(index as int), name@) == bounds_of(classes@, name@),
        decreases classes@.len() - index,
    {
        assert(classes@.skip(index as int).skip(1) =~= classes@.skip(index as int + 1));
        if classes[index].name == *name {
            return Some(&classes[index]);
        }
        index += 1;
    }
    None
}

/// The first bound of the type parameter at `index`, over the arguments found so far.
pub open spec fn applied_bound(
    class: ClassifierBounds,
    index: int,
    bindings: Map<Seq<char>, TyView>,
) -> Option<TyView> {
    if index < class.type_param_bounds@.len() && class.type_param_bounds@[index]@.len() > 0
        && class.type_param_bounds@[index]@[0]@ != TyView::Error {
        Some(class.type_param_bounds@[index]@[0]@.subst(bindings))
    } else {
        None
    }
}

/// An argument within its bound: the null it admits is dropped where that alone is out of bounds.
pub open spec fn within_bound<A: Assignability>(
    relation: A,
    argument: TyView,
    bound: Option<TyView>,
) -> TyView {
    match bound {
        Some(bound) if argument.is_nullable() && !relation.accepts(argument, bound)
            && relation.accepts(argument.non_null(), bound) => argument.non_null(),
        _ => argument,
    }
}

/// The first `count` arguments within their bounds, and what the type parameters stand for then.
pub open spec fn bounded<A: Assignability>(
    relation: A,
    class: ClassifierBounds,
    arguments: Seq<TyView>,
    count: nat,
) -> (Seq<TyView>, Map<Seq<char>, TyView>)
    decreases count,
{
    if count == 0 {
        (arguments, Map::empty())
    } else {
        let (refined, bindings) = bounded(relation, class, arguments, (count - 1) as nat);
        let argument = within_bound(
            relation,
            refined[count - 1],
            applied_bound(class, count - 1, bindings),
        );
        (
            refined.update(count - 1, argument),
            bindings.insert(class.type_params@[count - 1]@, argument),
        )
    }
}

/// How many type parameters have an argument.
pub open spec fn applied_count(class: ClassifierBounds, arguments: nat) -> nat {
    if class.type_params@.len() < arguments {
        class.type_params@.len()
    } else {
        arguments
    }
}

/// The receiver with its arguments within their bounds.
pub open spec fn refined_to_bounds<A: Assignability>(
    relation: A,
    classes: Seq<ClassifierBounds>,
    receiver: TyView,
) -> TyView {
    match receiver {
        TyView::Obj(owner, arguments) => match bounds_of(classes, owner) {
            Some(class) => TyView::Obj(
                owner,
                bounded(relation, class, arguments, applied_count(class, arguments.len())).0,
            ),
            None => receiver,
        },
        _ => receiver,
    }
}

/// Bring the arguments of a receiver within their bounds. A result that admits null around a type
/// parameter that does not would otherwise leave the null in the argument.
pub fn refine_delegate_receiver_to_bounds<A: Assignability>(
    relation: &A,
    classes: &Vec<ClassifierBounds>,
    receiver: &Ty,
) -> (out: Ty)
    ensures
        out@ == refined_to_bounds(*relation, classes@, receiver@),
{
    let (owner, arguments) = match receiver {
        Ty::Obj(owner, arguments) => (owner, arguments),
        _ => {
            return receiver.clone();
        },
    };
    let class = match find_bounds(classes, owner) {
        Some(class) => class,
        None => {
            return receiver.clone();
        },
    };
    let ghost given = views(arguments@);
    let mut refined = copy_tys(arguments.as_slice());
    let mut bindings = Bindings::new();
    let mut index: usize = 0;
    while index < class.type_params.len() && index < refined.len()
        invariant
            index <= class.type_params@.len(),
            index <= refined@.len(),
            refined@.len() == given.len(),
            (views(refined@), bindings@) == bounded(*relation, *class, given, index as nat),
        decreases refined@.len() - index,
    {
        let ghost before = refined@;
        let bound = if index < class.type_param_bounds.len()
            && class.type_param_bounds[index].len() > 0 {
            match &class.type_param_bounds[index][0] {
                Ty::Error => None,
                bound => Some(ty_subst_keep_unbound(bound, &bindings)),
            }
        } else {
            None
        };
        let argument = match &bound {
            Some(bound) => {
                let argument = &refined[index];
                if argument.is_nullable() && !relation.is_assignable(argument, bound)
                    && relation.is_assignable(argument.non_null(), bound) {
                    argument.non_null().clone()
                } else {
                    argument.clone()
                }
            },
            None => refined[index].clone(),
        };
        bindings.insert(class.type_params[index].as_str(), argument.clone());
        refined.set(index, argument);
        assert(views(refined@) =~= views(before).update(index as int, argument@));
        index += 1;
    }
    Ty::obj_args_name(owner, refined.as_slice())
}

/// What an attempt to find `getValue` came to.
#[derive(Debug)]
pub enum DelegateGetValueAttempt {
    /// The property is of a type, or there is no convention.
    Complete(Option<Ty>),
    /// The delegate is to be checked again, as a value of this type.
    RetryWithReceiver(Ty),
}

/// Whether a receiver is a new one to check the delegate against.
pub open spec fn worth_retrying(
    receiver: TyView,
    delegate: TyView,
    expectation: Option<TyView>,
) -> bool {
    receiver != delegate && expectation != Some(receiver)
}

/// The type to check the delegate against again, where `getValue` shows one: the receiver that it
/// was applied to; or, for a property of the type `expected`, what its result says of the delegate.
/// `raw` is what the delegate becomes under the constraint that the result puts on it.
pub open spec fn retried_receiver<A: Assignability>(
    relation: A,
    classes: Seq<ClassifierBounds>,
    delegate: TyView,
    stored: TyView,
    expectation: Option<TyView>,
    expected: Option<TyView>,
    target: DelegateGetValueTarget,
    raw: Option<TyView>,
) -> Option<TyView> {
    let constrained = match raw {
        Some(raw) => Some(refined_to_bounds(relation, classes, raw)),
        None => None,
    };
    if target.receiver() matches Some(receiver) && completes(receiver, delegate, stored)
        && worth_retrying(receiver, delegate, expectation) {
        target.receiver()
    } else {
        match expected {
            Some(expected) if expected != TyView::Error => {
                let refined = refined_to_bounds(
                    relation,
                    classes,
                    refined_by_result(delegate, target.result(), expected),
                );
                if constrained matches Some(receiver) && worth_retrying(
                    receiver,
                    delegate,
                    expectation,
                ) {
                    constrained
                } else if worth_retrying(refined, delegate, expectation) {
                    Some(refined)
                } else {
                    None
                }
            },
            _ => None,
        }
    }
}

fn is_worth_retrying(receiver: &Ty, delegate: &Ty, expectation: &Option<Ty>) -> (yes: bool)
    ensures
        yes == worth_retrying(receiver@, delegate@, option_view(*expectation)),
{
    *receiver != *delegate && match expectation {
        Some(expected) => *expected != *receiver,
        None => true,
    }
}

/// Settle an attempt that found `getValue`. `stored_ty` is the type of the value that the property
/// keeps, and `expectation` the type that the delegate was checked against.
pub fn settle_getvalue<A: Assignability>(
    relation: &A,
    classes: &Vec<ClassifierBounds>,
    delegate_ty: &Ty,
    stored_ty: &Ty,
    expectation: &Option<Ty>,
    expected_property: &Option<Ty>,
    target: &DelegateGetValueTarget,
    raw: &Option<Ty>,
) -> (attempt: DelegateGetValueAttempt)
    ensures
        match (
            attempt,
            retried_receiver(
                *relation,
                classes@,
                delegate_ty@,
                stored_ty@,
                option_view(*expectation),
                option_view(*expected_property),
                *target,
                option_view(*raw),
            ),
        ) {
            (DelegateGetValueAttempt::RetryWithReceiver(receiver), Some(wanted)) => receiver@
                == wanted,
            (DelegateGetValueAttempt::Complete(Some(ret)), None) => ret@ == target.result(),
            _ => false,
        },
{
    if let Some(receiver) = target.applied_receiver() {
        if receiver_completes(receiver, delegate_ty, stored_ty) && is_worth_retrying(
            receiver,
            delegate_ty,
            expectation,
        ) {
            return DelegateGetValueAttempt::RetryWithReceiver(receiver.clone());
        }
    }
    let ret = target.ret();
    if let Some(expected) = expected_property {
        if *expected != Ty::Error {
            if let Some(raw) = raw {
                let refined = refine_delegate_receiver_to_bounds(relation, classes, raw);
                if is_worth_retrying(&refined, delegate_ty, expectation) {
                    return DelegateGetValueAttempt::RetryWithReceiver(refined);
                }
            }
            let refined = refine_by_result(delegate_ty, ret, expected);
            let refined = refine_delegate_receiver_to_bounds(relation, classes, &refined);
            if is_worth_retrying(&refined, delegate_ty, expectation) {
                return DelegateGetValueAttempt::RetryWithReceiver(refined);
            }
        }
    }
    DelegateGetValueAttempt::Complete(Some(ret.clone()))
}

/// The delegate is never checked again against the type that it has, or that it was just checked
/// against.
pub proof fn a_retry_is_against_a_new_receiver<A: Assignability>(
    relation: A,
    classes: Seq<ClassifierBounds>,
    delegate: TyView,
    stored: TyView,
    expectation: Option<TyView>,
    expected: Option<TyView>,
    target: DelegateGetValueTarget,
    raw: Option<TyView>,
)
    ensures
        retried_receiver(
            relation,
            classes,
            delegate,
            stored,
            expectation,
            expected,
            target,
            raw,
        ) matches Some(receiver) ==> receiver != delegate && expectation != Some(receiver),
{
}

/// A type is asked of the delegate only where `getValue` asks for it: the receiver that it was
/// applied to, or what its result makes of the delegate. Where each of these is the type that the
/// delegate has, or the one that it was just checked against, it is not checked again.
pub proof fn a_met_expectation_ends_the_retries<A: Assignability>(
    relation: A,
    classes: Seq<ClassifierBounds>,
    delegate: TyView,
    stored: TyView,
    expectation: Option<TyView>,
    expected: Option<TyView>,
    target: DelegateGetValueTarget,
    raw: Option<TyView>,
)
    requires
        target.receiver() matches Some(receiver) ==> receiver == delegate || expectation == Some(
            receiver,
        ),
        expected matches Some(expected) ==> {
            let refined = refined_to_bounds(
                relation,
                classes,
                refined_by_result(delegate, target.result(), expected),
            );
            refined == delegate || expectation == Some(refined)
        },
        raw matches Some(raw) ==> {
            let constrained = refined_to_bounds(relation, classes, raw);
            constrained == delegate || expectation == Some(constrained)
        },
    ensures
        retried_receiver(
            relation,
            classes,
            delegate,
            stored,
            expectation,
            expected,
            target,
            raw,
        ) is None,
{
}

/// Whether no type parameter is left in a type for something to be bound to.
pub open spec fn is_whole(ty: TyView) -> bool
    decreases ty, 1nat,
{
    match ty {
        TyView::TyParam(_, _) => false,
        TyView::Nullable(inner)
        | TyView::PlatformNullable(inner)
        | TyView::InProjection(inner)
        | TyView::OutProjection(inner)
        | TyView::StarProjection(inner) => is_whole(*inner),
        TyView::Obj(_, arguments) => are_whole(arguments),
        TyView::Fun(sig) => are_whole(sig.params) && is_whole(sig.ret),
        _ => true,
    }
}

/// Whether no type parameter is left in any of the types.
pub open spec fn are_whole(types: Seq<TyView>) -> bool
    decreases types, 0nat,
{
    types.len() == 0 || is_whole(types.last()) && are_whole(types.drop_last())
}

proof fn lemma_whole_binds_nothing(
    formal: TyView,
    actual: TyView,
    bindings: Map<Seq<char>, TyView>,
)
    requires
        is_whole(formal),
    ensures
        unified(formal, actual, bindings) == bindings,
    decreases formal, 1nat,
{
    match formal {
        TyView::Nullable(inner) | TyView::PlatformNullable(inner) => {
            lemma_whole_binds_nothing(*inner, actual.non_null(), bindings);
        },
        TyView::InProjection(inner)
        | TyView::OutProjection(inner)
        | TyView::StarProjection(inner) => {
            let argument = match actual.projection_inner() {
                Some(argument) => argument,
                None => actual,
            };
            lemma_whole_binds_nothing(*inner, argument, bindings);
        },
        TyView::Obj(_, arguments) => {
            if let TyView::Obj(_, others) = actual.non_null() {
                lemma_whole_bind_nothing(arguments, others, bindings);
            }
        },
        TyView::Fun(sig) => {
            if let TyView::Fun(other) = actual.non_null() {
                lemma_whole_bind_nothing(sig.params, other.params, bindings);
                lemma_whole_binds_nothing(sig.ret, other.ret, bindings);
            }
        },
        _ => {},
    }
}

proof fn lemma_whole_bind_nothing(
    formals: Seq<TyView>,
    actuals: Seq<TyView>,
    bindings: Map<Seq<char>, TyView>,
)
    requires
        are_whole(formals),
    ensures
        unified_all(formals, actuals, bindings) == bindings,
    decreases formals, 0nat,
{
    if formals.len() > 0 && actuals.len() > 0 {
        lemma_whole_bind_nothing(formals.drop_last(), actuals.drop_last(), bindings);
        lemma_whole_binds_nothing(formals.last(), actuals.last(), bindings);
    }
}

/// The delegate of a property without a declared type is not checked again once it has type
/// arguments and no type parameter is left in it.
pub proof fn a_whole_delegate_is_not_checked_again<A: Assignability>(
    relation: A,
    classes: Seq<ClassifierBounds>,
    delegate: TyView,
    stored: TyView,
    expectation: Option<TyView>,
    target: DelegateGetValueTarget,
    raw: Option<TyView>,
)
    requires
        delegate matches TyView::Obj(_, arguments) && arguments.len() > 0,
        is_whole(delegate),
    ensures
        retried_receiver(
            relation,
            classes,
            delegate,
            stored,
            expectation,
            None,
            target,
            raw,
        ) is None,
{
    if let Some(receiver) = target.receiver() {
        lemma_whole_binds_nothing(delegate, receiver, Map::empty());
    }
}

/// How a delegate expression is checked.
#[derive(Clone, Copy, Debug, PartialEq, Eq, Structural)]
pub enum DelegateCheck {
    /// As a value of the type that is expected of it.
    Expected,
    /// By itself. Nothing later says what it is.
    Plain,
    /// By itself, and not finally: the type of the property may still say more.
    Postponed,
}

/// How the delegate expression is checked: `expected` says whether a type is expected of it, and
/// `declared` whether the property has a declared type.
pub fn delegate_check(expected: bool, declared: bool) -> (check: DelegateCheck)
    ensures
        check == if expected {
            DelegateCheck::Expected
        } else if declared {
            DelegateCheck::Postponed
        } else {
            DelegateCheck::Plain
        },
{
    match (expected, declared) {
        (true, _) => DelegateCheck::Expected,
        (false, false) => DelegateCheck::Plain,
        (false, true) => DelegateCheck::Postponed,
    }
}

/// What happened to the delegate of a property.
#[derive(Debug)]
pub enum DelegateEvent {
    /// Nothing yet.
    Begun,
    /// It was checked and found to be of a type, and an attempt to find `getValue` was made.
    Attempted(Ty, DelegateGetValueOutcome),
}

/// What is done next about the delegate of a property.
#[derive(Debug)]
pub enum DelegateStep {
    /// It is checked, as a value of the type where there is one, and `getValue` is looked for.
    Check(DelegateCheck, Option<Ty>),
    /// It is of a type, and the property is of another where there is a convention.
    Done(Ty, Option<Ty>),
}

/// Go on with the delegate of a property. `declared` says whether the property has a declared type.
/// The delegate is first checked by itself, and again for as long as an attempt asks for it.
pub fn check_delegate_getvalue(declared: bool, event: DelegateEvent) -> (step: DelegateStep)
    ensures
        match event {
            DelegateEvent::Begun => step == DelegateStep::Check(
                if declared {
                    DelegateCheck::Postponed
                } else {
                    DelegateCheck::Plain
                },
                None,
            ),
            DelegateEvent::Attempted(_, DelegateGetValueOutcome::Retry(receiver)) => step
                == DelegateStep::Check(DelegateCheck::Expected, Some(receiver)),
            DelegateEvent::Attempted(ty, DelegateGetValueOutcome::Found(ret)) => step
                == DelegateStep::Done(ty, Some(ret)),
            DelegateEvent::Attempted(ty, _) => step == DelegateStep::Done(ty, None),
        },
{
    match event {
        DelegateEvent::Begun => DelegateStep::Check(delegate_check(false, declared), None),
        DelegateEvent::Attempted(_, DelegateGetValueOutcome::Retry(receiver)) => {
            DelegateStep::Check(delegate_check(true, declared), Some(receiver))
        },
        DelegateEvent::Attempted(ty, DelegateGetValueOutcome::Found(ret)) => DelegateStep::Done(
            ty,
            Some(ret),
        ),
        DelegateEvent::Attempted(ty, _) => DelegateStep::Done(ty, None),
    }
}

/// The conventions that were found, by the delegate expression.
#[derive(Debug)]
pub struct DelegateTargets {
    pub property_reference_type: Option<Ty>,
    pub provide: HashMap<u32, DelegateGetValueTarget>,
    pub getvalue: HashMap<u32, DelegateGetValueTarget>,
    pub setvalue: HashMap<u32, DelegateGetValueTarget>,
}

impl DelegateTargets {
    /// The type of the value that a property keeps: what `provideDelegate` returns, or the delegate.
    pub open spec fn stored(self, delegate: u32, delegate_ty: TyView) -> TyView {
        if self.provide@.contains_key(delegate) {
            self.provide@[delegate].result()
        } else {
            delegate_ty
        }
    }

    pub fn stored_type(&self, delegate: u32, delegate_ty: &Ty) -> (ty: Ty)
        ensures
            ty@ == self.stored(delegate, delegate_ty@),
    {
        match self.provide.get(&delegate) {
            Some(target) => target.ret().clone(),
            None => delegate_ty.clone(),
        }
    }

    /// Note the conventions that a property is read through.
    pub fn record_getvalue(
        &mut self,
        delegate: u32,
        provide: Option<DelegateGetValueTarget>,
        target: DelegateGetValueTarget,
    )
        ensures
            final(self).getvalue@ == old(self).getvalue@.insert(delegate, target),
            final(self).provide@ == match provide {
                Some(provide) => old(self).provide@.insert(delegate, provide),
                None => old(self).provide@,
            },
            *final(self) == (DelegateTargets {
                provide: final(self).provide,
                getvalue: final(self).getvalue,
                ..*old(self)
            }),
    {
        if let Some(provide) = provide {
            self.provide.insert(delegate, provide);
        }
        self.getvalue.insert(delegate, target);
    }

    /// Note the convention that a property is written through, where it was found. The result says
    /// whether it was.
    pub fn record_setvalue(&mut self, delegate: u32, selection: DelegateOperatorSelection) -> (found:
        bool)
        ensures
            found == (selection is Selected),
            final(self).setvalue@ == match selection {
                DelegateOperatorSelection::Selected(target) => old(self).setvalue@.insert(
                    delegate,
                    *target,
                ),
                _ => old(self).setvalue@,
            },
            *final(self) == (DelegateTargets { setvalue: final(self).setvalue, ..*old(self) }),
    {
        match selection {
            DelegateOperatorSelection::Selected(target) => {
                self.setvalue.insert(delegate, *target);
                true
            },
            _ => false,
        }
    }
}

/// What the search for the convention that a property is written through came to.
#[derive(Debug)]
pub enum DelegateSetValueOutcome {
    Recorded,
    /// There is no `setValue` on the type: that is to be complained of.
    NoConvention(Ty),
    /// The selection of `setValue` on the type failed.
    Failed(Ty, DelegateOperatorFailure),
}

/// Note the convention that a property is written through, where it was found on the value that the
/// property keeps. Without a type for references to properties there is none to be found.
pub fn record_delegate_setvalue(
    targets: &mut DelegateTargets,
    delegate: u32,
    delegate_ty: &Ty,
    has_reference_type: bool,
    selection: DelegateOperatorSelection,
) -> (outcome: DelegateSetValueOutcome)
    ensures
        *final(targets) == (DelegateTargets { setvalue: final(targets).setvalue, ..*old(targets) }),
        !(outcome is Recorded) ==> final(targets).setvalue@ == old(targets).setvalue@,
        if !has_reference_type {
            outcome matches DelegateSetValueOutcome::NoConvention(ty) && ty@ == delegate_ty@
        } else {
            match selection {
                DelegateOperatorSelection::Selected(target) => outcome is Recorded && final(targets).setvalue@ == old(targets).setvalue@.insert(delegate, *target),
                DelegateOperatorSelection::Absent => {
                    outcome matches DelegateSetValueOutcome::NoConvention(ty) && ty@ == old(targets).stored(delegate, delegate_ty@)
                },
                DelegateOperatorSelection::Failure(failure) => {
                    outcome matches DelegateSetValueOutcome::Failed(ty, reported) && ty@ == old(targets).stored(delegate, delegate_ty@) && reported == failure
                },
            }
        },
{
    if !has_reference_type {
        return DelegateSetValueOutcome::NoConvention(delegate_ty.clone());
    }
    match selection {
        DelegateOperatorSelection::Selected(target) => {
            let _ = targets.record_setvalue(
                delegate,
                DelegateOperatorSelection::Selected(target),
            );
            DelegateSetValueOutcome::Recorded
        },
        DelegateOperatorSelection::Absent => DelegateSetValueOutcome::NoConvention(
            targets.stored_type(delegate, delegate_ty),
        ),
        DelegateOperatorSelection::Failure(failure) => DelegateSetValueOutcome::Failed(
            targets.stored_type(delegate, delegate_ty),
            failure,
        ),
    }
}

/// What an attempt to find the convention that a property is read through came to.
#[derive(Debug)]
pub enum DelegateGetValueOutcome {
    /// The property is of the type.
    Found(Ty),
    /// The delegate is to be checked again, as a value of this type.
    Retry(Ty),
    /// There is no `getValue` on the type: that is to be complained of.
    NoConvention(Ty),
    /// The selection of `provideDelegate` failed.
    ProvideFailed(DelegateOperatorFailure),
    /// The selection of `getValue` failed.
    GetValueFailed(DelegateOperatorFailure),
}

/// The type of the value that a property keeps, given what was selected for `provideDelegate`.
pub open spec fn kept_type(provide: DelegateOperatorSelection, delegate: TyView) -> TyView {
    match provide {
        DelegateOperatorSelection::Selected(target) => target.result(),
        _ => delegate,
    }
}

/// Attempt to find the convention that the property of a delegate is read through. `reference` is
/// the type of a property reference, where the dependencies declare it; without it no convention
/// applies. `provide` and `getvalue` are what was selected for the two conventions, and `raw` is what
/// the delegate becomes under the constraint that the result of `getValue` puts on it. What was
/// found is noted only where the delegate need not be checked again.
pub fn select_delegate_getvalue_attempt<A: Assignability>(
    targets: &mut DelegateTargets,
    relation: &A,
    classes: &Vec<ClassifierBounds>,
    delegate: u32,
    delegate_ty: &Ty,
    expectation: &Option<Ty>,
    expected_property: &Option<Ty>,
    reference: Option<Ty>,
    provide: DelegateOperatorSelection,
    getvalue: DelegateOperatorSelection,
    raw: &Option<Ty>,
) -> (outcome: DelegateGetValueOutcome)
    ensures
        final(targets).setvalue@ == old(targets).setvalue@,
        final(targets).property_reference_type == if reference is Some {
            reference
        } else {
            old(targets).property_reference_type
        },
        !(outcome is Found) ==> final(targets).provide@ == old(targets).provide@ && final(targets).getvalue@ == old(targets).getvalue@,
        match (reference, provide, getvalue) {
            (None, _, _) => outcome matches DelegateGetValueOutcome::NoConvention(ty) && ty@
                == delegate_ty@,
            (_, DelegateOperatorSelection::Failure(failure), _) => outcome
                == DelegateGetValueOutcome::ProvideFailed(failure),
            (_, _, DelegateOperatorSelection::Failure(failure)) => outcome
                == DelegateGetValueOutcome::GetValueFailed(failure),
            (_, _, DelegateOperatorSelection::Absent) => outcome matches
                DelegateGetValueOutcome::NoConvention(ty) && ty@ == kept_type(
                provide,
                delegate_ty@,
            ),
            (_, _, DelegateOperatorSelection::Selected(target)) => match retried_receiver(
                *relation,
                classes@,
                delegate_ty@,
                kept_type(provide, delegate_ty@),
                option_view(*expectation),
                option_view(*expected_property),
                *target,
                option_view(*raw),
            ) {
                Some(wanted) => outcome matches DelegateGetValueOutcome::Retry(receiver)
                    && receiver@ == wanted,
                None => {
                    &&& outcome matches DelegateGetValueOutcome::Found(ret) && ret@
                        == target.result()
                    &&& final(targets).getvalue@ == old(targets).getvalue@.insert(delegate, *target)
                    &&& final(targets).provide@ == match provide {
                        DelegateOperatorSelection::Selected(found) => old(targets).provide@.insert(delegate, *found),
                        _ => old(targets).provide@,
                    }
                },
            },
        },
{
    match reference {
        Some(reference) => {
            targets.property_reference_type = Some(reference);
        },
        None => {
            return DelegateGetValueOutcome::NoConvention(delegate_ty.clone());
        },
    }
    let provide = match provide {
        DelegateOperatorSelection::Selected(target) => Some(*target),
        DelegateOperatorSelection::Absent => None,
        DelegateOperatorSelection::Failure(failure) => {
            return DelegateGetValueOutcome::ProvideFailed(failure);
        },
    };
    let stored_ty = match &provide {
        Some(target) => target.ret().clone(),
        None => delegate_ty.clone(),
    };
    let target = match getvalue {
        DelegateOperatorSelection::Selected(target) => *target,
        DelegateOperatorSelection::Absent => {
            return DelegateGetValueOutcome::NoConvention(stored_ty);
        },
        DelegateOperatorSelection::Failure(failure) => {
            return DelegateGetValueOutcome::GetValueFailed(failure);
        },
    };
    match settle_getvalue(
        relation,
        classes,
        delegate_ty,
        &stored_ty,
        expectation,
        expected_property,
        &target,
        raw,
    ) {
        DelegateGetValueAttempt::RetryWithReceiver(receiver) => DelegateGetValueOutcome::Retry(
            receiver,
        ),
        DelegateGetValueAttempt::Complete(_) => {
            let ret = target.ret().clone();
            targets.record_getvalue(delegate, provide, target);
            DelegateGetValueOutcome::Found(ret)
        },
    }
}

/// Functions as they are listed, each with the result of its own declaration.
pub open spec fn listed_ordinary(functions: Seq<FunctionInfoView>, name: Seq<char>) -> Seq<
    DiagnosticCandidateView,
> {
    Seq::new(
        functions.len(),
        |k: int| listed_candidate(functions[k], name, functions[k].callable.ret),
    )
}

proof fn lemma_declared_results(
    functions: Seq<FunctionInfoView>,
    name: Seq<char>,
    results: Seq<Result<Ty, DiagnosticId>>,
)
    requires
        results.len() >= functions.len(),
        forall|k: int|
            0 <= k < functions.len() ==> (#[trigger] results[k]) is Ok && results[k]->Ok_0@
                == functions[k].callable.ret,
    ensures
        listed_candidates(functions, name, results) == Ok::<_, DiagnosticId>(
            listed_ordinary(functions, name),
        ),
    decreases functions.len(),
{
    if functions.len() > 0 {
        lemma_declared_results(functions.drop_last(), name, results);
        assert(listed_ordinary(functions, name) =~= listed_ordinary(
            functions.drop_last(),
            name,
        ).push(
            listed_candidate(functions.last(), name, functions.last().callable.ret),
        ));
        assert(results[functions.len() - 1] is Ok);
    } else {
        assert(listed_ordinary(functions, name) =~= seq![]);
    }
}

fn declared_results(functions: &Vec<FunctionInfo>) -> (results: Vec<Result<Ty, DiagnosticId>>)
    ensures
        results@.len() == functions@.len(),
        forall|k: int|
            0 <= k < functions@.len() ==> (#[trigger] results@[k]) is Ok && results@[k]->Ok_0@
                == functions@[k]@.callable.ret,
{
    let mut results: Vec<Result<Ty, DiagnosticId>> = Vec::new();
    while results.len() < functions.len()
        invariant
            results@.len() <= functions@.len(),
            forall|k: int|
                0 <= k < results@.len() ==> (#[trigger] results@[k]) is Ok && results@[k]->Ok_0@
                    == functions@[k]@.callable.ret,
        decreases functions@.len() - results@.len(),
    {
        results.push(Ok(functions[results.len()].callable.ret.clone()));
    }
    results
}

fn list_ordinary(functions: &Vec<FunctionInfo>, name: &str) -> (candidates: Vec<
    DelegateConventionDiagnosticCandidate,
>)
    ensures
        views(candidates@) == listed_ordinary(views(functions@), name@),
{
    let results = declared_results(functions);
    proof {
        lemma_declared_results(views(functions@), name@, results@);
    }
    match delegate_convention_candidates_from_functions(functions.as_slice(), name, &results) {
        Ok(candidates) => candidates,
        Err(_) => {
            assert(false);
            Vec::new()
        },
    }
}

/// The result of a member extension: the settled one where its own is not known.
pub open spec fn known_result(
    index: ResolvedModuleIndex,
    ret: TyView,
    declaration: Option<DeclarationId>,
) -> TyView {
    if ret.mentions_pending() {
        index.signature_of(declaration)->0.result@
    } else {
        ret
    }
}

/// Whether the result of a member extension is known.
pub open spec fn result_known(
    index: ResolvedModuleIndex,
    ret: TyView,
    declaration: Option<DeclarationId>,
) -> bool {
    ret.mentions_pending() ==> index.signature_of(declaration) is Some
}

fn know_result(
    index: &ResolvedModuleIndex,
    ret: &Ty,
    declaration: Option<DeclarationId>,
) -> (result: Ty)
    requires
        result_known(*index, ret@, declaration),
    ensures
        result@ == known_result(*index, ret@, declaration),
{
    if ret.mentions_pending() {
        match index.signature(declaration) {
            Some(signature) => signature.result.clone(),
            None => {
                assert(false);
                ret.clone()
            },
        }
    } else {
        ret.clone()
    }
}

/// A member extension as it is listed.
pub open spec fn listed_member_extension(
    name: Seq<char>,
    receiver: TyView,
    context_count: nat,
    params: Seq<TyView>,
    names: Seq<Seq<char>>,
    result: TyView,
) -> DiagnosticCandidateView {
    let prefix = context_prefix(context_count, params.len()) as int;
    DiagnosticCandidateView {
        rendered: listed_function(
            name,
            Some(receiver),
            params.take(prefix),
            params.skip(prefix),
            names,
            result,
        ),
        result,
    }
}

fn list_member_extension(
    name: &str,
    receiver: &Ty,
    context_count: usize,
    params: &Vec<Ty>,
    names: &Vec<String>,
    result: &Ty,
) -> (candidate: DelegateConventionDiagnosticCandidate)
    ensures
        candidate@ == listed_member_extension(
            name@,
            receiver@,
            context_count as nat,
            views(params@),
            views(names@),
            result@,
        ),
{
    let prefix: usize = if context_count < params.len() {
        context_count
    } else {
        params.len()
    };
    let context = vstd::slice::slice_subrange(params.as_slice(), 0, prefix);
    let value = vstd::slice::slice_subrange(params.as_slice(), prefix, params.len());
    assert(views(context@) =~= views(params@).take(prefix as int));
    assert(views(value@) =~= views(params@).skip(prefix as int));
    delegate_convention_diagnostic_candidate(name, Some(receiver), context, value, names, result)
}

/// The ambiguous member extensions as they are listed.
pub open spec fn listed_ambiguous(
    index: ResolvedModuleIndex,
    name: Seq<char>,
    candidates: Seq<MemberExtensionFunctionCandidate>,
) -> Seq<DiagnosticCandidateView> {
    Seq::new(
        candidates.len(),
        |k: int|
            listed_member_extension(
                name,
                candidates[k].extension_receiver@,
                candidates[k].context_count as nat,
                views(candidates[k].params@),
                views(candidates[k].diagnostic_param_names@),
                known_result(index, candidates[k].ret@, candidates[k].stable_declaration),
            ),
    )
}

/// The member extensions that were not selected, as they are listed.
pub open spec fn listed_excluded(
    index: ResolvedModuleIndex,
    name: Seq<char>,
    candidates: Seq<MemberExtensionConventionDiagnosticCandidate>,
) -> Seq<DiagnosticCandidateView> {
    Seq::new(
        candidates.len(),
        |k: int|
            listed_member_extension(
                name,
                candidates[k].extension_receiver@,
                candidates[k].context_count as nat,
                views(candidates[k].params@),
                views(candidates[k].parameter_names@),
                known_result(index, candidates[k].ret@, candidates[k].stable_declaration),
            ),
    )
}

fn list_ambiguous(
    index: &ResolvedModuleIndex,
    name: &str,
    candidates: &Vec<MemberExtensionFunctionCandidate>,
) -> (listed: Vec<DelegateConventionDiagnosticCandidate>)
    requires
        forall|k: int|
            0 <= k < candidates@.len() ==> result_known(
                *index,
                (#[trigger] candidates@[k]).ret@,
                candidates@[k].stable_declaration,
            ),
    ensures
        views(listed@) == listed_ambiguous(*index, name@, candidates@),
{
    let ghost shown = listed_ambiguous(*index, name@, candidates@);
    let mut listed: Vec<DelegateConventionDiagnosticCandidate> = Vec::new();
    while listed.len() < candidates.len()
        invariant
            listed@.len() <= candidates@.len(),
            forall|k: int|
                0 <= k < candidates@.len() ==> result_known(
                    *index,
                    (#[trigger] candidates@[k]).ret@,
                    candidates@[k].stable_declaration,
                ),
            shown == listed_ambiguous(*index, name@, candidates@),
            forall|k: int| 0 <= k < listed@.len() ==> (#[trigger] listed@[k])@ == shown[k],
        decreases candidates@.len() - listed@.len(),
    {
        let candidate = &candidates[listed.len()];
        let result = know_result(index, &candidate.ret, candidate.stable_declaration);
        listed.push(
            list_member_extension(
                name,
                &candidate.extension_receiver,
                candidate.context_count,
                &candidate.params,
                &candidate.diagnostic_param_names,
                &result,
            ),
        );
    }
    assert(views(listed@) =~= shown);
    listed
}

fn list_excluded(
    index: &ResolvedModuleIndex,
    name: &str,
    candidates: &Vec<MemberExtensionConventionDiagnosticCandidate>,
) -> (listed: Vec<DelegateConventionDiagnosticCandidate>)
    requires
        forall|k: int|
            0 <= k < candidates@.len() ==> result_known(
                *index,
                (#[trigger] candidates@[k]).ret@,
                candidates@[k].stable_declaration,
            ),
    ensures
        views(listed@) == listed_excluded(*index, name@, candidates@),
{
    let ghost shown = listed_excluded(*index, name@, candidates@);
    let mut listed: Vec<DelegateConventionDiagnosticCandidate> = Vec::new();
    while listed.len() < candidates.len()
        invariant
            listed@.len() <= candidates@.len(),
            forall|k: int|
                0 <= k < candidates@.len() ==> result_known(
                    *index,
                    (#[trigger] candidates@[k]).ret@,
                    candidates@[k].stable_declaration,
                ),
            shown == listed_excluded(*index, name@, candidates@),
            forall|k: int| 0 <= k < listed@.len() ==> (#[trigger] listed@[k])@ == shown[k],
        decreases candidates@.len() - listed@.len(),
    {
        let candidate = &candidates[listed.len()];
        let result = know_result(index, &candidate.ret, candidate.stable_declaration);
        listed.push(
            list_member_extension(
                name,
                &candidate.extension_receiver,
                candidate.context_count,
                &candidate.params,
                &candidate.parameter_names,
                &result,
            ),
        );
    }
    assert(views(listed@) =~= shown);
    listed
}

/// Which functions are listed where none is applicable: all of them, the members first, or those of
/// the first kind that has any.
pub open spec fn listed_inapplicable(
    every_kind: bool,
    members: Seq<DiagnosticCandidateView>,
    member_extensions: Seq<DiagnosticCandidateView>,
    extensions: Seq<DiagnosticCandidateView>,
) -> Seq<DiagnosticCandidateView> {
    if every_kind {
        members + member_extensions + extensions
    } else if members.len() > 0 {
        members
    } else if member_extensions.len() > 0 {
        member_extensions
    } else {
        extensions
    }
}

impl DelegateOperatorFailure {
    /// Whether the results of the functions that are listed are known.
    pub open spec fn listable(self, index: ResolvedModuleIndex) -> bool {
        match self {
            DelegateOperatorFailure::AmbiguousOrdinary(_) => true,
            DelegateOperatorFailure::InapplicableCandidates { member_extensions, .. } => {
                forall|k: int|
                    0 <= k < member_extensions@.len() ==> result_known(
                        index,
                        (#[trigger] member_extensions@[k]).ret@,
                        member_extensions@[k].stable_declaration,
                    )
            },
            DelegateOperatorFailure::AmbiguousMemberExtensions(candidates) => {
                forall|k: int|
                    0 <= k < candidates@.len() ==> result_known(
                        index,
                        (#[trigger] candidates@[k]).ret@,
                        candidates@[k].stable_declaration,
                    )
            },
        }
    }

    /// The failure with the functions as they are listed.
    pub open spec fn listed(
        self,
        index: ResolvedModuleIndex,
        every_kind: bool,
        name: Seq<char>,
    ) -> DelegateConventionFailureView {
        match self {
            DelegateOperatorFailure::AmbiguousOrdinary(candidates) => {
                DelegateConventionFailureView::Ambiguous(
                    listings(listed_ordinary(views(candidates@), name)),
                )
            },
            DelegateOperatorFailure::InapplicableCandidates {
                members,
                member_extensions,
                extensions,
            } => inapplicable(
                listed_inapplicable(
                    every_kind,
                    listed_ordinary(views(members@), name),
                    listed_excluded(index, name, member_extensions@),
                    listed_ordinary(views(extensions@), name),
                ),
            ),
            DelegateOperatorFailure::AmbiguousMemberExtensions(candidates) => {
                DelegateConventionFailureView::Ambiguous(
                    listings(listed_ambiguous(index, name, candidates@)),
                )
            },
        }
    }
}

/// What is said of a convention whose selection failed. `every_kind` says whether functions of all
/// kinds are listed.
pub fn delegate_operator_failure_message(
    index: &ResolvedModuleIndex,
    every_kind: bool,
    site: &DelegateConventionSite,
    delegate_ty: &Ty,
    name: &str,
    this_ref: &Ty,
    property: Option<&Ty>,
    value: Option<&Ty>,
    failure: &DelegateOperatorFailure,
) -> (message: Option<String>)
    requires
        site.well_formed(),
        failure.listable(*index),
    ensures
        option_view(message) == convention_message(
            *site,
            delegate_ty@,
            name@,
            this_ref@,
            match property {
                Some(property) => Some(property@),
                None => None,
            },
            match value {
                Some(value) => Some(value@),
                None => None,
            },
            failure.listed(*index, every_kind, name@),
        ),
{
    match failure {
        DelegateOperatorFailure::AmbiguousOrdinary(candidates) => {
            let listed = list_ordinary(candidates, name);
            delegate_convention_ambiguity_message_with_candidates(
                site,
                delegate_ty,
                name,
                this_ref,
                property,
                value,
                listed.as_slice(),
            )
        },
        DelegateOperatorFailure::InapplicableCandidates {
            members,
            member_extensions,
            extensions,
        } => {
            let ghost wanted = listed_inapplicable(
                every_kind,
                listed_ordinary(views(members@), name@),
                listed_excluded(*index, name@, member_extensions@),
                listed_ordinary(views(extensions@), name@),
            );
            let listed = if every_kind {
                let mut all = list_ordinary(members, name);
                let mut second = list_excluded(index, name, member_extensions);
                let mut third = list_ordinary(extensions, name);
                all.append(&mut second);
                all.append(&mut third);
                assert(views(all@) =~= wanted);
                all
            } else if members.len() > 0 {
                list_ordinary(members, name)
            } else if member_extensions.len() > 0 {
                list_excluded(index, name, member_extensions)
            } else {
                list_ordinary(extensions, name)
            };
            assert(views(listed@) == wanted);
            delegate_convention_message_with_candidates(
                site,
                delegate_ty,
                name,
                this_ref,
                property,
                value,
                listed.as_slice(),
            )
        },
        DelegateOperatorFailure::AmbiguousMemberExtensions(candidates) => {
            let listed = list_ambiguous(index, name, candidates);
            delegate_convention_ambiguity_message_with_candidates(
                site,
                delegate_ty,
                name,
                this_ref,
                property,
                value,
                listed.as_slice(),
            )
        },
    }
}

/// What is said of a convention that is not there. `functions` are those of the name that the
/// delegate offers.
pub fn delegate_operator_absence_message(
    functions: &Vec<FunctionInfo>,
    site: &DelegateConventionSite,
    delegate_ty: &Ty,
    name: &str,
    this_ref: &Ty,
    property: Option<&Ty>,
    value: Option<&Ty>,
) -> (message: Option<String>)
    requires
        site.well_formed(),
    ensures
        option_view(message) == convention_message(
            *site,
            delegate_ty@,
            name@,
            this_ref@,
            match property {
                Some(property) => Some(property@),
                None => None,
            },
            match value {
                Some(value) => Some(value@),
                None => None,
            },
            convention_failure(listed_ordinary(views(functions@), name@)),
        ),
{
    let results = declared_results(functions);
    proof {
        lemma_declared_results(views(functions@), name@, results@);
    }
    match delegate_convention_message(
        functions.as_slice(),
        site,
        delegate_ty,
        name,
        this_ref,
        property,
        value,
        &results,
    ) {
        Ok(message) => message,
        Err(_) => {
            assert(false);
            None
        },
    }
}

} // verus!
