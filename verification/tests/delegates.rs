//! Delegated properties.

use std::collections::HashMap;

use krusty::libraries::{
    FnKind, FunctionInfo, InlineKind, LibraryCallable, LibraryMember, Visibility,
};
use krusty::model::Modelled;
use krusty::names::qualified;
use krusty::plugins::frontend::Span;
use krusty::resolve::callable_reference_selection::AssignablePairs;
use krusty::resolve::calls::ImplicitReceiverSelection;
use krusty::resolve::delegate_diagnostics::{
    delegate_convention_ambiguity_message_with_candidates, delegate_convention_candidates_failure,
    delegate_convention_diagnostic_candidate, delegate_convention_message,
    render_delegate_convention_failure, DelegateConventionFailure, DelegateConventionSite,
    DelegateDispatchDiagnosticName,
};
use krusty::resolve::delegated_properties::{
    check_delegate_getvalue, convention_candidates, convention_score, delegate_check,
    delegate_operator_absence_message, delegate_property_reference_type, extension_target,
    finish_delegate_operator, is_usable_delegate_convention, member_target,
    record_delegate_setvalue, refine_delegate_receiver_to_bounds, select_delegate_getvalue_attempt,
    select_delegate_operator, stable_callable_declared_shape, ClassifierBounds, ConventionStep,
    DelegateCheck, DelegateEvent, DelegateGetValueOutcome, DelegateGetValueTarget,
    DelegateOperatorFailure, DelegateOperatorSelection, DelegateSetValueOutcome, DelegateStep,
    DelegateTargets, MemberExtensionConvention, MemberExtensionFunctionCandidate,
    MemberExtensionFunctionSelection, OrdinaryConvention, ReceiverFunctionSelection,
    ResolvedConventionMember, StableCallableShape,
};
use krusty::types::Ty;

fn function(kind: FnKind, operator: bool) -> FunctionInfo {
    let owner = qualified("demo/Delegate");
    let mut member = LibraryMember::new(
        "getValue".to_string(),
        vec![Ty::obj("kotlin/Any"), Ty::obj("kotlin/reflect/KProperty")],
        Ty::Int,
        "()I".to_string(),
    );
    member.owner = Some(owner.clone());
    let mut function = FunctionInfo::classifier_member(kind, &owner, member);
    function.flags.operator = operator;
    function
}

fn selected(kind: FnKind) -> ReceiverFunctionSelection {
    ReceiverFunctionSelection::Selected(
        Box::new(function(kind, true)),
        Ty::Int,
        Ty::obj("demo/Delegate"),
    )
}

fn no_member_extension() -> MemberExtensionFunctionSelection {
    MemberExtensionFunctionSelection::Absent(vec![])
}

#[test]
fn a_convention_is_an_operator_without_context() {
    assert!(is_usable_delegate_convention(true, 0));
    assert!(!is_usable_delegate_convention(true, 1));
    assert!(!is_usable_delegate_convention(false, 0));
    assert_eq!(
        delegate_property_reference_type(true),
        Some(Ty::obj("kotlin/reflect/KProperty"))
    );
    assert_eq!(delegate_property_reference_type(false), None);
    let functions = [
        function(FnKind::Member, true),
        function(FnKind::Member, false),
        function(FnKind::Extension, true),
    ];
    let (offered, usable) = convention_candidates(&functions, Some(FnKind::Member));
    assert_eq!((offered.len(), usable.len()), (2, 1));
    let (offered, usable) = convention_candidates(&functions, None);
    assert_eq!((offered.len(), usable.len()), (3, 2));
}

#[test]
fn a_member_is_preferred_to_an_extension() {
    let functions = [
        function(FnKind::Member, true),
        function(FnKind::Extension, true),
    ];
    assert!(matches!(
        select_delegate_operator(
            "getValue",
            &functions,
            selected(FnKind::Member),
            no_member_extension(),
            selected(FnKind::Extension)
        ),
        ConventionStep::Ordinary(found, ty, _) if found.kind == FnKind::Member && ty == Ty::Int
    ));
    assert!(matches!(
        select_delegate_operator(
            "getValue",
            &functions,
            ReceiverFunctionSelection::Absent,
            no_member_extension(),
            selected(FnKind::Extension)
        ),
        ConventionStep::Ordinary(found, ..) if found.kind == FnKind::Extension
    ));
}

#[test]
fn a_seen_candidate_fails_a_required_convention() {
    let functions = [function(FnKind::Member, true)];
    let attempt = |name: &str, functions: &[FunctionInfo]| {
        select_delegate_operator(
            name,
            functions,
            ReceiverFunctionSelection::Absent,
            no_member_extension(),
            ReceiverFunctionSelection::Absent,
        )
    };
    assert!(matches!(
        attempt("setValue", &functions),
        ConventionStep::Settled(DelegateOperatorSelection::Failure(
            DelegateOperatorFailure::InapplicableCandidates { members, .. }
        )) if members.len() == 1
    ));
    assert!(matches!(
        attempt("provideDelegate", &functions),
        ConventionStep::Settled(DelegateOperatorSelection::Absent)
    ));
    assert!(matches!(
        attempt("getValue", &[]),
        ConventionStep::Settled(DelegateOperatorSelection::Absent)
    ));
    assert!(matches!(
        select_delegate_operator(
            "getValue",
            &functions,
            ReceiverFunctionSelection::Ambiguous(vec![
                function(FnKind::Member, true),
                function(FnKind::Member, true)
            ]),
            no_member_extension(),
            ReceiverFunctionSelection::Absent
        ),
        ConventionStep::Settled(DelegateOperatorSelection::Failure(
            DelegateOperatorFailure::AmbiguousOrdinary(candidates)
        )) if candidates.len() == 2
    ));
}

#[test]
fn a_convention_is_scored_by_its_arguments() {
    assert_eq!(
        convention_score(2, &vec![0, 1], &vec![true, true], &vec![Some(3), Some(4)]),
        Some(7)
    );
    assert_eq!(
        convention_score(2, &vec![0, 1], &vec![true, false], &vec![Some(3), Some(4)]),
        None
    );
    assert_eq!(
        convention_score(2, &vec![0, 1], &vec![true, true], &vec![Some(3), None]),
        None
    );
    assert_eq!(
        convention_score(1, &vec![0, 1], &vec![true, true], &vec![Some(3), Some(4)]),
        None
    );
}

#[test]
fn a_stable_callable_shows_its_receiver() {
    let any = Ty::nullable(Ty::obj("kotlin/Any"));
    let owned = StableCallableShape {
        extension_receiver: None,
        owner: Some((qualified("demo/Box"), vec![("T".to_string(), vec![])])),
        parameters: vec![Ty::Int],
        result: Ty::String,
    };
    assert_eq!(
        stable_callable_declared_shape(&owned),
        Some((
            Ty::obj_args("demo/Box", &[Ty::ty_param("T", any)]),
            vec![Ty::Int],
            Ty::String
        ))
    );
    let nowhere = StableCallableShape {
        extension_receiver: None,
        owner: None,
        parameters: vec![],
        result: Ty::String,
    };
    assert_eq!(stable_callable_declared_shape(&nowhere), None);
}

fn called(owner: Option<&str>) -> ResolvedConventionMember {
    ResolvedConventionMember {
        stable_declaration: None,
        external_identity: None,
        external_default_provider: None,
        owner: owner.map(qualified),
        name: "getValue".to_string(),
        physical_name: None,
        params: vec![],
        physical_params: vec![],
        physical_ret: Ty::Int,
        descriptor: "()I".to_string(),
        interface: false,
    }
}

fn target(declared_receiver: Ty, declared_ret: Ty, ret: Ty) -> DelegateGetValueTarget {
    let selection = member_target(
        &Ty::obj("demo/Delegate"),
        ret,
        Ty::obj("demo/Delegate"),
        (declared_receiver, vec![], declared_ret),
        called(None),
        false,
    );
    match selection {
        DelegateOperatorSelection::Selected(target) => *target,
        other => panic!("{other:?}"),
    }
}

fn known() -> OrdinaryConvention {
    OrdinaryConvention {
        stable_declaration: None,
        stable_shape: None,
        semantic_receiver: None,
        semantic_params: vec![Ty::String],
        semantic_ret: Ty::Long,
        callable: None,
        member: Some(called(Some("demo/Base"))),
        owner_is_interface: true,
    }
}

fn step(kind: FnKind) -> ConventionStep {
    ConventionStep::Ordinary(
        Box::new(function(kind, true)),
        Ty::Int,
        Ty::obj("demo/Delegate"),
    )
}

fn declared(selection: DelegateOperatorSelection) -> (Ty, Vec<Ty>, Ty, bool) {
    match selection {
        DelegateOperatorSelection::Selected(target) => match *target {
            DelegateGetValueTarget::Member {
                declared_receiver,
                declared_params,
                declared_ret,
                owner,
                interface,
                ret,
                ..
            } => {
                assert_eq!(owner, qualified("demo/Base"));
                assert_eq!(ret, Ty::Int);
                (declared_receiver, declared_params, declared_ret, interface)
            }
            other => panic!("{other:?}"),
        },
        other => panic!("{other:?}"),
    }
}

#[test]
fn a_selected_member_is_finished_with_its_declared_shape() {
    let delegate_ty = Ty::obj("demo/Delegate");
    assert_eq!(
        declared(finish_delegate_operator(
            &delegate_ty,
            step(FnKind::Member),
            Some(known()),
            None
        )),
        (delegate_ty.clone(), vec![Ty::String], Ty::Long, true)
    );
    let mut on_another = known();
    on_another.semantic_receiver = Some(Ty::obj("demo/Other"));
    assert_eq!(
        declared(finish_delegate_operator(
            &delegate_ty,
            step(FnKind::Member),
            Some(on_another),
            None
        ))
        .0,
        Ty::obj("demo/Other")
    );
    let mut in_module = known();
    in_module.stable_declaration = Some(4);
    in_module.stable_shape = Some(StableCallableShape {
        extension_receiver: None,
        owner: Some((qualified("demo/Box"), vec![])),
        parameters: vec![Ty::Byte],
        result: Ty::Short,
    });
    assert_eq!(
        declared(finish_delegate_operator(
            &delegate_ty,
            step(FnKind::Member),
            Some(in_module),
            None
        )),
        (Ty::obj("demo/Box"), vec![Ty::Byte], Ty::Short, true)
    );
    assert!(matches!(
        finish_delegate_operator(&Ty::Int, step(FnKind::Member), Some(known()), None),
        DelegateOperatorSelection::Absent
    ));
}

#[test]
fn a_selected_extension_is_finished_by_its_callable() {
    let delegate_ty = Ty::obj("demo/Delegate");
    assert!(matches!(
        finish_delegate_operator(
            &delegate_ty,
            step(FnKind::Extension),
            Some(known()),
            None
        ),
        DelegateOperatorSelection::Absent
    ));
    let mut built = known();
    built.stable_declaration = Some(6);
    built.stable_shape = Some(StableCallableShape {
        extension_receiver: Some(delegate_ty.clone()),
        owner: None,
        parameters: vec![],
        result: Ty::Int,
    });
    built.callable = Some(LibraryCallable::library(
        &qualified("demo/Kt"),
        "getValue",
        vec![],
        Ty::Int,
        Ty::Int,
        "()I",
    ));
    match finish_delegate_operator(&delegate_ty, step(FnKind::Extension), Some(built), None) {
        DelegateOperatorSelection::Selected(target) => assert!(matches!(
            *target,
            DelegateGetValueTarget::Extension {
                stable_declaration: Some(6),
                ..
            }
        )),
        other => panic!("{other:?}"),
    }
    assert!(matches!(
        finish_delegate_operator(
            &delegate_ty,
            ConventionStep::Settled(DelegateOperatorSelection::Absent),
            None,
            None
        ),
        DelegateOperatorSelection::Absent
    ));
}

fn candidate(stable_declaration: Option<u32>) -> MemberExtensionFunctionCandidate {
    MemberExtensionFunctionCandidate {
        stable_declaration,
        external_identity: None,
        external_default_provider: None,
        owner: qualified("demo/Scope"),
        physical_name: "getValue".to_string(),
        extension_receiver: Ty::obj("demo/Delegate"),
        dispatch_receiver: ImplicitReceiverSelection {
            context_binding: None,
            singleton: None,
            receiver_depth: 1,
            current: false,
        },
        context_count: 0,
        params: vec![],
        diagnostic_param_names: vec![],
        ret: Ty::Int,
        physical_params: vec![],
        physical_ret: Ty::Int,
        inline: InlineKind::NotInline,
        inline_body_plan: None,
        suspend: false,
        declared_params: vec![Ty::Long],
        declared_ret: None,
        visibility: Visibility::Public,
    }
}

#[test]
fn a_selected_member_extension_is_finished_where_it_is_accessible() {
    let delegate_ty = Ty::obj("demo/Delegate");
    let finish = |stable_declaration: Option<u32>, accessible: bool| {
        finish_delegate_operator(
            &delegate_ty,
            ConventionStep::MemberExtension(Box::new(candidate(stable_declaration))),
            None,
            Some(MemberExtensionConvention {
                accessible,
                interface: true,
                stable_shape: Some(StableCallableShape {
                    extension_receiver: Some(delegate_ty.clone()),
                    owner: None,
                    parameters: vec![Ty::Byte],
                    result: Ty::Int,
                }),
            }),
        )
    };
    let parameters = |selection: DelegateOperatorSelection| match selection {
        DelegateOperatorSelection::Selected(target) => match *target {
            DelegateGetValueTarget::MemberExtension {
                declared_params,
                interface: true,
                ..
            } => declared_params,
            other => panic!("{other:?}"),
        },
        other => panic!("{other:?}"),
    };
    assert_eq!(parameters(finish(None, true)), vec![Ty::Long]);
    assert_eq!(parameters(finish(Some(2), true)), vec![Ty::Byte]);
    assert!(matches!(
        finish(Some(2), false),
        DelegateOperatorSelection::Absent
    ));
}

#[test]
fn a_target_is_constrained_by_its_result() {
    let any = Ty::nullable(Ty::obj("kotlin/Any"));
    let formal = Ty::ty_param("T", any);
    let open = target(
        Ty::obj_args("demo/Delegate", &[formal.clone()]),
        formal,
        Ty::Int,
    );
    assert_eq!(*open.ret(), Ty::Int);
    assert_eq!(open.applied_receiver(), Some(&Ty::obj("demo/Delegate")));
    assert_eq!(
        open.receiver_constrained_by_result(&Ty::String),
        Some(Ty::obj_args("demo/Delegate", &[Ty::String]))
    );
    let fixed = target(Ty::obj("demo/Delegate"), Ty::Int, Ty::Int);
    assert_eq!(fixed.receiver_constrained_by_result(&Ty::String), None);
    assert!(matches!(
        extension_target(None, None),
        DelegateOperatorSelection::Absent
    ));
    let mut callable = LibraryCallable::library(
        &qualified("demo/Kt"),
        "getValue",
        vec![],
        Ty::Long,
        Ty::Long,
        "()J",
    );
    callable.source_receiver = Some(Ty::String);
    match extension_target(Some(callable), Some(4)) {
        DelegateOperatorSelection::Selected(target) => {
            assert_eq!(*target.ret(), Ty::Long);
            assert_eq!(target.applied_receiver(), Some(&Ty::String));
        }
        other => panic!("{other:?}"),
    }
}

#[test]
fn a_receiver_is_brought_within_its_bounds() {
    let classes = vec![ClassifierBounds {
        name: qualified("demo/Delegate"),
        type_params: vec!["T".to_string()],
        type_param_bounds: vec![vec![Ty::obj("kotlin/Any")]],
    }];
    let relation = AssignablePairs {
        pairs: vec![(Ty::String, Ty::obj("kotlin/Any"))],
    };
    assert_eq!(
        refine_delegate_receiver_to_bounds(
            &relation,
            &classes,
            &Ty::obj_args("demo/Delegate", &[Ty::nullable(Ty::String)])
        ),
        Ty::obj_args("demo/Delegate", &[Ty::String])
    );
    assert_eq!(
        refine_delegate_receiver_to_bounds(&relation, &classes, &Ty::Int),
        Ty::Int
    );
}

fn targets() -> DelegateTargets {
    DelegateTargets {
        property_reference_type: None,
        provide: HashMap::new(),
        getvalue: HashMap::new(),
        setvalue: HashMap::new(),
    }
}

fn relation() -> AssignablePairs {
    AssignablePairs { pairs: vec![] }
}

#[test]
fn an_attempt_records_the_convention_it_finds() {
    let mut recorded = targets();
    let reference = delegate_property_reference_type(true);
    let delegate_ty = Ty::obj("demo/Delegate");
    let outcome = select_delegate_getvalue_attempt(
        &mut recorded,
        &relation(),
        &vec![],
        3,
        &delegate_ty,
        &None,
        &None,
        reference,
        DelegateOperatorSelection::Absent,
        DelegateOperatorSelection::Selected(Box::new(target(
            delegate_ty.clone(),
            Ty::Int,
            Ty::Int,
        ))),
        &None,
    );
    assert!(matches!(outcome, DelegateGetValueOutcome::Found(Ty::Int)));
    assert!(recorded.getvalue.contains_key(&3));
    assert!(recorded.provide.is_empty());
    assert_eq!(recorded.stored_type(3, &delegate_ty), delegate_ty);
    assert!(!recorded.record_setvalue(3, DelegateOperatorSelection::Absent));
    assert!(recorded.record_setvalue(
        3,
        DelegateOperatorSelection::Selected(Box::new(target(
            delegate_ty.clone(),
            Ty::Unit,
            Ty::Unit
        )))
    ));
    assert!(recorded.setvalue.contains_key(&3));
}

#[test]
fn an_attempt_without_a_convention_records_nothing() {
    let delegate_ty = Ty::obj("demo/Delegate");
    let attempt = |provide: DelegateOperatorSelection, getvalue: DelegateOperatorSelection, reference: Option<Ty>| {
        let mut recorded = targets();
        let outcome = select_delegate_getvalue_attempt(
            &mut recorded,
            &relation(),
            &vec![],
            3,
            &delegate_ty,
            &None,
            &None,
            reference,
            provide,
            getvalue,
            &None,
        );
        assert!(recorded.getvalue.is_empty() && recorded.provide.is_empty());
        outcome
    };
    let failure =
        || DelegateOperatorSelection::Failure(DelegateOperatorFailure::AmbiguousOrdinary(vec![]));
    let reference = || delegate_property_reference_type(true);
    assert!(matches!(
        attempt(
            DelegateOperatorSelection::Absent,
            DelegateOperatorSelection::Absent,
            reference()
        ),
        DelegateGetValueOutcome::NoConvention(ty) if ty == delegate_ty
    ));
    assert!(matches!(
        attempt(failure(), DelegateOperatorSelection::Absent, reference()),
        DelegateGetValueOutcome::ProvideFailed(_)
    ));
    assert!(matches!(
        attempt(DelegateOperatorSelection::Absent, failure(), reference()),
        DelegateGetValueOutcome::GetValueFailed(_)
    ));
    assert!(matches!(
        attempt(failure(), failure(), None),
        DelegateGetValueOutcome::NoConvention(_)
    ));
}

#[test]
fn a_write_is_looked_for_on_the_kept_value() {
    let delegate_ty = Ty::obj("demo/Provider");
    let kept = Ty::obj("demo/Delegate");
    let mut recorded = targets();
    recorded.record_getvalue(
        3,
        Some(target(delegate_ty.clone(), kept.clone(), kept.clone())),
        target(kept.clone(), Ty::Int, Ty::Int),
    );
    assert!(matches!(
        record_delegate_setvalue(
            &mut recorded,
            3,
            &delegate_ty,
            false,
            DelegateOperatorSelection::Absent
        ),
        DelegateSetValueOutcome::NoConvention(ty) if ty == delegate_ty
    ));
    assert!(matches!(
        record_delegate_setvalue(
            &mut recorded,
            3,
            &delegate_ty,
            true,
            DelegateOperatorSelection::Absent
        ),
        DelegateSetValueOutcome::NoConvention(ty) if ty == kept
    ));
    assert!(matches!(
        record_delegate_setvalue(
            &mut recorded,
            3,
            &delegate_ty,
            true,
            DelegateOperatorSelection::Failure(DelegateOperatorFailure::AmbiguousOrdinary(vec![]))
        ),
        DelegateSetValueOutcome::Failed(ty, DelegateOperatorFailure::AmbiguousOrdinary(_))
            if ty == kept
    ));
    assert!(recorded.setvalue.is_empty());
    assert!(matches!(
        record_delegate_setvalue(
            &mut recorded,
            3,
            &delegate_ty,
            true,
            DelegateOperatorSelection::Selected(Box::new(target(kept, Ty::Unit, Ty::Unit)))
        ),
        DelegateSetValueOutcome::Recorded
    ));
    assert!(recorded.setvalue.contains_key(&3));
}

#[test]
fn a_delegate_is_checked_against_what_is_expected() {
    assert_eq!(
        format!("{:?}", delegate_check(true, true)),
        format!("{:?}", DelegateCheck::Expected)
    );
    assert_eq!(
        format!("{:?}", delegate_check(false, true)),
        format!("{:?}", DelegateCheck::Postponed)
    );
    assert_eq!(
        format!("{:?}", delegate_check(false, false)),
        format!("{:?}", DelegateCheck::Plain)
    );
}

// Complaints.

fn owned_site(is_var: bool) -> DelegateConventionSite {
    DelegateConventionSite {
        by_span: Span::new(0, 1),
        dispatch_receiver: Some(Ty::obj("demo/Owner")),
        extension_receiver: None,
        dispatch_diagnostic_name: Some(DelegateDispatchDiagnosticName::Source(
            "Owner".to_string(),
        )),
        is_var,
    }
}

#[test]
fn a_missing_convention_is_named() {
    let site = owned_site(false);
    let delegate = Ty::obj("demo/Delegate");
    let owner = Ty::obj("demo/Owner");
    assert_eq!(
        render_delegate_convention_failure(
            &site,
            &delegate,
            "getValue",
            &owner,
            None,
            None,
            &DelegateConventionFailure::Missing
        ),
        Some(
            "type 'Delegate' has no method 'getValue(Owner, KProperty1<*, *>)', so it cannot serve as a delegate."
                .to_string()
        )
    );
    let variable = owned_site(true);
    assert_eq!(
        render_delegate_convention_failure(
            &variable,
            &delegate,
            "setValue",
            &owner,
            None,
            Some(&Ty::Int),
            &DelegateConventionFailure::Missing
        ),
        Some(
            "type 'Delegate' has no method 'setValue(Owner, KMutableProperty1<*, *>, Int)', so it cannot serve as a delegate for var (read-write property)."
                .to_string()
        )
    );
    assert_eq!(
        render_delegate_convention_failure(
            &site,
            &Ty::Pending,
            "getValue",
            &owner,
            None,
            None,
            &DelegateConventionFailure::Missing
        ),
        None
    );
    assert_eq!(
        delegate_operator_absence_message(
            &vec![],
            &DelegateConventionSite::local(Span::new(0, 1), false),
            &delegate,
            "getValue",
            &Ty::Null,
            None,
            None
        ),
        render_delegate_convention_failure(
            &DelegateConventionSite::local(Span::new(0, 1), false),
            &delegate,
            "getValue",
            &Ty::Null,
            None,
            None,
            &DelegateConventionFailure::Missing
        )
    );
}

#[test]
fn inapplicable_conventions_are_listed() {
    let candidate = delegate_convention_diagnostic_candidate(
        "getValue",
        Some(&Ty::String),
        &[],
        &[Ty::Int],
        &vec!["thisRef".to_string()],
        &Ty::Long,
    );
    assert_eq!(
        candidate.rendered,
        "fun String.getValue(thisRef: Int): Long"
    );
    let failure = delegate_convention_candidates_failure(&[candidate]);
    assert_eq!(
        render_delegate_convention_failure(
            &owned_site(false),
            &Ty::obj("demo/Delegate"),
            "getValue",
            &Ty::obj("demo/Owner"),
            None,
            None,
            &failure
        ),
        Some(
            "property delegate must have a 'getValue(Owner, KProperty1<Owner, Long>)' method. None of the following functions is applicable:\nfun String.getValue(thisRef: Int): Long"
                .to_string()
        )
    );
}

#[test]
fn ambiguous_conventions_are_listed() {
    let candidate = |result: Ty| {
        delegate_convention_diagnostic_candidate(
            "getValue",
            None,
            &[Ty::Char],
            &[Ty::Int],
            &vec!["scope".to_string(), "thisRef".to_string()],
            &result,
        )
    };
    assert_eq!(
        delegate_convention_ambiguity_message_with_candidates(
            &DelegateConventionSite::local(Span::new(0, 1), false),
            &Ty::obj("demo/Delegate"),
            "getValue",
            &Ty::Null,
            None,
            None,
            &[candidate(Ty::Long), candidate(Ty::Short)]
        ),
        Some(
            "overload resolution ambiguity on method 'getValue(Nothing?, KProperty0<*>)':\ncontext(scope: Char) fun getValue(thisRef: Int): Long\ncontext(scope: Char) fun getValue(thisRef: Int): Short"
                .to_string()
        )
    );
}

#[test]
fn a_listing_stops_at_the_first_unknown_result() {
    let functions = [
        function(FnKind::Member, true),
        function(FnKind::Member, true),
    ];
    let site = owned_site(false);
    let delegate = Ty::obj("demo/Delegate");
    let owner = Ty::obj("demo/Owner");
    assert_eq!(
        delegate_convention_message(
            &functions,
            &site,
            &delegate,
            "getValue",
            &owner,
            None,
            None,
            &vec![Ok(Ty::Int), Err(9)]
        ),
        Err(9)
    );
    let copy = functions[0].duplicate();
    assert!(delegate_convention_message(
        &[copy],
        &site,
        &delegate,
        "getValue",
        &owner,
        None,
        None,
        &vec![Ok(Ty::Int)]
    )
    .unwrap()
    .unwrap()
    .contains("None of the following functions is applicable"));
}

#[test]
fn a_delegate_is_checked_until_its_convention_is_settled() {
    let delegate_ty = Ty::obj("demo/Delegate");
    let applied = Ty::obj_args("demo/Delegate", &[Ty::Int]);
    assert!(matches!(
        check_delegate_getvalue(true, DelegateEvent::Begun),
        DelegateStep::Check(DelegateCheck::Postponed, None)
    ));
    assert!(matches!(
        check_delegate_getvalue(false, DelegateEvent::Begun),
        DelegateStep::Check(DelegateCheck::Plain, None)
    ));
    let attempt = |delegate_ty: &Ty, expectation: Option<Ty>| {
        let found = member_target(
            delegate_ty,
            Ty::Int,
            applied.clone(),
            (applied.clone(), vec![], Ty::Int),
            called(None),
            false,
        );
        select_delegate_getvalue_attempt(
            &mut targets(),
            &relation(),
            &vec![],
            3,
            delegate_ty,
            &expectation,
            &None,
            delegate_property_reference_type(true),
            DelegateOperatorSelection::Absent,
            found,
            &None,
        )
    };
    let again = check_delegate_getvalue(
        false,
        DelegateEvent::Attempted(delegate_ty.clone(), attempt(&delegate_ty, None)),
    );
    let expectation = match again {
        DelegateStep::Check(DelegateCheck::Expected, Some(expected)) => expected,
        other => panic!("{other:?}"),
    };
    assert_eq!(expectation, applied);
    // Whether or not the check gave the delegate the type that was asked of it, it ends there.
    for checked in [applied.clone(), delegate_ty] {
        let outcome = attempt(&checked, Some(expectation.clone()));
        match check_delegate_getvalue(false, DelegateEvent::Attempted(checked.clone(), outcome)) {
            DelegateStep::Done(ty, Some(Ty::Int)) => assert_eq!(ty, checked),
            other => panic!("{other:?}"),
        }
    }
    assert!(matches!(
        check_delegate_getvalue(
            true,
            DelegateEvent::Attempted(
                Ty::String,
                DelegateGetValueOutcome::NoConvention(Ty::String)
            )
        ),
        DelegateStep::Done(Ty::String, None)
    ));
}
