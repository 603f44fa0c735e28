//! Decisions of body resolution.

use std::collections::{HashMap, HashSet};

use krusty::ast::{BinOp, Expr, ExprId, File, StmtId};
use krusty::declarations::ResolvedAnnotation;
use krusty::fir::{ResolvedModuleIndex, ResolvedSignature};
use krusty::libraries::{Callables, FnKind, FunctionInfo, LibraryCallable, LibraryMember, PropKind, PropertyInfo, Visibility};
use krusty::model::Modelled;
use krusty::names::qualified;
use krusty::plugins::frontend::Span;
use krusty::resolve::annotation_applications::{
    check_annotation_application, check_bound_annotation_application, AnnotationApplication,
};
use krusty::resolve::annotation_legacy_bridge::{
    classifier_annotations, ReadableSources, SourceClassAnnotations,
};
use krusty::resolve::call_diagnostics::{
    owned_member_failure, rejected_call_owner, rejected_candidate_argument_shape,
    rejected_contenders, CallArguments, OwnedFailure, RejectedCallOwner,
};
use krusty::resolve::callable_reference_selection::AssignablePairs;
use krusty::resolve::calls::{ResolvedCall, SelectedCallable};
use krusty::resolve::checked_annotation_publication::{
    publish_checked_classifier_annotations, publishing_classes, CheckedAnnotation,
    ClassAnnotations, DeclaredClass, PublicationComplaint, SourceAnnotations,
};
use krusty::resolve::checker_symbol_queries::{
    stable_classifier_callable_signatures, stable_receiver_callables,
    stable_single_top_level_signature, AnsweredQuery, CallableShapeCache, ListedCallables,
    ListedSignatures, ReceiverCallableCache,
};
use krusty::resolve::classifier_associated::{
    associated_callable_ref, inaccessible_associated_property, nearest_declarations,
    qualified_associated_call, select_scoped_associated_property, static_scope_call,
    static_scope_classifiers, write_receiverless_property, AssociatedCall, AssociatedReference,
    CandidateOutcome, QualifiedCall, ReceiverlessWrite, TopLevelPropertySelection,
};
use krusty::resolve::collection_transform_bridge::{
    declaration_zero_arg_operator, record_declaration_iterator_protocol, OperatorSelection,
};
use krusty::resolve::compound_assignments::{
    argument_expectation, assign_op_name, assignment_operands, try_in_place_assignment_operands,
};
use krusty::resolve::conditional_branch::{
    branch_value_expression, join_types, try_branch_join, type_is_lexically_fixed, usable_expected,
};
use krusty::resolve::context_sensitive_resolution::{
    expected_nested_classifier, InheritedNestedClassifier,
};
use krusty::resolve::diagnostic_selection::{
    unresolved_member_diagnostic, unresolved_member_message,
};
use krusty::resolve::for_loop_iteration::{
    iterator_protocol_target, last_element_arguments, progression_class, progression_classes,
    progression_element, record_iterator_protocol, unsigned_loop_compare, OperatorCall,
    ProgressionClass, ProgressionMember, ProgressionOffer, ProgressionPlans, RuntimeCandidate,
    RuntimeFunction, SelectedOperator, SelectedOperators, TypeInfo, TypeTable,
};
use krusty::resolve::function_type_parameters::{
    is_some_function_type, publish_function_type_parameters, CallableHeader, CallableSelection,
    CallableShape,
};
use krusty::resolve::import_scopes::declaration_header;
use krusty::symbols::{ResolvedSymbols, SymbolEntry, SymbolTable};
use krusty::types::Ty;

fn file(exprs: Vec<Expr>) -> File {
    File {
        exprs,
        stmts: vec![],
        declarations: vec![],
        decls: vec![],
        anon_fun_lambdas: vec![],
        anon_fun_context_count: HashMap::new(),
        local_class_decls: HashMap::new(),
    }
}

fn function(kind: FnKind, params: Vec<Ty>) -> FunctionInfo {
    let owner = qualified("demo/Owner");
    let mut member = LibraryMember::new("call".to_string(), params, Ty::Int, "()I".to_string());
    member.owner = Some(owner.clone());
    FunctionInfo::classifier_member(kind, &owner, member)
}

fn property(mutable: bool, rank: usize) -> PropertyInfo {
    let owner = qualified("demo/Owner");
    let getter = LibraryCallable::library(&owner, "getLimit", vec![], Ty::Int, Ty::Int, "()I");
    let setter = if mutable {
        Some(LibraryCallable::library(
            &owner,
            "setLimit",
            vec![Ty::Int],
            Ty::Unit,
            Ty::Unit,
            "(I)V",
        ))
    } else {
        None
    };
    PropertyInfo {
        name: "limit".to_string(),
        kind: PropKind::Member,
        receiver: None,
        ty: Ty::Int,
        context_count: 0,
        getter,
        setter,
        setter_visibility: Visibility::Public,
        is_const: false,
        compile_time_constant: None,
        visibility: Visibility::Private,
        owner,
        receiver_rank: rank,
    }
}

// Conditional branches.

#[test]
fn a_branch_is_worth_its_trailing_expression() {
    let file = file(vec![
        Expr::IntLit(1),
        Expr::Block {
            stmts: vec![],
            trailing: Some(ExprId(0)),
        },
        Expr::Block {
            stmts: vec![],
            trailing: Some(ExprId(1)),
        },
        Expr::Block {
            stmts: vec![],
            trailing: None,
        },
    ]);
    assert_eq!(branch_value_expression(&file, ExprId(2)), ExprId(0));
    assert_eq!(branch_value_expression(&file, ExprId(3)), ExprId(3));
}

#[test]
fn an_expected_type_joins_branches_that_both_satisfy_it() {
    let relation = AssignablePairs {
        pairs: vec![
            (Ty::Int, Ty::obj("kotlin/Comparable")),
            (Ty::String, Ty::obj("kotlin/Comparable")),
        ],
    };
    let expected = Ty::obj("kotlin/Comparable");
    assert_eq!(
        join_types(
            &relation,
            &vec![],
            Some(&expected),
            &Ty::Int,
            &Ty::String,
            Some(Ty::obj("kotlin/Any"))
        ),
        Some(expected.clone())
    );
    assert_eq!(
        join_types(
            &relation,
            &vec![],
            Some(&expected),
            &Ty::Int,
            &Ty::Nothing,
            Some(Ty::Int)
        ),
        Some(Ty::Int)
    );
    assert_eq!(
        join_types(&relation, &vec![], None, &Ty::Int, &Ty::String, None),
        None
    );
}

#[test]
fn only_a_fixed_type_constrains_a_branch() {
    let parameter = Ty::ty_param("T", Ty::obj("kotlin/Any"));
    let scope = vec!["T".to_string()];
    assert!(type_is_lexically_fixed(&parameter, &scope));
    assert!(!type_is_lexically_fixed(&parameter, &vec![]));
    assert_eq!(usable_expected(&scope, Some(&parameter)), Some(&parameter));
    assert_eq!(usable_expected(&scope, Some(&Ty::Pending)), None);
    assert_eq!(usable_expected(&scope, Some(&Ty::Error)), None);
}

#[test]
fn the_branches_of_a_try_are_joined() {
    let list = Ty::obj_args("kotlin/collections/List", &[Ty::Int]);
    let empty = Ty::obj_args("kotlin/collections/List", &[Ty::Nothing]);
    assert_eq!(
        try_branch_join(true, &list, &empty, None),
        Ty::obj("kotlin/collections/List")
    );
    assert_eq!(try_branch_join(true, &Ty::Nothing, &list, None), list);
    assert_eq!(
        try_branch_join(true, &Ty::Int, &Ty::String, Some(Ty::obj("kotlin/Any"))),
        Ty::Unit
    );
    assert_eq!(
        try_branch_join(false, &Ty::Int, &Ty::String, Some(Ty::obj("kotlin/Any"))),
        Ty::obj("kotlin/Any")
    );
    assert_eq!(try_branch_join(false, &Ty::Int, &Ty::String, None), Ty::Unit);
}

// Complaints about members that were not found.

#[test]
fn an_unresolved_member_names_its_receiver() {
    assert_eq!(
        unresolved_member_message("x", &Ty::String, false),
        "unresolved reference 'x' on receiver of type 'String'."
    );
    assert_eq!(
        unresolved_member_message("x", &Ty::Null, false),
        "unresolved reference 'x' on receiver of type 'Nothing?'."
    );
    assert_eq!(
        unresolved_member_message("x", &Ty::PlatformNullable(Box::new(Ty::String)), false),
        "unresolved reference 'x' on receiver of type 'String'."
    );
    for silent in [
        Ty::Error,
        Ty::Pending,
        Ty::ty_param("T", Ty::obj("kotlin/Any")),
        Ty::nullable(Ty::ty_param("T", Ty::obj("kotlin/Any"))),
    ] {
        assert_eq!(
            unresolved_member_message("x", &silent, false),
            "unresolved reference 'x'."
        );
    }
    assert_eq!(
        unresolved_member_message("x", &Ty::String, true),
        "unresolved reference 'x'."
    );
    assert_eq!(
        unresolved_member_diagnostic(true, "x", &Ty::String, false),
        "unresolved reference 'x'."
    );
}

// Loops.

fn member(ty: Ty) -> Option<ProgressionMember> {
    Some(ProgressionMember { property: 7, ty })
}

fn runtime(result: Ty) -> RuntimeFunction {
    RuntimeFunction {
        function: 3,
        parameters: vec![],
        result,
    }
}

fn nothing_offered() -> ProgressionOffer {
    ProgressionOffer {
        first: None,
        last: None,
        step: None,
        helper: None,
        compare: None,
    }
}

#[test]
fn a_progression_is_planned_once() {
    let range = Ty::obj("kotlin/ranges/IntRange");
    let mut plans = ProgressionPlans::new();
    plans.record_progression_plan(
        &Ty::nullable(range.clone()),
        ProgressionOffer {
            first: member(Ty::Int),
            last: member(Ty::Int),
            step: member(Ty::Int),
            helper: Some(runtime(Ty::Int)),
            compare: None,
        },
    );
    plans.record_progression_plan(
        &range,
        ProgressionOffer {
            first: member(Ty::Long),
            last: member(Ty::Long),
            step: member(Ty::Long),
            helper: None,
            compare: None,
        },
    );
    let info = TypeInfo {
        progression_plans: plans,
    };
    let plan = info.progression_plan(&range).unwrap();
    assert_eq!(plan.class, ProgressionClass::IntRange);
    assert_eq!(plan.first.ty, Ty::Int);
    assert_eq!(plan.compare, None);
    assert_eq!(
        info.progression_last_element(&range),
        Some(&runtime(Ty::Int))
    );
    assert!(info.progression_plan(&Ty::obj("demo/Range")).is_none());
}

#[test]
fn the_known_progressions_are_each_looked_at() {
    let classes = progression_classes();
    assert_eq!(classes.len(), 10);
    for (place, class) in classes.iter().enumerate() {
        assert!(progression_class(class).is_some());
        assert!(!classes[..place].contains(class));
    }
    let place = |class: &str| {
        classes
            .iter()
            .position(|known| *known == qualified(class))
            .unwrap()
    };
    let mut offers: Vec<ProgressionOffer> = classes.iter().map(|_| nothing_offered()).collect();
    offers[place("kotlin/ranges/CharProgression")] = ProgressionOffer {
        first: member(Ty::Char),
        last: member(Ty::Char),
        step: member(Ty::Int),
        helper: Some(runtime(Ty::Int)),
        compare: None,
    };
    // A helper that does not return what is counted is not recorded.
    offers[place("kotlin/ranges/LongRange")] = ProgressionOffer {
        first: member(Ty::Long),
        last: member(Ty::Long),
        step: member(Ty::Long),
        helper: Some(runtime(Ty::Int)),
        compare: None,
    };
    let mut plans = ProgressionPlans::new();
    plans.record_progression_plans(offers);
    let chars = Ty::obj("kotlin/ranges/CharProgression");
    let plan = plans.plan(&chars).unwrap();
    assert_eq!(
        plans.last_element(&chars).unwrap().result,
        *progression_element(&plan.first.ty, &plan.step.ty)
    );
    let longs = Ty::obj("kotlin/ranges/LongRange");
    assert!(plans.plan(&longs).is_some());
    assert!(plans.last_element(&longs).is_none());
    assert!(plans.plan(&Ty::obj("kotlin/ranges/IntRange")).is_none());
}

#[test]
fn an_unsigned_progression_needs_its_comparison() {
    let range = Ty::obj("kotlin/ranges/UIntRange");
    let offer = |compare: Option<RuntimeFunction>| ProgressionOffer {
        first: member(Ty::UInt),
        last: member(Ty::UInt),
        step: member(Ty::Int),
        helper: Some(runtime(Ty::Int)),
        compare,
    };
    let mut plans = ProgressionPlans::new();
    plans.record_progression_plan(&range, offer(None));
    assert!(plans.plan(&range).is_none());
    assert!(plans.last_element(&range).is_none());
    plans.record_progression_plan(&range, offer(Some(runtime(Ty::Int))));
    assert_eq!(
        plans.plan(&range).unwrap().compare,
        Some(runtime(Ty::Int))
    );
}

#[test]
fn a_char_progression_counts_its_steps() {
    assert_eq!(*progression_element(&Ty::Char, &Ty::Int), Ty::Int);
    assert_eq!(*progression_element(&Ty::Long, &Ty::Long), Ty::Long);
    assert_eq!(
        last_element_arguments(&Ty::Int, &Ty::Int),
        vec![Ty::Int, Ty::Int, Ty::Int]
    );
    assert_eq!(
        progression_class(&qualified("kotlin/ranges/ULongProgression")),
        Some(ProgressionClass::ULongProgression)
    );
    assert_eq!(progression_class(&qualified("demo/IntRange")), None);
}

fn comparison(identity: Option<u32>, carrier: Option<Ty>) -> RuntimeCandidate {
    RuntimeCandidate {
        external_identity: identity,
        parameters: vec![Ty::Int, Ty::Int],
        result: Ty::Int,
        unsigned_carrier: carrier,
    }
}

#[test]
fn an_unsigned_comparison_must_be_the_only_one() {
    let one = vec![
        comparison(Some(1), None),
        comparison(Some(2), Some(Ty::Int)),
        comparison(Some(3), Some(Ty::Long)),
    ];
    assert_eq!(
        unsigned_loop_compare(&one, Some(&Ty::Int)).unwrap().function,
        2
    );
    assert!(unsigned_loop_compare(&one, None).is_none());
    let two = vec![
        comparison(Some(1), Some(Ty::Int)),
        comparison(Some(2), Some(Ty::Int)),
    ];
    assert!(unsigned_loop_compare(&two, Some(&Ty::Int)).is_none());
    let unnamed = vec![comparison(None, Some(Ty::Int))];
    assert!(unsigned_loop_compare(&unnamed, Some(&Ty::Int)).is_none());
}

fn operator(receiver: &str, name: &str, callable: u32, kind: FnKind, ret: Ty) -> SelectedOperator {
    SelectedOperator {
        receiver: Ty::obj(receiver),
        name: name.to_string(),
        call: Ok(Some(OperatorCall {
            callable,
            kind,
            ret,
        })),
    }
}

fn iteration(has_next: Ty) -> SelectedOperators {
    SelectedOperators {
        operators: vec![
            operator(
                "demo/Many",
                "iterator",
                21,
                FnKind::Extension,
                Ty::obj("demo/Steps"),
            ),
            operator("demo/Steps", "hasNext", 22, FnKind::Member, has_next),
            operator("demo/Steps", "next", 23, FnKind::Member, Ty::Long),
        ],
    }
}

#[test]
fn the_iterator_protocol_gives_the_element_type() {
    let iterable = Ty::obj("demo/Many");
    let mut protocols = HashMap::new();
    assert_eq!(
        record_iterator_protocol(
            &iteration(Ty::Boolean),
            &mut protocols,
            ExprId(4),
            &iterable,
            true
        ),
        Ok(Some(Ty::Long))
    );
    let recorded = protocols.get(&4).unwrap();
    assert_eq!(recorded.iter_ty, Ty::obj("demo/Steps"));
    assert_eq!(recorded.elem_ty, Ty::Long);
    assert_eq!(
        (
            recorded.iterator.callable,
            recorded.has_next.callable,
            recorded.next.callable
        ),
        (21, 22, 23)
    );
    assert_eq!(recorded.iterator.kind, FnKind::Extension);
    assert_eq!(recorded.next.kind, FnKind::Member);
    assert_eq!(recorded.has_next.ret, Ty::Boolean);
    assert_eq!(
        record_iterator_protocol(
            &iteration(Ty::Int),
            &mut protocols,
            ExprId(5),
            &iterable,
            true
        ),
        Err(Some(
            "the 'iterator().hasNext()' function of the loop range must return 'Boolean', but returns 'Int'."
                .to_string()
        ))
    );
    assert!(protocols.get(&5).is_none());
    assert!(matches!(
        iterator_protocol_target(&iteration(Ty::Int), &iterable, false),
        Err(None)
    ));
    assert!(matches!(
        iterator_protocol_target(&iteration(Ty::Boolean), &Ty::Int, false),
        Ok(None)
    ));
}

#[test]
fn a_transform_without_a_protocol_has_no_element_type() {
    let mut protocols = HashMap::new();
    let iterable = Ty::obj("demo/Many");
    assert_eq!(
        record_declaration_iterator_protocol(
            &iteration(Ty::Int),
            &mut protocols,
            ExprId(1),
            &iterable
        ),
        None
    );
    assert_eq!(
        record_declaration_iterator_protocol(
            &iteration(Ty::Boolean),
            &mut protocols,
            ExprId(1),
            &iterable
        ),
        Some(Ty::Long)
    );
}

fn selected(operator: bool) -> OperatorSelection {
    OperatorSelection::Selected {
        params: vec![],
        context_count: 0,
        operator,
        ret: Ty::Int,
    }
}

#[test]
fn a_member_hides_the_extensions() {
    assert_eq!(
        declaration_zero_arg_operator(selected(true), OperatorSelection::Absent),
        Some((FnKind::Member, Ty::Int))
    );
    assert_eq!(
        declaration_zero_arg_operator(OperatorSelection::Absent, selected(true)),
        Some((FnKind::Extension, Ty::Int))
    );
    assert_eq!(
        declaration_zero_arg_operator(selected(false), selected(true)),
        None
    );
    assert_eq!(
        declaration_zero_arg_operator(OperatorSelection::Ambiguous, selected(true)),
        None
    );
}

// Augmented assignments.

fn member_call() -> ResolvedCall {
    ResolvedCall::Member(SelectedCallable {
        generic_sig: None,
        intrinsic: None,
    })
}

#[test]
fn an_in_place_convention_replaces_an_assignment() {
    assert_eq!(assign_op_name(BinOp::Rem), Some("remAssign"));
    assert_eq!(assign_op_name(BinOp::Lt), None);
    let mut targets = HashMap::new();
    let receiver = Ty::obj("demo/Bag");
    let mut attempt = |operation: BinOp, receiver: &Ty, chosen: Option<(Ty, ResolvedCall)>| {
        let handled = try_in_place_assignment_operands(
            &mut targets,
            StmtId(9),
            operation,
            receiver,
            chosen,
        );
        (handled, targets.remove(&9).is_some())
    };
    assert_eq!(
        attempt(BinOp::Add, &receiver, Some((Ty::Unit, member_call()))),
        (true, true)
    );
    assert_eq!(
        attempt(BinOp::Add, &receiver, Some((Ty::Error, member_call()))),
        (true, false)
    );
    assert_eq!(
        attempt(BinOp::Add, &receiver, Some((Ty::Int, member_call()))),
        (false, false)
    );
    assert_eq!(
        attempt(BinOp::Lt, &receiver, Some((Ty::Unit, member_call()))),
        (false, false)
    );
    assert_eq!(
        attempt(BinOp::Add, &Ty::Error, Some((Ty::Unit, member_call()))),
        (false, false)
    );
    assert_eq!(attempt(BinOp::Add, &receiver, None), (false, false));
}

#[test]
fn a_postponed_operand_is_checked_against_the_parameter() {
    let file = file(vec![
        Expr::IntLit(1),
        Expr::Lambda {
            params: vec![],
            body: ExprId(0),
        },
        Expr::Binary {
            op: BinOp::Add,
            lhs: ExprId(0),
            rhs: ExprId(1),
        },
    ]);
    assert_eq!(
        assignment_operands(&file, ExprId(2)),
        Some((BinOp::Add, ExprId(0), ExprId(1)))
    );
    assert_eq!(assignment_operands(&file, ExprId(0)), None);
    let parameter = Ty::Int;
    assert_eq!(
        argument_expectation(&file, ExprId(1), Some(&parameter), false),
        Some(&parameter)
    );
    assert_eq!(
        argument_expectation(&file, ExprId(0), Some(&parameter), false),
        None
    );
}

// Annotations.

fn resolved(name: &str) -> ResolvedAnnotation {
    ResolvedAnnotation {
        annotation: qualified(name),
        arguments: vec![],
    }
}

fn application() -> AnnotationApplication {
    AnnotationApplication {
        name: "Marked".to_string(),
        span: Span::new(1, 2),
        argument_syntax: vec![true],
        restricted_pass: false,
        common_source: true,
        optional_expectation: false,
        usage_suppressed: false,
        has_shape: true,
        arguments_accepted: true,
        folded: Some(resolved("demo/Marked")),
    }
}

#[test]
fn an_annotation_is_kept_or_complained_of() {
    let mut checked = vec![];
    assert_eq!(
        check_bound_annotation_application(&mut checked, application()),
        None
    );
    assert_eq!(checked.len(), 1);
    let mut optional = application();
    optional.common_source = false;
    optional.optional_expectation = true;
    assert_eq!(
        check_bound_annotation_application(&mut checked, optional),
        Some("unresolved reference 'Marked'.".to_string())
    );
    let mut shapeless = application();
    shapeless.has_shape = false;
    assert_eq!(
        check_bound_annotation_application(&mut checked, shapeless),
        Some("resolved annotation has no semantic element declaration".to_string())
    );
    let mut unfolded = application();
    unfolded.folded = None;
    assert_eq!(
        check_bound_annotation_application(&mut checked, unfolded),
        Some("annotation argument is not a supported compile-time constant".to_string())
    );
    let mut refused = application();
    refused.arguments_accepted = false;
    assert_eq!(
        check_bound_annotation_application(&mut checked, refused),
        None
    );
    let mut released = application();
    released.argument_syntax = vec![false];
    released.restricted_pass = true;
    assert_eq!(
        check_bound_annotation_application(&mut checked, released),
        None
    );
    assert_eq!(checked.len(), 1);
}

#[test]
fn an_annotation_that_resolves_to_no_classifier_is_not_checked() {
    let mut checked = vec![];
    let mut shapeless = application();
    shapeless.has_shape = false;
    assert_eq!(
        check_annotation_application(&mut checked, &Ty::Error, shapeless),
        None
    );
    assert!(checked.is_empty());
    let mut shapeless = application();
    shapeless.has_shape = false;
    let marked = Ty::obj("demo/Marked");
    assert!(check_annotation_application(&mut checked, &marked, shapeless).is_some());
    assert_eq!(
        check_annotation_application(&mut checked, &marked, application()),
        None
    );
    assert_eq!(checked.len(), 1);
}

#[test]
fn a_class_shows_the_annotations_that_resolve() {
    let class = |source_file: u32| SourceClassAnnotations {
        classifier: qualified("demo/Class"),
        source_file,
        declared: Some(vec![Some(qualified("demo/A")), None, Some(qualified("demo/B"))]),
        active: None,
    };
    let sources = ReadableSources {
        file_index: 0,
        source_files: Some(2),
        active_only: false,
    };
    let found = classifier_annotations(&sources, &vec![class(0), class(1), class(5)]);
    assert_eq!(found.len(), 2);
    assert_eq!(
        found[0].annotations,
        vec![qualified("demo/A"), qualified("demo/B")]
    );
    let active = ReadableSources {
        file_index: 0,
        source_files: Some(2),
        active_only: true,
    };
    assert!(classifier_annotations(&active, &vec![class(0), class(1)]).is_empty());
}

fn annotated(occurrence: &str, published: &str) -> ClassAnnotations {
    ClassAnnotations {
        stable: 4,
        span: Span::new(30, 40),
        annotations: vec![Span::new(1, 2)],
        arguments: vec![vec![]],
        occurrences: vec![Some(qualified(occurrence))],
        published: vec![qualified(published)],
        complained: false,
    }
}

fn source_annotations(class: ClassAnnotations, span: Span) -> SourceAnnotations {
    SourceAnnotations {
        unbound: None,
        classes: vec![class],
        checked: vec![CheckedAnnotation {
            span,
            annotation: resolved("demo/Marked"),
        }],
    }
}

#[test]
fn checked_annotations_are_published_as_a_whole() {
    let mut index = HashMap::new();
    let whole = source_annotations(annotated("demo/Marked", "demo/Marked"), Span::new(1, 2));
    assert!(
        publish_checked_classifier_annotations(&mut index, &vec![whole], false, false).is_empty()
    );
    assert_eq!(
        index.get(&4).unwrap().annotations[0].annotation,
        qualified("demo/Marked")
    );

    let partial = |complained: bool| {
        let mut class = annotated("demo/Marked", "demo/Marked");
        class.complained = complained;
        source_annotations(class, Span::new(7, 8))
    };
    let mut empty = HashMap::new();
    assert_eq!(
        publish_checked_classifier_annotations(&mut empty, &vec![partial(false)], false, true),
        vec![
            PublicationComplaint::Incomplete {
                source: 0,
                span: Span::new(30, 40)
            },
            PublicationComplaint::Remaining
        ]
    );
    assert!(publish_checked_classifier_annotations(
        &mut empty,
        &vec![partial(true)],
        false,
        false
    )
    .is_empty());
    assert!(empty.is_empty());

    let unbound = source_annotations(annotated("demo/Marked", "demo/Other"), Span::new(1, 2));
    assert_eq!(
        publish_checked_classifier_annotations(&mut empty, &vec![unbound], false, true),
        vec![PublicationComplaint::Unbound {
            source: 0,
            span: Span::new(30, 40)
        }]
    );
}

#[test]
fn a_class_is_judged_by_what_was_wrong_before_it() {
    let class = |place: u32, complained: bool| {
        let mut class = annotated("demo/Marked", "demo/Marked");
        class.stable = place;
        class.span = Span::new(place, place + 1);
        class.complained = complained;
        class
    };
    let told = |classes: Vec<ClassAnnotations>| {
        let source = SourceAnnotations {
            unbound: None,
            classes,
            checked: vec![],
        };
        publish_checked_classifier_annotations(&mut HashMap::new(), &vec![source], false, false)
    };
    let incomplete = |place: u32| {
        vec![PublicationComplaint::Incomplete {
            source: 0,
            span: Span::new(place, place + 1),
        }]
    };
    // A complaint about a later class takes nothing back, and only the first incomplete class is
    // told.
    assert_eq!(told(vec![class(50, false), class(60, true)]), incomplete(50));
    assert_eq!(told(vec![class(50, false), class(60, false)]), incomplete(50));
    assert!(told(vec![class(50, true), class(60, false)]).is_empty());
    // A class without annotations is not checked.
    let mut plain = class(50, true);
    plain.annotations = vec![];
    plain.arguments = vec![];
    plain.occurrences = vec![];
    plain.published = vec![];
    assert_eq!(told(vec![plain, class(60, false)]), incomplete(60));
}

#[test]
fn a_source_that_does_not_bind_ends_the_publication() {
    let mut lost = source_annotations(annotated("demo/Marked", "demo/Marked"), Span::new(1, 2));
    lost.unbound = Some("Missing".to_string());
    let whole = source_annotations(annotated("demo/Marked", "demo/Marked"), Span::new(1, 2));
    let mut index = HashMap::new();
    let complaints =
        publish_checked_classifier_annotations(&mut index, &vec![lost, whole], false, true);
    assert_eq!(
        complaints,
        vec![PublicationComplaint::Inventory {
            source: 0,
            error: "Missing".to_string()
        }]
    );
    assert!(index.is_empty());
    assert_eq!(
        complaints[0].message(),
        "internal error: classifier annotation source inventory did not bind: Missing"
    );
    assert_eq!(complaints[0].position(), (0, Span::new(0, 0)));
    let unbound = PublicationComplaint::Unbound {
        source: 2,
        span: Span::new(3, 4),
    };
    assert_eq!(
        unbound.message(),
        "internal error: stable classifier annotation occurrences do not match the finalized declaration header"
    );
    assert_eq!(unbound.position(), (2, Span::new(3, 4)));
    let incomplete = PublicationComplaint::Incomplete {
        source: 2,
        span: Span::new(3, 4),
    };
    assert_eq!(
        incomplete.message(),
        "internal error: checked classifier annotations were not fully published"
    );
    assert_eq!(incomplete.position(), (2, Span::new(3, 4)));
    assert_eq!(
        PublicationComplaint::Remaining.message(),
        "internal error: classifier annotation occurrences remained after stable publication"
    );
    assert_eq!(
        PublicationComplaint::Remaining.position(),
        (0, Span::new(0, 0))
    );
}

#[test]
fn a_local_class_publishes_no_annotations() {
    let class = |local: bool, stable: Option<u32>, has_header: bool| DeclaredClass {
        local,
        stable,
        has_header,
        span: Span::new(1, 2),
        annotations: vec![],
        arguments: vec![],
        occurrences: vec![],
        published: vec![],
        complained: false,
    };
    let found = publishing_classes(vec![
        class(true, Some(1), true),
        class(false, Some(2), true),
        class(false, None, true),
        class(false, Some(3), false),
        class(false, Some(4), true),
    ]);
    assert_eq!(
        found.iter().map(|class| class.stable).collect::<Vec<_>>(),
        vec![2, 4]
    );
}

// Rejected calls.

#[test]
fn arguments_map_to_the_parameters_of_a_candidate() {
    let mut candidate = function(FnKind::Member, vec![Ty::Int, Ty::String]);
    candidate.call_sig.param_names = vec!["count".to_string(), "text".to_string()];
    let named = CallArguments {
        count: 2,
        names: Some(vec![Some("text".to_string()), None]),
        trailing_lambda: false,
    };
    assert_eq!(
        rejected_candidate_argument_shape(&candidate, &named),
        vec![Ty::String, Ty::String]
    );
    let trailing = CallArguments {
        count: 1,
        names: None,
        trailing_lambda: true,
    };
    assert_eq!(
        rejected_candidate_argument_shape(&candidate, &trailing),
        vec![Ty::String]
    );
    let many = CallArguments {
        count: 3,
        names: None,
        trailing_lambda: false,
    };
    assert_eq!(
        rejected_candidate_argument_shape(&candidate, &many),
        vec![Ty::Int, Ty::String]
    );
    candidate.call_sig.vararg_index = Some(1);
    assert_eq!(
        rejected_candidate_argument_shape(&candidate, &many),
        vec![Ty::Int, Ty::String, Ty::String]
    );
}

#[test]
fn an_extension_contends_with_its_receiver() {
    let arguments = CallArguments {
        count: 1,
        names: None,
        trailing_lambda: false,
    };
    let candidates = vec![
        function(FnKind::Member, vec![Ty::Int]),
        function(FnKind::Extension, vec![Ty::obj("demo/Owner"), Ty::Long]),
    ];
    let contenders = rejected_contenders(&candidates, &arguments);
    assert_eq!(contenders[0].receiver, None);
    assert_eq!(contenders[0].shape, vec![Ty::Int]);
    assert_eq!(contenders[1].receiver, Some(Ty::obj("demo/Owner")));
    assert_eq!(contenders[1].shape, vec![Ty::Long]);
    assert!(!contenders[1].generic);
}

#[test]
fn the_owner_of_a_rejection_is_the_most_specific_candidate() {
    let candidates = vec![
        function(FnKind::Member, vec![]),
        function(FnKind::Extension, vec![]),
    ];
    assert!(matches!(
        rejected_call_owner(&candidates, true, &vec![1]),
        RejectedCallOwner::Extension(1)
    ));
    assert!(matches!(
        rejected_call_owner(&candidates, true, &vec![0]),
        RejectedCallOwner::Member
    ));
    let joined = rejected_call_owner(&candidates, true, &vec![0, 1]);
    assert!(matches!(&joined, RejectedCallOwner::Joined(places) if *places == vec![0, 1]));
    assert_eq!(owned_member_failure(&joined), OwnedFailure::JoinedRejection);
    assert!(matches!(
        rejected_call_owner(&candidates, false, &vec![1]),
        RejectedCallOwner::Member
    ));
}

// Associated declarations.

#[test]
fn static_scopes_are_searched_once_each() {
    let names = static_scope_classifiers(
        vec![qualified("demo/C")],
        &vec![qualified("demo/B"), qualified("demo/C"), qualified("demo/A")],
    );
    assert_eq!(
        names,
        vec![qualified("demo/C"), qualified("demo/B"), qualified("demo/A")]
    );
}

#[test]
fn a_rung_answers_a_call() {
    let mut rejected = vec![];
    assert_eq!(static_scope_call(vec![], None, &mut rejected), None);
    assert!(rejected.is_empty());
    let candidate = || vec![function(FnKind::Member, vec![])];
    assert_eq!(static_scope_call(candidate(), None, &mut rejected), None);
    assert_eq!(rejected.len(), 1);
    assert_eq!(
        static_scope_call(
            candidate(),
            Some(CandidateOutcome::Selected(Ty::Int)),
            &mut rejected
        ),
        Some(Ty::Int)
    );
    assert_eq!(
        static_scope_call(candidate(), Some(CandidateOutcome::Ambiguous), &mut rejected),
        Some(Ty::Error)
    );
    assert_eq!(rejected.len(), 1);
    assert!(matches!(
        qualified_associated_call(AssociatedCall::Inapplicable(candidate()), false),
        QualifiedCall::Complain
    ));
    assert!(matches!(
        qualified_associated_call(AssociatedCall::Absent, false),
        QualifiedCall::Absent
    ));
}

#[test]
fn the_nearest_property_is_referenced() {
    let far = property(false, 2);
    let near = property(false, 1);
    assert_eq!(
        nearest_declarations(&vec![far.duplicate(), near.duplicate()]),
        vec![1]
    );
    assert!(matches!(
        associated_callable_ref("limit", &vec![], &vec![far.duplicate(), near.duplicate()], false),
        AssociatedReference::Property(1)
    ));
    let mut contextual = near.duplicate();
    contextual.context_count = 1;
    assert!(matches!(
        associated_callable_ref("limit", &vec![], &vec![far, contextual], false),
        AssociatedReference::Absent
    ));
    let functions = vec![function(FnKind::Member, vec![Ty::Long])];
    assert!(matches!(
        associated_callable_ref("limit", &functions, &vec![], true),
        AssociatedReference::SelectAgainstExpected
    ));
    match associated_callable_ref("limit", &functions, &vec![], false) {
        AssociatedReference::Function(0, ty) => {
            assert_eq!(ty, Ty::fun(vec![Ty::Long], Ty::Int))
        }
        other => panic!("{other:?}"),
    }
    let two = vec![
        function(FnKind::Member, vec![]),
        function(FnKind::Member, vec![]),
    ];
    assert!(matches!(
        associated_callable_ref("limit", &two, &vec![], false),
        AssociatedReference::AmbiguousFunction(text)
            if text == "overload resolution ambiguity for callable reference 'limit'"
    ));
}

#[test]
fn a_write_without_a_receiver_follows_the_selection() {
    assert!(matches!(
        write_receiverless_property(
            "limit",
            TopLevelPropertySelection::Selected(property(false, 0))
        ),
        ReceiverlessWrite::Write {
            reassigns_val: true,
            ..
        }
    ));
    assert!(matches!(
        write_receiverless_property(
            "limit",
            TopLevelPropertySelection::Selected(property(true, 0))
        ),
        ReceiverlessWrite::Write {
            reassigns_val: false,
            ..
        }
    ));
    assert!(matches!(
        write_receiverless_property("limit", TopLevelPropertySelection::Ambiguous),
        ReceiverlessWrite::Complaint(text)
            if text == "overload resolution ambiguity for property 'limit'"
    ));
    assert!(matches!(
        write_receiverless_property("limit", TopLevelPropertySelection::MissingContext),
        ReceiverlessWrite::Complaint(text) if text == "No context argument for 'limit' found."
    ));
    assert_eq!(
        select_scoped_associated_property(&vec![
            TopLevelPropertySelection::Absent,
            TopLevelPropertySelection::Ambiguous,
            TopLevelPropertySelection::MissingContext,
        ]),
        Some(1)
    );
}

#[test]
fn an_inaccessible_associated_property_is_shown_with_its_place() {
    let own = qualified("demo/Owner");
    let other = qualified("demo/Limits");
    assert_eq!(
        inaccessible_associated_property(&property(false, 0), Some(&own), "demo/Owner", false, false),
        Some(
            "cannot access 'companion val limit: Int': it is private in 'demo/Owner'.".to_string()
        )
    );
    assert_eq!(
        inaccessible_associated_property(&property(true, 0), Some(&other), "", false, false),
        Some(
            "cannot access 'companion var Limits.limit: Int': it is private in file.".to_string()
        )
    );
    assert_eq!(
        inaccessible_associated_property(&property(true, 0), Some(&other), "", true, false),
        None
    );
}

// Function types.

fn shape(name: &str, has_signature: bool, supertypes: &[&str]) -> CallableShape {
    CallableShape {
        classifier: qualified(name),
        represents_function_type: false,
        has_signature,
        supertypes: supertypes.iter().map(|path| qualified(path)).collect(),
    }
}

#[test]
fn a_reflective_function_type_inherits_the_reflective_interface() {
    let shapes = vec![
        shape("kotlin/reflect/Reflective", true, &["kotlin/reflect/KFunction"]),
        shape("kotlin/reflect/KFunctionPretender", true, &[]),
    ];
    assert!(is_some_function_type(
        &shapes,
        &Ty::obj("kotlin/reflect/Reflective")
    ));
    assert!(!is_some_function_type(
        &shapes,
        &Ty::obj("kotlin/reflect/KFunctionPretender")
    ));
    assert!(is_some_function_type(
        &shapes,
        &Ty::nullable(Ty::fun(vec![], Ty::Int))
    ));
}

fn empty_index() -> ResolvedModuleIndex {
    ResolvedModuleIndex {
        signatures: HashMap::new(),
        contracts: HashMap::new(),
        classifier_headers: HashMap::new(),
        declared_properties: HashMap::new(),
        properties: HashMap::new(),
        classifier_hierarchies: HashMap::new(),
        declaration_spellings: HashMap::new(),
        visibility_suppressions: HashMap::new(),
        compile_time_constants: HashMap::new(),
    }
}

#[test]
fn callables_that_take_functions_are_published() {
    let mut index = empty_index();
    index.signatures.insert(
        1,
        ResolvedSignature {
            result: Ty::Unit,
            parameters: vec![Ty::fun(vec![], Ty::Int), Ty::Int],
        },
    );
    let header = |id: u32, context: usize, receiver: Option<Ty>| CallableHeader {
        id,
        declaration: 1,
        owner: Some(50),
        context_parameter_count: context,
        extension_receiver: receiver,
    };
    let headers = vec![
        header(10, 0, None),
        header(11, 1, None),
        header(12, 1, Some(Ty::fun(vec![], Ty::Unit))),
    ];
    let mut published = HashSet::new();
    publish_function_type_parameters(
        &mut published,
        &index,
        &vec![],
        &headers,
        &CallableSelection::Module,
    );
    assert!(published.contains(&10) && !published.contains(&11) && published.contains(&12));
    let mut none = HashSet::new();
    publish_function_type_parameters(
        &mut none,
        &index,
        &vec![],
        &headers,
        &CallableSelection::MembersOf(vec![51]),
    );
    assert!(none.is_empty());
}

// Symbol queries.

#[test]
fn a_final_answer_is_kept() {
    let mut callables = Callables::nothing();
    callables
        .functions
        .overloads
        .push(function(FnKind::Member, vec![]));
    let resolver = ListedCallables {
        answers: vec![AnsweredQuery {
            receiver: Ty::Int,
            name: "call".to_string(),
            classes: vec![],
            callables,
        }],
    };
    let mut cache = ReceiverCallableCache::new();
    for (stable, kept) in [(false, 0), (true, 1), (true, 1)] {
        let found =
            stable_receiver_callables(&mut cache, &resolver, stable, &Ty::Int, "call", &vec![]);
        assert_eq!(found.functions.overloads.len(), 1);
        assert_eq!(cache.kept.len(), kept);
    }
    assert_eq!(
        stable_single_top_level_signature(&vec![None, Some(3), None]),
        Some(1)
    );
    assert_eq!(
        stable_single_top_level_signature(&vec![Some(2), Some(3)]),
        None
    );
}

#[test]
fn final_callable_shapes_are_kept() {
    let handler = Ty::obj("demo/Handler");
    let mut listed = TypeTable::new();
    listed.insert(handler.clone(), vec![Ty::fun(vec![Ty::Int], Ty::Unit)]);
    let resolver = ListedSignatures { listed };
    let mut cache = CallableShapeCache::new();
    for (stable, kept) in [(false, false), (true, true), (true, true)] {
        assert_eq!(
            stable_classifier_callable_signatures(&mut cache, &resolver, stable, &handler),
            vec![Ty::fun(vec![Ty::Int], Ty::Unit)]
        );
        assert_eq!(cache.kept.get(&handler).is_some(), kept);
    }
    assert!(
        stable_classifier_callable_signatures(&mut cache, &resolver, true, &Ty::Int).is_empty()
    );
}

// Classifiers of the expected type.

fn entry(name: &str, supertypes: &[&str]) -> SymbolEntry {
    let mut shape = declaration_header();
    shape.supertypes = supertypes.iter().map(|path| Ty::obj(path)).collect();
    SymbolEntry {
        name: qualified(name),
        symbols: ResolvedSymbols {
            classifier_name: Some(qualified(name)),
            classifier: Some(shape),
            callables: Callables::nothing(),
            importable_declaration: true,
        },
    }
}

#[test]
fn the_nearest_nested_classifier_is_found() {
    let table = SymbolTable {
        entries: vec![
            entry("demo/Child", &["demo/Left", "demo/Right"]),
            entry("demo/Left", &["demo/Base"]),
            entry("demo/Right", &[]),
            entry("demo/Base", &[]),
            entry("demo/Base.Deep", &[]),
            entry("demo/Left.Both", &[]),
            entry("demo/Right.Both", &[]),
            entry("demo/Child.Own", &[]),
            entry("demo/Base.Own", &[]),
        ],
        packages: vec![],
    };
    let expected = Ty::nullable(Ty::obj("demo/Child"));
    assert!(matches!(
        expected_nested_classifier(&table, &expected, "Own"),
        InheritedNestedClassifier::Found(name) if name == qualified("demo/Child.Own")
    ));
    assert!(matches!(
        expected_nested_classifier(&table, &expected, "Deep"),
        InheritedNestedClassifier::Found(name) if name == qualified("demo/Base.Deep")
    ));
    assert!(matches!(
        expected_nested_classifier(&table, &expected, "Both"),
        InheritedNestedClassifier::Ambiguous
    ));
    assert!(matches!(
        expected_nested_classifier(&table, &expected, "Nowhere"),
        InheritedNestedClassifier::NotFound
    ));
    assert!(matches!(
        expected_nested_classifier(&table, &Ty::Int, "Own"),
        InheritedNestedClassifier::NotFound
    ));
}
