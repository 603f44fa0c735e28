//! What calls are worth and how their results are still open.

use std::collections::HashMap;

use krusty::ast::ExprId;
use krusty::libraries::{GenericReturnPolicy, GenericSig};
use krusty::model::Modelled;
use krusty::names::qualified;
use krusty::resolve::alias_constructor_application::{
    alias_constructor_fixed_application, alias_constructor_result_constraint,
    scoped_source_alias_call_ty,
};
use krusty::resolve::call_result_constraint::CallResultConstraint;
use krusty::resolve::call_result_templates::{
    lexically_fixed_at_call, record_call_site_lexical_formals, CheckedCall, ClassifierFormals,
    ConstructorArguments, ConstructorCall, LexicalFormal,
};
use krusty::resolve::callable_reference_selection::AssignablePairs;
use krusty::resolve::calls::{ResolvedCall, SelectedCallable};
use krusty::resolve::collection_literals::{
    default_factory, standard_factory, StandardCollectionFactory,
};
use krusty::symbols::SymbolTable;
use krusty::types::Ty;

fn any_nullable() -> Ty {
    Ty::nullable(Ty::obj("kotlin/Any"))
}

fn signature(ret: Ty) -> GenericSig {
    GenericSig {
        formals: vec!["T".to_string()],
        formal_bounds: vec![vec![any_nullable()]],
        params: vec![],
        ret,
        receiver: None,
        return_policy: GenericReturnPolicy::Exact,
    }
}

#[test]
fn safe_lift_is_idempotent_for_an_already_nullable_return() {
    let nullable = Ty::nullable(Ty::ty_param("T", any_nullable()));
    let signature = signature(nullable.clone());
    let lifted =
        CallResultConstraint::safe_lifted(Some(Ty::nullable(Ty::String))).signature(&signature);
    assert_eq!(lifted.ret, nullable);
}

#[test]
fn safe_lift_wraps_a_non_null_declaration_return() {
    let signature = signature(Ty::ty_param("T", Ty::obj("kotlin/Any")));
    let lifted =
        CallResultConstraint::safe_lifted(Some(Ty::nullable(Ty::String))).signature(&signature);
    assert_eq!(lifted.ret, Ty::nullable(signature.ret.clone()));
}

#[test]
fn safe_result_approximation_removes_only_the_boundary_lift() {
    let constraint = CallResultConstraint::safe_lifted(Some(Ty::nullable(Ty::String)));
    assert_eq!(
        constraint.selected_result_approximation(&Ty::ty_param("T", any_nullable())),
        Some(Ty::String),
    );
}

#[test]
fn safe_result_approximation_preserves_declared_nullability() {
    let constraint = CallResultConstraint::safe_lifted(Some(Ty::nullable(Ty::String)));
    assert_eq!(
        constraint
            .selected_result_approximation(&Ty::nullable(Ty::ty_param("T", any_nullable()))),
        Some(Ty::nullable(Ty::String)),
    );
}

#[test]
fn a_direct_call_is_worth_what_its_callable_returns() {
    let constraint = CallResultConstraint::direct(Some(Ty::String));
    assert_eq!(constraint.expected(), Some(Ty::String));
    assert_eq!(constraint.declaration_result(&Ty::Int), Ty::Int);
    let nothing = CallResultConstraint::direct(None);
    assert_eq!(nothing.expected(), None);
    assert_eq!(nothing.selected_result_approximation(&Ty::Int), None);
}

#[test]
fn standard_factories_are_selected_by_qualified_classifier_identity() {
    assert_eq!(
        standard_factory(&qualified("kotlin/collections/List")),
        Some(StandardCollectionFactory {
            package: qualified("kotlin/collections"),
            callable: "listOf",
        })
    );
    assert_eq!(standard_factory(&qualified("sample/List")), None);
}

#[test]
fn each_collection_interface_has_its_factory() {
    for (classifier, package, callable) in [
        ("kotlin/collections/MutableList", "kotlin/collections", "mutableListOf"),
        ("kotlin/collections/Set", "kotlin/collections", "setOf"),
        ("kotlin/collections/MutableSet", "kotlin/collections", "mutableSetOf"),
        ("kotlin/sequences/Sequence", "kotlin/sequences", "sequenceOf"),
    ] {
        let factory = standard_factory(&qualified(classifier)).unwrap();
        assert_eq!(factory.package, qualified(package));
        assert_eq!(factory.callable, callable);
    }
    assert_eq!(default_factory().callable, "listOf");
}

fn checked(actual: Ty) -> CheckedCall {
    CheckedCall {
        explicit_type_args: false,
        lexical: vec![],
        contextual: None,
        resolved: None,
        constructor: None,
        actual,
        type_arguments: None,
    }
}

fn generic_call(actual: Ty) -> CheckedCall {
    let mut call = checked(actual);
    call.resolved = Some(ResolvedCall::Member(SelectedCallable {
        generic_sig: Some(signature(Ty::obj_args(
            "demo/Item",
            &[Ty::ty_param("T", any_nullable())],
        ))),
        intrinsic: None,
    }));
    call
}

#[test]
fn a_result_that_is_only_its_fallback_is_open() {
    let open = generic_call(Ty::obj_args("demo/Item", &[any_nullable()]));
    assert!(open.unbound_call_result_signature().is_some());
    let closed = generic_call(Ty::obj_args("demo/Item", &[Ty::Int]));
    assert!(closed.unbound_call_result_signature().is_none());
    assert!(closed.expected_type_callable_signature().is_some());
}

#[test]
fn solved_type_arguments_close_a_result_that_holds_no_formal() {
    let mut call = generic_call(Ty::obj_args("demo/Item", &[any_nullable()]));
    call.type_arguments = Some(vec![Some(any_nullable())]);
    assert!(call.unbound_call_result_signature().is_none());
    call.actual = Ty::obj_args("demo/Item", &[Ty::ty_param("T", any_nullable())]);
    assert!(call.unbound_call_result_signature().is_some());
}

#[test]
fn written_type_arguments_leave_nothing_open() {
    let mut call = generic_call(Ty::Error);
    assert!(call.unbound_contextual_result_signature().is_some());
    call.explicit_type_args = true;
    assert!(call.unbound_contextual_result_signature().is_none());
    assert!(call.expected_type_callable_signature().is_none());
}

#[test]
fn a_formal_in_scope_is_renamed_in_the_template() {
    let mut call = generic_call(Ty::obj_args("demo/Item", &[Ty::ty_param("T", any_nullable())]));
    call.lexical = vec![LexicalFormal {
        formal: "T".to_string(),
        fresh: "T'1".to_string(),
    }];
    assert!(call.unbound_call_result_signature().is_none());
    let template = call.expected_type_callable_signature().unwrap();
    assert_eq!(template.formals, vec!["T'1".to_string()]);
    assert_eq!(
        template.ret,
        Ty::obj_args("demo/Item", &[Ty::ty_param("T'1", any_nullable())])
    );
}

fn constructor_call(arguments: ConstructorArguments, actual: Ty) -> CheckedCall {
    let mut call = checked(actual);
    call.constructor = Some(ConstructorCall {
        owner: qualified("demo/TypeToken"),
        formals: Some(ClassifierFormals {
            names: vec!["T".to_string()],
            bounds: vec![vec![any_nullable()]],
        }),
        arguments,
    });
    call
}

#[test]
fn a_constructor_without_evidence_stays_open() {
    let fallback = Ty::obj_args("demo/TypeToken", &[any_nullable()]);
    let formal = Ty::ty_param("T", any_nullable());
    let open = constructor_call(
        ConstructorArguments::Source {
            params: vec![],
            argument_slots: vec![],
        },
        fallback.clone(),
    );
    assert!(open.unbound_contextual_result_signature().is_some());
    let settled = constructor_call(
        ConstructorArguments::Source {
            params: vec![formal.clone()],
            argument_slots: vec![0],
        },
        fallback.clone(),
    );
    assert!(settled.unbound_contextual_result_signature().is_none());
    let unfilled = constructor_call(
        ConstructorArguments::Slots {
            params: Some(vec![formal.clone()]),
            filled: vec![false],
        },
        fallback.clone(),
    );
    assert!(unfilled.unbound_contextual_result_signature().is_some());
    let in_order = constructor_call(
        ConstructorArguments::InOrder {
            params: Some(vec![formal]),
            arguments: 1,
        },
        fallback,
    );
    assert!(in_order.unbound_contextual_result_signature().is_none());
}

#[test]
fn the_flexible_bound_of_a_formal_is_its_fallback() {
    let flexible = Ty::obj_args(
        "demo/TypeToken",
        &[Ty::PlatformNullable(Box::new(Ty::obj("kotlin/Any")))],
    );
    let call = constructor_call(
        ConstructorArguments::Source {
            params: vec![],
            argument_slots: vec![],
        },
        flexible,
    );
    assert!(call.unbound_contextual_result_signature().is_some());
}

fn keyed() -> Ty {
    Ty::obj_args("demo/Entry", &[Ty::String, Ty::ty_param("V", any_nullable())])
}

#[test]
fn an_alias_fixes_only_what_mentions_no_open_formal() {
    let open = vec!["V".to_string()];
    let fixed = alias_constructor_fixed_application(Some(&open), Some(&keyed()));
    assert_eq!(
        fixed,
        Some(Ty::obj_args("demo/Entry", &[Ty::String, Ty::Error]))
    );
    assert_eq!(
        alias_constructor_result_constraint(fixed, Some(Ty::Int)),
        Some(Ty::Int)
    );
    let written = Ty::obj_args("demo/Entry", &[Ty::String, Ty::Int]);
    let unchanged = alias_constructor_fixed_application(Some(&open), Some(&written));
    assert_eq!(unchanged, Some(written.clone()));
    assert_eq!(
        alias_constructor_result_constraint(unchanged, Some(Ty::Int)),
        Some(written)
    );
}

#[test]
fn an_expected_type_completes_an_alias() {
    let table = SymbolTable::new();
    let relation = AssignablePairs {
        pairs: vec![(Ty::Long, any_nullable())],
    };
    let expected = Ty::obj_args("demo/Entry", &[Ty::String, Ty::Long]);
    let call = scoped_source_alias_call_ty(
        &table,
        &relation,
        &vec!["V".to_string()],
        &keyed(),
        0,
        Some(&expected),
    )
    .unwrap();
    assert_eq!(call.applied, expected);
    assert!(call.signature.ret.same(&keyed()));
    assert!(scoped_source_alias_call_ty(
        &table,
        &relation,
        &vec!["V".to_string()],
        &keyed(),
        1,
        None
    )
    .is_none());
}

#[test]
fn the_formals_in_scope_at_a_call_are_recorded() {
    let mut recorded = HashMap::new();
    record_call_site_lexical_formals(&mut recorded, ExprId(3), vec!["T".to_string()]);
    record_call_site_lexical_formals(&mut recorded, ExprId(4), vec![]);
    assert!(lexically_fixed_at_call(&recorded, ExprId(3), "T"));
    assert!(!lexically_fixed_at_call(&recorded, ExprId(3), "R"));
    assert!(!lexically_fixed_at_call(&recorded, ExprId(4), "T"));
    assert_eq!(recorded.len(), 1);
    record_call_site_lexical_formals(&mut recorded, ExprId(3), vec![]);
    assert!(!lexically_fixed_at_call(&recorded, ExprId(3), "T"));
    assert!(recorded.is_empty());
}
