//! Inference, references to callables, hierarchies and what is settled of declarations.

use std::collections::HashMap;

use krusty::ast::{ClassDecl, Decl, DeclId, Expr, ExprId, File, PropDecl};
use krusty::bindings::{ty_subst_keep_unbound, unify_inferred_ty, Bindings};
use krusty::fir::{ResolvedModuleIndex, ResolvedSignature};
use krusty::libraries::{
    CallSig, Callables, FnKind, FunctionInfo, GenericReturnPolicy, GenericSig, LibConst,
    LibraryMember,
};
use krusty::model::Modelled;
use krusty::names::qualified;
use krusty::resolve::abstract_obligations::{
    collect_hierarchy, erased_type_key, hierarchy_names, hierarchy_root, same_flexible_type,
    Ancestor, CallableFamily, DeclaredClassifier, DelegatedFunction, DelegatedMember,
    FamilyMembers, Hierarchy, HierarchyAccessor, HierarchyFunction, HierarchyProperty,
};
use krusty::resolve::adapted_instance_selection::{
    select_adapted_bound_instance_candidate, select_adapted_instance_candidate, PairwiseOrder,
};
use krusty::resolve::call_constraints::CallConstraints;
use krusty::resolve::callable_reference_selection::{
    is_compatible, parameter_plan, plan_cost, plan_is_identity_from, realize_expected_shape,
    shift_plan_values, AdaptedRefArgument, AssignablePairs,
};
use krusty::resolve::callable_reference_specialization::{
    specialize_candidate, specialize_generic_signature, CallableRefSpecialization,
};
use krusty::resolve::checked_constant_publication::{
    list_constants, list_member_constants, publish_checked_compile_time_constants,
    publish_listed_constants, publish_member_constants, ConstantInitializer, ConstantInitializers,
};
use krusty::resolve::declaration_index::{ResolvedSourceDeclaration, ResolvedSourceDeclarations};
use krusty::resolve::delegated_properties::ClassifierBounds;
use krusty::resolve::finalized_projection::{classifier_relative_type, project_callable};
use krusty::resolve::generic_call_bindings::{
    infer_from_arguments, mapped_argument_evidence, mapped_generic_call_bindings,
    merge_generic_bindings, merge_mapped_generic_argument_bindings, SourceArgument,
};
use krusty::resolve::import_scopes::declaration_header;
use krusty::resolve::source_names::spell;
use krusty::resolve::source_table::{
    ClassSig, MemberProperty, Origin, Signature, SourceProperty, SourceTable,
};
use krusty::symbols::{ResolvedSymbols, SymbolEntry, SymbolTable};
use krusty::types::{FnSig, Ty};

fn any() -> Ty {
    Ty::nullable(Ty::obj("kotlin/Any"))
}

fn formal(name: &str) -> Ty {
    Ty::ty_param(name, any())
}

fn list(element: Ty) -> Ty {
    Ty::obj_args("kotlin/collections/List", &[element])
}

fn bound(bindings: &Bindings, name: &str) -> Option<Ty> {
    bindings.get(name).map(|ty| ty.clone())
}

fn shape(params: Vec<Ty>, ret: Ty) -> FnSig {
    FnSig {
        params,
        ret,
        context_count: 0,
        has_receiver: false,
        suspend: false,
    }
}

fn nothing_more() -> AssignablePairs {
    AssignablePairs { pairs: vec![] }
}

fn member(owner: &str, params: Vec<Ty>, ret: Ty) -> FunctionInfo {
    let owner = qualified(owner);
    let mut member = LibraryMember::new("call".to_string(), params, ret, "()V".to_string());
    member.owner = Some(owner.clone());
    FunctionInfo::classifier_member(FnKind::Member, &owner, member)
}

// Bindings.

#[test]
fn the_first_binding_stands() {
    let mut bindings = Bindings::new();
    let pair = Ty::obj_args("demo/Pair", &[formal("T"), list(formal("T"))]);
    let actual = Ty::obj_args("demo/Pair", &[Ty::Int, list(Ty::String)]);
    unify_inferred_ty(&pair, &actual, &mut bindings);
    assert_eq!(bound(&bindings, "T"), Some(Ty::Int));
    assert_eq!(
        ty_subst_keep_unbound(&pair, &bindings),
        Ty::obj_args("demo/Pair", &[Ty::Int, list(Ty::Int)])
    );
    let ground = Ty::nullable(list(Ty::String));
    assert_eq!(ty_subst_keep_unbound(&ground, &bindings), ground);
    assert_eq!(
        ty_subst_keep_unbound(&formal("R"), &bindings),
        formal("R")
    );
}

#[test]
fn completion_adds_only_open_formals() {
    let formals = vec!["T".to_string(), "R".to_string()];
    let mut bindings = Bindings::new();
    bindings.insert("T", Ty::Int);
    let mut inferred = Bindings::new();
    inferred.insert("T", Ty::String);
    inferred.insert("R", Ty::Long);
    inferred.insert("Other", Ty::Char);
    merge_generic_bindings(&formals, &mut bindings, &inferred);
    assert_eq!(bound(&bindings, "T"), Some(Ty::Int));
    assert_eq!(bound(&bindings, "R"), Some(Ty::Long));
    assert_eq!(bound(&bindings, "Other"), None);
}

fn generic(receiver: Option<Ty>, params: Vec<Ty>, ret: Ty) -> GenericSig {
    GenericSig {
        formals: vec!["T".to_string(), "R".to_string()],
        formal_bounds: vec![vec![any()], vec![any()]],
        receiver,
        params,
        ret,
        return_policy: GenericReturnPolicy::Exact,
    }
}

#[test]
fn a_call_is_constrained_before_its_arguments() {
    let signature = generic(Some(list(formal("T"))), vec![], list(formal("R")));
    let receiver = list(Ty::Int);
    let expected = list(Ty::String);
    let observed = CallConstraints {
        type_args: &[],
        receiver: &receiver,
        expected: Some(&expected),
    }
    .bindings(&signature);
    assert_eq!(bound(&observed, "T"), Some(Ty::Int));
    assert_eq!(bound(&observed, "R"), Some(Ty::String));
    let unknown = list(Ty::Pending);
    let pending = CallConstraints {
        type_args: &[],
        receiver: &unknown,
        expected: None,
    }
    .bindings(&signature);
    assert_eq!(bound(&pending, "T"), None);
    let written = CallConstraints {
        type_args: &[Ty::Long],
        receiver: &receiver,
        expected: Some(&expected),
    }
    .bindings(&signature);
    assert_eq!(bound(&written, "T"), Some(Ty::Long));
    assert_eq!(bound(&written, "R"), None);
}

fn plain_argument() -> SourceArgument {
    SourceArgument {
        contextual: false,
        spread: false,
    }
}

#[test]
fn arguments_are_evidence_for_formals() {
    let array = Ty::obj_args("kotlin/Array", &[formal("T")]);
    let params = vec![array.clone(), formal("R")];
    let postponed = SourceArgument {
        contextual: true,
        spread: false,
    };
    let evidence = mapped_argument_evidence(
        &[1, 0, 0, 1, 7],
        &[
            Some(Ty::Char),
            None,
            Some(Ty::Int),
            Some(Ty::Long),
            Some(Ty::Short),
            Some(Ty::Byte),
        ],
        &[
            postponed,
            plain_argument(),
            plain_argument(),
            plain_argument(),
            plain_argument(),
        ],
        &[],
    );
    assert_eq!(evidence.len(), 3);
    assert!(!evidence[0].whole_array);
    let found = infer_from_arguments(&SymbolTable::new(), &params, Some(0), &evidence);
    assert_eq!(bound(&found, "T"), Some(Ty::Int));
    assert_eq!(bound(&found, "R"), Some(Ty::Long));
    let strings = Some(Ty::obj_args("kotlin/Array", &[Ty::String]));
    for (spread, named) in [(true, false), (false, true)] {
        let whole = mapped_argument_evidence(
            &[0],
            &[strings.clone()],
            &[SourceArgument {
                contextual: false,
                spread,
            }],
            &[named],
        );
        assert!(whole[0].whole_array);
        let found = infer_from_arguments(&SymbolTable::new(), &params, Some(0), &whole);
        assert_eq!(bound(&found, "T"), Some(Ty::String));
    }
    let signature = generic(None, params, Ty::Unit);
    let seeded = mapped_generic_call_bindings(&signature, &[Ty::Byte], &found);
    assert_eq!(bound(&seeded, "T"), Some(Ty::Byte));
    assert_eq!(bound(&seeded, "R"), Some(Ty::Long));
    let mut open = Bindings::new();
    merge_mapped_generic_argument_bindings(&signature, &found, &mut open);
    assert_eq!(bound(&open, "T"), Some(Ty::Int));
}

#[test]
fn an_argument_is_seen_as_its_supertype() {
    let mut header = declaration_header();
    header.type_params = vec!["E".to_string()];
    header.type_param_bounds = vec![vec![any()]];
    header.supertypes = vec![list(formal("E"))];
    let table = SymbolTable {
        entries: vec![SymbolEntry {
            name: qualified("demo/Names"),
            symbols: ResolvedSymbols {
                classifier_name: Some(qualified("demo/Names")),
                classifier: Some(header),
                callables: Callables::nothing(),
                importable_declaration: true,
            },
        }],
        packages: vec![],
    };
    let evidence = mapped_argument_evidence(
        &[0],
        &[Some(Ty::obj_args("demo/Names", &[Ty::String]))],
        &[plain_argument()],
        &[],
    );
    let found = infer_from_arguments(&table, &vec![list(formal("T"))], None, &evidence);
    assert_eq!(bound(&found, "T"), Some(Ty::String));
}

// References to callables.

fn call_sig(defaults: Vec<bool>, vararg: Option<usize>) -> CallSig {
    CallSig {
        param_names: vec![],
        param_defaults: defaults,
        vararg_index: vararg,
    }
}

#[test]
fn a_plan_prefers_inputs_to_defaults() {
    let params = [Ty::Int, Ty::String, Ty::Long];
    let plan = parameter_plan(
        &params,
        &call_sig(vec![false, true, false], None),
        &[Ty::Int, Ty::Long],
        &nothing_more(),
    )
    .unwrap();
    assert_eq!(format!("{plan:?}"), "[Value(0), Default, Value(1)]");
    assert_eq!(plan_cost(&plan), 100);
    assert!(!plan_is_identity_from(&plan, 0));
    assert!(parameter_plan(
        &params,
        &call_sig(vec![], None),
        &[Ty::Int, Ty::Long],
        &nothing_more()
    )
    .is_none());
}

#[test]
fn a_plan_collects_the_elements_of_a_vararg() {
    let ints = Ty::obj("kotlin/IntArray");
    let params = [ints.clone(), Ty::String];
    let sig = call_sig(vec![], Some(0));
    let elements =
        parameter_plan(&params, &sig, &[Ty::Int, Ty::Int, Ty::String], &nothing_more()).unwrap();
    assert_eq!(
        format!("{elements:?}"),
        "[Vararg { values: [0, 1], whole_array: false }, Value(2)]"
    );
    assert_eq!(plan_cost(&elements), 10);
    let whole = parameter_plan(&params, &sig, &[ints, Ty::String], &nothing_more()).unwrap();
    assert_eq!(
        format!("{whole:?}"),
        "[Vararg { values: [0], whole_array: true }, Value(1)]"
    );
    assert_eq!(plan_cost(&whole), 1);
    let empty = parameter_plan(&params, &sig, &[Ty::String], &nothing_more()).unwrap();
    assert_eq!(
        format!("{empty:?}"),
        "[Vararg { values: [], whole_array: false }, Value(0)]"
    );
}

#[test]
fn a_shifted_plan_reads_later_inputs() {
    let mut plan = vec![
        AdaptedRefArgument::Value(0),
        AdaptedRefArgument::Vararg {
            values: vec![1, 2],
            whole_array: false,
        },
    ];
    let before = plan_cost(&plan);
    shift_plan_values(&mut plan, 2);
    assert_eq!(
        format!("{plan:?}"),
        "[Value(2), Vararg { values: [3, 4], whole_array: false }]"
    );
    assert_eq!(plan_cost(&plan), before);
    let identity = vec![AdaptedRefArgument::Value(1), AdaptedRefArgument::Value(2)];
    assert!(plan_is_identity_from(&identity, 1));
    assert!(!plan_is_identity_from(&identity, 0));
}

#[test]
fn a_reference_fills_in_the_expected_shape() {
    let expected = shape(vec![formal("T")], formal("R"));
    assert_eq!(
        realize_expected_shape(
            &expected,
            &[Ty::Int],
            &Ty::String,
            &vec![AdaptedRefArgument::Value(0)]
        ),
        Ty::fun(vec![Ty::Int], Ty::String)
    );
    let wanted = shape(vec![Ty::Int], Ty::Unit);
    assert!(is_compatible(
        &[Ty::Int],
        &Ty::String,
        false,
        &wanted,
        true,
        &nothing_more()
    ));
    assert!(!is_compatible(
        &[Ty::Int],
        &Ty::String,
        false,
        &wanted,
        false,
        &nothing_more()
    ));
    assert!(!is_compatible(
        &[Ty::Int],
        &Ty::Unit,
        true,
        &wanted,
        true,
        &nothing_more()
    ));
}

#[test]
fn a_generic_reference_is_specialized_by_what_is_expected() {
    let signature = generic(None, vec![formal("T")], list(formal("R")));
    let expected_ret = list(Ty::String);
    let found = specialize_generic_signature(
        &SymbolTable::new(),
        &signature,
        &CallSig::plain(),
        None,
        Some(&[Ty::Int]),
        Some(&expected_ret),
        &AssignablePairs {
            pairs: vec![(Ty::Int, any()), (Ty::String, any())],
        },
    )
    .unwrap();
    assert_eq!(found.params, vec![Ty::Int]);
    assert_eq!(found.ret, expected_ret);
    assert_eq!(found.type_arguments, vec![Ty::Int, Ty::String]);
    let open = specialize_generic_signature(
        &SymbolTable::new(),
        &signature,
        &CallSig::plain(),
        None,
        Some(&[Ty::Int]),
        None,
        &AssignablePairs {
            pairs: vec![(Ty::Int, any())],
        },
    );
    assert!(matches!(
        open,
        Err(CallableRefSpecialization::UnresolvedTypeArguments)
    ));
    let outside = specialize_generic_signature(
        &SymbolTable::new(),
        &signature,
        &CallSig::plain(),
        None,
        Some(&[Ty::Int]),
        Some(&expected_ret),
        &nothing_more(),
    );
    assert!(matches!(
        outside,
        Err(CallableRefSpecialization::Inapplicable)
    ));
}

#[test]
fn a_plain_candidate_needs_no_specialization() {
    let mut plain = member("demo/Owner", vec![Ty::Int], Ty::String);
    let before = format!("{plain:?}");
    assert_eq!(
        specialize_candidate(
            &SymbolTable::new(),
            &mut plain,
            None,
            None,
            None,
            &nothing_more()
        ),
        CallableRefSpecialization::Specialized
    );
    assert_eq!(format!("{plain:?}"), before);
}

#[test]
fn the_most_specific_instance_is_adapted() {
    let relation = || AssignablePairs {
        pairs: vec![(Ty::Int, Ty::obj("kotlin/Number"))],
    };
    let order = PairwiseOrder {
        relation: relation(),
    };
    let overloads = [
        member("demo/A", vec![Ty::obj("kotlin/Number")], Ty::String),
        member("demo/B", vec![Ty::Int], Ty::String),
    ];
    let expected = shape(vec![Ty::Int], Ty::String);
    let chosen = select_adapted_bound_instance_candidate(
        &SymbolTable::new(),
        &overloads,
        &expected,
        &relation(),
        &order,
    )
    .unwrap();
    assert_eq!(chosen.function.callable.owner, qualified("demo/B"));
    assert_eq!(format!("{:?}", chosen.plan), "[Value(0)]");
    let unordered = PairwiseOrder {
        relation: nothing_more(),
    };
    assert!(select_adapted_bound_instance_candidate(
        &SymbolTable::new(),
        &overloads,
        &expected,
        &relation(),
        &unordered
    )
    .is_none());
    let receiver = Ty::obj("demo/B");
    let unbound = shape(vec![receiver.clone(), Ty::Int], Ty::String);
    let chosen = select_adapted_instance_candidate(
        &SymbolTable::new(),
        &overloads[1..],
        Some(&receiver),
        &unbound,
        &relation(),
        &order,
    );
    assert!(chosen.is_some());
}

// Hierarchies.

#[test]
fn platform_types_agree_with_either_bound() {
    let platform = Ty::PlatformNullable(Box::new(Ty::String));
    assert!(same_flexible_type(&platform, &Ty::String));
    assert!(same_flexible_type(&Ty::nullable(Ty::String), &platform));
    assert!(!same_flexible_type(&Ty::nullable(Ty::String), &Ty::String));
    assert!(same_flexible_type(&list(platform), &list(Ty::String)));
    assert_eq!(
        erased_type_key(&Ty::nullable(Ty::Int)),
        Ty::obj("kotlin/Int")
    );
    assert_eq!(erased_type_key(&Ty::Int), Ty::Int);
    assert_eq!(
        erased_type_key(&list(Ty::Int)),
        Ty::obj("kotlin/collections/List")
    );
    assert_eq!(
        erased_type_key(&Ty::fun(vec![Ty::Int], Ty::Unit)),
        Ty::obj("kotlin/Function1")
    );
}

fn entry(owner: &str, params: Vec<Ty>, is_abstract: bool) -> HierarchyFunction {
    let mut function = member(owner, params.clone(), Ty::Unit);
    function.flags.is_abstract = is_abstract;
    function.callable.is_abstract = is_abstract;
    HierarchyFunction {
        function,
        external_identity: None,
        physical_params: params,
    }
}

fn hierarchy(functions: Vec<HierarchyFunction>, properties: Vec<HierarchyProperty>) -> Hierarchy {
    Hierarchy {
        classifiers: vec![qualified("demo/Child"), qualified("demo/Parent")],
        java_classifiers: vec![],
        families: vec![CallableFamily {
            name: "call".to_string(),
            functions,
            properties,
        }],
        delegated_functions: vec![],
        delegated_properties: vec![],
    }
}

#[test]
fn an_abstract_function_must_be_implemented() {
    let relation = nothing_more();
    let declared = || entry("demo/Parent", vec![Ty::String], true);
    assert!(!hierarchy(vec![declared()], vec![])
        .has_no_unimplemented_abstract_members(&relation));
    assert!(hierarchy(
        vec![declared(), entry("demo/Child", vec![Ty::String], false)],
        vec![]
    )
    .has_no_unimplemented_abstract_members(&relation));
    assert!(!hierarchy(
        vec![declared(), entry("demo/Child", vec![Ty::Int], false)],
        vec![]
    )
    .has_no_unimplemented_abstract_members(&relation));
    let mut delegated = hierarchy(vec![declared()], vec![]);
    delegated.delegated_functions.push(DelegatedFunction {
        name: "call".to_string(),
        parameters: vec![Ty::String],
    });
    assert!(delegated.has_no_unimplemented_abstract_members(&relation));
    let mut unknown = hierarchy(vec![], vec![]);
    unknown.classifiers = vec![];
    assert!(!unknown.has_no_unimplemented_abstract_members(&relation));
}

fn ancestor(name: &str, is_kotlin: bool, callables: &[&str]) -> Ancestor {
    Ancestor {
        name: qualified(name),
        classifier: Some(DeclaredClassifier {
            is_kotlin,
            callables: callables.iter().map(|one| one.to_string()).collect(),
        }),
        delegated: vec![],
    }
}

#[test]
fn a_hierarchy_is_collected_from_its_ancestors() {
    let mut delegating = ancestor("demo/Child", true, &["call", "size"]);
    delegating.delegated = vec![
        DelegatedMember::Property("size".to_string()),
        DelegatedMember::Function(DelegatedFunction {
            name: "call".to_string(),
            parameters: vec![Ty::String],
        }),
    ];
    let unknown = Ancestor {
        name: qualified("demo/Unknown"),
        classifier: None,
        delegated: vec![],
    };
    let ancestors = vec![
        delegating,
        ancestor("java/Parent", false, &["call", "close"]),
        unknown,
    ];
    let names = hierarchy_names(&ancestors);
    assert_eq!(names, vec!["call", "size", "close"]);
    let members = names
        .iter()
        .map(|name| FamilyMembers {
            functions: if name == "call" {
                vec![entry("java/Parent", vec![Ty::String], true)]
            } else {
                vec![]
            },
            properties: vec![],
        })
        .collect();
    let collected = collect_hierarchy(&ancestors, members);
    assert_eq!(
        collected.classifiers,
        vec![
            qualified("demo/Child"),
            qualified("java/Parent"),
            qualified("demo/Unknown")
        ]
    );
    assert_eq!(collected.java_classifiers, vec![qualified("java/Parent")]);
    assert_eq!(collected.families.len(), 3);
    assert_eq!(collected.families[2].name, "close");
    assert_eq!(collected.families[0].functions.len(), 1);
    assert_eq!(collected.delegated_functions.len(), 1);
    assert_eq!(collected.delegated_functions[0].name, "call");
    assert_eq!(collected.delegated_functions[0].parameters, vec![Ty::String]);
    assert_eq!(collected.delegated_properties, vec!["size"]);
    assert!(collected.has_no_unimplemented_abstract_members(&nothing_more()));
    let nothing = collect_hierarchy(&vec![], vec![]);
    assert!(!nothing.has_no_unimplemented_abstract_members(&nothing_more()));
}

#[test]
fn an_abstract_property_needs_each_accessor() {
    let accessor = |is_abstract: bool| HierarchyAccessor {
        is_abstract,
        external_identity: None,
    };
    let property = |getter: bool, setter: Option<bool>| HierarchyProperty {
        getter: accessor(getter),
        setter: setter.map(accessor),
    };
    let relation = nothing_more();
    assert!(!hierarchy(vec![], vec![property(true, None)])
        .has_no_unimplemented_abstract_members(&relation));
    assert!(
        hierarchy(vec![], vec![property(true, None), property(false, None)])
            .has_no_unimplemented_abstract_members(&relation)
    );
    assert!(!hierarchy(
        vec![],
        vec![property(true, Some(true)), property(false, None)]
    )
    .has_no_unimplemented_abstract_members(&relation));
    let mut delegated = hierarchy(vec![], vec![property(true, Some(true))]);
    delegated.delegated_properties.push("call".to_string());
    assert!(delegated.has_no_unimplemented_abstract_members(&relation));
}

#[test]
fn the_root_of_a_hierarchy_is_applied_to_its_own_parameters() {
    let bounds = ClassifierBounds {
        name: qualified("demo/Box"),
        type_params: vec!["T".to_string(), "R".to_string()],
        type_param_bounds: vec![vec![Ty::Int]],
    };
    assert_eq!(
        hierarchy_root(&qualified("demo/Box"), Some(&bounds)),
        Ty::obj_args("demo/Box", &[Ty::ty_param("T", Ty::Int), formal("R")])
    );
    assert_eq!(
        hierarchy_root(&qualified("demo/Box"), None),
        Ty::obj("demo/Box")
    );
}

// Declarations.

fn origin(stable: Option<u32>) -> Origin {
    Origin {
        stable_declaration: stable,
        source_file: None,
        source_decl: None,
        source_member: None,
    }
}

fn signature(stable: Option<u32>, ret: Ty) -> Signature {
    Signature {
        origin: origin(stable),
        params: vec![],
        ret,
        contract: None,
    }
}

fn class(stable: u32, name: &str) -> ClassSig {
    ClassSig {
        origin: origin(Some(stable)),
        internal: qualified(name),
        is_object: false,
        type_params: vec![],
        super_internal: None,
        super_type_args: vec![],
        interfaces: vec![],
        interface_type_args: vec![],
        callable_signature: None,
        callable_signatures: vec![],
        source_methods: vec![],
        methods: vec![],
        member_ext_funs: vec![],
        declared_props: vec![],
        contextual_props: vec![],
        member_ext_props: vec![],
        generic_property_shapes: vec![],
        props: vec![],
        constants: vec![],
    }
}

fn table() -> SourceTable {
    SourceTable {
        funs: vec![],
        ext_funs: vec![],
        source_props: vec![],
        ext_props: vec![],
        classes: vec![],
        props: vec![],
        anonymous_object_types: vec![],
        declared_spellings: vec![],
        member_spellings: vec![],
        stable_declared_spellings: vec![],
        parameter_spellings: vec![],
        visibility_suppressions: vec![],
        derived_symbols_kept: false,
    }
}

#[test]
fn a_declaration_is_found_where_one_record_claims_it() {
    let mut table = table();
    table.funs.push(signature(Some(1), Ty::Int));
    table.funs.push(signature(None, Ty::Long));
    table.ext_funs.push(signature(Some(2), Ty::Int));
    table.classes.push(class(2, "demo/Clash"));
    table.classes.push(class(3, "demo/Only"));
    let index = ResolvedSourceDeclarations::publish(&table);
    assert!(matches!(
        index.get(1),
        Some(ResolvedSourceDeclaration::Function(found)) if found.ret == Ty::Int
    ));
    assert!(index.get(2).is_none());
    assert!(index.is_conflicted(2));
    assert!(!index.is_conflicted(1));
    assert!(matches!(
        index.get(3),
        Some(ResolvedSourceDeclaration::Classifier(found)) if found.internal == qualified("demo/Only")
    ));
    assert!(index.get(9).is_none());
    assert_eq!(
        table.class_by_stable_declaration(3).unwrap().internal,
        qualified("demo/Only")
    );
    assert!(table.class_by_stable_declaration(4).is_none());
}

fn module_index() -> ResolvedModuleIndex {
    ResolvedModuleIndex {
        signatures: HashMap::new(),
        contracts: HashMap::new(),
        classifier_headers: HashMap::new(),
        declared_properties: HashMap::new(),
        properties: HashMap::new(),
        classifier_hierarchies: HashMap::new(),
        declaration_spellings: HashMap::new(),
        visibility_suppressions: HashMap::new(),
        compile_time_constants: HashMap::new(),
    }
}

#[test]
fn a_settled_result_replaces_a_pending_one() {
    let mut index = module_index();
    index.signatures.insert(
        1,
        ResolvedSignature {
            result: list(Ty::Int),
            parameters: vec![],
        },
    );
    index.contracts.insert(1, 8);
    let mut settled = signature(Some(1), Ty::Pending);
    project_callable(&index, &mut settled, false, &vec![], &vec![]);
    assert_eq!(settled.ret, list(Ty::Int));
    assert_eq!(settled.contract, Some(8));
    project_callable(&index, &mut settled, false, &vec![], &vec![]);
    assert_eq!(settled.ret, list(Ty::Int));
    let mut open = signature(Some(2), Ty::Pending);
    project_callable(&index, &mut open, false, &vec![], &vec![]);
    assert_eq!(open.ret, Ty::Pending);
    assert_eq!(open.contract, None);
}

#[test]
fn an_anonymous_object_sees_its_own_formals() {
    let spellings = vec![
        ("T#1".to_string(), "T".to_string()),
        ("T#2".to_string(), "T".to_string()),
    ];
    let formals = vec!["T#2".to_string()];
    assert_eq!(
        classifier_relative_type(&list(formal("T#1")), &formals, &spellings),
        list(formal("T#2"))
    );
    assert_eq!(
        classifier_relative_type(&formal("R"), &formals, &spellings),
        formal("R")
    );
}

fn constant(name: &str) -> SourceProperty {
    SourceProperty {
        origin: origin(None),
        name: name.to_string(),
        ty: Ty::Int,
        storage_ty: None,
        context_params: vec![],
        compile_time_constant: None,
    }
}

#[test]
fn constants_are_folded_until_none_is_left() {
    let folder = ConstantInitializers {
        initializers: vec![
            ConstantInitializer::Read(1),
            ConstantInitializer::Read(2),
            ConstantInitializer::Literal(LibConst::Int(5)),
            ConstantInitializer::Read(3),
        ],
    };
    let mut properties = vec![constant("a"), constant("b"), constant("c"), constant("d")];
    publish_listed_constants(&folder, &mut properties, &vec![0, 1, 2, 3]);
    for property in properties.iter().take(3) {
        assert!(matches!(
            property.compile_time_constant,
            Some(LibConst::Int(5))
        ));
    }
    assert!(properties[3].compile_time_constant.is_none());
}

fn declared(name: &str, is_const: bool, has_receiver: bool, init: Option<u32>) -> PropDecl {
    PropDecl {
        name: name.to_string(),
        is_const,
        has_receiver,
        init: init.map(ExprId),
        delegate: None,
        getter: None,
        setter: None,
    }
}

fn source_file(declarations: Vec<Decl>) -> File {
    File {
        exprs: vec![Expr::IntLit(7), Expr::Name("x".to_string())],
        stmts: vec![],
        decls: (0..declarations.len() as u32).map(DeclId).collect(),
        declarations,
        anon_fun_lambdas: vec![],
        anon_fun_context_count: HashMap::new(),
        local_class_decls: HashMap::new(),
    }
}

fn at(file: u32, declaration: u32) -> Origin {
    Origin {
        source_file: Some(file),
        source_decl: Some(declaration),
        ..origin(None)
    }
}

#[test]
fn constants_are_those_that_the_source_declares() {
    let files = vec![
        source_file(vec![
            Decl::Property(declared("plain", false, false, Some(0))),
            Decl::Property(declared("late", true, false, Some(1))),
        ]),
        source_file(vec![
            Decl::Property(declared("extension", true, true, Some(0))),
            Decl::Property(declared("empty", true, false, None)),
            Decl::Property(declared("early", true, false, Some(0))),
            Decl::Property(declared("unknown", true, false, Some(0))),
        ]),
    ];
    let mut properties = vec![];
    for (name, place) in [
        ("early", at(1, 2)),
        ("extension", at(1, 0)),
        ("empty", at(1, 1)),
        ("plain", at(0, 0)),
        ("late", at(0, 1)),
    ] {
        let mut property = constant(name);
        property.origin = place;
        properties.push(property);
    }
    assert_eq!(list_constants(&properties, &files), vec![4, 0]);
    let folder = ConstantInitializers {
        initializers: vec![
            ConstantInitializer::Literal(LibConst::Int(5)),
            ConstantInitializer::Literal(LibConst::Int(6)),
            ConstantInitializer::Literal(LibConst::Int(6)),
            ConstantInitializer::Literal(LibConst::Int(6)),
            ConstantInitializer::Read(0),
        ],
    };
    publish_checked_compile_time_constants(&folder, &files, &mut properties);
    for (place, property) in properties.iter().enumerate() {
        match &property.compile_time_constant {
            Some(LibConst::Int(5)) => assert!(place == 0 || place == 4),
            None => assert!(place != 0 && place != 4),
            other => panic!("{other:?}"),
        }
    }
}

#[test]
fn an_object_publishes_its_literal_constants() {
    let body = || ClassDecl {
        name: "Limits".to_string(),
        props: vec![],
        body_props: vec![
            declared("plain", false, false, Some(0)),
            declared("limit", true, false, Some(0)),
            declared("computed", true, false, Some(1)),
            declared("empty", true, false, None),
        ],
        methods: vec![],
        base_args: vec![],
        init_order: vec![],
        secondary_ctors: vec![],
        interface_delegations: vec![],
    };
    let files = vec![source_file(vec![Decl::Class(body()), Decl::Class(body())])];
    let members = list_member_constants(&files);
    assert_eq!(
        members
            .iter()
            .map(|member| (member.declaration, member.name.as_str()))
            .collect::<Vec<_>>(),
        vec![(0, "limit"), (0, "computed"), (1, "limit"), (1, "computed")]
    );
    let mut table = table();
    for (declaration, is_object) in [(0, true), (1, false)] {
        let mut signature = class(declaration, "demo/Limits");
        signature.origin = at(0, declaration);
        signature.is_object = is_object;
        signature.declared_props = ["plain", "limit", "computed"]
            .iter()
            .map(|name| MemberProperty {
                origin: origin(None),
                name: name.to_string(),
                ty: Ty::Int,
                storage_ty: None,
            })
            .collect();
        table.classes.push(signature);
    }
    publish_member_constants(&files, &mut table);
    assert_eq!(table.classes[0].constants.len(), 1);
    assert_eq!(table.classes[0].constants[0].0, "limit");
    assert!(matches!(
        table.classes[0].constants[0].1,
        LibConst::Int(7)
    ));
    assert!(table.classes[1].constants.is_empty());
}

// Spellings.

#[test]
fn types_are_spelled_for_the_author() {
    for (ty, text) in [
        (list(Ty::nullable(Ty::Int)), "List<Int?>"),
        (
            Ty::nullable(Ty::fun(vec![Ty::Int, Ty::String], Ty::Unit)),
            "((Int, String) -> Unit)?",
        ),
        (Ty::fun_suspend(vec![], Ty::Long), "suspend () -> Long"),
        (Ty::PlatformNullable(Box::new(Ty::String)), "String!"),
        (
            Ty::obj_args("demo/Box", &[Ty::OutProjection(Box::new(formal("T")))]),
            "Box<out T>",
        ),
        (
            Ty::obj_args("demo/Box", &[Ty::star_projection(any())]),
            "Box<*>",
        ),
        (Ty::Null, "Nothing?"),
        (Ty::Pending, "<pending>"),
    ] {
        assert_eq!(spell(&ty), text);
    }
}
