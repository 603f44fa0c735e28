//! Joining compiled and source declarations of a dependency.

use std::rc::Rc;

use krusty::libraries::{
    Callables, FnKind, FunctionInfo, FunctionSet, InlineKind, LibraryCallable, LibraryMember,
    LibraryType, NamedCallables, Origin, PropKind, PropertyInfo, PropertySet, TypeKind, Visibility,
};
use krusty::model::Modelled;
use krusty::names::{qualified, TypeName};
use krusty::resolve::dependency_platform::{
    merge_functions, merge_properties, merge_type, AliasExpansion, DependencyPlatform, ExpandedAlias,
    SemanticPlatform, SourceTypeAccess,
};
use krusty::resolve::import_scopes::declaration_header;
use krusty::symbols::{ResolvedSymbols, SymbolEntry, SymbolNamespace, SymbolTable};
use krusty::types::Ty;

fn type_shape(public: bool) -> LibraryType {
    let mut shape = declaration_header();
    shape.access = if public {
        Visibility::Public
    } else {
        Visibility::Private
    };
    shape
}

fn classifier_entry(name: &TypeName, public: bool) -> SymbolEntry {
    SymbolEntry {
        name: name.clone(),
        symbols: ResolvedSymbols {
            classifier_name: Some(name.clone()),
            classifier: Some(type_shape(public)),
            callables: Callables::nothing(),
            importable_declaration: true,
        },
    }
}

fn platform(entries: Vec<SymbolEntry>) -> SemanticPlatform {
    SemanticPlatform {
        table: SymbolTable {
            entries,
            packages: vec![],
        },
        value_forms: vec![],
        function_types: vec![],
        value_underlyings: vec![],
        inheriting_classifiers: vec![],
        type_aliases: vec![],
    }
}

fn property(
    owner: &TypeName,
    visibility: Visibility,
    mutable: bool,
    origin: Origin,
) -> PropertyInfo {
    let mut getter = LibraryCallable::library(owner, "getValue", vec![], Ty::Int, Ty::Int, "()I");
    getter.origin = origin.duplicate();
    let setter = if mutable {
        let mut setter = LibraryCallable::library(
            owner,
            "setValue",
            vec![Ty::Int],
            Ty::Unit,
            Ty::Unit,
            "(I)V",
        );
        setter.origin = origin;
        Some(setter)
    } else {
        None
    };
    PropertyInfo {
        name: "value".to_string(),
        kind: PropKind::Member,
        receiver: Some(Ty::obj_name(owner)),
        ty: Ty::Int,
        context_count: 0,
        getter,
        setter,
        setter_visibility: visibility,
        is_const: false,
        compile_time_constant: None,
        visibility,
        owner: owner.clone(),
        receiver_rank: 0,
    }
}

fn module(owner: &TypeName) -> Origin {
    Origin::Module {
        facade: owner.clone(),
    }
}

#[test]
fn symbols_reuses_the_merged_record_for_a_repeated_query() {
    let fqn = qualified("demo/twice");
    let mut dependencies = DependencyPlatform::new(
        platform(vec![classifier_entry(&fqn, true)]),
        SymbolTable::new(),
        vec![],
    );
    let namespace = SymbolNamespace::Package(qualified("demo"));
    let first = dependencies.symbols(&namespace, "twice");
    let second = dependencies.symbols(&namespace, "twice");
    assert!(
        !first.is_empty(),
        "the test must exercise a positive memo entry"
    );
    assert!(
        Rc::ptr_eq(&first, &second),
        "repeated queries must not re-merge the namespace record"
    );
}

#[test]
fn dependency_wrapper_preserves_foreign_classifier_inheritance_capability() {
    let classifier = qualified("foreign/Derived");
    let mut primary = platform(vec![]);
    primary.inheriting_classifiers.push(classifier.clone());
    let dependencies = DependencyPlatform::new(primary, SymbolTable::new(), vec![]);

    assert!(dependencies.inherits_classifier_callables(&classifier));
}

#[test]
fn source_property_replaces_incomplete_primary_metadata() {
    let owner = qualified("demo/Owner");
    let platform = platform(vec![classifier_entry(&owner, true)]);
    let source = property(&owner, Visibility::Public, true, module(&owner));

    for primary in [
        property(&owner, Visibility::Private, true, Origin::Library),
        property(&owner, Visibility::Public, false, Origin::Library),
    ] {
        let merged = merge_properties(
            &platform,
            PropertySet {
                overloads: vec![primary],
            },
            PropertySet {
                overloads: vec![source.duplicate()],
            },
        );
        assert_eq!(merged.overloads.len(), 1);
        assert!(merged.overloads[0].setter.is_some());
        assert!(matches!(
            merged.overloads[0].getter.origin,
            Origin::Module { .. }
        ));
    }
}

#[test]
fn public_primary_property_covers_source_metadata() {
    let owner = qualified("demo/Owner");
    let platform = platform(vec![classifier_entry(&owner, true)]);
    let merged = merge_properties(
        &platform,
        PropertySet {
            overloads: vec![property(&owner, Visibility::Public, true, Origin::Library)],
        },
        PropertySet {
            overloads: vec![property(&owner, Visibility::Public, true, module(&owner))],
        },
    );

    assert_eq!(merged.overloads.len(), 1);
    assert!(matches!(merged.overloads[0].getter.origin, Origin::Library));
}

#[test]
fn matching_source_function_restores_kotlin_declaration_capabilities() {
    let owner = qualified("demo/Delegate");
    let mut member = LibraryMember::new(
        "getValue".to_string(),
        vec![Ty::nullable(Ty::obj("kotlin/Any")), Ty::obj("kotlin/Any")],
        Ty::Int,
        "(Ljava/lang/Object;Ljava/lang/Object;)I".to_string(),
    );
    member.owner = Some(owner.clone());
    let primary = FunctionInfo::classifier_member(FnKind::Member, &owner, member);
    let mut source = primary.duplicate();
    source.flags.operator = true;
    source.flags.inline = InlineKind::CanInline;
    source.callable.inline = InlineKind::CanInline;

    let merged = merge_functions(
        &platform(vec![]),
        FunctionSet {
            overloads: vec![primary],
        },
        FunctionSet {
            overloads: vec![source],
        },
    );

    assert_eq!(merged.overloads.len(), 1);
    assert!(merged.overloads[0].flags.operator);
    assert_eq!(merged.overloads[0].flags.inline, InlineKind::CanInline);
    assert_eq!(merged.overloads[0].callable.inline, InlineKind::CanInline);
    assert_eq!(
        merged.overloads[0].callable.descriptor,
        "(Ljava/lang/Object;Ljava/lang/Object;)I",
    );
}

#[test]
fn property_on_non_public_primary_type_uses_source_metadata() {
    let owner = qualified("demo/Owner");
    let platform = platform(vec![classifier_entry(&owner, false)]);
    let merged = merge_properties(
        &platform,
        PropertySet {
            overloads: vec![property(&owner, Visibility::Public, false, Origin::Library)],
        },
        PropertySet {
            overloads: vec![property(&owner, Visibility::Public, false, module(&owner))],
        },
    );

    assert_eq!(merged.overloads.len(), 1);
    assert!(matches!(
        merged.overloads[0].getter.origin,
        Origin::Module { .. }
    ));
}

#[test]
fn dependency_projection_preserves_protected_members_for_core_access_checks() {
    let owner = qualified("demo/Base");
    let mut classifier = type_shape(true);
    let mut member = LibraryMember::new("secret".to_string(), vec![], Ty::Int, "()I".to_string());
    member.owner = Some(owner.clone());
    member.visibility = Visibility::Protected;
    classifier.members.push(member.duplicate());

    let mut function = FunctionInfo::classifier_member(FnKind::Member, &owner, member);
    function.visibility = Visibility::Protected;
    let mut callables = Callables::nothing();
    callables.functions.overloads.push(function);
    classifier.declared_callables.push(NamedCallables {
        name: "secret".to_string(),
        callables,
    });
    let merged = merge_type(&platform(vec![]), type_shape(true), classifier);
    assert_eq!(merged.members.len(), 1);
    assert_eq!(merged.members[0].visibility, Visibility::Protected);
    let secret = merged
        .declared_callables
        .iter()
        .find(|entry| entry.name == "secret")
        .unwrap();
    assert_eq!(
        secret.callables.functions.overloads[0].visibility,
        Visibility::Protected
    );
}

#[test]
fn source_enum_entries_are_the_authoritative_declaration_list() {
    let mut primary = type_shape(true);
    primary.kind = TypeKind::Enum;
    primary.enum_entries = vec!["STALE".to_string()];

    let mut source = type_shape(true);
    source.kind = TypeKind::Enum;
    source.enum_entries = vec!["FIRST".to_string(), "SECOND".to_string()];

    let merged = merge_type(&platform(vec![]), primary, source);

    assert_eq!(merged.enum_entries, ["FIRST", "SECOND"]);
}

#[test]
fn a_private_source_owner_hides_what_is_inside_it() {
    let outer = qualified("demo/Outer");
    let inner = qualified("demo/Outer.Inner");
    let free = qualified("demo/Free");
    let mut source = SymbolTable::new();
    source.entries.push(classifier_entry(&outer, false));
    source.entries.push(classifier_entry(&inner, true));
    source.entries.push(classifier_entry(&free, true));
    let dependencies = DependencyPlatform::new(platform(vec![]), source, vec![]);
    assert_eq!(
        dependencies.source_type_access(&inner),
        SourceTypeAccess::HiddenByOwner(Visibility::Private)
    );
    assert_eq!(
        dependencies.source_type_access(&free),
        SourceTypeAccess::Declared(Visibility::Public)
    );
    assert_eq!(
        dependencies.source_type_access(&qualified("demo/Elsewhere")),
        SourceTypeAccess::Absent
    );
}

#[test]
fn a_source_alias_is_read_through_its_target() {
    let target = qualified("demo/Target");
    let alias = qualified("demo/Alias");
    let mut dependencies = DependencyPlatform::new(
        platform(vec![classifier_entry(&target, true)]),
        SymbolTable::new(),
        vec![AliasExpansion {
            identity: alias,
            formals: vec![],
            expansion: Ty::obj("demo/Target"),
            expansion_spelling: "Target".to_string(),
        }],
    );
    let found = dependencies.symbols(&SymbolNamespace::Package(qualified("demo")), "Alias");
    assert!(!found.is_empty());
    let nothing = dependencies.symbols(&SymbolNamespace::Package(qualified("demo")), "Nothing");
    assert!(nothing.is_empty());
}

fn alias(identity: &str, expansion: Ty) -> AliasExpansion {
    AliasExpansion {
        identity: qualified(identity),
        formals: vec![],
        expansion,
        expansion_spelling: String::new(),
    }
}

#[test]
fn a_source_alias_comes_before_a_compiled_one() {
    let mut compiled = platform(vec![]);
    compiled.function_types = vec![Ty::obj("kotlin/Function0"), Ty::obj("kotlin/Function1")];
    for (name, target) in [("demo/Callback", "demo/Old"), ("demo/Known", "demo/Other")] {
        compiled.type_aliases.push(ExpandedAlias {
            target: qualified(target),
            alias: alias(name, Ty::obj(target)),
        });
    }
    let dependencies = DependencyPlatform::new(
        compiled,
        SymbolTable::new(),
        vec![
            alias("demo/Callback", Ty::fun(vec![Ty::Int], Ty::Unit)),
            alias("demo/Wide", Ty::fun(vec![Ty::Int, Ty::Int], Ty::Unit)),
        ],
    );
    let target = |name: &str| {
        dependencies
            .type_alias_expansion(&qualified(name))
            .map(|found| found.target)
    };
    assert_eq!(target("demo/Callback"), Some(qualified("kotlin/Function1")));
    assert_eq!(target("demo/Known"), Some(qualified("demo/Other")));
    assert_eq!(target("demo/Wide"), None);
    assert_eq!(target("demo/Nowhere"), None);
    assert!(dependencies
        .source_alias_expansion(&qualified("demo/Known"))
        .is_none());
}

#[test]
fn a_package_is_known_on_either_side() {
    let mut compiled = platform(vec![]);
    compiled.table.packages.push(qualified("demo/compiled"));
    let mut source = SymbolTable::new();
    source.packages.push(qualified("demo/source"));
    let dependencies = DependencyPlatform::new(compiled, source, vec![]);
    let parent = qualified("demo");
    assert!(dependencies.package_exists(&parent, "compiled"));
    assert!(dependencies.package_exists(&parent, "source"));
    assert!(!dependencies.package_exists(&parent, "other"));
    assert!(!dependencies.package_exists(&qualified("compiled"), "demo"));
}
