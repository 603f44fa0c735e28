//! Binding the types of expected and actual declarations.

use krusty::names::{qualified, TypeName};
use krusty::resolve::actualization_names::{
    actualization_type_bindings, resolver_inputs, ActualizationTypeBindings, DeclarationStub,
    HeaderModule, HeaderType, SourceHeader, StubKind,
};
use krusty::resolve::import_scopes::{DeclaredClassifiers, SourceImport};

fn text(words: &[&str]) -> Vec<String> {
    words.iter().map(|word| word.to_string()).collect()
}

fn source(import: &str) -> SourceHeader {
    SourceHeader {
        package: qualified("fixture"),
        imports: Some(vec![SourceImport {
            path: import.split('.').map(|word| word.to_string()).collect(),
            visible_name: String::new(),
            wildcard: true,
        }]),
    }
}

fn classifier(path: &[&str]) -> HeaderType {
    HeaderType::Classifier {
        path: text(path),
        arguments: vec![],
        abbreviated_argument: None,
    }
}

/// `expect fun consume(value: Marker): Int` in the common source, and its `actual` counterpart in
/// the platform source.
fn headers(platform_import: &str) -> HeaderModule {
    HeaderModule {
        sources: vec![source("dependency.left"), source(platform_import)],
        classifier_names: vec![],
        stubs: vec![
            DeclarationStub {
                id: 0,
                source: 0,
                kind: StubKind::Callable,
                identity: None,
                type_roots: vec![0, 1],
            },
            DeclarationStub {
                id: 1,
                source: 1,
                kind: StubKind::Callable,
                identity: None,
                type_roots: vec![2, 3],
            },
        ],
        types: vec![
            classifier(&["Marker"]),
            classifier(&["Int"]),
            classifier(&["Marker"]),
            classifier(&["Int"]),
        ],
    }
}

fn platform() -> DeclaredClassifiers {
    DeclaredClassifiers {
        declarations: vec![
            qualified("dependency/left/Marker"),
            qualified("dependency/right/Marker"),
            qualified("kotlin/Int"),
        ],
    }
}

fn bindings(headers: &HeaderModule) -> ActualizationTypeBindings {
    let inputs = resolver_inputs(headers, platform(), &vec![]);
    actualization_type_bindings(headers, &inputs)
}

/// Whether the two declarations name the same classifiers.
fn matched(headers: &HeaderModule, bindings: &ActualizationTypeBindings) -> bool {
    let bound = |stub: &DeclarationStub| -> Vec<Option<TypeName>> {
        stub.type_roots
            .iter()
            .map(|root| bindings.types[stub.source][*root].clone())
            .collect()
    };
    bound(&headers.stubs[0]) == bound(&headers.stubs[1])
}

#[test]
fn dependency_wildcards_bind_through_the_provider_before_actualization() {
    let same = headers("dependency.left");
    let found = bindings(&same);
    assert!(matched(&same, &found));
    assert_eq!(
        found.types[0][0],
        Some(qualified("dependency/left/Marker"))
    );
    assert_eq!(found.types[0][1], Some(qualified("kotlin/Int")));

    let different = headers("dependency.right");
    let found = bindings(&different);
    assert!(!matched(&different, &found));
    assert_eq!(
        found.types[1][2],
        Some(qualified("dependency/right/Marker"))
    );
}

#[test]
fn a_source_binds_only_its_own_types() {
    let headers = headers("dependency.left");
    let found = bindings(&headers);
    assert_eq!(found.types[0][2], None);
    assert_eq!(found.types[1][0], None);
}

#[test]
fn an_import_of_nothing_leaves_a_file_without_a_scope() {
    let headers = headers("dependency.middle");
    let found = bindings(&headers);
    assert_eq!(found.types[1][2], None);
}

#[test]
fn an_import_of_two_things_under_one_name_binds_nothing() {
    let mut headers = headers("dependency.left");
    let named = |package: &str| SourceImport {
        path: text(&["dependency", package, "Marker"]),
        visible_name: "Marker".to_string(),
        wildcard: false,
    };
    headers.sources[0].imports = Some(vec![named("left"), named("right")]);
    assert_eq!(bindings(&headers).types[0][0], None);
    headers.sources[0].imports = Some(vec![named("right"), named("right")]);
    assert_eq!(
        bindings(&headers).types[0][0],
        Some(qualified("dependency/right/Marker"))
    );
}

#[test]
fn classifiers_and_aliases_are_bound_to_their_identity() {
    let mut headers = headers("dependency.left");
    headers.stubs.push(DeclarationStub {
        id: 7,
        source: 0,
        kind: StubKind::TypeAlias,
        identity: Some(qualified("fixture/Alias")),
        type_roots: vec![4],
    });
    headers.types.push(HeaderType::Function {
        parameters: vec![5],
        result: Some(0),
    });
    headers.types.push(classifier(&["Alias"]));
    let found = bindings(&headers);
    assert_eq!(found.declarations, vec![(7, qualified("fixture/Alias"))]);
    assert_eq!(found.types[0][4], None);
    assert_eq!(found.types[0][5], Some(qualified("fixture/Alias")));
}

#[test]
fn a_qualified_spelling_needs_no_import() {
    let mut headers = headers("dependency.left");
    headers.types[0] = classifier(&["dependency", "right", "Marker"]);
    assert_eq!(
        bindings(&headers).types[0][0],
        Some(qualified("dependency/right/Marker"))
    );
}
