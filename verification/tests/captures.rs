//! What bodies capture.

use std::collections::HashMap;

use krusty::ast::{
    ClassDecl, CtorPropDecl, Decl, DeclId, DestructureEntry, Expr, ExprId, File, FunBody, FunDecl,
    ParamDecl, PropDecl, Stmt, StmtId,
};
use krusty::resolve::calls::{ImplicitReceiverSelection, ResolvedContextArgument};
use krusty::resolve::capture_analysis::{
    local_class_declarations, local_fun_body_uses_any, own_property_initializer_uses_outer_name,
    statement_uses_name, used_names, uses_name,
};
use krusty::resolve::capture_storage::{
    anonymous_body_bound_value_names, anonymous_body_writes_name, anonymous_descendants,
    expression_writes_name, local_class_capture_expressions, AnonymousLexicalClassScope,
    CapturedBinding, OwnerLink,
};
use krusty::resolve::context_capture::selected_context_values;
use krusty::types::Ty;

fn file(exprs: Vec<Expr>, stmts: Vec<Stmt>) -> File {
    File {
        exprs,
        stmts,
        declarations: vec![],
        decls: vec![],
        anon_fun_lambdas: vec![],
        anon_fun_context_count: HashMap::new(),
        local_class_decls: HashMap::new(),
    }
}

fn name(spelled: &str) -> Expr {
    Expr::Name(spelled.to_string())
}

fn names(spelled: &[&str]) -> Vec<String> {
    spelled.iter().map(|one| one.to_string()).collect()
}

fn class(spelled: &str) -> ClassDecl {
    ClassDecl {
        name: spelled.to_string(),
        props: vec![],
        body_props: vec![],
        methods: vec![],
        base_args: vec![],
        init_order: vec![],
        secondary_ctors: vec![],
        interface_delegations: vec![],
    }
}

fn property(spelled: &str, init: ExprId) -> PropDecl {
    PropDecl {
        name: spelled.to_string(),
        is_const: false,
        has_receiver: false,
        init: Some(init),
        delegate: None,
        getter: None,
        setter: None,
    }
}

#[test]
fn a_lambda_binds_its_parameters() {
    let file = file(
        vec![
            name("x"),
            Expr::Lambda {
                params: names(&["x"]),
                body: ExprId(0),
            },
            Expr::Lambda {
                params: names(&["y"]),
                body: ExprId(0),
            },
            name("it"),
            Expr::Lambda {
                params: vec![],
                body: ExprId(3),
            },
            Expr::Lambda {
                params: names(&["y"]),
                body: ExprId(3),
            },
        ],
        vec![],
    );
    assert!(!uses_name(&file, ExprId(1), "x"));
    assert!(uses_name(&file, ExprId(2), "x"));
    assert!(!uses_name(&file, ExprId(4), "it"));
    assert!(uses_name(&file, ExprId(5), "it"));
}

#[test]
fn a_local_hides_an_outer_name_from_there_on() {
    let file = file(
        vec![
            name("x"),
            Expr::IntLit(1),
            Expr::Block {
                stmts: vec![StmtId(0)],
                trailing: Some(ExprId(0)),
            },
            Expr::Block {
                stmts: vec![StmtId(1), StmtId(0)],
                trailing: None,
            },
        ],
        vec![
            Stmt::Local {
                name: "x".to_string(),
                init: ExprId(1),
            },
            Stmt::Expr(ExprId(0)),
            Stmt::Assign {
                name: "z".to_string(),
                value: ExprId(1),
            },
        ],
    );
    assert!(!uses_name(&file, ExprId(2), "x"));
    assert!(uses_name(&file, ExprId(3), "x"));
    assert!(statement_uses_name(&file, StmtId(2), "z"));
    assert!(local_fun_body_uses_any(&file, ExprId(3), &names(&["a", "x"])));
    assert!(!local_fun_body_uses_any(&file, ExprId(3), &names(&["a"])));
}

#[test]
fn used_names_are_in_spelling_order() {
    let file = file(
        vec![
            name("b"),
            name("a"),
            Expr::Call {
                callee: ExprId(0),
                args: vec![ExprId(1)],
            },
        ],
        vec![],
    );
    assert_eq!(
        used_names(&file, ExprId(2), &names(&["c", "b", "a", "b"])),
        names(&["a", "b"])
    );
}

#[test]
fn a_loop_binds_its_variable_in_its_body() {
    let file = file(
        vec![name("x")],
        vec![Stmt::ForEach {
            name: "x".to_string(),
            iterable: ExprId(0),
            body: ExprId(0),
        }],
    );
    assert!(statement_uses_name(&file, StmtId(0), "x"));
    assert!(!statement_uses_name(&file, StmtId(0), "y"));
}

#[test]
fn a_shared_cell_is_a_mutable_binding_that_is_written() {
    let binding = |mutable: bool, already_shared: bool, written_here: bool, delegated: bool| {
        CapturedBinding {
            delegated,
            mutable,
            already_shared,
            written_here,
        }
        .is_shared_cell()
    };
    assert!(binding(true, false, true, false));
    assert!(binding(true, true, false, false));
    assert!(!binding(true, false, false, false));
    assert!(!binding(false, true, true, false));
    assert!(!binding(true, true, true, true));
}

#[test]
fn writes_are_found_in_bodies() {
    let mut file = file(
        vec![
            Expr::IntLit(1),
            Expr::Block {
                stmts: vec![StmtId(0)],
                trailing: None,
            },
            name("count"),
        ],
        vec![Stmt::Assign {
            name: "count".to_string(),
            value: ExprId(0),
        }],
    );
    assert!(expression_writes_name(&file, ExprId(1), "count"));
    assert!(!expression_writes_name(&file, ExprId(1), "other"));
    assert!(!expression_writes_name(&file, ExprId(2), "count"));
    let mut declared = class("Anonymous");
    declared.methods.push(FunDecl {
        name: "run".to_string(),
        params: vec![ParamDecl {
            name: "step".to_string(),
            default: None,
        }],
        body: FunBody::Block(ExprId(1)),
    });
    declared.props.push(CtorPropDecl {
        name: "kept".to_string(),
        default: None,
    });
    assert_eq!(
        local_class_capture_expressions(&declared),
        vec![ExprId(1)]
    );
    file.declarations.push(Decl::Class(declared));
    assert!(anonymous_body_writes_name(&file, DeclId(0), "count"));
    assert!(!anonymous_body_writes_name(&file, DeclId(0), "other"));
    let bound = anonymous_body_bound_value_names(&file, DeclId(0));
    assert!(bound.contains(&"kept".to_string()));
    assert!(!bound.contains(&"count".to_string()));
}

#[test]
fn an_initializer_reads_the_outer_name_of_its_own_property() {
    let mut file = file(vec![name("x"), Expr::IntLit(1)], vec![]);
    let mut shadowing = class("Shadowing");
    shadowing.body_props.push(property("x", ExprId(0)));
    let mut plain = class("Plain");
    plain.body_props.push(property("x", ExprId(1)));
    file.declarations.push(Decl::Class(shadowing));
    file.declarations.push(Decl::Class(plain));
    assert!(own_property_initializer_uses_outer_name(
        &file,
        DeclId(0),
        "x"
    ));
    assert!(!own_property_initializer_uses_outer_name(
        &file,
        DeclId(1),
        "x"
    ));
}

#[test]
fn descendants_are_followed_through_their_owners() {
    let link = |class: u32, owner: u32| OwnerLink {
        class: DeclId(class),
        owner: DeclId(owner),
    };
    let scope = AnonymousLexicalClassScope {
        owners: vec![link(2, 1), link(3, 2), link(4, 9)],
    };
    assert_eq!(scope.owner(DeclId(3)), Some(DeclId(2)));
    assert_eq!(scope.owner(DeclId(1)), None);
    let found = anonymous_descendants(DeclId(1), &scope);
    assert!(found.contains(&DeclId(2)));
    assert!(found.contains(&DeclId(3)));
    assert!(!found.contains(&DeclId(4)));
}

#[test]
fn local_classes_are_listed() {
    let mut file = file(
        vec![Expr::Block {
            stmts: vec![StmtId(0)],
            trailing: None,
        }],
        vec![Stmt::LocalClass(class("Local"))],
    );
    file.declarations.push(Decl::Class(class("Local")));
    file.local_class_decls.insert(0, DeclId(0));
    assert_eq!(
        local_class_declarations(&file, ExprId(0)),
        vec![DeclId(0)]
    );
}

fn receiver(depth: usize) -> ImplicitReceiverSelection {
    ImplicitReceiverSelection {
        context_binding: None,
        singleton: None,
        receiver_depth: depth,
        current: false,
    }
}

#[test]
fn context_values_are_collected_once() {
    let file = file(
        vec![
            name("f"),
            Expr::Call {
                callee: ExprId(0),
                args: vec![],
            },
            Expr::Call {
                callee: ExprId(0),
                args: vec![ExprId(1)],
            },
        ],
        vec![],
    );
    let types = [Ty::Unit, Ty::Unit, Ty::Unit];
    let binding = || ResolvedContextArgument::Binding {
        name: "logger".to_string(),
        shadow_depth: 0,
    };
    let mut context_args = HashMap::new();
    context_args.insert(1, vec![binding()]);
    context_args.insert(2, vec![binding()]);
    let mut receivers = HashMap::new();
    receivers.insert(1, receiver(1));
    receivers.insert(2, receiver(1));
    let (sources, selected) = selected_context_values(
        &file,
        &types,
        &receivers,
        &context_args,
        &HashMap::new(),
        &HashMap::new(),
        ExprId(2),
        true,
    );
    assert_eq!(sources.len(), 1);
    assert!(sources[0] == binding());
    assert_eq!(selected.len(), 1);
    assert_eq!(selected[0].receiver_depth, 1);
}

#[test]
fn a_component_that_is_passed_over_hides_nothing() {
    let destructured = |spelled: &str, ignored: bool| {
        file(
            vec![
                name("_"),
                Expr::IntLit(1),
                Expr::Block {
                    stmts: vec![StmtId(0)],
                    trailing: Some(ExprId(0)),
                },
            ],
            vec![Stmt::Destructure {
                entries: vec![DestructureEntry {
                    name: spelled.to_string(),
                    ignored,
                }],
                init: ExprId(1),
            }],
        )
    };
    assert!(uses_name(&destructured("_", true), ExprId(2), "_"));
    assert!(!uses_name(&destructured("_", false), ExprId(2), "_"));
    assert!(uses_name(&destructured("x", false), ExprId(2), "_"));
}

#[test]
fn a_shallow_scan_stops_at_a_lambda() {
    let file = file(
        vec![
            name("f"),
            Expr::Call {
                callee: ExprId(0),
                args: vec![],
            },
            Expr::Lambda {
                params: vec![],
                body: ExprId(1),
            },
            Expr::Call {
                callee: ExprId(0),
                args: vec![ExprId(2)],
            },
        ],
        vec![],
    );
    let types = [Ty::Unit, Ty::Unit, Ty::Unit, Ty::Unit];
    let binding = |spelled: &str| ResolvedContextArgument::Binding {
        name: spelled.to_string(),
        shadow_depth: 0,
    };
    let scan = |inside: Option<&str>, deep: bool| {
        let mut context_args = HashMap::new();
        context_args.insert(3, vec![binding("outer")]);
        if let Some(spelled) = inside {
            context_args.insert(1, vec![binding(spelled)]);
        }
        selected_context_values(
            &file,
            &types,
            &HashMap::new(),
            &context_args,
            &HashMap::new(),
            &HashMap::new(),
            ExprId(3),
            deep,
        )
        .0
    };
    assert!(scan(None, false) == vec![binding("outer")]);
    assert!(scan(Some("inner"), false) == scan(None, false));
    assert!(scan(Some("inner"), true) == vec![binding("outer"), binding("inner")]);
}

#[test]
fn a_file_is_ordered_by_nesting() {
    assert!(file(vec![], vec![]).is_well_formed());
    let nested = |condition: u32, statement: u32| {
        file(
            vec![
                name("x"),
                Expr::Block {
                    stmts: vec![StmtId(statement)],
                    trailing: None,
                },
            ],
            vec![Stmt::While {
                condition: ExprId(condition),
                body: ExprId(0),
            }],
        )
    };
    assert!(nested(0, 0).is_well_formed());
    // A loop inside itself, and two nodes that are not there.
    assert!(!nested(1, 0).is_well_formed());
    assert!(!nested(2, 0).is_well_formed());
    assert!(!nested(0, 1).is_well_formed());
}
