//! How a captured binding is represented, and the write analysis that decides it.
//!
//! A closure that only reads a binding can be handed a copy of its value. One that writes it, or
//! that shares it with something else that writes it, cannot: every closure and the enclosing
//! frame have to see the same storage, so the binding becomes one mutable cell and every capture
//! of it carries that cell.

use vstd::prelude::*;

use crate::ast::{
    accessor_expr, child_exprs, child_nodes, class_exprs, ctor_exprs, default_values, fun_body_expr,
    fun_body_expr_spec, gathered, init_block, lemma_gathered_all, lemma_gathered_step,
    local_class_exprs, optional, setter_expr, stmt_children, ClassDecl, ClassInit, CtorDelegation,
    CtorPropDecl, Decl, DeclId, Expr, ExprId, File, FunBody, FunDecl, Node, PropDecl,
    SecondaryCtorDecl, SetterDecl, Stmt,
};
use crate::resolve::capture_analysis::{
    declares_param, initializer_reads, initializers_in, own_property_initializer_uses_outer_name,
};
use crate::text::{holds_name, same_text, views};

verus! {

broadcast use crate::text::group_views;

/// What the checker knows about a binding when it decides how a capture of it is represented.
#[derive(Clone, Copy, Debug)]
pub struct CapturedBinding {
    /// A local delegated property: it reads and writes through an immutable storage object, so a
    /// capture of it captures that object and never a cell, however mutable the property is.
    pub delegated: bool,
    /// Declared `var`. A `val` can always be copied.
    pub mutable: bool,
    /// The binding is already one shared cell: it is a capture field of an enclosing local or
    /// anonymous classifier, declared as a cell when that classifier's captures were planned.
    pub already_shared: bool,
    /// Something in the body being checked writes the name.
    pub written_here: bool,
}

impl CapturedBinding {
    /// Whether a capture of this binding is one shared cell rather than a copy of its value.
    pub open spec fn shared_cell(self) -> bool {
        !self.delegated && self.mutable && (self.already_shared || self.written_here)
    }

    /// Whether a capture of this binding is one shared cell rather than a copy of its value.
    pub fn is_shared_cell(self) -> (shared: bool)
        ensures
            shared == self.shared_cell(),
    {
        !self.delegated && self.mutable && (self.already_shared || self.written_here)
    }
}

/// A binding that an enclosing callable already shares stays shared, whatever the body being
/// checked does with it.
pub proof fn a_shared_cell_stays_shared(binding: CapturedBinding, written: bool)
    requires
        binding.already_shared,
        binding.shared_cell(),
    ensures
        (CapturedBinding { written_here: written, ..binding }).shared_cell(),
{
}

/// A `val` is always copied.
pub proof fn an_immutable_binding_is_copied(binding: CapturedBinding)
    requires
        !binding.mutable,
    ensures
        !binding.shared_cell(),
{
}

fn add_one(out: &mut Vec<ExprId>, expression: Option<ExprId>)
    ensures
        final(out)@ == old(out)@ + optional(expression),
{
    if let Some(found) = expression {
        out.push(found);
    }
}

fn add_all(out: &mut Vec<ExprId>, expressions: &Vec<ExprId>)
    ensures
        final(out)@ == old(out)@ + expressions@,
{
    let ghost before = out@;
    let mut index: usize = 0;
    while index < expressions.len()
        invariant
            index <= expressions@.len(),
            out@ == before + expressions@.take(index as int),
        decreases expressions@.len() - index,
    {
        out.push(expressions[index]);
        assert(expressions@.take(index as int + 1) =~= expressions@.take(index as int).push(
            expressions@[index as int],
        ));
        index += 1;
    }
    assert(expressions@.take(index as int) =~= expressions@);
}

fn method_bodies(methods: &Vec<FunDecl>) -> (out: Vec<ExprId>)
    ensures
        out@ == gathered(methods@, |method: FunDecl| optional(fun_body_expr_spec(method.body))),
{
    let ghost piece = |method: FunDecl| optional(fun_body_expr_spec(method.body));
    let mut out: Vec<ExprId> = Vec::new();
    let mut index: usize = 0;
    while index < methods.len()
        invariant
            index <= methods@.len(),
            piece == (|method: FunDecl| optional(fun_body_expr_spec(method.body))),
            out@ == gathered(methods@.take(index as int), piece),
        decreases methods@.len() - index,
    {
        proof {
            lemma_gathered_step(methods@, index as int, piece);
        }
        add_one(&mut out, fun_body_expr(&methods[index].body));
        index += 1;
    }
    proof {
        lemma_gathered_all(methods@, piece);
    }
    out
}

fn body_of_accessor(body: &Option<FunBody>) -> (out: Option<ExprId>)
    ensures
        optional(out) == accessor_expr(*body),
{
    match body {
        Some(found) => fun_body_expr(found),
        None => None,
    }
}

fn body_of_setter(setter: &Option<SetterDecl>) -> (out: Option<ExprId>)
    ensures
        optional(out) == setter_expr(*setter),
{
    match setter {
        Some(found) => body_of_accessor(&found.body),
        None => None,
    }
}

fn property_parts(properties: &Vec<PropDecl>) -> (out: (Vec<ExprId>, Vec<ExprId>, Vec<ExprId>, Vec<ExprId>))
    ensures
        out.0@ == gathered(properties@, |property: PropDecl| optional(property.init)),
        out.1@ == gathered(properties@, |property: PropDecl| optional(property.delegate)),
        out.2@ == gathered(properties@, |property: PropDecl| accessor_expr(property.getter)),
        out.3@ == gathered(properties@, |property: PropDecl| setter_expr(property.setter)),
{
    let ghost initial = |property: PropDecl| optional(property.init);
    let ghost delegate = |property: PropDecl| optional(property.delegate);
    let ghost getter = |property: PropDecl| accessor_expr(property.getter);
    let ghost setter = |property: PropDecl| setter_expr(property.setter);
    let mut initializers: Vec<ExprId> = Vec::new();
    let mut delegates: Vec<ExprId> = Vec::new();
    let mut getters: Vec<ExprId> = Vec::new();
    let mut setters: Vec<ExprId> = Vec::new();
    let mut index: usize = 0;
    while index < properties.len()
        invariant
            index <= properties@.len(),
            initial == (|property: PropDecl| optional(property.init)),
            delegate == (|property: PropDecl| optional(property.delegate)),
            getter == (|property: PropDecl| accessor_expr(property.getter)),
            setter == (|property: PropDecl| setter_expr(property.setter)),
            initializers@ == gathered(properties@.take(index as int), initial),
            delegates@ == gathered(properties@.take(index as int), delegate),
            getters@ == gathered(properties@.take(index as int), getter),
            setters@ == gathered(properties@.take(index as int), setter),
        decreases properties@.len() - index,
    {
        proof {
            lemma_gathered_step(properties@, index as int, initial);
            lemma_gathered_step(properties@, index as int, delegate);
            lemma_gathered_step(properties@, index as int, getter);
            lemma_gathered_step(properties@, index as int, setter);
        }
        let property = &properties[index];
        add_one(&mut initializers, property.init);
        add_one(&mut delegates, property.delegate);
        add_one(&mut getters, body_of_accessor(&property.getter));
        add_one(&mut setters, body_of_setter(&property.setter));
        index += 1;
    }
    proof {
        lemma_gathered_all(properties@, initial);
        lemma_gathered_all(properties@, delegate);
        lemma_gathered_all(properties@, getter);
        lemma_gathered_all(properties@, setter);
    }
    (initializers, delegates, getters, setters)
}

fn constructor_defaults(properties: &Vec<CtorPropDecl>) -> (out: Vec<ExprId>)
    ensures
        out@ == gathered(properties@, |property: CtorPropDecl| optional(property.default)),
{
    let ghost piece = |property: CtorPropDecl| optional(property.default);
    let mut out: Vec<ExprId> = Vec::new();
    let mut index: usize = 0;
    while index < properties.len()
        invariant
            index <= properties@.len(),
            piece == (|property: CtorPropDecl| optional(property.default)),
            out@ == gathered(properties@.take(index as int), piece),
        decreases properties@.len() - index,
    {
        proof {
            lemma_gathered_step(properties@, index as int, piece);
        }
        add_one(&mut out, properties[index].default);
        index += 1;
    }
    proof {
        lemma_gathered_all(properties@, piece);
    }
    out
}

fn initializer_blocks(steps: &Vec<ClassInit>) -> (out: Vec<ExprId>)
    ensures
        out@ == gathered(steps@, |step: ClassInit| init_block(step)),
{
    let ghost piece = |step: ClassInit| init_block(step);
    let mut out: Vec<ExprId> = Vec::new();
    let mut index: usize = 0;
    while index < steps.len()
        invariant
            index <= steps@.len(),
            piece == (|step: ClassInit| init_block(step)),
            out@ == gathered(steps@.take(index as int), piece),
        decreases steps@.len() - index,
    {
        proof {
            lemma_gathered_step(steps@, index as int, piece);
        }
        if let ClassInit::Block(body) = steps[index] {
            out.push(body);
        }
        index += 1;
    }
    proof {
        lemma_gathered_all(steps@, piece);
    }
    out
}

/// The expressions of a secondary constructor.
pub fn secondary_constructor_expressions(ctor: &SecondaryCtorDecl) -> (out: Vec<ExprId>)
    ensures
        out@ == ctor_exprs(*ctor),
{
    let mut out: Vec<ExprId> = Vec::new();
    add_one(&mut out, ctor.body);
    let defaults = default_values(&ctor.params);
    add_all(&mut out, &defaults);
    match &ctor.delegation {
        CtorDelegation::Absent => {},
        CtorDelegation::This(args) => {
            add_all(&mut out, args);
        },
        CtorDelegation::Super(args) => {
            add_all(&mut out, args);
        },
    }
    assert(out@ =~= ctor_exprs(*ctor));
    out
}

fn constructor_expressions(ctors: &Vec<SecondaryCtorDecl>) -> (out: Vec<ExprId>)
    ensures
        out@ == gathered(ctors@, |ctor: SecondaryCtorDecl| ctor_exprs(ctor)),
{
    let ghost piece = |ctor: SecondaryCtorDecl| ctor_exprs(ctor);
    let mut out: Vec<ExprId> = Vec::new();
    let mut index: usize = 0;
    while index < ctors.len()
        invariant
            index <= ctors@.len(),
            piece == (|ctor: SecondaryCtorDecl| ctor_exprs(ctor)),
            out@ == gathered(ctors@.take(index as int), piece),
        decreases ctors@.len() - index,
    {
        proof {
            lemma_gathered_step(ctors@, index as int, piece);
        }
        let expressions = secondary_constructor_expressions(&ctors[index]);
        add_all(&mut out, &expressions);
        index += 1;
    }
    proof {
        lemma_gathered_all(ctors@, piece);
    }
    out
}

/// Every expression a class body can evaluate while observing an enclosing lexical capture. Read
/// and write discovery share this inventory.
pub fn class_capture_expressions(class: &ClassDecl) -> (out: Vec<ExprId>)
    ensures
        out@ == class_exprs(*class),
{
    let mut out = method_bodies(&class.methods);
    let (initializers, delegates, getters, setters) = property_parts(&class.body_props);
    add_all(&mut out, &initializers);
    add_all(&mut out, &delegates);
    add_all(&mut out, &getters);
    add_all(&mut out, &setters);
    add_all(&mut out, &class.base_args);
    let defaults = constructor_defaults(&class.props);
    add_all(&mut out, &defaults);
    let blocks = initializer_blocks(&class.init_order);
    add_all(&mut out, &blocks);
    let constructors = constructor_expressions(&class.secondary_ctors);
    add_all(&mut out, &constructors);
    out
}

/// The expressions of a statement-position local class. Such a class evaluates the values that its
/// interfaces are delegated to in its constructor context, so they take part in outer capture and
/// mutation analysis.
pub fn local_class_capture_expressions(class: &ClassDecl) -> (out: Vec<ExprId>)
    ensures
        out@ == local_class_exprs(*class),
{
    let mut out = class_capture_expressions(class);
    let ghost before = out@;
    let mut index: usize = 0;
    while index < class.interface_delegations.len()
        invariant
            index <= class.interface_delegations@.len(),
            out@ == before + Seq::new(
                index as nat,
                |i: int| class.interface_delegations@[i].value,
            ),
        decreases class.interface_delegations@.len() - index,
    {
        out.push(class.interface_delegations[index].value);
        assert(out@ =~= before + Seq::new(
            (index + 1) as nat,
            |i: int| class.interface_delegations@[i].value,
        ));
        index += 1;
    }
    out
}

/// Whether the body of a class declares a value called `name`. Member function names are not among
/// them: an enclosing callable value is found before a member function of the same name in call
/// syntax.
pub open spec fn body_binds(class: ClassDecl, name: Seq<char>) -> bool {
    ||| exists|k: int| 0 <= k < class.props@.len() && (#[trigger] class.props@[k]).name@ == name
    ||| exists|k: int|
        0 <= k < class.body_props@.len() && (#[trigger] class.body_props@[k]).name@ == name
    ||| exists|k: int|
        0 <= k < class.methods@.len() && declares_param(
            (#[trigger] class.methods@[k]).params@,
            name,
        )
}

/// Whether an anonymous body declares a value called `name`.
pub open spec fn declaration_binds(file: File, declaration: DeclId, name: Seq<char>) -> bool {
    file.declarations@[declaration.0 as int] matches Decl::Class(class) && body_binds(class, name)
}

/// Value-namespace declarations owned by an anonymous body.
pub fn anonymous_body_bound_value_names(file: &File, declaration: DeclId) -> (names: Vec<String>)
    requires
        (declaration.0 as int) < file.declarations@.len(),
    ensures
        forall|name: Seq<char>| #[trigger]
            views(names@).contains(name) == declaration_binds(*file, declaration, name),
{
    let mut names: Vec<String> = Vec::new();
    let class = match file.decl(declaration) {
        Decl::Class(class) => class,
        _ => {
            return names;
        },
    };
    let mut index: usize = 0;
    while index < class.props.len()
        invariant
            index <= class.props@.len(),
            forall|name: Seq<char>| #[trigger]
                views(names@).contains(name) == (exists|k: int|
                    0 <= k < index && (#[trigger] class.props@[k]).name@ == name),
        decreases class.props@.len() - index,
    {
        let ghost before = views(names@);
        names.push(class.props[index].name.clone());
        proof {
            lemma_pushed(before, class.props@[index as int].name@);
        }
        index += 1;
    }
    index = 0;
    while index < class.body_props.len()
        invariant
            index <= class.body_props@.len(),
            forall|name: Seq<char>| #[trigger]
                views(names@).contains(name) == ((exists|k: int|
                    0 <= k < class.props@.len() && (#[trigger] class.props@[k]).name@ == name) || (
                exists|k: int| 0 <= k < index && (#[trigger] class.body_props@[k]).name@ == name)),
        decreases class.body_props@.len() - index,
    {
        let ghost before = views(names@);
        names.push(class.body_props[index].name.clone());
        proof {
            lemma_pushed(before, class.body_props@[index as int].name@);
        }
        index += 1;
    }
    index = 0;
    while index < class.methods.len()
        invariant
            index <= class.methods@.len(),
            forall|name: Seq<char>| #[trigger]
                views(names@).contains(name) == ((exists|k: int|
                    0 <= k < class.props@.len() && (#[trigger] class.props@[k]).name@ == name) || (
                exists|k: int|
                    0 <= k < class.body_props@.len() && (#[trigger] class.body_props@[k]).name@
                        == name) || (exists|k: int|
                    0 <= k < index && declares_param((#[trigger] class.methods@[k]).params@, name))),
        decreases class.methods@.len() - index,
    {
        let ghost before = views(names@);
        let params = &class.methods[index].params;
        let mut inner: usize = 0;
        while inner < params.len()
            invariant
                inner <= params@.len(),
                forall|name: Seq<char>| #[trigger]
                    views(names@).contains(name) == (before.contains(name) || (exists|k: int|
                        0 <= k < inner && (#[trigger] params@[k]).name@ == name)),
            decreases params@.len() - inner,
        {
            let ghost held = views(names@);
            names.push(params[inner].name.clone());
            proof {
                lemma_pushed(held, params@[inner as int].name@);
            }
            inner += 1;
        }
        assert forall|name: Seq<char>| #[trigger]
            views(names@).contains(name) == (before.contains(name) || declares_param(
                class.methods@[index as int].params@,
                name,
            )) by {}
        index += 1;
    }
    assert forall|name: Seq<char>| #[trigger]
        views(names@).contains(name) == declaration_binds(*file, declaration, name) by {}
    names
}

proof fn lemma_pushed(names: Seq<Seq<char>>, added: Seq<char>)
    ensures
        forall|name: Seq<char>| #[trigger]
            names.push(added).contains(name) == (names.contains(name) || name == added),
{
    assert forall|name: Seq<char>| #[trigger]
        names.push(added).contains(name) == (names.contains(name) || name == added) by {
        if names.contains(name) {
            let k = choose|k: int| 0 <= k < names.len() && names[k] == name;
            assert(names.push(added)[k] == name);
        }
        if names.push(added).contains(name) && name != added {
            let k = choose|k: int|
                0 <= k < names.push(added).len() && names.push(added)[k] == name;
            assert(names[k] == name);
        }
        assert(names.push(added)[names.len() as int] == added);
    }
}

/// Whether a statement itself assigns or counts `name`.
pub open spec fn stmt_targets(stmt: Stmt, name: Seq<char>) -> bool {
    match stmt {
        Stmt::Assign { name: target, .. } => target@ == name,
        Stmt::IncDec { name: target, .. } => target@ == name,
        _ => false,
    }
}

/// Whether an expression counts the value called `name` up or down.
pub open spec fn expr_targets(file: File, expression: ExprId, name: Seq<char>) -> bool {
    file.expr_at(expression) matches Expr::IncDec { target, .. } && file.expr_at(
        target,
    ) matches Expr::Name(spelled) && spelled@ == name
}

/// Whether something inside a node writes the value called `name`.
pub open spec fn writes(file: File, node: Node, name: Seq<char>) -> bool
    decreases file.height(node),
{
    (match node {
        Node::Expr(expression) => expr_targets(file, expression, name),
        Node::Stmt(statement) => stmt_targets(file.stmt_at(statement), name),
    }) || exists|k: int|
        0 <= k < file.children(node).len() && file.below(#[trigger] file.children(node)[k], node)
            && writes(file, file.children(node)[k], name)
}

fn node_writes(file: &File, node: Node, name: &str) -> (found: bool)
    requires
        file.well_formed(),
        file.has(node),
    ensures
        found == writes(*file, node, name@),
    decreases file.height(node),
{
    let ghost children = file.children(node);
    match node {
        Node::Expr(expression) => {
            if let Expr::IncDec { target, .. } = file.expr(expression) {
                proof {
                    file.lemma_child(node, 0);
                }
                if let Expr::Name(spelled) = file.expr(*target) {
                    if same_text(spelled.as_str(), name) {
                        return true;
                    }
                }
            }
            let nodes = child_nodes(file.expr(expression));
            let mut index: usize = 0;
            while index < nodes.len()
                invariant
                    index <= nodes@.len(),
                    nodes@ == children,
                    children == file.children(node),
                    file.well_formed(),
                    file.has(node),
                    forall|k: int| 0 <= k < index ==> !writes(*file, #[trigger] children[k], name@),
                decreases nodes@.len() - index,
            {
                proof {
                    file.lemma_child(node, index as int);
                }
                if node_writes(file, nodes[index], name) {
                    assert(file.below(file.children(node)[index as int], node));
                    return true;
                }
                index += 1;
            }
            false
        },
        Node::Stmt(statement) => {
            let stmt = file.stmt(statement);
            let targeted = match stmt {
                Stmt::Assign { name: target, .. } => same_text(target.as_str(), name),
                Stmt::IncDec { name: target, .. } => same_text(target.as_str(), name),
                _ => false,
            };
            if targeted {
                return true;
            }
            let parts = child_exprs(stmt);
            let mut index: usize = 0;
            while index < parts.len()
                invariant
                    index <= parts@.len(),
                    parts@ == stmt_children(file.stmt_at(statement)),
                    node == Node::Stmt(statement),
                    children == file.children(node),
                    file.well_formed(),
                    file.has(node),
                    forall|k: int| 0 <= k < index ==> !writes(*file, #[trigger] children[k], name@),
                decreases parts@.len() - index,
            {
                proof {
                    file.lemma_child(node, index as int);
                    assert(children[index as int] == Node::Expr(parts@[index as int]));
                }
                if node_writes(file, Node::Expr(parts[index]), name) {
                    assert(file.below(file.children(node)[index as int], node));
                    return true;
                }
                index += 1;
            }
            false
        },
    }
}

/// Whether something in an expression, or in any body nested inside it, writes the value called
/// `name`. A prefix or postfix increment counts whether it is a statement or the value of a block;
/// one of a member or an indexed element does not make a value of the same spelling mutable.
pub fn expression_writes_name(file: &File, expression: ExprId, name: &str) -> (found: bool)
    requires
        file.well_formed(),
        file.has(Node::Expr(expression)),
    ensures
        found == writes(*file, Node::Expr(expression), name@),
{
    node_writes(file, Node::Expr(expression), name)
}

/// The expressions of the declaration's class body, none for another declaration.
pub open spec fn body_exprs(file: File, declaration: DeclId) -> Seq<ExprId> {
    match file.declarations@[declaration.0 as int] {
        Decl::Class(class) => class_exprs(class),
        _ => Seq::empty(),
    }
}

pub fn anonymous_body_expressions(file: &File, declaration: DeclId) -> (out: Vec<ExprId>)
    requires
        (declaration.0 as int) < file.declarations@.len(),
    ensures
        out@ == body_exprs(*file, declaration),
{
    match file.decl(declaration) {
        Decl::Class(class) => class_capture_expressions(class),
        _ => Vec::new(),
    }
}

/// Whether the expressions are in the arena.
pub open spec fn all_in(file: File, expressions: Seq<ExprId>) -> bool {
    forall|k: int| 0 <= k < expressions.len() ==> file.has(Node::Expr(#[trigger] expressions[k]))
}

/// Whether one of the expressions writes the value called `name`.
pub open spec fn any_writes(file: File, expressions: Seq<ExprId>, name: Seq<char>) -> bool {
    exists|k: int|
        0 <= k < expressions.len() && writes(file, Node::Expr(#[trigger] expressions[k]), name)
}

fn any_expression_writes(file: &File, expressions: &Vec<ExprId>, name: &str) -> (found: bool)
    requires
        file.well_formed(),
        all_in(*file, expressions@),
    ensures
        found == any_writes(*file, expressions@, name@),
{
    let mut index: usize = 0;
    while index < expressions.len()
        invariant
            index <= expressions@.len(),
            file.well_formed(),
            all_in(*file, expressions@),
            forall|k: int|
                0 <= k < index ==> !writes(*file, Node::Expr(#[trigger] expressions@[k]), name@),
        decreases expressions@.len() - index,
    {
        if expression_writes_name(file, expressions[index], name) {
            return true;
        }
        index += 1;
    }
    false
}

/// Whether an anonymous body writes the value called `name`.
pub fn anonymous_body_writes_name(file: &File, declaration: DeclId, name: &str) -> (found: bool)
    requires
        file.well_formed(),
        (declaration.0 as int) < file.declarations@.len(),
        all_in(*file, body_exprs(*file, declaration)),
    ensures
        found == any_writes(*file, body_exprs(*file, declaration), name@),
{
    let expressions = anonymous_body_expressions(file, declaration);
    any_expression_writes(file, &expressions, name)
}

/// One anonymous class and the class whose body it is written in.
#[derive(Clone, Copy, Debug)]
pub struct OwnerLink {
    pub class: DeclId,
    pub owner: DeclId,
}

/// Which anonymous class is written in which.
#[derive(Debug)]
pub struct AnonymousLexicalClassScope {
    pub owners: Vec<OwnerLink>,
}

impl AnonymousLexicalClassScope {
    /// The class that `class` is written in.
    pub open spec fn owner_of(&self, class: DeclId) -> Option<DeclId> {
        first_owner(self.owners@, class)
    }

    /// Whether `class` is written in `owner`, within at most `steps` links.
    pub open spec fn written_in(&self, class: DeclId, owner: DeclId, steps: nat) -> bool
        decreases steps,
    {
        steps > 0 && match self.owner_of(class) {
            Some(next) => next == owner || self.written_in(next, owner, (steps - 1) as nat),
            None => false,
        }
    }

    /// Whether `class` is `declaration` or written in it.
    pub open spec fn descends(&self, class: DeclId, declaration: DeclId) -> bool {
        class == declaration || (self.owner_of(class) is Some && self.written_in(
            class,
            declaration,
            self.owners@.len(),
        ))
    }

    /// The class that `class` is written in.
    pub fn owner(&self, class: DeclId) -> (owner: Option<DeclId>)
        ensures
            owner == self.owner_of(class),
    {
        let mut index: usize = 0;
        assert(self.owners@.skip(0) =~= self.owners@);
        while index < self.owners.len()
            invariant
                index <= self.owners@.len(),
                first_owner(self.owners@, class) == first_owner(
                    self.owners@.skip(index as int),
                    class,
                ),
            decreases self.owners@.len() - index,
        {
            if self.owners[index].class == class {
                return Some(self.owners[index].owner);
            }
            assert(self.owners@.skip(index as int).skip(1) =~= self.owners@.skip(index as int + 1));
            index += 1;
        }
        None
    }

    fn is_written_in(&self, class: DeclId, owner: DeclId, steps: usize) -> (found: bool)
        ensures
            found == self.written_in(class, owner, steps as nat),
        decreases steps,
    {
        if steps == 0 {
            return false;
        }
        match self.owner(class) {
            Some(next) => next == owner || self.is_written_in(next, owner, steps - 1),
            None => false,
        }
    }
}

/// The owner in the first link of `class`.
pub open spec fn first_owner(links: Seq<OwnerLink>, class: DeclId) -> Option<DeclId>
    decreases links.len(),
{
    if links.len() == 0 {
        None
    } else if links[0].class == class {
        Some(links[0].owner)
    } else {
        first_owner(links.skip(1), class)
    }
}

/// The declaration and the anonymous classes written in it, each class as often as it has links.
pub open spec fn descendants(scope: AnonymousLexicalClassScope, declaration: DeclId) -> Seq<DeclId> {
    seq![declaration] + gathered(
        scope.owners@,
        |link: OwnerLink|
            if link.class != declaration && scope.descends(link.class, declaration) {
                seq![link.class]
            } else {
                Seq::empty()
            },
    )
}

/// The declaration and the anonymous classes written in it, directly or not.
pub fn anonymous_descendants(
    declaration: DeclId,
    lexical_scope: &AnonymousLexicalClassScope,
) -> (out: Vec<DeclId>)
    ensures
        out@ == descendants(*lexical_scope, declaration),
{
    let ghost piece = |link: OwnerLink|
        if link.class != declaration && lexical_scope.descends(link.class, declaration) {
            seq![link.class]
        } else {
            Seq::empty()
        };
    let links = &lexical_scope.owners;
    let mut out: Vec<DeclId> = Vec::new();
    out.push(declaration);
    let mut index: usize = 0;
    proof {
        lemma_gathered_all(links@, piece);
        assert(out@ =~= seq![declaration] + gathered(links@.take(0), piece));
    }
    while index < links.len()
        invariant
            index <= links@.len(),
            *links == lexical_scope.owners,
            piece == (|link: OwnerLink|
                if link.class != declaration && lexical_scope.descends(link.class, declaration) {
                    seq![link.class]
                } else {
                    Seq::empty()
                }),
            out@ == seq![declaration] + gathered(links@.take(index as int), piece),
        decreases links@.len() - index,
    {
        proof {
            lemma_gathered_step(links@, index as int, piece);
        }
        let class = links[index].class;
        if class != declaration && lexical_scope.owner(class).is_some()
            && lexical_scope.is_written_in(class, declaration, links.len()) {
            out.push(class);
        }
        assert(out@ =~= seq![declaration] + gathered(links@.take(index as int + 1), piece));
        index += 1;
    }
    out
}

/// The values that the interfaces of a class are delegated to.
pub open spec fn delegated_values(file: File, declaration: DeclId) -> Seq<ExprId> {
    match file.declarations@[declaration.0 as int] {
        Decl::Class(class) => Seq::new(
            class.interface_delegations@.len(),
            |i: int| class.interface_delegations@[i].value,
        ),
        _ => Seq::empty(),
    }
}

/// Whether an anonymous class inside `declaration`, or that class itself, writes an enclosing value
/// called `name`. The values that an inner class delegates its interfaces to are evaluated in the
/// body around it, so they count for inner classes only.
pub open spec fn descendant_writes(
    file: File,
    declaration: DeclId,
    candidate: DeclId,
    name: Seq<char>,
) -> bool {
    (!declaration_binds(file, candidate, name) || (
    file.declarations@[candidate.0 as int] matches Decl::Class(class) && initializer_reads(
        file,
        class,
        name,
    ))) && (any_writes(file, body_exprs(file, candidate), name) || (candidate != declaration
        && any_writes(file, delegated_values(file, candidate), name)))
}

/// Whether the declaration and all it refers to are in the arenas.
pub open spec fn declaration_in(file: File, declaration: DeclId) -> bool {
    &&& (declaration.0 as int) < file.declarations@.len()
    &&& all_in(file, body_exprs(file, declaration))
    &&& all_in(file, delegated_values(file, declaration))
    &&& file.declarations@[declaration.0 as int] matches Decl::Class(class) ==> initializers_in(
        file,
        class,
    )
}

fn candidate_writes(file: &File, declaration: DeclId, candidate: DeclId, name: &str) -> (found: bool)
    requires
        file.well_formed(),
        declaration_in(*file, candidate),
    ensures
        found == descendant_writes(*file, declaration, candidate, name@),
{
    let bound = anonymous_body_bound_value_names(file, candidate);
    if holds_name(&bound, name) && !own_property_initializer_uses_outer_name(
        file,
        candidate,
        name,
    ) {
        return false;
    }
    if anonymous_body_writes_name(file, candidate, name) {
        return true;
    }
    if candidate == declaration {
        return false;
    }
    let mut values: Vec<ExprId> = Vec::new();
    if let Decl::Class(class) = file.decl(candidate) {
        let mut index: usize = 0;
        while index < class.interface_delegations.len()
            invariant
                index <= class.interface_delegations@.len(),
                values@ == Seq::new(
                    index as nat,
                    |i: int| class.interface_delegations@[i].value,
                ),
            decreases class.interface_delegations@.len() - index,
        {
            values.push(class.interface_delegations[index].value);
            assert(values@ =~= Seq::new(
                (index + 1) as nat,
                |i: int| class.interface_delegations@[i].value,
            ));
            index += 1;
        }
    }
    assert(values@ =~= delegated_values(*file, candidate));
    any_expression_writes(file, &values, name)
}

/// Whether something in an anonymous class, or in any anonymous class nested inside it, writes an
/// enclosing value called `name`.
pub fn anonymous_descendant_writes_name(
    file: &File,
    declaration: DeclId,
    lexical_scope: &AnonymousLexicalClassScope,
    name: &str,
) -> (found: bool)
    requires
        file.well_formed(),
        forall|k: int|
            0 <= k < descendants(*lexical_scope, declaration).len() ==> declaration_in(
                *file,
                #[trigger] descendants(*lexical_scope, declaration)[k],
            ),
    ensures
        found == exists|k: int|
            0 <= k < descendants(*lexical_scope, declaration).len() && descendant_writes(
                *file,
                declaration,
                #[trigger] descendants(*lexical_scope, declaration)[k],
                name@,
            ),
{
    let candidates = anonymous_descendants(declaration, lexical_scope);
    let mut index: usize = 0;
    while index < candidates.len()
        invariant
            index <= candidates@.len(),
            file.well_formed(),
            candidates@ == descendants(*lexical_scope, declaration),
            forall|k: int|
                0 <= k < candidates@.len() ==> declaration_in(*file, #[trigger] candidates@[k]),
            forall|k: int|
                0 <= k < index ==> !descendant_writes(
                    *file,
                    declaration,
                    #[trigger] candidates@[k],
                    name@,
                ),
        decreases candidates@.len() - index,
    {
        assert(declaration_in(*file, candidates@[index as int]));
        if candidate_writes(file, declaration, candidates[index], name) {
            return true;
        }
        index += 1;
    }
    false
}

} // verus!
