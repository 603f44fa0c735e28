//! The syntax tree of one source file.
//!
//! Expressions, statements and declarations stand in three arenas and refer to each other by index.

use std::collections::HashMap;

use vstd::prelude::*;

use crate::kt_string::KtString;
use crate::resolve::capture_storage::local_class_capture_expressions;

verus! {

/// The index of an expression.
#[derive(Clone, Copy, Debug, PartialEq, Eq, Structural)]
pub struct ExprId(pub u32);

/// The index of a statement.
#[derive(Clone, Copy, Debug, PartialEq, Eq, Structural)]
pub struct StmtId(pub u32);

/// The index of a declaration.
#[derive(Clone, Copy, Debug, PartialEq, Eq, Structural)]
pub struct DeclId(pub u32);

#[derive(Clone, Copy, Debug, PartialEq, Eq, Structural)]
pub enum UnOp {
    Plus,
    Neg,
    Not,
}

#[derive(Clone, Copy, Debug, PartialEq, Eq, Structural)]
pub enum BinOp {
    Add,
    Sub,
    Mul,
    Div,
    Rem,
    Lt,
    Le,
    Gt,
    Ge,
    Eq,
    Ne,
    RefEq,
    RefNe,
    And,
    Or,
}

/// One part of a string template.
#[derive(Debug)]
pub enum TemplatePart {
    Str(KtString),
    Expr(ExprId),
}

/// One `catch` clause.
#[derive(Debug)]
pub struct CatchClause {
    pub name: String,
    pub body: ExprId,
}

/// One branch of a `when`.
#[derive(Debug)]
pub struct WhenArm {
    pub conditions: Vec<ExprId>,
    pub body: ExprId,
}

/// An expression. A floating-point literal is held by the bits of its value.
#[derive(Debug)]
#[allow(inconsistent_fields)]
pub enum Expr {
    IntLit(i64),
    LongLit(i64),
    UIntLit(i64),
    ULongLit(i64),
    FloatLit(u32),
    DoubleLit(u64),
    BoolLit(bool),
    CharLit(u16),
    StringLit(KtString),
    NullLit,
    Name(String),
    Template(Vec<TemplatePart>),
    Unary { op: UnOp, operand: ExprId },
    Binary { op: BinOp, lhs: ExprId, rhs: ExprId },
    IncDec { target: ExprId, decrement: bool, prefix: bool },
    Call { callee: ExprId, args: Vec<ExprId> },
    Member { receiver: ExprId, name: String },
    Index { receiver: ExprId, args: Vec<ExprId> },
    CallableRef { receiver: Option<ExprId>, name: String },
    If { condition: ExprId, consequent: ExprId, alternative: Option<ExprId> },
    When { subject: Option<ExprId>, arms: Vec<WhenArm> },
    Block { stmts: Vec<StmtId>, trailing: Option<ExprId> },
    Lambda { params: Vec<String>, body: ExprId },
    Try { body: ExprId, catches: Vec<CatchClause>, finally: Option<ExprId> },
    Return(Option<ExprId>),
    Throw(ExprId),
}

/// One entry of a destructuring declaration.
#[derive(Debug)]
pub struct DestructureEntry {
    pub name: String,
    /// Whether the component is passed over: it is written as a bare `_`.
    pub ignored: bool,
}

/// The bounds of a counting loop.
#[derive(Clone, Copy, Debug)]
pub struct ForRange {
    pub start: ExprId,
    pub end: ExprId,
}

#[derive(Debug)]
pub enum Stmt {
    Expr(ExprId),
    Local { name: String, init: ExprId },
    LocalLateinit { name: String },
    LocalDelegate { name: String, delegate: ExprId },
    Destructure { entries: Vec<DestructureEntry>, init: ExprId },
    Assign { name: String, value: ExprId },
    AssignMember { receiver: ExprId, name: String, value: ExprId },
    AssignIndex { receiver: ExprId, args: Vec<ExprId>, value: ExprId },
    IncDec { name: String, decrement: bool },
    While { condition: ExprId, body: ExprId },
    DoWhile { body: ExprId, condition: ExprId },
    For { name: String, range: ForRange, body: ExprId },
    ForEach { name: String, iterable: ExprId, body: ExprId },
    LocalFun(FunDecl),
    LocalClass(ClassDecl),
}

/// The body of a function or an accessor.
#[derive(Clone, Copy, Debug)]
pub enum FunBody {
    Expr(ExprId),
    Block(ExprId),
    Absent,
}

/// A value parameter.
#[derive(Debug)]
pub struct ParamDecl {
    pub name: String,
    pub default: Option<ExprId>,
}

#[derive(Debug)]
pub struct FunDecl {
    pub name: String,
    pub params: Vec<ParamDecl>,
    pub body: FunBody,
}

/// A property declared by a primary constructor parameter.
#[derive(Debug)]
pub struct CtorPropDecl {
    pub name: String,
    pub default: Option<ExprId>,
}

#[derive(Clone, Copy, Debug)]
pub struct SetterDecl {
    pub body: Option<FunBody>,
}

#[derive(Debug)]
pub struct PropDecl {
    pub name: String,
    pub is_const: bool,
    /// Whether it is an extension.
    pub has_receiver: bool,
    pub init: Option<ExprId>,
    pub delegate: Option<ExprId>,
    pub getter: Option<FunBody>,
    pub setter: Option<SetterDecl>,
}

/// One step of a class's initialization.
#[derive(Clone, Copy, Debug)]
pub enum ClassInit {
    /// The initializer of the body property with this index.
    PropInit(usize),
    Block(ExprId),
}

/// The constructor that a secondary constructor delegates to.
#[derive(Debug)]
pub enum CtorDelegation {
    Absent,
    This(Vec<ExprId>),
    Super(Vec<ExprId>),
}

#[derive(Debug)]
pub struct SecondaryCtorDecl {
    pub params: Vec<ParamDecl>,
    pub delegation: CtorDelegation,
    pub body: Option<ExprId>,
}

/// An interface whose members are delegated to a value.
#[derive(Clone, Copy, Debug)]
pub struct InterfaceDelegation {
    pub value: ExprId,
}

#[derive(Debug)]
pub struct ClassDecl {
    pub name: String,
    pub props: Vec<CtorPropDecl>,
    pub body_props: Vec<PropDecl>,
    pub methods: Vec<FunDecl>,
    pub base_args: Vec<ExprId>,
    pub init_order: Vec<ClassInit>,
    pub secondary_ctors: Vec<SecondaryCtorDecl>,
    pub interface_delegations: Vec<InterfaceDelegation>,
}

#[derive(Debug)]
pub enum Decl {
    Fun(FunDecl),
    Property(PropDecl),
    Class(ClassDecl),
}

/// One source file.
#[derive(Debug)]
pub struct File {
    pub exprs: Vec<Expr>,
    pub stmts: Vec<Stmt>,
    pub declarations: Vec<Decl>,
    /// The top-level declarations in source order.
    pub decls: Vec<DeclId>,
    /// The lambdas that were written as anonymous functions.
    pub anon_fun_lambdas: Vec<u32>,
    /// How many named context parameters an anonymous function declares.
    pub anon_fun_context_count: HashMap<u32, u32>,
    /// The hoisted declaration of a local class statement.
    pub local_class_decls: HashMap<u32, DeclId>,
}

/// An expression or a statement.
#[derive(Clone, Copy, Debug, PartialEq, Eq, Structural)]
pub enum Node {
    Expr(ExprId),
    Stmt(StmtId),
}

/// The expression of a function body.
pub open spec fn fun_body_expr_spec(body: FunBody) -> Option<ExprId> {
    match body {
        FunBody::Expr(expression) | FunBody::Block(expression) => Some(expression),
        FunBody::Absent => None,
    }
}

pub fn fun_body_expr(body: &FunBody) -> (expression: Option<ExprId>)
    ensures
        expression == fun_body_expr_spec(*body),
{
    match body {
        FunBody::Expr(expression) => Some(*expression),
        FunBody::Block(expression) => Some(*expression),
        FunBody::Absent => None,
    }
}

/// The value that is there, or nothing.
pub open spec fn optional<A>(value: Option<A>) -> Seq<A> {
    match value {
        Some(found) => seq![found],
        None => Seq::empty(),
    }
}

/// The pieces that `piece` gives for the items, one after the other.
pub open spec fn gathered<A, B>(items: Seq<A>, piece: spec_fn(A) -> Seq<B>) -> Seq<B>
    decreases items.len(),
{
    if items.len() == 0 {
        Seq::empty()
    } else {
        gathered(items.drop_last(), piece) + piece(items.last())
    }
}

pub proof fn lemma_gathered_step<A, B>(items: Seq<A>, index: int, piece: spec_fn(A) -> Seq<B>)
    requires
        0 <= index < items.len(),
    ensures
        gathered(items.take(index + 1), piece) == gathered(items.take(index), piece) + piece(
            items[index],
        ),
{
    assert(items.take(index + 1).drop_last() =~= items.take(index));
}

pub proof fn lemma_gathered_all<A, B>(items: Seq<A>, piece: spec_fn(A) -> Seq<B>)
    ensures
        gathered(items.take(items.len() as int), piece) == gathered(items, piece),
        gathered(items.take(0), piece) == Seq::<B>::empty(),
{
    assert(items.take(items.len() as int) =~= items);
}

/// Each item of a piece stands in the gathered sequence.
pub proof fn lemma_gathered_contains<A, B>(items: Seq<A>, piece: spec_fn(A) -> Seq<B>, index: int, inner: int)
    requires
        0 <= index < items.len(),
        0 <= inner < piece(items[index]).len(),
    ensures
        gathered(items, piece).contains(piece(items[index])[inner]),
    decreases items.len(),
{
    let wanted = piece(items[index])[inner];
    let before = gathered(items.drop_last(), piece);
    let all = gathered(items, piece);
    if index == items.len() - 1 {
        assert(all[before.len() + inner] == wanted);
    } else {
        lemma_gathered_contains(items.drop_last(), piece, index, inner);
        assert(items.drop_last()[index] == items[index]);
        let at = choose|k: int| 0 <= k < before.len() && before[k] == wanted;
        assert(all[at] == wanted);
    }
}

/// Every item of the gathered sequence comes from a piece.
pub proof fn lemma_gathered_origin<A, B>(items: Seq<A>, piece: spec_fn(A) -> Seq<B>, wanted: B)
    requires
        gathered(items, piece).contains(wanted),
    ensures
        exists|index: int| 0 <= index < items.len() && piece(#[trigger] items[index]).contains(wanted),
    decreases items.len(),
{
    if items.len() > 0 {
        let before = gathered(items.drop_last(), piece);
        let all = gathered(items, piece);
        let at = choose|k: int| 0 <= k < all.len() && all[k] == wanted;
        if at < before.len() {
            assert(before[at] == wanted);
            lemma_gathered_origin(items.drop_last(), piece, wanted);
            let index = choose|index: int|
                0 <= index < items.drop_last().len() && piece(#[trigger] items.drop_last()[index]).contains(wanted);
            assert(items[index] == items.drop_last()[index]);
        } else {
            assert(piece(items.last())[at - before.len()] == wanted);
            assert(piece(items[items.len() - 1]).contains(wanted));
        }
    }
}

/// The expressions as nodes.
pub open spec fn expr_nodes(expressions: Seq<ExprId>) -> Seq<Node> {
    Seq::new(expressions.len(), |i: int| Node::Expr(expressions[i]))
}

/// The statements as nodes.
pub open spec fn stmt_nodes(statements: Seq<StmtId>) -> Seq<Node> {
    Seq::new(statements.len(), |i: int| Node::Stmt(statements[i]))
}

/// The expressions inside the parts of a template.
pub open spec fn template_exprs(parts: Seq<TemplatePart>) -> Seq<ExprId> {
    gathered(
        parts,
        |part: TemplatePart|
            match part {
                TemplatePart::Expr(expression) => seq![expression],
                TemplatePart::Str(_) => Seq::empty(),
            },
    )
}

/// The conditions and bodies of the branches of a `when`.
pub open spec fn when_exprs(arms: Seq<WhenArm>) -> Seq<ExprId> {
    gathered(arms, |arm: WhenArm| arm.conditions@.push(arm.body))
}

/// The bodies of `catch` clauses.
pub open spec fn catch_bodies(catches: Seq<CatchClause>) -> Seq<ExprId> {
    Seq::new(catches.len(), |i: int| catches[i].body)
}

/// The nodes directly inside an expression, in source order.
pub open spec fn expr_children(expr: Expr) -> Seq<Node> {
    match expr {
        Expr::Template(parts) => expr_nodes(template_exprs(parts@)),
        Expr::Unary { operand, .. } => seq![Node::Expr(operand)],
        Expr::Binary { lhs, rhs, .. } => seq![Node::Expr(lhs), Node::Expr(rhs)],
        Expr::IncDec { target, .. } => seq![Node::Expr(target)],
        Expr::Call { callee, args } => seq![Node::Expr(callee)] + expr_nodes(args@),
        Expr::Member { receiver, .. } => seq![Node::Expr(receiver)],
        Expr::Index { receiver, args } => seq![Node::Expr(receiver)] + expr_nodes(args@),
        Expr::CallableRef { receiver, .. } => expr_nodes(optional(receiver)),
        Expr::If { condition, consequent, alternative } => seq![
            Node::Expr(condition),
            Node::Expr(consequent),
        ] + expr_nodes(optional(alternative)),
        Expr::When { subject, arms } => expr_nodes(optional(subject)) + expr_nodes(
            when_exprs(arms@),
        ),
        Expr::Block { stmts, trailing } => stmt_nodes(stmts@) + expr_nodes(optional(trailing)),
        Expr::Lambda { body, .. } => seq![Node::Expr(body)],
        Expr::Try { body, catches, finally } => seq![Node::Expr(body)] + expr_nodes(
            catch_bodies(catches@),
        ) + expr_nodes(optional(finally)),
        Expr::Return(value) => expr_nodes(optional(value)),
        Expr::Throw(value) => seq![Node::Expr(value)],
        _ => Seq::empty(),
    }
}

/// The default values of parameters.
pub open spec fn param_defaults(params: Seq<ParamDecl>) -> Seq<ExprId> {
    gathered(params, |param: ParamDecl| optional(param.default))
}

/// The arguments of a constructor delegation.
pub open spec fn delegation_args(delegation: CtorDelegation) -> Seq<ExprId> {
    match delegation {
        CtorDelegation::Absent => Seq::empty(),
        CtorDelegation::This(args) | CtorDelegation::Super(args) => args@,
    }
}

/// The expressions that a class body can evaluate while it observes an enclosing capture.
pub open spec fn class_exprs(class: ClassDecl) -> Seq<ExprId> {
    gathered(class.methods@, |method: FunDecl| optional(fun_body_expr_spec(method.body)))
        + gathered(class.body_props@, |property: PropDecl| optional(property.init))
        + gathered(class.body_props@, |property: PropDecl| optional(property.delegate))
        + gathered(class.body_props@, |property: PropDecl| accessor_expr(property.getter))
        + gathered(class.body_props@, |property: PropDecl| setter_expr(property.setter))
        + class.base_args@
        + gathered(class.props@, |property: CtorPropDecl| optional(property.default))
        + gathered(class.init_order@, |step: ClassInit| init_block(step))
        + gathered(class.secondary_ctors@, |ctor: SecondaryCtorDecl| ctor_exprs(ctor))
}

/// The expression of an accessor body.
pub open spec fn accessor_expr(body: Option<FunBody>) -> Seq<ExprId> {
    match body {
        Some(found) => optional(fun_body_expr_spec(found)),
        None => Seq::empty(),
    }
}

/// The expression of a setter body.
pub open spec fn setter_expr(setter: Option<SetterDecl>) -> Seq<ExprId> {
    match setter {
        Some(found) => accessor_expr(found.body),
        None => Seq::empty(),
    }
}

/// The body of an initializer block.
pub open spec fn init_block(step: ClassInit) -> Seq<ExprId> {
    match step {
        ClassInit::Block(body) => seq![body],
        ClassInit::PropInit(_) => Seq::empty(),
    }
}

/// The expressions of a secondary constructor.
pub open spec fn ctor_exprs(ctor: SecondaryCtorDecl) -> Seq<ExprId> {
    optional(ctor.body) + param_defaults(ctor.params@) + delegation_args(ctor.delegation)
}

/// The expressions of a statement-position class: those of its body, then the values that its
/// interfaces are delegated to.
pub open spec fn local_class_exprs(class: ClassDecl) -> Seq<ExprId> {
    class_exprs(class) + Seq::new(
        class.interface_delegations@.len(),
        |i: int| class.interface_delegations@[i].value,
    )
}

/// The expressions directly inside a statement, in source order.
pub open spec fn stmt_children(stmt: Stmt) -> Seq<ExprId> {
    match stmt {
        Stmt::Expr(value) => seq![value],
        Stmt::Local { init, .. } => seq![init],
        Stmt::LocalLateinit { .. } => Seq::empty(),
        Stmt::LocalDelegate { delegate, .. } => seq![delegate],
        Stmt::Destructure { init, .. } => seq![init],
        Stmt::Assign { value, .. } => seq![value],
        Stmt::AssignMember { receiver, value, .. } => seq![receiver, value],
        Stmt::AssignIndex { receiver, args, value } => seq![receiver] + args@ + seq![value],
        Stmt::IncDec { .. } => Seq::empty(),
        Stmt::While { condition, body } => seq![condition, body],
        Stmt::DoWhile { body, condition } => seq![body, condition],
        Stmt::For { range, body, .. } => seq![range.start, range.end, body],
        Stmt::ForEach { iterable, body, .. } => seq![iterable, body],
        Stmt::LocalFun(function) => param_defaults(function.params@) + optional(
            fun_body_expr_spec(function.body),
        ),
        Stmt::LocalClass(class) => local_class_exprs(class),
    }
}

impl File {
    /// Whether the arenas hold the node.
    pub open spec fn has(&self, node: Node) -> bool {
        match node {
            Node::Expr(expression) => (expression.0 as int) < self.exprs@.len(),
            Node::Stmt(statement) => (statement.0 as int) < self.stmts@.len(),
        }
    }

    /// The expression with the given index.
    pub open spec fn expr_at(&self, expression: ExprId) -> Expr {
        self.exprs@[expression.0 as int]
    }

    /// The statement with the given index.
    pub open spec fn stmt_at(&self, statement: StmtId) -> Stmt {
        self.stmts@[statement.0 as int]
    }

    /// The nodes directly inside a node.
    pub open spec fn children(&self, node: Node) -> Seq<Node> {
        match node {
            Node::Expr(expression) => expr_children(self.expr_at(expression)),
            Node::Stmt(statement) => expr_nodes(stmt_children(self.stmt_at(statement))),
        }
    }

    /// Whether `rank` puts every node above the nodes inside it.
    pub open spec fn ranked_by(&self, rank: spec_fn(Node) -> nat) -> bool {
        forall|node: Node, k: int|
            #![trigger self.children(node)[k]]
            self.has(node) && 0 <= k < self.children(node).len() ==> self.has(
                self.children(node)[k],
            ) && rank(self.children(node)[k]) < rank(node)
    }

    /// Whether every index is in its arena and no node is inside itself.
    pub open spec fn well_formed(&self) -> bool {
        exists|rank: spec_fn(Node) -> nat| self.ranked_by(rank)
    }

    /// How deep a node's contents go.
    pub open spec fn height(&self, node: Node) -> nat {
        (choose|rank: spec_fn(Node) -> nat| self.ranked_by(rank))(node)
    }

    /// Whether a node is in its arena and less deep than `outer`.
    pub open spec fn below(&self, node: Node, outer: Node) -> bool {
        self.has(node) && self.height(node) < self.height(outer)
    }

    /// A child of a node is in its arena and less deep.
    pub proof fn lemma_child(&self, node: Node, k: int)
        requires
            self.well_formed(),
            self.has(node),
            0 <= k < self.children(node).len(),
        ensures
            self.has(self.children(node)[k]),
            self.height(self.children(node)[k]) < self.height(node),
    {
        let rank = choose|rank: spec_fn(Node) -> nat| self.ranked_by(rank);
        assert(self.ranked_by(rank));
    }

    /// A child of a node is in its arena and less deep.
    pub proof fn lemma_children(&self, node: Node)
        requires
            self.well_formed(),
            self.has(node),
        ensures
            forall|k: int|
                #![trigger self.children(node)[k]]
                0 <= k < self.children(node).len() ==> self.has(self.children(node)[k])
                    && self.height(self.children(node)[k]) < self.height(node),
    {
        assert forall|k: int|
            #![trigger self.children(node)[k]]
            0 <= k < self.children(node).len() implies self.has(self.children(node)[k])
            && self.height(self.children(node)[k]) < self.height(node) by {
            self.lemma_child(node, k);
        }
    }

    /// A node that stands among the children of another is in its arena and less deep.
    pub proof fn lemma_inside(&self, node: Node, child: Node)
        requires
            self.well_formed(),
            self.has(node),
            self.children(node).contains(child),
        ensures
            self.has(child),
            self.height(child) < self.height(node),
    {
        let k = choose|k: int| 0 <= k < self.children(node).len() && self.children(node)[k] == child;
        self.lemma_child(node, k);
    }

    pub fn expr(&self, expression: ExprId) -> (found: &Expr)
        requires
            self.has(Node::Expr(expression)),
        ensures
            *found == self.expr_at(expression),
    {
        &self.exprs[expression.0 as usize]
    }

    pub fn stmt(&self, statement: StmtId) -> (found: &Stmt)
        requires
            self.has(Node::Stmt(statement)),
        ensures
            *found == self.stmt_at(statement),
    {
        &self.stmts[statement.0 as usize]
    }

    pub fn decl(&self, declaration: DeclId) -> (found: &Decl)
        requires
            (declaration.0 as int) < self.declarations@.len(),
        ensures
            *found == self.declarations@[declaration.0 as int],
    {
        &self.declarations[declaration.0 as usize]
    }
}

fn push_expr_nodes(out: &mut Vec<Node>, expressions: &Vec<ExprId>)
    ensures
        final(out)@ == old(out)@ + expr_nodes(expressions@),
{
    let ghost before = out@;
    let mut index: usize = 0;
    while index < expressions.len()
        invariant
            index <= expressions@.len(),
            out@ == before + expr_nodes(expressions@.take(index as int)),
        decreases expressions@.len() - index,
    {
        out.push(Node::Expr(expressions[index]));
        assert(expr_nodes(expressions@.take(index as int + 1)) =~= expr_nodes(
            expressions@.take(index as int),
        ).push(Node::Expr(expressions@[index as int])));
        index += 1;
    }
    assert(expressions@.take(index as int) =~= expressions@);
}

fn push_optional_expr(out: &mut Vec<Node>, expression: Option<ExprId>)
    ensures
        final(out)@ == old(out)@ + expr_nodes(optional(expression)),
{
    if let Some(found) = expression {
        out.push(Node::Expr(found));
        assert(expr_nodes(optional(expression)) =~= seq![Node::Expr(found)]);
    } else {
        assert(expr_nodes(optional(expression)) =~= Seq::empty());
    }
}

fn push_expr_id(out: &mut Vec<ExprId>, expression: Option<ExprId>)
    ensures
        final(out)@ == old(out)@ + optional(expression),
{
    if let Some(found) = expression {
        out.push(found);
    }
}

fn push_expr_ids(out: &mut Vec<ExprId>, expressions: &Vec<ExprId>)
    ensures
        final(out)@ == old(out)@ + expressions@,
{
    let ghost before = out@;
    let mut index: usize = 0;
    while index < expressions.len()
        invariant
            index <= expressions@.len(),
            out@ == before + expressions@.take(index as int),
        decreases expressions@.len() - index,
    {
        out.push(expressions[index]);
        assert(expressions@.take(index as int + 1) =~= expressions@.take(index as int).push(
            expressions@[index as int],
        ));
        index += 1;
    }
    assert(expressions@.take(index as int) =~= expressions@);
}

/// The nodes directly inside an expression, in source order.
pub fn child_nodes(expr: &Expr) -> (out: Vec<Node>)
    ensures
        out@ == expr_children(*expr),
{
    let mut out: Vec<Node> = Vec::new();
    match expr {
        Expr::Template(parts) => {
            let ghost piece = |part: TemplatePart|
                match part {
                    TemplatePart::Expr(expression) => seq![expression],
                    TemplatePart::Str(_) => Seq::empty(),
                };
            let mut index: usize = 0;
            assert(expr_nodes(gathered(parts@.take(0), piece)) =~= Seq::empty());
            while index < parts.len()
                invariant
                    index <= parts@.len(),
                    piece == (|part: TemplatePart|
                        match part {
                            TemplatePart::Expr(expression) => seq![expression],
                            TemplatePart::Str(_) => Seq::empty(),
                        }),
                    out@ == expr_nodes(gathered(parts@.take(index as int), piece)),
                decreases parts@.len() - index,
            {
                proof {
                    lemma_gathered_step(parts@, index as int, piece);
                }
                if let TemplatePart::Expr(expression) = &parts[index] {
                    out.push(Node::Expr(*expression));
                }
                assert(out@ =~= expr_nodes(gathered(parts@.take(index as int + 1), piece)));
                index += 1;
            }
            proof {
                lemma_gathered_all(parts@, piece);
            }
        },
        Expr::Unary { operand, .. } => {
            out.push(Node::Expr(*operand));
        },
        Expr::Binary { lhs, rhs, .. } => {
            out.push(Node::Expr(*lhs));
            out.push(Node::Expr(*rhs));
        },
        Expr::IncDec { target, .. } => {
            out.push(Node::Expr(*target));
        },
        Expr::Call { callee, args } => {
            out.push(Node::Expr(*callee));
            push_expr_nodes(&mut out, args);
        },
        Expr::Member { receiver, .. } => {
            out.push(Node::Expr(*receiver));
        },
        Expr::Index { receiver, args } => {
            out.push(Node::Expr(*receiver));
            push_expr_nodes(&mut out, args);
        },
        Expr::CallableRef { receiver, .. } => {
            push_optional_expr(&mut out, *receiver);
        },
        Expr::If { condition, consequent, alternative } => {
            out.push(Node::Expr(*condition));
            out.push(Node::Expr(*consequent));
            push_optional_expr(&mut out, *alternative);
        },
        Expr::When { subject, arms } => {
            push_optional_expr(&mut out, *subject);
            let ghost before = out@;
            let ghost piece = |arm: WhenArm| arm.conditions@.push(arm.body);
            let mut index: usize = 0;
            assert(expr_nodes(gathered(arms@.take(0), piece)) =~= Seq::empty());
            while index < arms.len()
                invariant
                    index <= arms@.len(),
                    piece == (|arm: WhenArm| arm.conditions@.push(arm.body)),
                    out@ == before + expr_nodes(gathered(arms@.take(index as int), piece)),
                decreases arms@.len() - index,
            {
                proof {
                    lemma_gathered_step(arms@, index as int, piece);
                }
                push_expr_nodes(&mut out, &arms[index].conditions);
                out.push(Node::Expr(arms[index].body));
                assert(out@ =~= before + expr_nodes(gathered(arms@.take(index as int + 1), piece)));
                index += 1;
            }
            proof {
                lemma_gathered_all(arms@, piece);
            }
        },
        Expr::Block { stmts, trailing } => {
            let mut index: usize = 0;
            while index < stmts.len()
                invariant
                    index <= stmts@.len(),
                    out@ == stmt_nodes(stmts@.take(index as int)),
                decreases stmts@.len() - index,
            {
                out.push(Node::Stmt(stmts[index]));
                assert(out@ =~= stmt_nodes(stmts@.take(index as int + 1)));
                index += 1;
            }
            assert(stmts@.take(index as int) =~= stmts@);
            push_optional_expr(&mut out, *trailing);
        },
        Expr::Lambda { body, .. } => {
            out.push(Node::Expr(*body));
        },
        Expr::Try { body, catches, finally } => {
            out.push(Node::Expr(*body));
            let mut index: usize = 0;
            while index < catches.len()
                invariant
                    index <= catches@.len(),
                    out@ == seq![Node::Expr(*body)] + expr_nodes(
                        catch_bodies(catches@.take(index as int)),
                    ),
                decreases catches@.len() - index,
            {
                out.push(Node::Expr(catches[index].body));
                assert(out@ =~= seq![Node::Expr(*body)] + expr_nodes(
                    catch_bodies(catches@.take(index as int + 1)),
                ));
                index += 1;
            }
            assert(catches@.take(index as int) =~= catches@);
            push_optional_expr(&mut out, *finally);
        },
        Expr::Return(value) => {
            push_optional_expr(&mut out, *value);
        },
        Expr::Throw(value) => {
            out.push(Node::Expr(*value));
        },
        _ => {},
    }
    assert(out@ =~= expr_children(*expr));
    out
}

/// The default values of parameters.
pub fn default_values(params: &Vec<ParamDecl>) -> (out: Vec<ExprId>)
    ensures
        out@ == param_defaults(params@),
{
    let ghost piece = |param: ParamDecl| optional(param.default);
    let mut out: Vec<ExprId> = Vec::new();
    let mut index: usize = 0;
    while index < params.len()
        invariant
            index <= params@.len(),
            piece == (|param: ParamDecl| optional(param.default)),
            out@ == gathered(params@.take(index as int), piece),
        decreases params@.len() - index,
    {
        proof {
            lemma_gathered_step(params@, index as int, piece);
        }
        push_expr_id(&mut out, params[index].default);
        index += 1;
    }
    proof {
        lemma_gathered_all(params@, piece);
    }
    out
}

/// The expressions directly inside a statement, in source order.
pub fn child_exprs(stmt: &Stmt) -> (out: Vec<ExprId>)
    ensures
        out@ == stmt_children(*stmt),
{
    match stmt {
        Stmt::LocalFun(function) => {
            let mut out = default_values(&function.params);
            push_expr_id(&mut out, fun_body_expr(&function.body));
            return out;
        },
        Stmt::LocalClass(class) => {
            return local_class_capture_expressions(class);
        },
        _ => {},
    }
    let mut out: Vec<ExprId> = Vec::new();
    match stmt {
        Stmt::Expr(value) => {
            out.push(*value);
        },
        Stmt::Local { init, .. } => {
            out.push(*init);
        },
        Stmt::LocalDelegate { delegate, .. } => {
            out.push(*delegate);
        },
        Stmt::Destructure { init, .. } => {
            out.push(*init);
        },
        Stmt::Assign { value, .. } => {
            out.push(*value);
        },
        Stmt::AssignMember { receiver, value, .. } => {
            out.push(*receiver);
            out.push(*value);
        },
        Stmt::AssignIndex { receiver, args, value } => {
            out.push(*receiver);
            push_expr_ids(&mut out, args);
            out.push(*value);
        },
        Stmt::While { condition, body } => {
            out.push(*condition);
            out.push(*body);
        },
        Stmt::DoWhile { body, condition } => {
            out.push(*body);
            out.push(*condition);
        },
        Stmt::For { range, body, .. } => {
            out.push(range.start);
            out.push(range.end);
            out.push(*body);
        },
        Stmt::ForEach { iterable, body, .. } => {
            out.push(*iterable);
            out.push(*body);
        },
        _ => {},
    }
    assert(out@ =~= stmt_children(*stmt));
    out
}

/// Whether a node is marked.
spec fn marked(exprs: Seq<bool>, stmts: Seq<bool>, node: Node) -> bool {
    match node {
        Node::Expr(expression) => (expression.0 as int) < exprs.len() && exprs[expression.0 as int],
        Node::Stmt(statement) => (statement.0 as int) < stmts.len() && stmts[statement.0 as int],
    }
}

fn is_marked(exprs: &Vec<bool>, stmts: &Vec<bool>, node: Node) -> (yes: bool)
    ensures
        yes == marked(exprs@, stmts@, node),
{
    match node {
        Node::Expr(expression) => (expression.0 as usize) < exprs.len()
            && exprs[expression.0 as usize],
        Node::Stmt(statement) => (statement.0 as usize) < stmts.len()
            && stmts[statement.0 as usize],
    }
}

fn all_marked(exprs: &Vec<bool>, stmts: &Vec<bool>, nodes: &Vec<Node>) -> (yes: bool)
    ensures
        yes == forall|k: int|
            0 <= k < nodes@.len() ==> marked(exprs@, stmts@, #[trigger] nodes@[k]),
{
    let mut index: usize = 0;
    while index < nodes.len()
        invariant
            index <= nodes@.len(),
            forall|k: int| 0 <= k < index ==> marked(exprs@, stmts@, #[trigger] nodes@[k]),
        decreases nodes@.len() - index,
    {
        if !is_marked(exprs, stmts, nodes[index]) {
            return false;
        }
        index += 1;
    }
    true
}

fn unmarked(count: usize) -> (marks: Vec<bool>)
    ensures
        marks@.len() == count,
        forall|k: int| 0 <= k < count ==> !#[trigger] marks@[k],
{
    let mut marks: Vec<bool> = Vec::new();
    while marks.len() < count
        invariant
            marks@.len() <= count,
            forall|k: int| 0 <= k < marks@.len() ==> !#[trigger] marks@[k],
        decreases count - marks@.len(),
    {
        marks.push(false);
    }
    marks
}

impl File {
    /// Every node of the arenas.
    fn nodes(&self) -> (nodes: Vec<Node>)
        ensures
            forall|k: int| 0 <= k < nodes@.len() ==> self.has(#[trigger] nodes@[k]),
            forall|node: Node| #[trigger] self.has(node) ==> nodes@.contains(node),
    {
        let mut nodes: Vec<Node> = Vec::new();
        let mut next: usize = 0;
        while next < self.exprs.len() && next <= u32::MAX as usize
            invariant
                next <= self.exprs@.len(),
                nodes@.len() == next,
                forall|k: int|
                    0 <= k < next ==> #[trigger] nodes@[k] == Node::Expr(ExprId(k as u32))
                        && self.has(nodes@[k]),
            decreases self.exprs@.len() - next,
        {
            nodes.push(Node::Expr(ExprId(next as u32)));
            next += 1;
        }
        let ghost exprs = nodes@.len();
        let ghost first = nodes@;
        let mut next: usize = 0;
        while next < self.stmts.len() && next <= u32::MAX as usize
            invariant
                next <= self.stmts@.len(),
                exprs == first.len(),
                nodes@.len() == exprs + next,
                nodes@.take(exprs as int) == first,
                forall|k: int| 0 <= k < nodes@.len() ==> self.has(#[trigger] nodes@[k]),
                forall|k: int|
                    0 <= k < next ==> #[trigger] nodes@[exprs + k] == Node::Stmt(
                        StmtId(k as u32),
                    ),
            decreases self.stmts@.len() - next,
        {
            let ghost before = nodes@;
            nodes.push(Node::Stmt(StmtId(next as u32)));
            assert(nodes@.take(exprs as int) =~= before.take(exprs as int));
            next += 1;
        }
        assert forall|node: Node| #[trigger] self.has(node) implies nodes@.contains(node) by {
            match node {
                Node::Expr(expression) => {
                    assert(first[expression.0 as int] == node);
                    assert(nodes@.take(exprs as int)[expression.0 as int] == node);
                    assert(nodes@[expression.0 as int] == node);
                },
                Node::Stmt(statement) => {
                    assert(nodes@[exprs + statement.0] == node);
                },
            }
        }
        nodes
    }

    fn nodes_inside(&self, node: Node) -> (nodes: Vec<Node>)
        requires
            self.has(node),
        ensures
            nodes@ == self.children(node),
    {
        match node {
            Node::Expr(expression) => child_nodes(self.expr(expression)),
            Node::Stmt(statement) => {
                let mut nodes: Vec<Node> = Vec::new();
                push_expr_nodes(&mut nodes, &child_exprs(self.stmt(statement)));
                assert(nodes@ =~= self.children(node));
                nodes
            },
        }
    }

    /// Whether the marks are of the nodes of the arenas, and every child of a marked node is marked
    /// and has a lower rank.
    spec fn ranks(
        &self,
        exprs: Seq<bool>,
        stmts: Seq<bool>,
        rank: Map<Node, nat>,
        bound: nat,
    ) -> bool {
        &&& exprs.len() == self.exprs@.len()
        &&& stmts.len() == self.stmts@.len()
        &&& forall|node: Node| #[trigger] marked(exprs, stmts, node) ==> rank[node] < bound
        &&& forall|node: Node, k: int|
            #![trigger self.children(node)[k]]
            marked(exprs, stmts, node) && 0 <= k < self.children(node).len() ==> marked(
                exprs,
                stmts,
                self.children(node)[k],
            ) && rank[self.children(node)[k]] < rank[node]
    }

    /// Whether a child of the node is not marked.
    spec fn waits(&self, exprs: Seq<bool>, stmts: Seq<bool>, node: Node) -> bool {
        exists|k: int|
            0 <= k < self.children(node).len() && !marked(
                exprs,
                stmts,
                #[trigger] self.children(node)[k],
            )
    }

    proof fn lemma_reached(
        &self,
        rank: spec_fn(Node) -> nat,
        exprs: Seq<bool>,
        stmts: Seq<bool>,
        node: Node,
    )
        requires
            self.ranked_by(rank),
            self.has(node),
            forall|node: Node|
                #![trigger self.has(node)]
                self.has(node) && !marked(exprs, stmts, node) ==> self.waits(exprs, stmts, node),
        ensures
            marked(exprs, stmts, node),
        decreases rank(node),
    {
        if !marked(exprs, stmts, node) {
            let k = choose|k: int|
                0 <= k < self.children(node).len() && !marked(
                    exprs,
                    stmts,
                    #[trigger] self.children(node)[k],
                );
            self.lemma_reached(rank, exprs, stmts, self.children(node)[k]);
        }
    }

    /// Whether every index is in its arena and no node is inside itself. Nodes are marked from the
    /// innermost outwards until none is left, or none of those that are left can be.
    pub fn is_well_formed(&self) -> (yes: bool)
        ensures
            yes == self.well_formed(),
    {
        let mut exprs = unmarked(self.exprs.len());
        let mut stmts = unmarked(self.stmts.len());
        let mut pending = self.nodes();
        let ghost mut rank: Map<Node, nat> = Map::empty();
        let ghost mut bound: nat = 0;
        while pending.len() > 0
            invariant
                self.ranks(exprs@, stmts@, rank, bound),
                forall|k: int| 0 <= k < pending@.len() ==> self.has(#[trigger] pending@[k]),
                forall|node: Node| #[trigger]
                    self.has(node) ==> marked(exprs@, stmts@, node) || pending@.contains(node),
            decreases pending@.len(),
        {
            let mut rest: Vec<Node> = Vec::new();
            let mut index: usize = 0;
            let ghost exprs_before = exprs@;
            let ghost stmts_before = stmts@;
            while index < pending.len()
                invariant
                    index <= pending@.len(),
                    rest@.len() <= index,
                    self.ranks(exprs@, stmts@, rank, bound),
                    forall|k: int| 0 <= k < pending@.len() ==> self.has(#[trigger] pending@[k]),
                    forall|k: int| 0 <= k < rest@.len() ==> self.has(#[trigger] rest@[k]),
                    forall|node: Node|
                        marked(exprs_before, stmts_before, node) ==> #[trigger] marked(
                            exprs@,
                            stmts@,
                            node,
                        ),
                    forall|k: int|
                        0 <= k < index ==> marked(exprs@, stmts@, #[trigger] pending@[k])
                            || rest@.contains(pending@[k]),
                    rest@.len() == index ==> {
                        &&& exprs@ == exprs_before
                        &&& stmts@ == stmts_before
                        &&& forall|j: int|
                            0 <= j < index ==> self.waits(
                                exprs@,
                                stmts@,
                                #[trigger] pending@[j],
                            )
                    },
                decreases pending@.len() - index,
            {
                let node = pending[index];
                let ghost rest_before = rest@;
                if !is_marked(&exprs, &stmts, node) {
                    let inside = self.nodes_inside(node);
                    if all_marked(&exprs, &stmts, &inside) {
                        let ghost exprs_old = exprs@;
                        let ghost stmts_old = stmts@;
                        let ghost rank_old = rank;
                        match node {
                            Node::Expr(expression) => {
                                exprs.set(expression.0 as usize, true);
                            },
                            Node::Stmt(statement) => {
                                stmts.set(statement.0 as usize, true);
                            },
                        }
                        proof {
                            rank = rank.insert(node, bound);
                            bound = bound + 1;
                            assert forall|other: Node| #[trigger]
                                marked(exprs@, stmts@, other) == (other == node || marked(
                                    exprs_old,
                                    stmts_old,
                                    other,
                                )) by {}
                            assert forall|other: Node, k: int|
                                #![trigger self.children(other)[k]]
                                marked(exprs@, stmts@, other) && 0 <= k < self.children(
                                    other,
                                ).len() implies marked(exprs@, stmts@, self.children(other)[k])
                                && rank[self.children(other)[k]] < rank[other] by {
                                if other == node {
                                    assert(inside@[k] == self.children(other)[k]);
                                    assert(marked(exprs_old, stmts_old, inside@[k]));
                                    assert(inside@[k] != node);
                                } else {
                                    assert(marked(exprs_old, stmts_old, other));
                                    assert(marked(
                                        exprs_old,
                                        stmts_old,
                                        self.children(other)[k],
                                    ));
                                }
                            }
                        }
                    } else {
                        rest.push(node);
                        assert(rest@[rest@.len() - 1] == node);
                        assert forall|k: int| 0 <= k < index implies marked(
                            exprs@,
                            stmts@,
                            #[trigger] pending@[k],
                        ) || rest@.contains(pending@[k]) by {
                            if rest_before.contains(pending@[k]) {
                                let j = choose|j: int|
                                    0 <= j < rest_before.len() && rest_before[j] == pending@[k];
                                assert(rest@[j] == pending@[k]);
                            }
                        }
                        let ghost k = choose|k: int|
                            0 <= k < inside@.len() && !marked(
                                exprs@,
                                stmts@,
                                #[trigger] inside@[k],
                            );
                        assert(!marked(exprs@, stmts@, self.children(node)[k]));
                        assert(self.waits(exprs@, stmts@, node));
                    }
                }
                index += 1;
            }
            if rest.len() == pending.len() {
                proof {
                    assert forall|node: Node|
                        #![trigger self.has(node)]
                        self.has(node) && !marked(exprs@, stmts@, node) implies self.waits(
                        exprs@,
                        stmts@,
                        node,
                    ) by {
                        assert(pending@.contains(node));
                        let j = choose|j: int| 0 <= j < pending@.len() && pending@[j] == node;
                        assert(pending@[j] == node);
                    }
                    if self.well_formed() {
                        let ranking = choose|ranking: spec_fn(Node) -> nat| self.ranked_by(ranking);
                        let node = pending@[0];
                        assert(self.waits(exprs@, stmts@, node));
                        let k = choose|k: int|
                            0 <= k < self.children(node).len() && !marked(
                                exprs@,
                                stmts@,
                                #[trigger] self.children(node)[k],
                            );
                        self.lemma_reached(ranking, exprs@, stmts@, self.children(node)[k]);
                    }
                }
                return false;
            }
            pending = rest;
        }
        proof {
            let ranking = |node: Node| rank[node];
            assert forall|node: Node, k: int|
                #![trigger self.children(node)[k]]
                self.has(node) && 0 <= k < self.children(node).len() implies self.has(
                self.children(node)[k],
            ) && ranking(self.children(node)[k]) < ranking(node) by {
                assert(marked(exprs@, stmts@, node));
                assert(marked(exprs@, stmts@, self.children(node)[k]));
            }
            assert(self.ranked_by(ranking));
        }
        true
    }
}

} // verus!
