//! What the capture analysis finds: the names that the parts of a body use, as far as nothing
//! between the use and the body declares them.

use vstd::prelude::*;

use crate::ast::{
    accessor_expr, class_exprs, ctor_exprs, delegation_args, expr_children, expr_nodes,
    fun_body_expr_spec, gathered, init_block, lemma_gathered_contains, lemma_gathered_origin,
    optional, param_defaults, setter_expr, stmt_children, template_exprs, when_exprs, ClassDecl,
    ClassInit, CtorDelegation, CtorPropDecl, Expr, ExprId, File, FunBody, FunDecl, Node, ParamDecl,
    PropDecl, SecondaryCtorDecl, Stmt, StmtId, TemplatePart, WhenArm,
};
use crate::resolve::capture_analysis::{
    any_part_free, block_free, class_declares, class_free, ctor_free, declares_param, expr_free,
    fun_free, lemma_class_exprs, method_free, node_free, optional_free, part_free, property_free,
    shadows_behind, stmt_free,
};
use crate::resolve::capture_storage::writes;
use crate::text::views;

verus! {

/// Whether a part of a node uses a name that is not declared around that use.
pub open spec fn used(file: File, node: Node, name: Seq<char>) -> bool {
    match node {
        Node::Expr(expression) => expr_free(file, expression, name),
        Node::Stmt(statement) => stmt_free(file, statement, name),
    }
}

/// Whether an optional expression is `wanted`.
pub open spec fn is_some(part: Option<ExprId>, wanted: ExprId) -> bool {
    part == Some(wanted)
}

/// Whether the body of a function is `wanted`.
pub open spec fn is_body(body: FunBody, wanted: ExprId) -> bool {
    body == FunBody::Expr(wanted) || body == FunBody::Block(wanted)
}

/// Whether an expression is written directly inside another, wherever it stands in it.
pub open spec fn is_part(expr: Expr, wanted: ExprId) -> bool {
    match expr {
        Expr::Template(parts) => parts@.contains(TemplatePart::Expr(wanted)),
        Expr::Unary { operand, .. } => operand == wanted,
        Expr::Binary { lhs, rhs, .. } => lhs == wanted || rhs == wanted,
        Expr::IncDec { target, .. } => target == wanted,
        Expr::Call { callee, args } => callee == wanted || args@.contains(wanted),
        Expr::Member { receiver, .. } => receiver == wanted,
        Expr::Index { receiver, args } => receiver == wanted || args@.contains(wanted),
        Expr::CallableRef { receiver, .. } => is_some(receiver, wanted),
        Expr::If { condition, consequent, alternative } => condition == wanted || consequent
            == wanted || is_some(alternative, wanted),
        Expr::When { subject, arms } => is_some(subject, wanted) || exists|k: int|
            0 <= k < arms@.len() && ((#[trigger] arms@[k]).conditions@.contains(wanted)
                || arms@[k].body == wanted),
        Expr::Return(value) => is_some(value, wanted),
        Expr::Throw(value) => value == wanted,
        _ => false,
    }
}

/// Whether an expression is written directly inside a statement that declares nothing around it.
pub open spec fn is_part_of_stmt(stmt: Stmt, wanted: ExprId) -> bool {
    match stmt {
        Stmt::Expr(value) => value == wanted,
        Stmt::Local { init, .. } => init == wanted,
        Stmt::LocalDelegate { delegate, .. } => delegate == wanted,
        Stmt::Destructure { init, .. } => init == wanted,
        Stmt::AssignMember { receiver, value, .. } => receiver == wanted || value == wanted,
        Stmt::AssignIndex { receiver, args, value } => receiver == wanted || value == wanted
            || args@.contains(wanted),
        Stmt::While { condition, body } => condition == wanted || body == wanted,
        Stmt::DoWhile { body, condition } => condition == wanted || body == wanted,
        _ => false,
    }
}

/// Whether a statement declares a name for what stands behind it.
pub open spec fn declares(stmt: Stmt, name: Seq<char>) -> bool {
    match stmt {
        Stmt::Local { name: local, .. } | Stmt::LocalDelegate { name: local, .. } => local@ == name,
        Stmt::Destructure { entries, .. } => exists|k: int|
            0 <= k < entries@.len() && (#[trigger] entries@[k]).name@ == name
                && !entries@[k].ignored,
        _ => false,
    }
}

/// Whether none of the first `count` statements declares a name.
pub open spec fn undeclared(file: File, stmts: Seq<StmtId>, count: int, name: Seq<char>) -> bool {
    forall|j: int| 0 <= j < count ==> !declares(file.stmt_at(#[trigger] stmts[j]), name)
}

proof fn lemma_listed(parts: Seq<ExprId>, wanted: ExprId)
    ensures
        expr_nodes(parts).contains(Node::Expr(wanted)) == parts.contains(wanted),
{
    if parts.contains(wanted) {
        let k = choose|k: int| 0 <= k < parts.len() && parts[k] == wanted;
        assert(expr_nodes(parts)[k] == Node::Expr(wanted));
    }
    if expr_nodes(parts).contains(Node::Expr(wanted)) {
        let k = choose|k: int|
            0 <= k < expr_nodes(parts).len() && expr_nodes(parts)[k] == Node::Expr(wanted);
        assert(parts[k] == wanted);
    }
}

proof fn lemma_either<A>(left: Seq<A>, right: Seq<A>, wanted: A)
    ensures
        (left + right).contains(wanted) == (left.contains(wanted) || right.contains(wanted)),
{
    let both = left + right;
    if left.contains(wanted) {
        let k = choose|k: int| 0 <= k < left.len() && left[k] == wanted;
        assert(both[k] == wanted);
    }
    if right.contains(wanted) {
        let k = choose|k: int| 0 <= k < right.len() && right[k] == wanted;
        assert(both[k + left.len()] == wanted);
    }
    if both.contains(wanted) {
        let k = choose|k: int| 0 <= k < both.len() && both[k] == wanted;
        if k < left.len() {
            assert(left[k] == wanted);
        } else {
            assert(right[k - left.len()] == wanted);
        }
    }
}

proof fn lemma_optional(part: Option<ExprId>, wanted: ExprId)
    ensures
        optional(part).contains(wanted) == is_some(part, wanted),
{
    if let Some(found) = part {
        assert(optional(part)[0] == found);
        if optional(part).contains(wanted) {
            let k = choose|k: int| 0 <= k < optional(part).len() && optional(part)[k] == wanted;
            assert(k == 0);
        }
    }
}

/// The expressions inside an expression are those that are written in it.
pub proof fn the_children_of_an_expression_are_its_parts(expr: Expr, wanted: ExprId)
    requires
        !(expr is Block),
        !(expr is Lambda),
        !(expr is Try),
    ensures
        expr_children(expr).contains(Node::Expr(wanted)) == is_part(expr, wanted),
        forall|k: int| 0 <= k < expr_children(expr).len() ==> #[trigger] expr_children(expr)[k] is Expr,
{
    let node = Node::Expr(wanted);
    let children = expr_children(expr);
    match expr {
        Expr::Template(parts) => {
            lemma_listed(template_exprs(parts@), wanted);
            let piece = |part: TemplatePart|
                match part {
                    TemplatePart::Expr(expression) => seq![expression],
                    TemplatePart::Str(_) => Seq::empty(),
                };
            if is_part(expr, wanted) {
                let k = choose|k: int|
                    0 <= k < parts@.len() && parts@[k] == TemplatePart::Expr(wanted);
                assert(piece(parts@[k])[0] == wanted);
                assert(piece(parts@[k]).contains(wanted));
                lemma_gathers(parts@, piece, k, wanted);
            }
            if template_exprs(parts@).contains(wanted) {
                lemma_gathered_origin(parts@, piece, wanted);
                let k = choose|k: int|
                    0 <= k < parts@.len() && piece(#[trigger] parts@[k]).contains(wanted);
                assert(parts@[k] == TemplatePart::Expr(wanted));
            }
        },
        Expr::Unary { operand, .. } => {
            assert(children =~= expr_nodes(seq![operand]));
            lemma_one(operand, wanted);
        },
        Expr::Binary { lhs, rhs, .. } => {
            assert(children =~= expr_nodes(seq![lhs] + seq![rhs]));
            lemma_listed(seq![lhs] + seq![rhs], wanted);
            lemma_either(seq![lhs], seq![rhs], wanted);
            lemma_one(lhs, wanted);
            lemma_one(rhs, wanted);
        },
        Expr::IncDec { target, .. } => {
            assert(children =~= expr_nodes(seq![target]));
            lemma_one(target, wanted);
        },
        Expr::Call { callee, args } => {
            assert(children =~= expr_nodes(seq![callee] + args@));
            lemma_listed(seq![callee] + args@, wanted);
            lemma_either(seq![callee], args@, wanted);
            lemma_one(callee, wanted);
        },
        Expr::Member { receiver, .. } => {
            assert(children =~= expr_nodes(seq![receiver]));
            lemma_one(receiver, wanted);
        },
        Expr::Index { receiver, args } => {
            assert(children =~= expr_nodes(seq![receiver] + args@));
            lemma_listed(seq![receiver] + args@, wanted);
            lemma_either(seq![receiver], args@, wanted);
            lemma_one(receiver, wanted);
        },
        Expr::CallableRef { receiver, .. } => {
            lemma_listed(optional(receiver), wanted);
            lemma_optional(receiver, wanted);
        },
        Expr::If { condition, consequent, alternative } => {
            let all = seq![condition] + (seq![consequent] + optional(alternative));
            assert(children =~= expr_nodes(all));
            lemma_listed(all, wanted);
            lemma_either(seq![condition], seq![consequent] + optional(alternative), wanted);
            lemma_either(seq![consequent], optional(alternative), wanted);
            lemma_one(condition, wanted);
            lemma_one(consequent, wanted);
            lemma_optional(alternative, wanted);
        },
        Expr::When { subject, arms } => {
            let all = optional(subject) + when_exprs(arms@);
            assert(children =~= expr_nodes(all));
            lemma_listed(all, wanted);
            lemma_either(optional(subject), when_exprs(arms@), wanted);
            lemma_optional(subject, wanted);
            let piece = |arm: WhenArm| arm.conditions@.push(arm.body);
            if when_exprs(arms@).contains(wanted) {
                lemma_gathered_origin(arms@, piece, wanted);
                let k = choose|k: int|
                    0 <= k < arms@.len() && piece(#[trigger] arms@[k]).contains(wanted);
                lemma_pushed(arms@[k].conditions@, arms@[k].body, wanted);
                assert(arms@[k].conditions@.contains(wanted) || arms@[k].body == wanted);
            }
            if exists|k: int|
                0 <= k < arms@.len() && ((#[trigger] arms@[k]).conditions@.contains(wanted)
                    || arms@[k].body == wanted) {
                let k = choose|k: int|
                    0 <= k < arms@.len() && ((#[trigger] arms@[k]).conditions@.contains(wanted)
                        || arms@[k].body == wanted);
                lemma_pushed(arms@[k].conditions@, arms@[k].body, wanted);
                assert(piece(arms@[k]).contains(wanted));
                lemma_gathers(arms@, piece, k, wanted);
            }
        },
        Expr::Return(value) => {
            lemma_listed(optional(value), wanted);
            lemma_optional(value, wanted);
        },
        Expr::Throw(value) => {
            assert(children =~= expr_nodes(seq![value]));
            lemma_one(value, wanted);
        },
        _ => {},
    }
}

proof fn lemma_gathers<A>(
    items: Seq<A>,
    piece: spec_fn(A) -> Seq<ExprId>,
    index: int,
    wanted: ExprId,
)
    requires
        0 <= index < items.len(),
        piece(items[index]).contains(wanted),
    ensures
        gathered(items, piece).contains(wanted),
{
    let own = piece(items[index]);
    let inner = choose|inner: int| 0 <= inner < own.len() && own[inner] == wanted;
    lemma_gathered_contains(items, piece, index, inner);
}

proof fn lemma_one(part: ExprId, wanted: ExprId)
    ensures
        seq![part].contains(wanted) == (part == wanted),
        expr_nodes(seq![part]).contains(Node::Expr(wanted)) == (part == wanted),
{
    lemma_listed(seq![part], wanted);
    assert(seq![part][0] == part);
    if seq![part].contains(wanted) {
        let k = choose|k: int| 0 <= k < seq![part].len() && seq![part][k] == wanted;
        assert(k == 0);
    }
}

proof fn lemma_pushed(parts: Seq<ExprId>, last: ExprId, wanted: ExprId)
    ensures
        parts.push(last).contains(wanted) == (parts.contains(wanted) || last == wanted),
{
    assert(parts.push(last) =~= parts + seq![last]);
    lemma_either(parts, seq![last], wanted);
    lemma_one(last, wanted);
}

proof fn lemma_shadowing(stmt: Stmt, name: Seq<char>)
    ensures
        shadows_behind(stmt, name) == declares(stmt, name),
{
    if let Stmt::Destructure { entries, .. } = stmt {
        if shadows_behind(stmt, name) {
            let k = choose|k: int|
                0 <= k < entries@.len() && !(#[trigger] entries@[k]).ignored && entries@[k].name@
                    == name;
            assert(entries@[k].name@ == name);
        }
        if declares(stmt, name) {
            let k = choose|k: int|
                0 <= k < entries@.len() && (#[trigger] entries@[k]).name@ == name
                    && !entries@[k].ignored;
            assert(!entries@[k].ignored);
        }
    }
}

/// Whether a block uses a name: a statement does, or the value behind them, and no statement in
/// front of it declares the name.
pub open spec fn block_uses(
    file: File,
    stmts: Seq<StmtId>,
    trailing: Option<ExprId>,
    name: Seq<char>,
) -> bool {
    ||| exists|k: int|
        0 <= k < stmts.len() && used(file, Node::Stmt(#[trigger] stmts[k]), name) && undeclared(
            file,
            stmts,
            k,
            name,
        )
    ||| trailing matches Some(value) && used(file, Node::Expr(value), name) && undeclared(
        file,
        stmts,
        stmts.len() as int,
        name,
    )
}

proof fn lemma_block_uses(
    file: File,
    outer: ExprId,
    stmts: Seq<StmtId>,
    trailing: Option<ExprId>,
    name: Seq<char>,
)
    requires
        forall|k: int| 0 <= k < stmts.len() ==> file.below(
            Node::Stmt(#[trigger] stmts[k]),
            Node::Expr(outer),
        ),
        trailing matches Some(value) ==> file.below(Node::Expr(value), Node::Expr(outer)),
    ensures
        block_free(file, outer, stmts, trailing, name) == block_uses(file, stmts, trailing, name),
    decreases stmts.len(),
{
    reveal_with_fuel(block_free, 3);
    reveal_with_fuel(node_free, 2);
    reveal_with_fuel(optional_free, 3);
    reveal_with_fuel(part_free, 2);
    if stmts.len() > 0 {
        let rest = stmts.skip(1);
        assert forall|k: int| 0 <= k < rest.len() implies file.below(
            Node::Stmt(#[trigger] rest[k]),
            Node::Expr(outer),
        ) by {
            assert(rest[k] == stmts[k + 1]);
        }
        lemma_block_uses(file, outer, rest, trailing, name);
        lemma_shadowing(file.stmt_at(stmts[0]), name);
        assert(file.below(Node::Stmt(stmts[0]), Node::Expr(outer)));
        if used(file, Node::Stmt(stmts[0]), name) {
            assert(undeclared(file, stmts, 0, name));
        }
        if block_uses(file, rest, trailing, name) && !declares(file.stmt_at(stmts[0]), name) {
            if exists|k: int|
                0 <= k < rest.len() && used(file, Node::Stmt(#[trigger] rest[k]), name)
                    && undeclared(file, rest, k, name) {
                let k = choose|k: int|
                    0 <= k < rest.len() && used(file, Node::Stmt(#[trigger] rest[k]), name)
                        && undeclared(file, rest, k, name);
                assert(stmts[k + 1] == rest[k]);
                lemma_undeclared(file, stmts, k + 1, name);
                assert(used(file, Node::Stmt(stmts[k + 1]), name));
            } else {
                lemma_undeclared(file, stmts, stmts.len() as int, name);
            }
        }
        if block_uses(file, stmts, trailing, name) && !used(file, Node::Stmt(stmts[0]), name) {
            if exists|k: int|
                0 <= k < stmts.len() && used(file, Node::Stmt(#[trigger] stmts[k]), name)
                    && undeclared(file, stmts, k, name) {
                let k = choose|k: int|
                    0 <= k < stmts.len() && used(file, Node::Stmt(#[trigger] stmts[k]), name)
                        && undeclared(file, stmts, k, name);
                assert(!declares(file.stmt_at(stmts[0]), name));
                lemma_undeclared(file, stmts, k, name);
                assert(rest[k - 1] == stmts[k]);
                assert(used(file, Node::Stmt(rest[k - 1]), name));
            } else {
                assert(!declares(file.stmt_at(stmts[0]), name));
                lemma_undeclared(file, stmts, stmts.len() as int, name);
            }
        }
    }
}

proof fn lemma_undeclared(file: File, stmts: Seq<StmtId>, count: int, name: Seq<char>)
    requires
        1 <= count <= stmts.len(),
    ensures
        undeclared(file, stmts, count, name) == (!declares(file.stmt_at(stmts[0]), name)
            && undeclared(file, stmts.skip(1), count - 1, name)),
{
    let rest = stmts.skip(1);
    if undeclared(file, stmts, count, name) {
        assert(!declares(file.stmt_at(stmts[0]), name));
        assert forall|j: int| 0 <= j < count - 1 implies !declares(
            file.stmt_at(#[trigger] rest[j]),
            name,
        ) by {
            assert(rest[j] == stmts[j + 1]);
        }
    }
    if !declares(file.stmt_at(stmts[0]), name) && undeclared(file, rest, count - 1, name) {
        assert forall|j: int| 0 <= j < count implies !declares(
            file.stmt_at(#[trigger] stmts[j]),
            name,
        ) by {
            if j > 0 {
                assert(rest[j - 1] == stmts[j]);
            }
        }
    }
}

/// What an expression uses: a name is used by its own spelling, and otherwise by a part that uses
/// it. A lambda keeps its parameters to itself, or `it` where it has none; a `catch` its exception;
/// and a block what it declares in front of the use.
pub proof fn an_expression_uses_what_its_parts_use(file: File, expression: ExprId, name: Seq<char>)
    requires
        file.well_formed(),
        file.has(Node::Expr(expression)),
    ensures
        used(file, Node::Expr(expression), name) == match file.expr_at(expression) {
            Expr::Name(spelled) => spelled@ == name,
            Expr::Block { stmts, trailing } => block_uses(file, stmts@, trailing, name),
            Expr::Lambda { params, body } => used(file, Node::Expr(body), name) && !views(
                params@,
            ).contains(name) && (params@.len() == 0 ==> name != "it"@),
            Expr::Try { body, catches, finally } => {
                ||| used(file, Node::Expr(body), name)
                ||| exists|k: int|
                    0 <= k < catches@.len() && used(
                        file,
                        Node::Expr((#[trigger] catches@[k]).body),
                        name,
                    ) && catches@[k].name@ != name
                ||| finally matches Some(last) && used(file, Node::Expr(last), name)
            },
            other => exists|part: ExprId| #[trigger]
                is_part(other, part) && used(file, Node::Expr(part), name),
        },
{
    reveal_with_fuel(expr_free, 4);
    reveal_with_fuel(block_free, 2);
    reveal_with_fuel(node_free, 3);
    reveal_with_fuel(optional_free, 3);
    reveal_with_fuel(part_free, 2);
    let node = Node::Expr(expression);
    let children = file.children(node);
    file.lemma_children(node);
    match file.expr_at(expression) {
        Expr::Name(_) => {},
        Expr::Block { stmts, trailing } => {
            assert forall|k: int| 0 <= k < stmts@.len() implies file.below(
                Node::Stmt(#[trigger] stmts@[k]),
                node,
            ) by {
                assert(children[k] == Node::Stmt(stmts@[k]));
            }
            if let Some(value) = trailing {
                assert(children[stmts@.len() as int] == Node::Expr(value));
            }
            lemma_block_uses(file, expression, stmts@, trailing, name);
        },
        Expr::Lambda { params, body } => {
            assert(children[0] == Node::Expr(body));
        },
        Expr::Try { body, catches, finally } => {
            assert(children[0] == Node::Expr(body));
            assert forall|k: int| 0 <= k < catches@.len() implies file.below(
                Node::Expr((#[trigger] catches@[k]).body),
                node,
            ) by {
                assert(children[k + 1] == Node::Expr(catches@[k].body));
            }
            if let Some(last) = finally {
                assert(children[catches@.len() as int + 1] == Node::Expr(last));
            }
        },
        other => {
            assert forall|part: ExprId| #[trigger] is_part(other, part) implies children.contains(
                Node::Expr(part),
            ) by {
                the_children_of_an_expression_are_its_parts(other, part);
            }
            if exists|part: ExprId| #[trigger]
                is_part(other, part) && used(file, Node::Expr(part), name) {
                let part = choose|part: ExprId| #[trigger]
                    is_part(other, part) && used(file, Node::Expr(part), name);
                let k = choose|k: int|
                    0 <= k < children.len() && children[k] == Node::Expr(part);
                assert(expr_children(other)[k] == Node::Expr(part));
            }
            if used(file, node, name) {
                let k = choose|k: int|
                    0 <= k < expr_children(other).len()
                        && node_free(
                        file,
                        node,
                        #[trigger] expr_children(other)[k],
                        name,
                    );
                the_children_of_an_expression_are_its_parts(other, expression);
                let part = expr_children(other)[k]->Expr_0;
                assert(expr_children(other).contains(Node::Expr(part)));
                the_children_of_an_expression_are_its_parts(other, part);
                assert(is_part(other, part));
            }
        },
    }
}

/// Whether an expression that may be there uses a name.
pub open spec fn optional_used(file: File, part: Option<ExprId>, name: Seq<char>) -> bool {
    part matches Some(found) && used(file, Node::Expr(found), name)
}

/// Whether the body of a function uses a name.
pub open spec fn body_used(file: File, body: FunBody, name: Seq<char>) -> bool {
    match body {
        FunBody::Expr(found) | FunBody::Block(found) => used(file, Node::Expr(found), name),
        FunBody::Absent => false,
    }
}

/// Whether one of the first `count` parameters is called `name`.
pub open spec fn is_parameter(params: Seq<ParamDecl>, count: int, name: Seq<char>) -> bool {
    exists|j: int| 0 <= j < count && (#[trigger] params[j]).name@ == name
}

/// Whether a default value uses a name that is not that of a parameter in front of it.
pub open spec fn default_uses(file: File, params: Seq<ParamDecl>, k: int, name: Seq<char>) -> bool {
    optional_used(file, params[k].default, name) && !is_parameter(params, k, name)
}

/// Whether a local function uses a name that is neither its own nor that of a parameter.
pub open spec fn function_uses(file: File, function: FunDecl, name: Seq<char>) -> bool {
    let params = function.params@;
    ||| exists|k: int| 0 <= k < params.len() && #[trigger] default_uses(file, params, k, name)
    ||| body_used(file, function.body, name) && function.name@ != name && !is_parameter(
        params,
        params.len() as int,
        name,
    )
}

/// Whether a class has a member called `name`.
pub open spec fn has_member(class: ClassDecl, name: Seq<char>) -> bool {
    ||| exists|k: int| 0 <= k < class.props@.len() && (#[trigger] class.props@[k]).name@ == name
    ||| exists|k: int|
        0 <= k < class.body_props@.len() && (#[trigger] class.body_props@[k]).name@ == name
    ||| exists|k: int| 0 <= k < class.methods@.len() && (#[trigger] class.methods@[k]).name@ == name
}

/// Whether the value that a property starts with uses a name.
pub open spec fn initializer_uses(file: File, property: PropDecl, name: Seq<char>) -> bool {
    optional_used(file, property.init, name) || optional_used(file, property.delegate, name)
}

/// Whether an accessor of a property uses a name.
pub open spec fn accessor_uses(file: File, property: PropDecl, name: Seq<char>) -> bool {
    ||| property.getter matches Some(body) && body_used(file, body, name)
    ||| property.setter matches Some(setter) && (setter.body matches Some(body) && body_used(
        file,
        body,
        name,
    ))
}

/// Whether a member function uses a name that is not that of a parameter.
pub open spec fn method_uses(file: File, method: FunDecl, name: Seq<char>) -> bool {
    body_used(file, method.body, name) && !is_parameter(
        method.params@,
        method.params@.len() as int,
        name,
    )
}

/// Whether one of some expressions uses a name.
pub open spec fn any_used(file: File, parts: Seq<ExprId>, name: Seq<char>) -> bool {
    exists|k: int| 0 <= k < parts.len() && used(file, Node::Expr(#[trigger] parts[k]), name)
}

/// Whether a secondary constructor uses a name that is not that of a parameter.
pub open spec fn constructor_uses(file: File, ctor: SecondaryCtorDecl, name: Seq<char>) -> bool {
    &&& !is_parameter(ctor.params@, ctor.params@.len() as int, name)
    &&& {
        ||| optional_used(file, ctor.body, name)
        ||| exists|k: int|
            0 <= k < ctor.params@.len() && optional_used(
                file,
                (#[trigger] ctor.params@[k]).default,
                name,
            )
        ||| match ctor.delegation {
            CtorDelegation::This(args) | CtorDelegation::Super(args) => any_used(file, args@, name),
            CtorDelegation::Absent => false,
        }
    }
}

/// Whether an initializer block uses a name.
pub open spec fn step_uses(file: File, step: ClassInit, name: Seq<char>) -> bool {
    step matches ClassInit::Block(body) && used(file, Node::Expr(body), name)
}

/// Whether a class uses a name of what is around it. A member hides the name in the whole body, but
/// for the value that a property of that name starts with.
pub open spec fn class_uses(file: File, class: ClassDecl, name: Seq<char>) -> bool {
    ||| exists|k: int|
        0 <= k < class.body_props@.len() && #[trigger] initializer_uses(
            file,
            class.body_props@[k],
            name,
        ) && (class.body_props@[k].name@ == name || !has_member(class, name))
    ||| !has_member(class, name) && {
        ||| any_used(file, class.base_args@, name)
        ||| exists|k: int|
            0 <= k < class.props@.len() && optional_used(
                file,
                (#[trigger] class.props@[k]).default,
                name,
            )
        ||| exists|k: int|
            0 <= k < class.init_order@.len() && step_uses(
                file,
                #[trigger] class.init_order@[k],
                name,
            )
        ||| exists|k: int|
            0 <= k < class.body_props@.len() && #[trigger] accessor_uses(
                file,
                class.body_props@[k],
                name,
            )
        ||| exists|k: int|
            0 <= k < class.methods@.len() && #[trigger] method_uses(file, class.methods@[k], name)
        ||| exists|k: int|
            0 <= k < class.secondary_ctors@.len() && #[trigger] constructor_uses(
                file,
                class.secondary_ctors@[k],
                name,
            )
    }
}

/// What a statement uses. An increment, a decrement and an assignment use the name that they write;
/// a loop keeps its variable to its body; a local function keeps its own name and its parameters to
/// its body, where a default value sees only the parameters in front of it; and a class keeps its
/// members.
pub proof fn a_statement_uses_what_its_parts_use(file: File, statement: StmtId, name: Seq<char>)
    requires
        file.well_formed(),
        file.has(Node::Stmt(statement)),
    ensures
        used(file, Node::Stmt(statement), name) == match file.stmt_at(statement) {
            Stmt::IncDec { name: target, .. } => target@ == name,
            Stmt::Assign { name: target, value } => target@ == name || used(
                file,
                Node::Expr(value),
                name,
            ),
            Stmt::For { name: local, range, body } => used(file, Node::Expr(range.start), name)
                || used(file, Node::Expr(range.end), name) || used(file, Node::Expr(body), name)
                && local@ != name,
            Stmt::ForEach { name: local, iterable, body } => used(file, Node::Expr(iterable), name)
                || used(file, Node::Expr(body), name) && local@ != name,
            Stmt::LocalFun(function) => function_uses(file, function, name),
            Stmt::LocalClass(class) => class_uses(file, class, name),
            other => exists|part: ExprId| #[trigger]
                is_part_of_stmt(other, part) && used(file, Node::Expr(part), name),
        },
{
    reveal_with_fuel(stmt_free, 4);
    reveal_with_fuel(any_part_free, 2);
    reveal_with_fuel(part_free, 2);
    reveal_with_fuel(fun_free, 2);
    reveal_with_fuel(class_free, 2);
    let node = Node::Stmt(statement);
    let stmt = file.stmt_at(statement);
    let parts = stmt_children(stmt);
    assert forall|part: ExprId| #[trigger] parts.contains(part) implies file.below(
        Node::Expr(part),
        node,
    ) by {
        lemma_listed(parts, part);
        file.lemma_inside(node, Node::Expr(part));
    }
    match stmt {
        Stmt::IncDec { .. } => {},
        Stmt::Assign { value, .. } => {
            assert(parts[0] == value);
            assert(parts.contains(value));
        },
        Stmt::For { range, body, .. } => {
            assert(parts[0] == range.start && parts[1] == range.end && parts[2] == body);
            assert(parts.contains(range.start) && parts.contains(range.end) && parts.contains(body));
        },
        Stmt::ForEach { iterable, body, .. } => {
            assert(parts[0] == iterable && parts[1] == body);
            assert(parts.contains(iterable) && parts.contains(body));
        },
        Stmt::LocalFun(function) => {
            lemma_function_uses(file, node, function, name);
        },
        Stmt::LocalClass(class) => {
            assert forall|part: ExprId| #[trigger] class_exprs(class).contains(
                part,
            ) implies file.below(Node::Expr(part), node) by {
                let values = Seq::new(
                    class.interface_delegations@.len(),
                    |i: int| class.interface_delegations@[i].value,
                );
                assert(parts == class_exprs(class) + values);
                lemma_either(class_exprs(class), values, part);
            }
            lemma_class_uses(file, node, class, name);
        },
        _ => {
            assert forall|part: ExprId| is_part_of_stmt(stmt, part) == #[trigger] parts.contains(
                part,
            ) by {
                lemma_stmt_parts(stmt, part);
            }
            if used(file, node, name) {
                let k = choose|k: int|
                    0 <= k < parts.len() && part_free(file, node, #[trigger] parts[k], name);
                assert(parts.contains(parts[k]));
                assert(is_part_of_stmt(stmt, parts[k]));
            }
            if exists|part: ExprId| #[trigger]
                is_part_of_stmt(stmt, part) && used(file, Node::Expr(part), name) {
                let part = choose|part: ExprId| #[trigger]
                    is_part_of_stmt(stmt, part) && used(file, Node::Expr(part), name);
                assert(parts.contains(part));
                let k = choose|k: int| 0 <= k < parts.len() && parts[k] == part;
                assert(part_free(file, node, parts[k], name));
            }
        },
    }
}

proof fn lemma_stmt_parts(stmt: Stmt, part: ExprId)
    requires
        !(stmt is Assign || stmt is For || stmt is ForEach || stmt is LocalFun || stmt is LocalClass),
    ensures
        stmt_children(stmt).contains(part) == is_part_of_stmt(stmt, part),
{
    match stmt {
        Stmt::Expr(value) => {
            lemma_one(value, part);
        },
        Stmt::Local { init, .. } => {
            lemma_one(init, part);
        },
        Stmt::LocalDelegate { delegate, .. } => {
            lemma_one(delegate, part);
        },
        Stmt::Destructure { init, .. } => {
            lemma_one(init, part);
        },
        Stmt::AssignMember { receiver, value, .. } => {
            lemma_two(receiver, value, part);
        },
        Stmt::AssignIndex { receiver, args, value } => {
            lemma_either(seq![receiver] + args@, seq![value], part);
            lemma_either(seq![receiver], args@, part);
            lemma_one(receiver, part);
            lemma_one(value, part);
        },
        Stmt::While { condition, body } => {
            lemma_two(condition, body, part);
        },
        Stmt::DoWhile { body, condition } => {
            lemma_two(body, condition, part);
        },
        _ => {},
    }
}

proof fn lemma_two(first: ExprId, second: ExprId, part: ExprId)
    ensures
        seq![first, second].contains(part) == (first == part || second == part),
{
    assert(seq![first, second] =~= seq![first] + seq![second]);
    lemma_either(seq![first], seq![second], part);
    lemma_one(first, part);
    lemma_one(second, part);
}

proof fn lemma_parameters(params: Seq<ParamDecl>, count: int, name: Seq<char>)
    requires
        0 <= count <= params.len(),
    ensures
        declares_param(params.take(count), name) == is_parameter(params, count, name),
{
    let front = params.take(count);
    if declares_param(front, name) {
        let j = choose|j: int| 0 <= j < front.len() && (#[trigger] front[j]).name@ == name;
        assert(params[j].name@ == name);
    }
    if is_parameter(params, count, name) {
        let j = choose|j: int| 0 <= j < count && (#[trigger] params[j]).name@ == name;
        assert(front[j].name@ == name);
    }
}

proof fn lemma_all_parameters(params: Seq<ParamDecl>, name: Seq<char>)
    ensures
        declares_param(params, name) == is_parameter(params, params.len() as int, name),
{
    lemma_parameters(params, params.len() as int, name);
    assert(params.take(params.len() as int) =~= params);
}

proof fn lemma_function_uses(file: File, node: Node, function: FunDecl, name: Seq<char>)
    requires
        forall|part: ExprId| #[trigger]
            stmt_children(Stmt::LocalFun(function)).contains(part) ==> file.below(
                Node::Expr(part),
                node,
            ),
    ensures
        fun_free(file, node, function, name) == function_uses(file, function, name),
{
    reveal_with_fuel(fun_free, 4);
    reveal_with_fuel(optional_free, 3);
    reveal_with_fuel(part_free, 2);
    let params = function.params@;
    let defaults = param_defaults(params);
    let body = optional(fun_body_expr_spec(function.body));
    let piece = |param: ParamDecl| optional(param.default);
    let all = stmt_children(Stmt::LocalFun(function));
    assert(all == defaults + body);
    assert forall|k: int| 0 <= k < params.len() implies optional_free(
        file,
        node,
        (#[trigger] params[k]).default,
        name,
    ) == optional_used(file, params[k].default, name) by {
        if let Some(value) = params[k].default {
            lemma_optional(params[k].default, value);
            assert(piece(params[k]).contains(value));
            lemma_gathers(params, piece, k, value);
            lemma_either(defaults, body, value);
            assert(all.contains(value));
        }
    }
    if let Some(value) = fun_body_expr_spec(function.body) {
        lemma_optional(fun_body_expr_spec(function.body), value);
        lemma_either(defaults, body, value);
        assert(all.contains(value));
    }
    assert(optional_free(file, node, fun_body_expr_spec(function.body), name) == body_used(
        file,
        function.body,
        name,
    ));
    lemma_all_parameters(params, name);
    assert forall|k: int| 0 <= k < params.len() implies declares_param(params.take(k), name)
        == #[trigger] is_parameter(params, k, name) by {
        lemma_parameters(params, k, name);
    }
    if exists|k: int| 0 <= k < params.len() && #[trigger] default_uses(file, params, k, name) {
        let k = choose|k: int| 0 <= k < params.len() && #[trigger] default_uses(file, params, k, name);
        assert(optional_free(file, node, params[k].default, name));
        assert(!is_parameter(params, k, name));
    }
    if exists|k: int|
        0 <= k < params.len() && optional_free(file, node, (#[trigger] params[k]).default, name)
            && !declares_param(params.take(k), name) {
        let k = choose|k: int|
            0 <= k < params.len() && optional_free(file, node, (#[trigger] params[k]).default, name)
                && !declares_param(params.take(k), name);
        assert(!is_parameter(params, k, name));
        assert(default_uses(file, params, k, name));
    }
}

proof fn lemma_inside_class<A>(
    file: File,
    node: Node,
    class: ClassDecl,
    items: Seq<A>,
    piece: spec_fn(A) -> Seq<ExprId>,
    k: int,
    part: ExprId,
)
    requires
        forall|part: ExprId| #[trigger]
            class_exprs(class).contains(part) ==> file.below(Node::Expr(part), node),
        0 <= k < items.len(),
        piece(items[k]).contains(part),
        gathered(items, piece).contains(part) ==> class_exprs(class).contains(part),
    ensures
        file.below(Node::Expr(part), node),
{
    lemma_gathers(items, piece, k, part);
}

proof fn lemma_property_uses(
    file: File,
    node: Node,
    class: ClassDecl,
    k: int,
    visible: bool,
    name: Seq<char>,
)
    requires
        forall|part: ExprId| #[trigger]
            class_exprs(class).contains(part) ==> file.below(Node::Expr(part), node),
        0 <= k < class.body_props@.len(),
    ensures
        property_free(file, node, class.body_props@[k], visible, name) == ((visible
            || class.body_props@[k].name@ == name) && initializer_uses(
            file,
            class.body_props@[k],
            name,
        ) || visible && accessor_uses(file, class.body_props@[k], name)),
{
    reveal_with_fuel(property_free, 4);
    reveal_with_fuel(optional_free, 3);
    reveal_with_fuel(any_part_free, 3);
    reveal_with_fuel(part_free, 2);
    let property = class.body_props@[k];
    let properties = class.body_props@;
    if let Some(part) = property.init {
        lemma_class_exprs(class, part);
        lemma_optional(property.init, part);
        lemma_inside_class(
            file,
            node,
            class,
            properties,
            |property: PropDecl| optional(property.init),
            k,
            part,
        );
    }
    if let Some(part) = property.delegate {
        lemma_class_exprs(class, part);
        lemma_optional(property.delegate, part);
        lemma_inside_class(
            file,
            node,
            class,
            properties,
            |property: PropDecl| optional(property.delegate),
            k,
            part,
        );
    }
    let getter = accessor_expr(property.getter);
    let setter = setter_expr(property.setter);
    assert forall|j: int| 0 <= j < getter.len() implies file.below(
        Node::Expr(#[trigger] getter[j]),
        node,
    ) by {
        lemma_class_exprs(class, getter[j]);
        lemma_inside_class(
            file,
            node,
            class,
            properties,
            |property: PropDecl| accessor_expr(property.getter),
            k,
            getter[j],
        );
    }
    assert forall|j: int| 0 <= j < setter.len() implies file.below(
        Node::Expr(#[trigger] setter[j]),
        node,
    ) by {
        lemma_class_exprs(class, setter[j]);
        lemma_inside_class(
            file,
            node,
            class,
            properties,
            |property: PropDecl| setter_expr(property.setter),
            k,
            setter[j],
        );
    }
    if let Some(body) = property.getter {
        if let Some(part) = fun_body_expr_spec(body) {
            assert(getter[0] == part);
            assert(part_free(file, node, getter[0], name) == used(file, Node::Expr(part), name));
        }
    }
    if let Some(found) = property.setter {
        if let Some(body) = found.body {
            if let Some(part) = fun_body_expr_spec(body) {
                assert(setter[0] == part);
                assert(part_free(file, node, setter[0], name) == used(
                    file,
                    Node::Expr(part),
                    name,
                ));
            }
        }
    }
}

proof fn lemma_constructor_uses(
    file: File,
    node: Node,
    class: ClassDecl,
    k: int,
    name: Seq<char>,
)
    requires
        forall|part: ExprId| #[trigger]
            class_exprs(class).contains(part) ==> file.below(Node::Expr(part), node),
        0 <= k < class.secondary_ctors@.len(),
    ensures
        ctor_free(file, node, class.secondary_ctors@[k], name) == constructor_uses(
            file,
            class.secondary_ctors@[k],
            name,
        ),
{
    reveal_with_fuel(ctor_free, 4);
    reveal_with_fuel(any_part_free, 3);
    reveal_with_fuel(part_free, 2);
    let ctor = class.secondary_ctors@[k];
    let all = ctor_exprs(ctor);
    let body = optional(ctor.body);
    let defaults = param_defaults(ctor.params@);
    let args = delegation_args(ctor.delegation);
    let piece = |param: ParamDecl| optional(param.default);
    assert(all == body + defaults + args);
    lemma_all_parameters(ctor.params@, name);
    assert forall|part: ExprId| #[trigger] all.contains(part) implies file.below(
        Node::Expr(part),
        node,
    ) by {
        lemma_class_exprs(class, part);
        lemma_inside_class(
            file,
            node,
            class,
            class.secondary_ctors@,
            |ctor: SecondaryCtorDecl| ctor_exprs(ctor),
            k,
            part,
        );
    }
    let parts_use = optional_used(file, ctor.body, name) || (exists|j: int|
        0 <= j < ctor.params@.len() && optional_used(
            file,
            (#[trigger] ctor.params@[j]).default,
            name,
        )) || any_used(file, args, name);
    if exists|j: int| 0 <= j < all.len() && part_free(file, node, #[trigger] all[j], name) {
        let j = choose|j: int| 0 <= j < all.len() && part_free(file, node, #[trigger] all[j], name);
        let part = all[j];
        assert(all.contains(part));
        lemma_either(body + defaults, args, part);
        lemma_either(body, defaults, part);
        lemma_optional(ctor.body, part);
        if defaults.contains(part) {
            lemma_gathered_origin(ctor.params@, piece, part);
            let p = choose|p: int|
                0 <= p < ctor.params@.len() && piece(#[trigger] ctor.params@[p]).contains(part);
            lemma_optional(ctor.params@[p].default, part);
            assert(optional_used(file, ctor.params@[p].default, name));
        }
        if args.contains(part) {
            let p = choose|p: int| 0 <= p < args.len() && args[p] == part;
            assert(used(file, Node::Expr(args[p]), name));
        }
        assert(parts_use);
    }
    if parts_use {
        let part = if optional_used(file, ctor.body, name) {
            ctor.body->0
        } else if any_used(file, args, name) {
            args[choose|p: int|
                0 <= p < args.len() && used(file, Node::Expr(#[trigger] args[p]), name)]
        } else {
            let p = choose|p: int|
                0 <= p < ctor.params@.len() && optional_used(
                    file,
                    (#[trigger] ctor.params@[p]).default,
                    name,
                );
            ctor.params@[p].default->0
        };
        lemma_either(body + defaults, args, part);
        lemma_either(body, defaults, part);
        lemma_optional(ctor.body, part);
        if !optional_used(file, ctor.body, name) && !any_used(file, args, name) {
            let p = choose|p: int|
                0 <= p < ctor.params@.len() && optional_used(
                    file,
                    (#[trigger] ctor.params@[p]).default,
                    name,
                );
            lemma_optional(ctor.params@[p].default, part);
            assert(piece(ctor.params@[p]).contains(part));
            lemma_gathers(ctor.params@, piece, p, part);
        }
        assert(all.contains(part));
        let j = choose|j: int| 0 <= j < all.len() && all[j] == part;
        assert(part_free(file, node, all[j], name));
    }
}

proof fn lemma_class_uses(file: File, node: Node, class: ClassDecl, name: Seq<char>)
    requires
        forall|part: ExprId| #[trigger]
            class_exprs(class).contains(part) ==> file.below(Node::Expr(part), node),
    ensures
        class_free(file, node, class, name) == class_uses(file, class, name),
{
    reveal_with_fuel(class_free, 4);
    reveal_with_fuel(optional_free, 3);
    reveal_with_fuel(any_part_free, 3);
    reveal_with_fuel(part_free, 2);
    reveal_with_fuel(method_free, 4);
    let visible = !has_member(class, name);
    assert(class_declares(class, name) == has_member(class, name));
    assert forall|k: int| 0 <= k < class.base_args@.len() implies file.below(
        Node::Expr(#[trigger] class.base_args@[k]),
        node,
    ) by {
        lemma_class_exprs(class, class.base_args@[k]);
        assert(class.base_args@.contains(class.base_args@[k]));
    }
    if any_used(file, class.base_args@, name) {
        let k = choose|k: int|
            0 <= k < class.base_args@.len() && used(
                file,
                Node::Expr(#[trigger] class.base_args@[k]),
                name,
            );
        assert(part_free(file, node, class.base_args@[k], name));
    }
    assert(any_part_free(file, node, class.base_args@, name) == any_used(
        file,
        class.base_args@,
        name,
    ));
    assert forall|k: int| 0 <= k < class.props@.len() implies optional_free(
        file,
        node,
        (#[trigger] class.props@[k]).default,
        name,
    ) == optional_used(file, class.props@[k].default, name) by {
        if let Some(part) = class.props@[k].default {
            lemma_class_exprs(class, part);
            lemma_optional(class.props@[k].default, part);
            lemma_inside_class(
                file,
                node,
                class,
                class.props@,
                |property: CtorPropDecl| optional(property.default),
                k,
                part,
            );
        }
    }
    assert forall|k: int| 0 <= k < class.init_order@.len() implies any_part_free(
        file,
        node,
        init_block(#[trigger] class.init_order@[k]),
        name,
    ) == step_uses(file, class.init_order@[k], name) by {
        let block = init_block(class.init_order@[k]);
        if let ClassInit::Block(part) = class.init_order@[k] {
            lemma_class_exprs(class, part);
            assert(block[0] == part);
            lemma_inside_class(
                file,
                node,
                class,
                class.init_order@,
                |step: ClassInit| init_block(step),
                k,
                part,
            );
            assert(part_free(file, node, block[0], name) == used(file, Node::Expr(part), name));
        }
    }
    assert forall|k: int| 0 <= k < class.body_props@.len() implies property_free(
        file,
        node,
        #[trigger] class.body_props@[k],
        visible,
        name,
    ) == ((visible || class.body_props@[k].name@ == name) && initializer_uses(
        file,
        class.body_props@[k],
        name,
    ) || visible && accessor_uses(file, class.body_props@[k], name)) by {
        lemma_property_uses(file, node, class, k, visible, name);
    }
    assert forall|k: int| 0 <= k < class.methods@.len() implies method_free(
        file,
        node,
        #[trigger] class.methods@[k],
        name,
    ) == method_uses(file, class.methods@[k], name) by {
        let method = class.methods@[k];
        lemma_all_parameters(method.params@, name);
        if let Some(part) = fun_body_expr_spec(method.body) {
            lemma_class_exprs(class, part);
            lemma_optional(fun_body_expr_spec(method.body), part);
            lemma_inside_class(
                file,
                node,
                class,
                class.methods@,
                |method: FunDecl| optional(fun_body_expr_spec(method.body)),
                k,
                part,
            );
        }
    }
    assert forall|k: int| 0 <= k < class.secondary_ctors@.len() implies ctor_free(
        file,
        node,
        #[trigger] class.secondary_ctors@[k],
        name,
    ) == constructor_uses(file, class.secondary_ctors@[k], name) by {
        lemma_constructor_uses(file, node, class, k, name);
    }
    if class_free(file, node, class, name) {
        if exists|k: int|
            0 <= k < class.body_props@.len() && property_free(
                file,
                node,
                #[trigger] class.body_props@[k],
                visible,
                name,
            ) {
            let k = choose|k: int|
                0 <= k < class.body_props@.len() && property_free(
                    file,
                    node,
                    #[trigger] class.body_props@[k],
                    visible,
                    name,
                );
            assert(initializer_uses(file, class.body_props@[k], name) || accessor_uses(
                file,
                class.body_props@[k],
                name,
            ));
        }
        if visible && exists|k: int|
            0 <= k < class.methods@.len() && method_free(
                file,
                node,
                #[trigger] class.methods@[k],
                name,
            ) {
            let k = choose|k: int|
                0 <= k < class.methods@.len() && method_free(
                    file,
                    node,
                    #[trigger] class.methods@[k],
                    name,
                );
            assert(method_uses(file, class.methods@[k], name));
        }
        if visible && exists|k: int|
            0 <= k < class.secondary_ctors@.len() && ctor_free(
                file,
                node,
                #[trigger] class.secondary_ctors@[k],
                name,
            ) {
            let k = choose|k: int|
                0 <= k < class.secondary_ctors@.len() && ctor_free(
                    file,
                    node,
                    #[trigger] class.secondary_ctors@[k],
                    name,
                );
            assert(constructor_uses(file, class.secondary_ctors@[k], name));
        }
    }
}

/// Whether a statement is an increment, a decrement or an assignment of a name.
pub open spec fn writes_itself(stmt: Stmt, name: Seq<char>) -> bool {
    match stmt {
        Stmt::IncDec { name: target, .. } | Stmt::Assign { name: target, .. } => target@ == name,
        _ => false,
    }
}

/// An increment, a decrement or an assignment in a block is a use of the name that it writes,
/// unless a statement in front of it declares that name.
pub proof fn a_write_in_a_block_is_a_use(file: File, expression: ExprId, k: int, name: Seq<char>)
    requires
        file.well_formed(),
        file.has(Node::Expr(expression)),
        file.expr_at(expression) matches Expr::Block { stmts, .. } && 0 <= k < stmts@.len()
            && undeclared(file, stmts@, k, name) && writes_itself(file.stmt_at(stmts@[k]), name),
    ensures
        expr_free(file, expression, name),
{
    an_expression_uses_what_its_parts_use(file, expression, name);
    let stmts = file.expr_at(expression)->stmts@;
    file.lemma_children(Node::Expr(expression));
    assert(file.children(Node::Expr(expression))[k] == Node::Stmt(stmts[k]));
    a_statement_uses_what_its_parts_use(file, stmts[k], name);
    assert(used(file, Node::Stmt(stmts[k]), name));
}

/// What a body writes: an assignment, an increment or a decrement writes the name that it is
/// written with, in a statement or in an expression, and what a part writes the whole writes.
pub proof fn a_write_is_one_of_a_part(file: File, node: Node, name: Seq<char>)
    requires
        file.well_formed(),
        file.has(node),
    ensures
        node matches Node::Stmt(statement) ==> (file.stmt_at(statement) matches Stmt::Assign {
            name: target,
            ..
        } ==> (target@ == name ==> writes(file, node, name))),
        node matches Node::Stmt(statement) ==> (file.stmt_at(statement) matches Stmt::IncDec {
            name: target,
            ..
        } ==> (target@ == name <==> writes(file, node, name))),
        node matches Node::Expr(expression) ==> (file.expr_at(expression) matches Expr::IncDec {
            target,
            ..
        } ==> (file.expr_at(target) matches Expr::Name(spelled) ==> (spelled@ == name
            ==> writes(file, node, name)))),
        node matches Node::Expr(expression) ==> (file.expr_at(expression) is Name ==> !writes(
            file,
            node,
            name,
        )),
        forall|k: int|
            0 <= k < file.children(node).len() && writes(
                file,
                #[trigger] file.children(node)[k],
                name,
            ) ==> writes(file, node, name),
{
    file.lemma_children(node);
}

} // verus!
