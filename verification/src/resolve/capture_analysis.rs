//! Lexical name-use analysis for closure and local-declaration capture planning.

use vstd::prelude::*;

use crate::ast::{
    accessor_expr, child_exprs, child_nodes, class_exprs, ctor_exprs, expr_children, fun_body_expr,
    fun_body_expr_spec, gathered, init_block, lemma_gathered_all, lemma_gathered_contains,
    lemma_gathered_step, local_class_exprs, optional, param_defaults, setter_expr, stmt_children,
    ClassDecl, ClassInit, CtorPropDecl, Decl, DeclId, Expr, ExprId, File, FunBody, FunDecl, Node,
    ParamDecl, PropDecl, SecondaryCtorDecl, Stmt, StmtId,
};
use crate::resolve::capture_storage::secondary_constructor_expressions;
use crate::text::{holds_name, precedes, same_text, spelled_before, views};

verus! {

broadcast use crate::text::group_views;

/// Whether a parameter list declares `name`.
pub open spec fn declares_param(params: Seq<ParamDecl>, name: Seq<char>) -> bool {
    exists|k: int| 0 <= k < params.len() && (#[trigger] params[k]).name@ == name
}

/// Whether a statement shadows `name` for the statements behind it.
pub open spec fn shadows_behind(stmt: Stmt, name: Seq<char>) -> bool {
    match stmt {
        Stmt::Local { name: local, .. } => local@ == name,
        Stmt::LocalDelegate { name: local, .. } => local@ == name,
        Stmt::Destructure { entries, .. } => exists|k: int|
            0 <= k < entries@.len() && !(#[trigger] entries@[k]).ignored && entries@[k].name@ == name,
        _ => false,
    }
}

/// Whether a class declares a value or a member function called `name`.
pub open spec fn class_declares(class: ClassDecl, name: Seq<char>) -> bool {
    ||| exists|k: int| 0 <= k < class.props@.len() && (#[trigger] class.props@[k]).name@ == name
    ||| exists|k: int|
        0 <= k < class.body_props@.len() && (#[trigger] class.body_props@[k]).name@ == name
    ||| exists|k: int| 0 <= k < class.methods@.len() && (#[trigger] class.methods@[k]).name@ == name
}

/// Whether `name` occurs free in a part of a node.
pub open spec fn part_free(file: File, outer: Node, part: ExprId, name: Seq<char>) -> bool
    decreases file.height(outer), 0nat, 0nat,
{
    file.below(Node::Expr(part), outer) && expr_free(file, part, name)
}

/// Whether `name` occurs free in an optional part of a node.
pub open spec fn optional_free(file: File, outer: Node, part: Option<ExprId>, name: Seq<char>) -> bool
    decreases file.height(outer), 1nat, 0nat,
{
    match part {
        Some(found) => part_free(file, outer, found, name),
        None => false,
    }
}

/// Whether `name` occurs free in one of some parts of a node.
pub open spec fn any_part_free(file: File, outer: Node, parts: Seq<ExprId>, name: Seq<char>) -> bool
    decreases file.height(outer), 1nat, 0nat,
{
    exists|k: int| 0 <= k < parts.len() && part_free(file, outer, #[trigger] parts[k], name)
}

/// Whether `name` occurs free in a node inside another.
pub open spec fn node_free(file: File, outer: Node, node: Node, name: Seq<char>) -> bool
    decreases file.height(outer), 1nat, 0nat,
{
    match node {
        Node::Expr(part) => part_free(file, outer, part, name),
        Node::Stmt(statement) => file.below(node, outer) && stmt_free(file, statement, name),
    }
}

/// Whether an expression reads or writes `name` without declaring it around that use.
pub open spec fn expr_free(file: File, expression: ExprId, name: Seq<char>) -> bool
    decreases file.height(Node::Expr(expression)), 4nat, 0nat,
{
    let outer = Node::Expr(expression);
    match file.expr_at(expression) {
        Expr::Name(spelled) => spelled@ == name,
        Expr::Block { stmts, trailing } => block_free(file, expression, stmts@, trailing, name),
        Expr::Lambda { params, body } => !views(params@).contains(name) && !(params@.len() == 0
            && name == "it"@) && part_free(file, outer, body, name),
        Expr::Try { body, catches, finally } => {
            ||| part_free(file, outer, body, name)
            ||| exists|k: int|
                0 <= k < catches@.len() && (#[trigger] catches@[k]).name@ != name && part_free(
                    file,
                    outer,
                    catches@[k].body,
                    name,
                )
            ||| optional_free(file, outer, finally, name)
        },
        other => exists|k: int|
            0 <= k < expr_children(other).len() && node_free(
                file,
                outer,
                #[trigger] expr_children(other)[k],
                name,
            ),
    }
}

/// Whether `name` occurs free in the statements of a block or in the value behind them.
pub open spec fn block_free(
    file: File,
    outer: ExprId,
    stmts: Seq<StmtId>,
    trailing: Option<ExprId>,
    name: Seq<char>,
) -> bool
    decreases file.height(Node::Expr(outer)), 3nat, stmts.len(),
{
    if stmts.len() == 0 {
        optional_free(file, Node::Expr(outer), trailing, name)
    } else {
        ||| node_free(file, Node::Expr(outer), Node::Stmt(stmts[0]), name)
        ||| !shadows_behind(file.stmt_at(stmts[0]), name) && block_free(
            file,
            outer,
            stmts.skip(1),
            trailing,
            name,
        )
    }
}

/// Whether a statement reads or writes `name` without declaring it around that use.
pub open spec fn stmt_free(file: File, statement: StmtId, name: Seq<char>) -> bool
    decreases file.height(Node::Stmt(statement)), 4nat, 0nat,
{
    let outer = Node::Stmt(statement);
    match file.stmt_at(statement) {
        Stmt::IncDec { name: target, .. } => target@ == name,
        Stmt::Assign { name: target, value } => target@ == name || part_free(
            file,
            outer,
            value,
            name,
        ),
        Stmt::For { name: local, range, body } => {
            ||| part_free(file, outer, range.start, name)
            ||| part_free(file, outer, range.end, name)
            ||| local@ != name && part_free(file, outer, body, name)
        },
        Stmt::ForEach { name: local, iterable, body } => {
            ||| part_free(file, outer, iterable, name)
            ||| local@ != name && part_free(file, outer, body, name)
        },
        Stmt::LocalFun(function) => fun_free(file, outer, function, name),
        Stmt::LocalClass(class) => class_free(file, outer, class, name),
        other => any_part_free(file, outer, stmt_children(other), name),
    }
}

/// Whether `name` occurs free in a local function. A default value sees only the parameters in
/// front of it.
pub open spec fn fun_free(file: File, outer: Node, function: FunDecl, name: Seq<char>) -> bool
    decreases file.height(outer), 2nat, 0nat,
{
    ||| exists|k: int|
        0 <= k < function.params@.len() && optional_free(
            file,
            outer,
            (#[trigger] function.params@[k]).default,
            name,
        ) && !declares_param(function.params@.take(k), name)
    ||| function.name@ != name && !declares_param(function.params@, name) && optional_free(
        file,
        outer,
        fun_body_expr_spec(function.body),
        name,
    )
}

/// Whether `name` occurs free in a class. Its members and constructor parameters shadow the name
/// throughout its body, but the initializer of a property does not see that property itself.
pub open spec fn class_free(file: File, outer: Node, class: ClassDecl, name: Seq<char>) -> bool
    decreases file.height(outer), 3nat, 0nat,
{
    let visible = !class_declares(class, name);
    ||| visible && any_part_free(file, outer, class.base_args@, name)
    ||| visible && exists|k: int|
        0 <= k < class.props@.len() && optional_free(
            file,
            outer,
            (#[trigger] class.props@[k]).default,
            name,
        )
    ||| visible && exists|k: int|
        0 <= k < class.init_order@.len() && any_part_free(
            file,
            outer,
            init_block(#[trigger] class.init_order@[k]),
            name,
        )
    ||| exists|k: int|
        0 <= k < class.body_props@.len() && property_free(
            file,
            outer,
            #[trigger] class.body_props@[k],
            visible,
            name,
        )
    ||| visible && exists|k: int|
        0 <= k < class.methods@.len() && method_free(
            file,
            outer,
            #[trigger] class.methods@[k],
            name,
        )
    ||| visible && exists|k: int|
        0 <= k < class.secondary_ctors@.len() && ctor_free(
            file,
            outer,
            #[trigger] class.secondary_ctors@[k],
            name,
        )
}

/// Whether `name` occurs free in a property of a class.
pub open spec fn property_free(
    file: File,
    outer: Node,
    property: PropDecl,
    visible: bool,
    name: Seq<char>,
) -> bool
    decreases file.height(outer), 2nat, 0nat,
{
    ||| (visible || property.name@ == name) && (optional_free(file, outer, property.init, name)
        || optional_free(file, outer, property.delegate, name))
    ||| visible && any_part_free(file, outer, accessor_expr(property.getter), name)
    ||| visible && any_part_free(file, outer, setter_expr(property.setter), name)
}

/// Whether `name` occurs free in a member function.
pub open spec fn method_free(file: File, outer: Node, method: FunDecl, name: Seq<char>) -> bool
    decreases file.height(outer), 2nat, 0nat,
{
    !declares_param(method.params@, name) && optional_free(
        file,
        outer,
        fun_body_expr_spec(method.body),
        name,
    )
}

/// Whether `name` occurs free in a secondary constructor.
pub open spec fn ctor_free(file: File, outer: Node, ctor: SecondaryCtorDecl, name: Seq<char>) -> bool
    decreases file.height(outer), 2nat, 0nat,
{
    !declares_param(ctor.params@, name) && any_part_free(file, outer, ctor_exprs(ctor), name)
}

fn is_param(params: &Vec<ParamDecl>, name: &str, count: usize) -> (found: bool)
    requires
        count <= params@.len(),
    ensures
        found == declares_param(params@.take(count as int), name@),
{
    let mut index: usize = 0;
    while index < count
        invariant
            index <= count,
            count <= params@.len(),
            forall|k: int| 0 <= k < index ==> (#[trigger] params@[k]).name@ != name@,
        decreases count - index,
    {
        if same_text(params[index].name.as_str(), name) {
            assert(params@.take(count as int)[index as int].name@ == name@);
            return true;
        }
        index += 1;
    }
    assert forall|k: int| 0 <= k < count implies (#[trigger] params@.take(count as int)[k]).name@
        != name@ by {
        assert(params@[k].name@ != name@);
    }
    false
}

fn declares_here(params: &Vec<ParamDecl>, name: &str) -> (found: bool)
    ensures
        found == declares_param(params@, name@),
{
    assert(params@.take(params@.len() as int) =~= params@);
    is_param(params, name, params.len())
}

fn is_shadowed_behind(stmt: &Stmt, name: &str) -> (found: bool)
    ensures
        found == shadows_behind(*stmt, name@),
{
    match stmt {
        Stmt::Local { name: local, .. } => same_text(local.as_str(), name),
        Stmt::LocalDelegate { name: local, .. } => same_text(local.as_str(), name),
        Stmt::Destructure { entries, .. } => {
            let mut index: usize = 0;
            while index < entries.len()
                invariant
                    index <= entries@.len(),
                    *stmt matches Stmt::Destructure { entries: all, .. } && all == *entries,
                    forall|k: int|
                        0 <= k < index ==> !(!(#[trigger] entries@[k]).ignored
                            && entries@[k].name@ == name@),
                decreases entries@.len() - index,
            {
                let entry = &entries[index];
                if !entry.ignored && same_text(entry.name.as_str(), name) {
                    return true;
                }
                index += 1;
            }
            false
        },
        _ => false,
    }
}

fn class_has_name(class: &ClassDecl, name: &str) -> (found: bool)
    ensures
        found == class_declares(*class, name@),
{
    let mut index: usize = 0;
    while index < class.props.len()
        invariant
            index <= class.props@.len(),
            forall|k: int| 0 <= k < index ==> (#[trigger] class.props@[k]).name@ != name@,
        decreases class.props@.len() - index,
    {
        if same_text(class.props[index].name.as_str(), name) {
            return true;
        }
        index += 1;
    }
    index = 0;
    while index < class.body_props.len()
        invariant
            index <= class.body_props@.len(),
            forall|k: int| 0 <= k < index ==> (#[trigger] class.body_props@[k]).name@ != name@,
        decreases class.body_props@.len() - index,
    {
        if same_text(class.body_props[index].name.as_str(), name) {
            return true;
        }
        index += 1;
    }
    index = 0;
    while index < class.methods.len()
        invariant
            index <= class.methods@.len(),
            forall|k: int| 0 <= k < index ==> (#[trigger] class.methods@[k]).name@ != name@,
        decreases class.methods@.len() - index,
    {
        if same_text(class.methods[index].name.as_str(), name) {
            return true;
        }
        index += 1;
    }
    false
}

/// Whether `name` occurs free in an expression inside `outer`.
fn uses_in_part(file: &File, part: ExprId, name: &str, Ghost(outer): Ghost<Node>) -> (found: bool)
    requires
        file.well_formed(),
        file.below(Node::Expr(part), outer),
    ensures
        found == part_free(*file, outer, part, name@),
    decreases file.height(outer), 0nat,
{
    uses_name(file, part, name)
}

fn uses_in_optional(
    file: &File,
    part: Option<ExprId>,
    name: &str,
    Ghost(outer): Ghost<Node>,
) -> (found: bool)
    requires
        file.well_formed(),
        part matches Some(inner) ==> file.below(Node::Expr(inner), outer),
    ensures
        found == optional_free(*file, outer, part, name@),
    decreases file.height(outer), 1nat,
{
    match part {
        Some(inner) => uses_in_part(file, inner, name, Ghost(outer)),
        None => false,
    }
}

fn uses_in_any(file: &File, parts: &Vec<ExprId>, name: &str, Ghost(outer): Ghost<Node>) -> (found: bool)
    requires
        file.well_formed(),
        forall|k: int| 0 <= k < parts@.len() ==> file.below(Node::Expr(#[trigger] parts@[k]), outer),
    ensures
        found == any_part_free(*file, outer, parts@, name@),
    decreases file.height(outer), 1nat,
{
    let mut index: usize = 0;
    while index < parts.len()
        invariant
            index <= parts@.len(),
            file.well_formed(),
            forall|k: int|
                0 <= k < parts@.len() ==> file.below(Node::Expr(#[trigger] parts@[k]), outer),
            forall|k: int|
                0 <= k < index ==> !part_free(*file, outer, #[trigger] parts@[k], name@),
        decreases parts@.len() - index,
    {
        if uses_in_part(file, parts[index], name, Ghost(outer)) {
            return true;
        }
        index += 1;
    }
    false
}

/// Whether an expression reads or writes `name` without declaring it around that use.
pub fn uses_name(file: &File, expression: ExprId, name: &str) -> (found: bool)
    requires
        file.well_formed(),
        file.has(Node::Expr(expression)),
    ensures
        found == expr_free(*file, expression, name@),
    decreases file.height(Node::Expr(expression)), 4nat,
{
    let ghost outer = Node::Expr(expression);
    let ghost children = file.children(outer);
    proof {
        file.lemma_children(outer);
    }
    match file.expr(expression) {
        Expr::Name(spelled) => same_text(spelled.as_str(), name),
        Expr::Block { stmts, trailing } => uses_in_block(file, expression, stmts, *trailing, name),
        Expr::Lambda { params, body } => {
            assert(children[0] == Node::Expr(*body));
            !holds_name(params, name) && !(params.len() == 0 && same_text(name, "it"))
                && uses_in_part(file, *body, name, Ghost(outer))
        },
        Expr::Try { body, catches, finally } => {
            assert(children[0] == Node::Expr(*body));
            if uses_in_part(file, *body, name, Ghost(outer)) {
                return true;
            }
            let mut index: usize = 0;
            while index < catches.len()
                invariant
                    index <= catches@.len(),
                    file.well_formed(),
                    outer == Node::Expr(expression),
                    file.expr_at(expression) matches Expr::Try { catches: c, .. } && c == *catches,
                    children == file.children(outer),
                    forall|k: int|
                        #![trigger children[k]]
                        0 <= k < children.len() ==> file.has(children[k]) && file.height(
                            children[k],
                        ) < file.height(outer),
                    forall|k: int|
                        0 <= k < index ==> !((#[trigger] catches@[k]).name@ != name@ && part_free(
                            *file,
                            outer,
                            catches@[k].body,
                            name@,
                        )),
                decreases catches@.len() - index,
            {
                assert(children[1 + index as int] == Node::Expr(catches@[index as int].body));
                if !same_text(catches[index].name.as_str(), name) && uses_in_part(
                    file,
                    catches[index].body,
                    name,
                    Ghost(outer),
                ) {
                    return true;
                }
                index += 1;
            }
            proof {
                if let Some(last) = finally {
                    assert(children[1 + catches@.len() as int] == Node::Expr(*last));
                }
            }
            uses_in_optional(file, *finally, name, Ghost(outer))
        },
        other => {
            let nodes = child_nodes(other);
            let mut index: usize = 0;
            while index < nodes.len()
                invariant
                    index <= nodes@.len(),
                    file.well_formed(),
                    outer == Node::Expr(expression),
                    nodes@ == expr_children(file.expr_at(expression)),
                    nodes@ == children,
                    !(file.expr_at(expression) is Name),
                    !(file.expr_at(expression) is Block),
                    !(file.expr_at(expression) is Lambda),
                    !(file.expr_at(expression) is Try),
                    forall|k: int|
                        #![trigger children[k]]
                        0 <= k < children.len() ==> file.has(children[k]) && file.height(
                            children[k],
                        ) < file.height(outer),
                    forall|k: int|
                        0 <= k < index ==> !node_free(*file, outer, #[trigger] children[k], name@),
                decreases nodes@.len() - index,
            {
                assert(file.has(children[index as int]));
                let found = match nodes[index] {
                    Node::Expr(part) => uses_in_part(file, part, name, Ghost(outer)),
                    Node::Stmt(statement) => statement_uses_name(file, statement, name),
                };
                assert(node_free(*file, outer, children[index as int], name@) == found);
                if found {
                    return true;
                }
                index += 1;
            }
            false
        },
    }
}

fn uses_in_block(
    file: &File,
    expression: ExprId,
    stmts: &Vec<StmtId>,
    trailing: Option<ExprId>,
    name: &str,
) -> (found: bool)
    requires
        file.well_formed(),
        file.has(Node::Expr(expression)),
        file.expr_at(expression) matches Expr::Block { stmts: s, trailing: t } && s == *stmts && t
            == trailing,
    ensures
        found == block_free(*file, expression, stmts@, trailing, name@),
    decreases file.height(Node::Expr(expression)), 3nat,
{
    let ghost outer = Node::Expr(expression);
    let ghost children = file.children(outer);
    proof {
        file.lemma_children(outer);
    }
    let mut index: usize = 0;
    assert(stmts@.skip(0) =~= stmts@);
    while index < stmts.len()
        invariant
            index <= stmts@.len(),
            file.well_formed(),
            outer == Node::Expr(expression),
            file.expr_at(expression) matches Expr::Block { stmts: s, trailing: t } && s == *stmts
                && t == trailing,
            children == file.children(outer),
            forall|k: int|
                #![trigger children[k]]
                0 <= k < children.len() ==> file.has(children[k]) && file.height(children[k])
                    < file.height(outer),
            block_free(*file, expression, stmts@.skip(index as int), trailing, name@) == block_free(
                *file,
                expression,
                stmts@,
                trailing,
                name@,
            ),
        decreases stmts@.len() - index,
    {
        assert(children[index as int] == Node::Stmt(stmts@[index as int]));
        assert(stmts@.skip(index as int).skip(1) =~= stmts@.skip(index as int + 1));
        let found = statement_uses_name(file, stmts[index], name);
        assert(node_free(*file, outer, Node::Stmt(stmts@[index as int]), name@) == found);
        if found {
            return true;
        }
        if is_shadowed_behind(file.stmt(stmts[index]), name) {
            return false;
        }
        index += 1;
    }
    proof {
        if let Some(value) = trailing {
            assert(children[stmts@.len() as int] == Node::Expr(value));
        }
    }
    uses_in_optional(file, trailing, name, Ghost(outer))
}

/// Whether a statement reads or writes `name` without declaring it around that use.
pub fn statement_uses_name(file: &File, statement: StmtId, name: &str) -> (found: bool)
    requires
        file.well_formed(),
        file.has(Node::Stmt(statement)),
    ensures
        found == stmt_free(*file, statement, name@),
    decreases file.height(Node::Stmt(statement)), 4nat,
{
    let ghost outer = Node::Stmt(statement);
    let ghost children = file.children(outer);
    proof {
        file.lemma_children(outer);
    }
    match file.stmt(statement) {
        Stmt::IncDec { name: target, .. } => same_text(target.as_str(), name),
        Stmt::Assign { name: target, value } => {
            assert(children[0] == Node::Expr(*value));
            same_text(target.as_str(), name) || uses_in_part(file, *value, name, Ghost(outer))
        },
        Stmt::For { name: local, range, body } => {
            assert(children[0] == Node::Expr(range.start));
            assert(children[1] == Node::Expr(range.end));
            assert(children[2] == Node::Expr(*body));
            uses_in_part(file, range.start, name, Ghost(outer)) || uses_in_part(
                file,
                range.end,
                name,
                Ghost(outer),
            ) || (!same_text(local.as_str(), name) && uses_in_part(file, *body, name, Ghost(outer)))
        },
        Stmt::ForEach { name: local, iterable, body } => {
            assert(children[0] == Node::Expr(*iterable));
            assert(children[1] == Node::Expr(*body));
            uses_in_part(file, *iterable, name, Ghost(outer)) || (!same_text(local.as_str(), name)
                && uses_in_part(file, *body, name, Ghost(outer)))
        },
        Stmt::LocalFun(function) => function_uses_name(file, statement, function, name),
        Stmt::LocalClass(class) => class_uses_name(file, statement, class, name),
        other => {
            let parts = child_exprs(other);
            assert forall|k: int| 0 <= k < parts@.len() implies file.below(
                Node::Expr(#[trigger] parts@[k]),
                outer,
            ) by {
                assert(children[k] == Node::Expr(parts@[k]));
            }
            uses_in_any(file, &parts, name, Ghost(outer))
        },
    }
}

fn function_uses_name(file: &File, statement: StmtId, function: &FunDecl, name: &str) -> (found: bool)
    requires
        file.well_formed(),
        file.has(Node::Stmt(statement)),
        file.stmt_at(statement) matches Stmt::LocalFun(f) && f == *function,
    ensures
        found == fun_free(*file, Node::Stmt(statement), *function, name@),
    decreases file.height(Node::Stmt(statement)), 3nat,
{
    let ghost outer = Node::Stmt(statement);
    let ghost children = file.children(outer);
    let ghost piece = |param: ParamDecl| optional(param.default);
    let ghost defaults = param_defaults(function.params@);
    let mut index: usize = 0;
    while index < function.params.len()
        invariant
            index <= function.params@.len(),
            file.well_formed(),
            file.has(outer),
            outer == Node::Stmt(statement),
            file.stmt_at(statement) matches Stmt::LocalFun(f) && f == *function,
            children == file.children(outer),
            piece == (|param: ParamDecl| optional(param.default)),
            defaults == gathered(function.params@, piece),
            forall|k: int|
                0 <= k < index ==> !(optional_free(
                    *file,
                    outer,
                    (#[trigger] function.params@[k]).default,
                    name@,
                ) && !declares_param(function.params@.take(k), name@)),
        decreases function.params@.len() - index,
    {
        let param = &function.params[index];
        proof {
            if let Some(value) = param.default {
                assert(piece(*param)[0] == value);
                lemma_gathered_contains(function.params@, piece, index as int, 0);
                let at = choose|k: int| 0 <= k < defaults.len() && defaults[k] == value;
                assert(children[at] == Node::Expr(value));
                file.lemma_child(outer, at);
            }
        }
        if uses_in_optional(file, param.default, name, Ghost(outer)) && !is_param(
            &function.params,
            name,
            index,
        ) {
            return true;
        }
        index += 1;
    }
    let body = fun_body_expr(&function.body);
    proof {
        if let Some(value) = body {
            let at = defaults.len() as int;
            assert(children[at] == Node::Expr(value));
            file.lemma_child(outer, at);
        }
    }
    !same_text(function.name.as_str(), name) && !declares_here(&function.params, name)
        && uses_in_optional(file, body, name, Ghost(outer))
}

/// Whether every expression of a class is inside `outer`.
pub open spec fn class_inside(file: File, outer: Node, class: ClassDecl) -> bool {
    forall|k: int|
        0 <= k < class_exprs(class).len() ==> file.below(
            Node::Expr(#[trigger] class_exprs(class)[k]),
            outer,
        )
}

/// An expression of a class is inside what holds the class.
proof fn lemma_class_expr(file: File, outer: Node, class: ClassDecl, part: ExprId)
    requires
        class_inside(file, outer, class),
        class_exprs(class).contains(part),
    ensures
        file.below(Node::Expr(part), outer),
{
    let k = choose|k: int| 0 <= k < class_exprs(class).len() && class_exprs(class)[k] == part;
    assert(class_exprs(class)[k] == part);
}

/// Where the expressions of a class stand among all of them.
pub(crate) proof fn lemma_class_exprs(class: ClassDecl, part: ExprId)
    ensures
        gathered(
            class.methods@,
            |method: FunDecl| optional(fun_body_expr_spec(method.body)),
        ).contains(part) ==> class_exprs(class).contains(part),
        gathered(class.body_props@, |property: PropDecl| optional(property.init)).contains(part)
            ==> class_exprs(class).contains(part),
        gathered(class.body_props@, |property: PropDecl| optional(property.delegate)).contains(part)
            ==> class_exprs(class).contains(part),
        gathered(class.body_props@, |property: PropDecl| accessor_expr(property.getter)).contains(
            part,
        ) ==> class_exprs(class).contains(part),
        gathered(class.body_props@, |property: PropDecl| setter_expr(property.setter)).contains(part)
            ==> class_exprs(class).contains(part),
        class.base_args@.contains(part) ==> class_exprs(class).contains(part),
        gathered(class.props@, |property: CtorPropDecl| optional(property.default)).contains(part)
            ==> class_exprs(class).contains(part),
        gathered(class.init_order@, |step: ClassInit| init_block(step)).contains(part)
            ==> class_exprs(class).contains(part),
        gathered(class.secondary_ctors@, |ctor: SecondaryCtorDecl| ctor_exprs(ctor)).contains(part)
            ==> class_exprs(class).contains(part),
{
    let a = gathered(
        class.methods@,
        |method: FunDecl| optional(fun_body_expr_spec(method.body)),
    );
    let b = gathered(class.body_props@, |property: PropDecl| optional(property.init));
    let c = gathered(class.body_props@, |property: PropDecl| optional(property.delegate));
    let d = gathered(class.body_props@, |property: PropDecl| accessor_expr(property.getter));
    let e = gathered(class.body_props@, |property: PropDecl| setter_expr(property.setter));
    let f = class.base_args@;
    let g = gathered(class.props@, |property: CtorPropDecl| optional(property.default));
    let h = gathered(class.init_order@, |step: ClassInit| init_block(step));
    let i = gathered(class.secondary_ctors@, |ctor: SecondaryCtorDecl| ctor_exprs(ctor));
    lemma_contains_either(a, b, part);
    lemma_contains_either(a + b, c, part);
    lemma_contains_either(a + b + c, d, part);
    lemma_contains_either(a + b + c + d, e, part);
    lemma_contains_either(a + b + c + d + e, f, part);
    lemma_contains_either(a + b + c + d + e + f, g, part);
    lemma_contains_either(a + b + c + d + e + f + g, h, part);
    lemma_contains_either(a + b + c + d + e + f + g + h, i, part);
}

proof fn lemma_contains_either(left: Seq<ExprId>, right: Seq<ExprId>, part: ExprId)
    ensures
        (left + right).contains(part) == (left.contains(part) || right.contains(part)),
{
    if left.contains(part) {
        let k = choose|k: int| 0 <= k < left.len() && left[k] == part;
        assert((left + right)[k] == part);
    }
    if right.contains(part) {
        let k = choose|k: int| 0 <= k < right.len() && right[k] == part;
        assert((left + right)[left.len() + k] == part);
    }
    if (left + right).contains(part) {
        let k = choose|k: int| 0 <= k < (left + right).len() && (left + right)[k] == part;
        if k < left.len() {
            assert(left[k] == part);
        } else {
            assert(right[k - left.len()] == part);
        }
    }
}

/// Every expression that an item of a class contributes is inside what holds the class.
proof fn lemma_piece_inside<A>(
    file: File,
    outer: Node,
    class: ClassDecl,
    items: Seq<A>,
    piece: spec_fn(A) -> Seq<ExprId>,
    index: int,
)
    requires
        class_inside(file, outer, class),
        0 <= index < items.len(),
        forall|part: ExprId| #[trigger]
            gathered(items, piece).contains(part) ==> class_exprs(class).contains(part),
    ensures
        forall|k: int|
            0 <= k < piece(items[index]).len() ==> file.below(
                Node::Expr(#[trigger] piece(items[index])[k]),
                outer,
            ),
{
    assert forall|k: int| 0 <= k < piece(items[index]).len() implies file.below(
        Node::Expr(#[trigger] piece(items[index])[k]),
        outer,
    ) by {
        lemma_gathered_contains(items, piece, index, k);
        lemma_class_expr(file, outer, class, piece(items[index])[k]);
    }
}

fn class_uses_name(file: &File, statement: StmtId, class: &ClassDecl, name: &str) -> (found: bool)
    requires
        file.well_formed(),
        file.has(Node::Stmt(statement)),
        file.stmt_at(statement) matches Stmt::LocalClass(c) && c == *class,
    ensures
        found == class_free(*file, Node::Stmt(statement), *class, name@),
    decreases file.height(Node::Stmt(statement)), 3nat,
{
    let ghost outer = Node::Stmt(statement);
    proof {
        file.lemma_children(outer);
        assert forall|k: int| 0 <= k < class_exprs(*class).len() implies file.below(
            Node::Expr(#[trigger] class_exprs(*class)[k]),
            outer,
        ) by {
            assert(local_class_exprs(*class)[k] == class_exprs(*class)[k]);
            assert(file.children(outer)[k] == Node::Expr(class_exprs(*class)[k]));
        }
    }
    let visible = !class_has_name(class, name);
    if visible {
        assert forall|k: int| 0 <= k < class.base_args@.len() implies file.below(
            Node::Expr(#[trigger] class.base_args@[k]),
            outer,
        ) by {
            lemma_class_exprs(*class, class.base_args@[k]);
            lemma_class_expr(*file, outer, *class, class.base_args@[k]);
        }
        if uses_in_any(file, &class.base_args, name, Ghost(outer)) {
            return true;
        }
        if defaults_use_name(file, class, name, Ghost(outer)) {
            return true;
        }
        if blocks_use_name(file, class, name, Ghost(outer)) {
            return true;
        }
    }
    if properties_use_name(file, class, visible, name, Ghost(outer)) {
        return true;
    }
    visible && (methods_use_name(file, class, name, Ghost(outer)) || ctors_use_name(
        file,
        class,
        name,
        Ghost(outer),
    ))
}

fn defaults_use_name(file: &File, class: &ClassDecl, name: &str, Ghost(outer): Ghost<Node>) -> (found: bool)
    requires
        file.well_formed(),
        class_inside(*file, outer, *class),
    ensures
        found == exists|k: int|
            0 <= k < class.props@.len() && optional_free(
                *file,
                outer,
                (#[trigger] class.props@[k]).default,
                name@,
            ),
    decreases file.height(outer), 2nat,
{
    let ghost piece = |property: CtorPropDecl| optional(property.default);
    let mut index: usize = 0;
    while index < class.props.len()
        invariant
            index <= class.props@.len(),
            file.well_formed(),
            class_inside(*file, outer, *class),
            piece == (|property: CtorPropDecl| optional(property.default)),
            forall|k: int|
                0 <= k < index ==> !optional_free(
                    *file,
                    outer,
                    (#[trigger] class.props@[k]).default,
                    name@,
                ),
        decreases class.props@.len() - index,
    {
        proof {
            assert forall|part: ExprId| #[trigger]
                gathered(class.props@, piece).contains(part) implies class_exprs(*class).contains(part) by {
                lemma_class_exprs(*class, part);
            }
            lemma_piece_inside(*file, outer, *class, class.props@, piece, index as int);
            if let Some(value) = class.props@[index as int].default {
                assert(piece(class.props@[index as int])[0] == value);
            }
        }
        if uses_in_optional(file, class.props[index].default, name, Ghost(outer)) {
            return true;
        }
        index += 1;
    }
    false
}

fn blocks_use_name(file: &File, class: &ClassDecl, name: &str, Ghost(outer): Ghost<Node>) -> (found: bool)
    requires
        file.well_formed(),
        class_inside(*file, outer, *class),
    ensures
        found == exists|k: int|
            0 <= k < class.init_order@.len() && any_part_free(
                *file,
                outer,
                init_block(#[trigger] class.init_order@[k]),
                name@,
            ),
    decreases file.height(outer), 2nat,
{
    let ghost piece = |step: ClassInit| init_block(step);
    let mut index: usize = 0;
    while index < class.init_order.len()
        invariant
            index <= class.init_order@.len(),
            file.well_formed(),
            class_inside(*file, outer, *class),
            piece == (|step: ClassInit| init_block(step)),
            forall|k: int|
                0 <= k < index ==> !any_part_free(
                    *file,
                    outer,
                    init_block(#[trigger] class.init_order@[k]),
                    name@,
                ),
        decreases class.init_order@.len() - index,
    {
        if let ClassInit::Block(body) = class.init_order[index] {
            proof {
                assert forall|part: ExprId| #[trigger]
                    gathered(class.init_order@, piece).contains(part) implies class_exprs(
                    *class,
                ).contains(part) by {
                    lemma_class_exprs(*class, part);
                }
                lemma_piece_inside(*file, outer, *class, class.init_order@, piece, index as int);
                assert(piece(class.init_order@[index as int])[0] == body);
                assert(init_block(class.init_order@[index as int])[0] == body);
            }
            if uses_in_part(file, body, name, Ghost(outer)) {
                return true;
            }
        }
        index += 1;
    }
    false
}

fn accessor_uses_name(file: &File, body: &Option<FunBody>, name: &str, Ghost(outer): Ghost<Node>) -> (found: bool)
    requires
        file.well_formed(),
        forall|k: int|
            0 <= k < accessor_expr(*body).len() ==> file.below(
                Node::Expr(#[trigger] accessor_expr(*body)[k]),
                outer,
            ),
    ensures
        found == any_part_free(*file, outer, accessor_expr(*body), name@),
    decreases file.height(outer), 1nat,
{
    match body {
        Some(inner) => match fun_body_expr(inner) {
            Some(value) => {
                assert(accessor_expr(*body)[0] == value);
                uses_in_part(file, value, name, Ghost(outer))
            },
            None => false,
        },
        None => false,
    }
}

fn properties_use_name(
    file: &File,
    class: &ClassDecl,
    visible: bool,
    name: &str,
    Ghost(outer): Ghost<Node>,
) -> (found: bool)
    requires
        file.well_formed(),
        class_inside(*file, outer, *class),
    ensures
        found == exists|k: int|
            0 <= k < class.body_props@.len() && property_free(
                *file,
                outer,
                #[trigger] class.body_props@[k],
                visible,
                name@,
            ),
    decreases file.height(outer), 2nat,
{
    let mut index: usize = 0;
    while index < class.body_props.len()
        invariant
            index <= class.body_props@.len(),
            file.well_formed(),
            class_inside(*file, outer, *class),
            forall|k: int|
                0 <= k < index ==> !property_free(
                    *file,
                    outer,
                    #[trigger] class.body_props@[k],
                    visible,
                    name@,
                ),
        decreases class.body_props@.len() - index,
    {
        let property = &class.body_props[index];
        proof {
            lemma_property_inside(*file, outer, *class, index as int);
        }
        if (visible || same_text(property.name.as_str(), name)) && (uses_in_optional(
            file,
            property.init,
            name,
            Ghost(outer),
        ) || uses_in_optional(file, property.delegate, name, Ghost(outer))) {
            return true;
        }
        if visible {
            if accessor_uses_name(file, &property.getter, name, Ghost(outer)) {
                return true;
            }
            if let Some(setter) = &property.setter {
                assert(setter_expr(property.setter) == accessor_expr(setter.body));
                if accessor_uses_name(file, &setter.body, name, Ghost(outer)) {
                    return true;
                }
            }
        }
        index += 1;
    }
    false
}

proof fn lemma_property_inside(file: File, outer: Node, class: ClassDecl, index: int)
    requires
        class_inside(file, outer, class),
        0 <= index < class.body_props@.len(),
    ensures
        class.body_props@[index].init matches Some(value) ==> file.below(Node::Expr(value), outer),
        class.body_props@[index].delegate matches Some(value) ==> file.below(
            Node::Expr(value),
            outer,
        ),
        forall|k: int|
            0 <= k < accessor_expr(class.body_props@[index].getter).len() ==> file.below(
                Node::Expr(#[trigger] accessor_expr(class.body_props@[index].getter)[k]),
                outer,
            ),
        forall|k: int|
            0 <= k < setter_expr(class.body_props@[index].setter).len() ==> file.below(
                Node::Expr(#[trigger] setter_expr(class.body_props@[index].setter)[k]),
                outer,
            ),
{
    let property = class.body_props@[index];
    let a = |property: PropDecl| optional(property.init);
    let b = |property: PropDecl| optional(property.delegate);
    let c = |property: PropDecl| accessor_expr(property.getter);
    let d = |property: PropDecl| setter_expr(property.setter);
    assert forall|part: ExprId| #[trigger]
        gathered(class.body_props@, a).contains(part) implies class_exprs(class).contains(part) by {
        lemma_class_exprs(class, part);
    }
    assert forall|part: ExprId| #[trigger]
        gathered(class.body_props@, b).contains(part) implies class_exprs(class).contains(part) by {
        lemma_class_exprs(class, part);
    }
    assert forall|part: ExprId| #[trigger]
        gathered(class.body_props@, c).contains(part) implies class_exprs(class).contains(part) by {
        lemma_class_exprs(class, part);
    }
    assert forall|part: ExprId| #[trigger]
        gathered(class.body_props@, d).contains(part) implies class_exprs(class).contains(part) by {
        lemma_class_exprs(class, part);
    }
    lemma_piece_inside(file, outer, class, class.body_props@, a, index);
    lemma_piece_inside(file, outer, class, class.body_props@, b, index);
    lemma_piece_inside(file, outer, class, class.body_props@, c, index);
    lemma_piece_inside(file, outer, class, class.body_props@, d, index);
    if let Some(value) = property.init {
        assert(a(property)[0] == value);
    }
    if let Some(value) = property.delegate {
        assert(b(property)[0] == value);
    }
    assert(c(property) == accessor_expr(property.getter));
    assert(d(property) == setter_expr(property.setter));
}

fn methods_use_name(file: &File, class: &ClassDecl, name: &str, Ghost(outer): Ghost<Node>) -> (found: bool)
    requires
        file.well_formed(),
        class_inside(*file, outer, *class),
    ensures
        found == exists|k: int|
            0 <= k < class.methods@.len() && method_free(
                *file,
                outer,
                #[trigger] class.methods@[k],
                name@,
            ),
    decreases file.height(outer), 2nat,
{
    let ghost piece = |method: FunDecl| optional(fun_body_expr_spec(method.body));
    let mut index: usize = 0;
    while index < class.methods.len()
        invariant
            index <= class.methods@.len(),
            file.well_formed(),
            class_inside(*file, outer, *class),
            piece == (|method: FunDecl| optional(fun_body_expr_spec(method.body))),
            forall|k: int|
                0 <= k < index ==> !method_free(
                    *file,
                    outer,
                    #[trigger] class.methods@[k],
                    name@,
                ),
        decreases class.methods@.len() - index,
    {
        let method = &class.methods[index];
        let body = fun_body_expr(&method.body);
        proof {
            assert forall|part: ExprId| #[trigger]
                gathered(class.methods@, piece).contains(part) implies class_exprs(*class).contains(
                part,
            ) by {
                lemma_class_exprs(*class, part);
            }
            lemma_piece_inside(*file, outer, *class, class.methods@, piece, index as int);
            if let Some(value) = body {
                assert(piece(class.methods@[index as int])[0] == value);
            }
        }
        if !declares_here(&method.params, name) && uses_in_optional(file, body, name, Ghost(outer)) {
            return true;
        }
        index += 1;
    }
    false
}

fn ctors_use_name(file: &File, class: &ClassDecl, name: &str, Ghost(outer): Ghost<Node>) -> (found: bool)
    requires
        file.well_formed(),
        class_inside(*file, outer, *class),
    ensures
        found == exists|k: int|
            0 <= k < class.secondary_ctors@.len() && ctor_free(
                *file,
                outer,
                #[trigger] class.secondary_ctors@[k],
                name@,
            ),
    decreases file.height(outer), 2nat,
{
    let ghost piece = |ctor: SecondaryCtorDecl| ctor_exprs(ctor);
    let mut index: usize = 0;
    while index < class.secondary_ctors.len()
        invariant
            index <= class.secondary_ctors@.len(),
            file.well_formed(),
            class_inside(*file, outer, *class),
            piece == (|ctor: SecondaryCtorDecl| ctor_exprs(ctor)),
            forall|k: int|
                0 <= k < index ==> !ctor_free(
                    *file,
                    outer,
                    #[trigger] class.secondary_ctors@[k],
                    name@,
                ),
        decreases class.secondary_ctors@.len() - index,
    {
        let ctor = &class.secondary_ctors[index];
        let parts = secondary_constructor_expressions(ctor);
        proof {
            assert forall|part: ExprId| #[trigger]
                gathered(class.secondary_ctors@, piece).contains(part) implies class_exprs(
                *class,
            ).contains(part) by {
                lemma_class_exprs(*class, part);
            }
            lemma_piece_inside(*file, outer, *class, class.secondary_ctors@, piece, index as int);
            assert(piece(class.secondary_ctors@[index as int]) == parts@);
        }
        if !declares_here(&ctor.params, name) && uses_in_any(file, &parts, name, Ghost(outer)) {
            return true;
        }
        index += 1;
    }
    false
}

/// Whether an expression subtree references any active enclosing value. Nested local functions and
/// classes are traversed: their direct capture is also carried by every enclosing callable body.
pub fn local_fun_body_uses_any(file: &File, expression: ExprId, outer: &Vec<String>) -> (found: bool)
    requires
        file.well_formed(),
        file.has(Node::Expr(expression)),
    ensures
        found == exists|k: int|
            0 <= k < outer@.len() && expr_free(*file, expression, (#[trigger] outer@[k])@),
{
    let mut index: usize = 0;
    while index < outer.len()
        invariant
            index <= outer@.len(),
            file.well_formed(),
            file.has(Node::Expr(expression)),
            forall|k: int|
                0 <= k < index ==> !expr_free(*file, expression, (#[trigger] outer@[k])@),
        decreases outer@.len() - index,
    {
        if uses_name(file, expression, outer[index].as_str()) {
            return true;
        }
        index += 1;
    }
    false
}

/// Whether the names stand in spelling order, none of them twice.
pub open spec fn in_spelling_order(names: Seq<Seq<char>>) -> bool {
    forall|i: int, j: int| 0 <= i < j < names.len() ==> spelled_before(names[i], names[j])
}

proof fn lemma_spelling_transitive(a: Seq<char>, b: Seq<char>, c: Seq<char>)
    requires
        spelled_before(a, b),
        spelled_before(b, c),
    ensures
        spelled_before(a, c),
    decreases a.len(),
{
    if a.len() > 0 && b.len() > 0 && c.len() > 0 && a[0] == b[0] && b[0] == c[0] {
        lemma_spelling_transitive(a.skip(1), b.skip(1), c.skip(1));
    }
}

proof fn lemma_spelling_total(a: Seq<char>, b: Seq<char>)
    ensures
        a == b || spelled_before(a, b) || spelled_before(b, a),
        !(spelled_before(a, b) && spelled_before(b, a)),
        !spelled_before(a, a),
    decreases a.len(),
{
    if a.len() > 0 {
        lemma_spelling_total(a.skip(1), a.skip(1));
    }
    if a.len() > 0 && b.len() > 0 && a[0] == b[0] {
        lemma_spelling_total(a.skip(1), b.skip(1));
        if a.skip(1) == b.skip(1) {
            assert(a =~= seq![a[0]] + a.skip(1));
            assert(b =~= seq![b[0]] + b.skip(1));
        }
    } else if a.len() == 0 && b.len() == 0 {
        assert(a =~= b);
    }
}

/// Put a name at its place among names in spelling order, unless it is there already.
fn insert_in_order(names: &mut Vec<String>, name: &String)
    requires
        in_spelling_order(views(old(names)@)),
    ensures
        in_spelling_order(views(final(names)@)),
        forall|x: Seq<char>| #[trigger]
            views(final(names)@).contains(x) == (views(old(names)@).contains(x) || x == name@),
{
    let ghost before = views(names@);
    let mut at: usize = 0;
    while at < names.len() && precedes(names[at].as_str(), name.as_str())
        invariant
            at <= names@.len(),
            before == views(names@),
            forall|k: int| 0 <= k < at ==> spelled_before(#[trigger] before[k], name@),
        decreases names@.len() - at,
    {
        at += 1;
    }
    if at < names.len() && same_text(names[at].as_str(), name.as_str()) {
        assert(before[at as int] == name@);
        return ;
    }
    names.insert(at, name.clone());
    let ghost after = views(names@);
    proof {
        assert(after =~= before.insert(at as int, name@));
        if at < before.len() {
            lemma_spelling_total(before[at as int], name@);
        }
        assert forall|i: int, j: int| 0 <= i < j < after.len() implies spelled_before(
            after[i],
            after[j],
        ) by {
            if i < at && j == at {
            } else if i == at {
                let rest = before[j - 1];
                if j - 1 > at {
                    assert(spelled_before(before[at as int], rest));
                    lemma_spelling_transitive(name@, before[at as int], rest);
                }
            } else if i < at {
                if j > at {
                    assert(spelled_before(before[i], before[j - 1]));
                } else {
                    assert(spelled_before(before[i], before[j]));
                }
            } else {
                assert(spelled_before(before[i - 1], before[j - 1]));
            }
        }
        assert forall|x: Seq<char>| #[trigger]
            after.contains(x) == (before.contains(x) || x == name@) by {
            if after.contains(x) {
                let k = choose|k: int| 0 <= k < after.len() && after[k] == x;
                if k < at {
                    assert(before[k] == x);
                } else if k > at {
                    assert(before[k - 1] == x);
                }
            }
            if before.contains(x) {
                let k = choose|k: int| 0 <= k < before.len() && before[k] == x;
                if k < at {
                    assert(after[k] == x);
                } else {
                    assert(after[k + 1] == x);
                }
            }
            assert(after[at as int] == name@);
        }
    }
}

/// Every name from `outer` used by the expression subtree, in stable spelling order.
pub fn used_names(file: &File, expression: ExprId, outer: &Vec<String>) -> (names: Vec<String>)
    requires
        file.well_formed(),
        file.has(Node::Expr(expression)),
    ensures
        in_spelling_order(views(names@)),
        forall|name: Seq<char>| #[trigger]
            views(names@).contains(name) == (views(outer@).contains(name) && expr_free(
                *file,
                expression,
                name,
            )),
{
    let mut names: Vec<String> = Vec::new();
    let mut index: usize = 0;
    while index < outer.len()
        invariant
            index <= outer@.len(),
            file.well_formed(),
            file.has(Node::Expr(expression)),
            in_spelling_order(views(names@)),
            forall|name: Seq<char>| #[trigger]
                views(names@).contains(name) == (views(outer@).take(index as int).contains(name)
                    && expr_free(*file, expression, name)),
        decreases outer@.len() - index,
    {
        let ghost before = views(names@);
        let used = uses_name(file, expression, outer[index].as_str());
        if used {
            insert_in_order(&mut names, &outer[index]);
        }
        proof {
            let shown = views(outer@);
            let spelled = shown[index as int];
            assert(shown.take(index as int + 1) =~= shown.take(index as int).push(spelled));
            assert forall|name: Seq<char>| #[trigger]
                views(names@).contains(name) == (shown.take(index as int + 1).contains(name)
                    && expr_free(*file, expression, name)) by {
                let done = shown.take(index as int);
                if done.contains(name) {
                    let k = choose|k: int| 0 <= k < done.len() && done[k] == name;
                    assert(done.push(spelled)[k] == name);
                }
                if done.push(spelled).contains(name) && name != spelled {
                    let k = choose|k: int|
                        0 <= k < done.push(spelled).len() && done.push(spelled)[k] == name;
                    assert(done[k] == name);
                }
                assert(done.push(spelled)[done.len() as int] == spelled);
                assert(before.contains(name) == (done.contains(name) && expr_free(
                    *file,
                    expression,
                    name,
                )));
            }
        }
        index += 1;
    }
    assert(views(outer@).take(index as int) =~= views(outer@));
    names
}

/// The local classes of the statements and expressions inside an expression: those of its
/// expressions, then those of its statements. The bodies of the classes are not searched.
pub open spec fn classes_in_expr(file: File, expression: ExprId) -> Seq<DeclId>
    decreases file.height(Node::Expr(expression)), 3nat, 0nat,
{
    classes_in_exprs(file, Node::Expr(expression), only_exprs(expr_children(file.expr_at(expression))))
        + classes_in_stmts(
        file,
        Node::Expr(expression),
        only_stmts(expr_children(file.expr_at(expression))),
    )
}

/// The expressions among some nodes.
pub open spec fn only_exprs(nodes: Seq<Node>) -> Seq<ExprId> {
    gathered(
        nodes,
        |node: Node|
            match node {
                Node::Expr(expression) => seq![expression],
                Node::Stmt(_) => Seq::empty(),
            },
    )
}

/// The statements among some nodes.
pub open spec fn only_stmts(nodes: Seq<Node>) -> Seq<StmtId> {
    gathered(
        nodes,
        |node: Node|
            match node {
                Node::Stmt(statement) => seq![statement],
                Node::Expr(_) => Seq::empty(),
            },
    )
}

/// The local classes inside some expressions of a node, one after the other.
pub open spec fn classes_in_exprs(file: File, outer: Node, parts: Seq<ExprId>) -> Seq<DeclId>
    decreases file.height(outer), 1nat, parts.len(),
{
    if parts.len() == 0 {
        Seq::empty()
    } else {
        (if file.below(Node::Expr(parts[0]), outer) {
            classes_in_expr(file, parts[0])
        } else {
            Seq::empty()
        }) + classes_in_exprs(file, outer, parts.skip(1))
    }
}

/// The local classes inside some statements of a node, one after the other.
pub open spec fn classes_in_stmts(file: File, outer: Node, parts: Seq<StmtId>) -> Seq<DeclId>
    decreases file.height(outer), 1nat, parts.len(),
{
    if parts.len() == 0 {
        Seq::empty()
    } else {
        (if file.below(Node::Stmt(parts[0]), outer) {
            classes_in_stmt(file, parts[0])
        } else {
            Seq::empty()
        }) + classes_in_stmts(file, outer, parts.skip(1))
    }
}

/// The local class that a statement declares, or those inside its expressions.
pub open spec fn classes_in_stmt(file: File, statement: StmtId) -> Seq<DeclId>
    decreases file.height(Node::Stmt(statement)), 3nat, 0nat,
{
    match file.stmt_at(statement) {
        Stmt::LocalClass(_) => if file.local_class_decls@.contains_key(statement.0) {
            seq![file.local_class_decls@[statement.0]]
        } else {
            Seq::empty()
        },
        other => classes_in_exprs(file, Node::Stmt(statement), stmt_children(other)),
    }
}

fn add_classes_of_exprs(
    file: &File,
    parts: &Vec<ExprId>,
    classes: &mut Vec<DeclId>,
    Ghost(outer): Ghost<Node>,
)
    requires
        file.well_formed(),
        forall|k: int| 0 <= k < parts@.len() ==> file.below(Node::Expr(#[trigger] parts@[k]), outer),
    ensures
        final(classes)@ == old(classes)@ + classes_in_exprs(*file, outer, parts@),
    decreases file.height(outer), 1nat,
{
    let ghost before = classes@;
    let mut index: usize = 0;
    assert(parts@.skip(0) =~= parts@);
    while index < parts.len()
        invariant
            index <= parts@.len(),
            file.well_formed(),
            forall|k: int|
                0 <= k < parts@.len() ==> file.below(Node::Expr(#[trigger] parts@[k]), outer),
            classes@ + classes_in_exprs(*file, outer, parts@.skip(index as int)) == before
                + classes_in_exprs(*file, outer, parts@),
        decreases parts@.len() - index,
    {
        let ghost held = classes@;
        let ghost rest = parts@.skip(index as int);
        assert(rest.skip(1) =~= parts@.skip(index as int + 1));
        assert(file.below(Node::Expr(parts@[index as int]), outer));
        add_classes_of_expr(file, parts[index], classes);
        assert(held + classes_in_exprs(*file, outer, rest) =~= classes@ + classes_in_exprs(
            *file,
            outer,
            rest.skip(1),
        ));
        index += 1;
    }
    assert(classes@ + Seq::<DeclId>::empty() =~= classes@);
}

fn add_classes_of_stmt(file: &File, statement: StmtId, classes: &mut Vec<DeclId>)
    requires
        file.well_formed(),
        file.has(Node::Stmt(statement)),
    ensures
        final(classes)@ == old(classes)@ + classes_in_stmt(*file, statement),
    decreases file.height(Node::Stmt(statement)), 3nat,
{
    let ghost outer = Node::Stmt(statement);
    match file.stmt(statement) {
        Stmt::LocalClass(_) => {
            if let Some(declaration) = file.local_class_decls.get(&statement.0) {
                classes.push(*declaration);
            }
            assert(classes@ =~= old(classes)@ + classes_in_stmt(*file, statement));
        },
        other => {
            let parts = child_exprs(other);
            assert forall|k: int| 0 <= k < parts@.len() implies file.below(
                Node::Expr(#[trigger] parts@[k]),
                outer,
            ) by {
                file.lemma_child(outer, k);
                assert(file.children(outer)[k] == Node::Expr(parts@[k]));
            }
            add_classes_of_exprs(file, &parts, classes, Ghost(outer));
        },
    }
}

fn add_classes_of_expr(file: &File, expression: ExprId, classes: &mut Vec<DeclId>)
    requires
        file.well_formed(),
        file.has(Node::Expr(expression)),
    ensures
        final(classes)@ == old(classes)@ + classes_in_expr(*file, expression),
    decreases file.height(Node::Expr(expression)), 3nat,
{
    let ghost outer = Node::Expr(expression);
    let ghost before = classes@;
    let (expressions, statements) = split_children(file, expression);
    add_classes_of_exprs(file, &expressions, classes, Ghost(outer));
    let ghost first = classes_in_exprs(*file, outer, expressions@);
    let mut index: usize = 0;
    assert(statements@.skip(0) =~= statements@);
    while index < statements.len()
        invariant
            index <= statements@.len(),
            file.well_formed(),
            outer == Node::Expr(expression),
            forall|k: int|
                0 <= k < statements@.len() ==> file.below(
                    Node::Stmt(#[trigger] statements@[k]),
                    outer,
                ),
            classes@ + classes_in_stmts(*file, outer, statements@.skip(index as int)) == before
                + first + classes_in_stmts(*file, outer, statements@),
        decreases statements@.len() - index,
    {
        let ghost held = classes@;
        let ghost rest = statements@.skip(index as int);
        assert(rest.skip(1) =~= statements@.skip(index as int + 1));
        assert(file.below(Node::Stmt(statements@[index as int]), outer));
        add_classes_of_stmt(file, statements[index], classes);
        assert(held + classes_in_stmts(*file, outer, rest) =~= classes@ + classes_in_stmts(
            *file,
            outer,
            rest.skip(1),
        ));
        index += 1;
    }
    assert(classes@ + Seq::<DeclId>::empty() =~= classes@);
    assert(before + first + classes_in_stmts(*file, outer, statements@) =~= before
        + classes_in_expr(*file, expression));
}

/// The expressions and the statements directly inside an expression.
pub fn split_children(file: &File, expression: ExprId) -> (out: (Vec<ExprId>, Vec<StmtId>))
    requires
        file.well_formed(),
        file.has(Node::Expr(expression)),
    ensures
        out.0@ == only_exprs(expr_children(file.expr_at(expression))),
        out.1@ == only_stmts(expr_children(file.expr_at(expression))),
        forall|k: int|
            0 <= k < out.0@.len() ==> file.below(
                Node::Expr(#[trigger] out.0@[k]),
                Node::Expr(expression),
            ),
        forall|k: int|
            0 <= k < out.1@.len() ==> file.below(
                Node::Stmt(#[trigger] out.1@[k]),
                Node::Expr(expression),
            ),
{
    let ghost as_expr = |node: Node|
        match node {
            Node::Expr(expression) => seq![expression],
            Node::Stmt(_) => Seq::empty(),
        };
    let ghost as_stmt = |node: Node|
        match node {
            Node::Stmt(statement) => seq![statement],
            Node::Expr(_) => Seq::empty(),
        };
    let nodes = child_nodes(file.expr(expression));
    let mut expressions: Vec<ExprId> = Vec::new();
    let mut statements: Vec<StmtId> = Vec::new();
    let mut index: usize = 0;
    proof {
        lemma_gathered_all(nodes@, as_expr);
        lemma_gathered_all(nodes@, as_stmt);
    }
    while index < nodes.len()
        invariant
            index <= nodes@.len(),
            file.well_formed(),
            file.has(Node::Expr(expression)),
            nodes@ == file.children(Node::Expr(expression)),
            as_expr == (|node: Node|
                match node {
                    Node::Expr(expression) => seq![expression],
                    Node::Stmt(_) => Seq::empty(),
                }),
            as_stmt == (|node: Node|
                match node {
                    Node::Stmt(statement) => seq![statement],
                    Node::Expr(_) => Seq::empty(),
                }),
            expressions@ == gathered(nodes@.take(index as int), as_expr),
            statements@ == gathered(nodes@.take(index as int), as_stmt),
            forall|k: int|
                0 <= k < expressions@.len() ==> file.below(
                    Node::Expr(#[trigger] expressions@[k]),
                    Node::Expr(expression),
                ),
            forall|k: int|
                0 <= k < statements@.len() ==> file.below(
                    Node::Stmt(#[trigger] statements@[k]),
                    Node::Expr(expression),
                ),
        decreases nodes@.len() - index,
    {
        proof {
            lemma_gathered_step(nodes@, index as int, as_expr);
            lemma_gathered_step(nodes@, index as int, as_stmt);
            file.lemma_child(Node::Expr(expression), index as int);
        }
        match nodes[index] {
            Node::Expr(child) => {
                expressions.push(child);
            },
            Node::Stmt(child) => {
                statements.push(child);
            },
        }
        index += 1;
    }
    (expressions, statements)
}

/// Hoisted statement-position local classes lexically contained by an expression subtree.
///
/// Class member bodies are not traversed: capture discovery has already folded every value needed
/// by a nested or member body into the containing class's exact capture list.
pub fn local_class_declarations(file: &File, expression: ExprId) -> (classes: Vec<DeclId>)
    requires
        file.well_formed(),
        file.has(Node::Expr(expression)),
    ensures
        classes@ == classes_in_expr(*file, expression),
{
    let mut classes: Vec<DeclId> = Vec::new();
    add_classes_of_expr(file, expression, &mut classes);
    assert(Seq::<DeclId>::empty() + classes_in_expr(*file, expression) =~= classes_in_expr(
        *file,
        expression,
    ));
    classes
}

/// Whether `name` is spelled anywhere in a node, whatever declares it.
pub open spec fn spelled_in(file: File, node: Node, name: Seq<char>) -> bool
    decreases file.height(node),
{
    (node matches Node::Expr(expression) && file.expr_at(expression) matches Expr::Name(spelled)
        && spelled@ == name) || exists|k: int|
        0 <= k < file.children(node).len() && file.below(#[trigger] file.children(node)[k], node)
            && spelled_in(file, file.children(node)[k], name)
}

fn node_spells(file: &File, node: Node, name: &str) -> (found: bool)
    requires
        file.well_formed(),
        file.has(node),
    ensures
        found == spelled_in(*file, node, name@),
    decreases file.height(node),
{
    let ghost children = file.children(node);
    match node {
        Node::Expr(expression) => {
            if let Expr::Name(spelled) = file.expr(expression) {
                if same_text(spelled.as_str(), name) {
                    return true;
                }
            }
            let nodes = child_nodes(file.expr(expression));
            let mut index: usize = 0;
            while index < nodes.len()
                invariant
                    index <= nodes@.len(),
                    nodes@ == children,
                    children == file.children(node),
                    file.well_formed(),
                    file.has(node),
                    forall|k: int|
                        0 <= k < index ==> !spelled_in(*file, #[trigger] children[k], name@),
                decreases nodes@.len() - index,
            {
                proof {
                    file.lemma_child(node, index as int);
                }
                if node_spells(file, nodes[index], name) {
                    assert(file.below(file.children(node)[index as int], node));
                    return true;
                }
                index += 1;
            }
            false
        },
        Node::Stmt(statement) => {
            let parts = child_exprs(file.stmt(statement));
            let mut index: usize = 0;
            while index < parts.len()
                invariant
                    index <= parts@.len(),
                    parts@ == stmt_children(file.stmt_at(statement)),
                    node == Node::Stmt(statement),
                    children == file.children(node),
                    file.well_formed(),
                    file.has(node),
                    forall|k: int|
                        0 <= k < index ==> !spelled_in(*file, #[trigger] children[k], name@),
                decreases parts@.len() - index,
            {
                proof {
                    file.lemma_child(node, index as int);
                    assert(children[index as int] == Node::Expr(parts@[index as int]));
                }
                if node_spells(file, Node::Expr(parts[index]), name) {
                    assert(file.below(file.children(node)[index as int], node));
                    return true;
                }
                index += 1;
            }
            false
        },
    }
}

/// Whether the initializer or the delegate of a property called `name` spells that name.
pub open spec fn initializer_reads(file: File, class: ClassDecl, name: Seq<char>) -> bool {
    exists|k: int|
        0 <= k < class.body_props@.len() && (#[trigger] class.body_props@[k]).name@ == name && ((
        class.body_props@[k].init matches Some(value) && spelled_in(file, Node::Expr(value), name))
            || (class.body_props@[k].delegate matches Some(value) && spelled_in(
            file,
            Node::Expr(value),
            name,
        )))
}

/// Whether the expressions of the properties of a class are in the arena.
pub open spec fn initializers_in(file: File, class: ClassDecl) -> bool {
    forall|k: int|
        0 <= k < class.body_props@.len() ==> ((#[trigger] class.body_props@[k]).init matches Some(
            value,
        ) ==> file.has(Node::Expr(value))) && (class.body_props@[k].delegate matches Some(value)
            ==> file.has(Node::Expr(value)))
}

/// Whether a property initializer or delegate reads an enclosing value with the property's own
/// spelling. The declaration being initialized is not in scope there: in
/// `fun f(x: Int) = object { val x: Int = x }`, the right-hand `x` is the lexical parameter.
/// Accessors and other member bodies still see the property normally.
pub fn own_property_initializer_uses_outer_name(
    file: &File,
    declaration: DeclId,
    name: &str,
) -> (found: bool)
    requires
        file.well_formed(),
        (declaration.0 as int) < file.declarations@.len(),
        file.declarations@[declaration.0 as int] matches Decl::Class(class) ==> initializers_in(
            *file,
            class,
        ),
    ensures
        found == (file.declarations@[declaration.0 as int] matches Decl::Class(class)
            && initializer_reads(*file, class, name@)),
{
    let class = match file.decl(declaration) {
        Decl::Class(class) => class,
        _ => {
            return false;
        },
    };
    let mut index: usize = 0;
    while index < class.body_props.len()
        invariant
            index <= class.body_props@.len(),
            file.well_formed(),
            initializers_in(*file, *class),
            file.declarations@[declaration.0 as int] == Decl::Class(*class),
            forall|k: int|
                0 <= k < index ==> !((#[trigger] class.body_props@[k]).name@ == name@ && ((
                class.body_props@[k].init matches Some(value) && spelled_in(
                    *file,
                    Node::Expr(value),
                    name@,
                )) || (class.body_props@[k].delegate matches Some(value) && spelled_in(
                    *file,
                    Node::Expr(value),
                    name@,
                )))),
        decreases class.body_props@.len() - index,
    {
        let property = &class.body_props[index];
        if same_text(property.name.as_str(), name) {
            if let Some(value) = property.init {
                if node_spells(file, Node::Expr(value), name) {
                    assert(initializer_reads(*file, *class, name@));
                    return true;
                }
            }
            if let Some(value) = property.delegate {
                if node_spells(file, Node::Expr(value), name) {
                    assert(initializer_reads(*file, *class, name@));
                    return true;
                }
            }
        }
        index += 1;
    }
    false
}

} // verus!
