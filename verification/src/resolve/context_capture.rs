//! The context sources that a callable body uses.

use std::collections::HashMap;

use vstd::prelude::*;

use crate::ast::{
    child_exprs, child_nodes, expr_children, gathered, lemma_gathered_all, lemma_gathered_origin,
    lemma_gathered_step, optional, stmt_children, CatchClause, DestructureEntry, Expr, ExprId, File,
    Node, Stmt, StmtId,
};
use crate::resolve::calls::{
    ContextArgumentView, ImplicitReceiverSelection, ImplicitReceiverView, LocalCapture,
    ResolvedCall, ResolvedContextArgument, StmtLowering,
};
use crate::text::{copy_names, same_text, views};
use crate::types::{FnSig, Ty};

verus! {

broadcast use {crate::text::group_views, crate::types::group_ty_views};

/// Where in a callable body a source is used.
pub struct Frame {
    /// Whether the use is inside a nested callable.
    pub nested: bool,
    /// The names bound inside the body around the use, outermost first.
    pub bound: Seq<Seq<char>>,
    /// How many receivers the nested callables around the use declare.
    pub receivers: int,
    /// How many of those receivers are reachable as `this`.
    pub implicit_this: int,
}

/// A source used somewhere in a callable body.
pub struct SourceUse {
    pub source: ContextArgumentView,
    pub frame: Frame,
}

/// How often `wanted` occurs.
pub open spec fn occurrences(names: Seq<Seq<char>>, wanted: Seq<char>) -> nat
    decreases names.len(),
{
    if names.len() == 0 {
        0
    } else {
        occurrences(names.drop_last(), wanted) + if names.last() == wanted {
            1nat
        } else {
            0nat
        }
    }
}

impl Frame {
    /// How many bindings of `name` the body itself puts in the way of an outer one.
    pub open spec fn local_depth(self, name: Seq<char>) -> int {
        occurrences(self.bound, name) + if name == "this"@ {
            self.implicit_this
        } else {
            0
        }
    }

    /// The frame inside a binding of `name`.
    pub open spec fn binding(self, name: Seq<char>) -> Frame {
        Frame { bound: self.bound.push(name), ..self }
    }
}

/// The selection with its binding depth counted from the boundary of the body, where that boundary
/// does not shadow it.
pub open spec fn at_boundary(selection: ImplicitReceiverView, frame: Frame) -> Option<ImplicitReceiverView> {
    match selection.context_binding {
        Some((name, depth)) => if depth >= frame.local_depth(name) {
            Some(
                ImplicitReceiverView {
                    context_binding: Some((name, depth - frame.local_depth(name))),
                    ..selection
                },
            )
        } else {
            None
        },
        None => Some(selection),
    }
}

/// The implicit receiver that a use outside nested callables contributes.
pub open spec fn direct_receiver(used: SourceUse) -> Option<ImplicitReceiverView> {
    match used.source {
        ContextArgumentView::ImplicitReceiver(selection) if !used.frame.nested => at_boundary(
            selection,
            used.frame,
        ),
        _ => None,
    }
}

/// The source that a use contributes, counted from the boundary of the body. A direct implicit
/// receiver is not among them.
pub open spec fn captured_source(used: SourceUse) -> Option<ContextArgumentView> {
    match used.source {
        ContextArgumentView::Binding { name, shadow_depth } => {
            let inner = occurrences(used.frame.bound, name) as int;
            if shadow_depth >= inner {
                Some(ContextArgumentView::Binding { name, shadow_depth: shadow_depth - inner })
            } else {
                None
            }
        },
        ContextArgumentView::ImplicitReceiver(selection) => if !used.frame.nested {
            None
        } else if selection.context_binding is Some || selection.singleton is Some {
            match at_boundary(selection, used.frame) {
                Some(outer) => Some(ContextArgumentView::ImplicitReceiver(outer)),
                None => None,
            }
        } else if selection.receiver_depth >= used.frame.receivers {
            let depth = selection.receiver_depth - used.frame.receivers;
            Some(
                ContextArgumentView::ImplicitReceiver(
                    ImplicitReceiverView { receiver_depth: depth, current: depth == 0, ..selection },
                ),
            )
        } else {
            None
        },
    }
}

/// The items with a new one behind them, unless it is there already.
pub open spec fn with_new<A>(items: Seq<A>, item: Option<A>) -> Seq<A> {
    match item {
        Some(found) if !items.contains(found) => items.push(found),
        _ => items,
    }
}

/// The distinct captured sources of the uses, in the order of their first use, behind `known`.
pub open spec fn captured_sources(known: Seq<ContextArgumentView>, uses: Seq<SourceUse>) -> Seq<ContextArgumentView>
    decreases uses.len(),
{
    if uses.len() == 0 {
        known
    } else {
        with_new(captured_sources(known, uses.drop_last()), captured_source(uses.last()))
    }
}

/// The distinct direct receivers of the uses, in the order of their first use, behind `known`.
pub open spec fn direct_receivers(known: Seq<ImplicitReceiverView>, uses: Seq<SourceUse>) -> Seq<ImplicitReceiverView>
    decreases uses.len(),
{
    if uses.len() == 0 {
        known
    } else {
        with_new(direct_receivers(known, uses.drop_last()), direct_receiver(uses.last()))
    }
}

/// The sources and receivers found so far.
#[derive(Debug)]
pub struct Inventory {
    pub sources: Vec<ResolvedContextArgument>,
    pub receivers: Vec<ImplicitReceiverSelection>,
}

/// The model of an inventory.
pub struct InventoryView {
    pub sources: Seq<ContextArgumentView>,
    pub receivers: Seq<ImplicitReceiverView>,
}

impl View for Inventory {
    type V = InventoryView;

    open spec fn view(&self) -> InventoryView {
        InventoryView { sources: views(self.sources@), receivers: views(self.receivers@) }
    }
}

impl InventoryView {
    /// The inventory with what the uses contribute.
    pub open spec fn with(self, uses: Seq<SourceUse>) -> InventoryView {
        InventoryView {
            sources: captured_sources(self.sources, uses),
            receivers: direct_receivers(self.receivers, uses),
        }
    }

    proof fn lemma_parts(self, first: Seq<SourceUse>, second: Seq<SourceUse>)
        ensures
            self.with(first + second) == self.with(first).with(second),
        decreases second.len(),
    {
        if second.len() == 0 {
            assert(first + second =~= first);
        } else {
            assert((first + second).drop_last() =~= first + second.drop_last());
            self.lemma_parts(first, second.drop_last());
        }
    }

    proof fn lemma_none(self)
        ensures
            self.with(Seq::empty()) == self,
    {
    }
}

/// What checking recorded about the body, as the scan reads it.
pub struct CheckedFacts<'a> {
    pub file: &'a File,
    pub expr_types: &'a [Ty],
    pub implicit_receiver_selections: &'a HashMap<u32, ImplicitReceiverSelection>,
    pub context_args: &'a HashMap<u32, Vec<ResolvedContextArgument>>,
    pub resolved_calls: &'a HashMap<u32, ResolvedCall>,
    pub stmt_lowers: &'a HashMap<u32, StmtLowering>,
    pub deep: bool,
}

/// The sources among optional ones.
pub open spec fn present(sources: Seq<Option<ResolvedContextArgument>>) -> Seq<ContextArgumentView> {
    gathered(
        sources,
        |source: Option<ResolvedContextArgument>|
            match source {
                Some(found) => seq![found@],
                None => Seq::empty(),
            },
    )
}

/// The captures of a lifted local function as sources.
pub open spec fn capture_bindings(captures: Seq<LocalCapture>) -> Seq<ContextArgumentView> {
    Seq::new(
        captures.len(),
        |i: int| ContextArgumentView::Binding { name: captures[i].name@, shadow_depth: 0 },
    )
}

/// The sources that a resolved call uses.
pub open spec fn call_sources(facts: CheckedFacts<'_>, call: ResolvedCall) -> Seq<ContextArgumentView> {
    match call {
        ResolvedCall::TopLevel { context_args, .. } => present(context_args@),
        ResolvedCall::Extension { context_args, .. } => views(context_args@),
        ResolvedCall::MemberExtension { dispatch_receiver, context_args, .. } => seq![
            ContextArgumentView::ImplicitReceiver(dispatch_receiver@),
        ] + present(context_args@),
        ResolvedCall::LocalFunction(target) => (if facts.stmt_lowers@.contains_key(
            target.stmt_id.0,
        ) {
            match facts.stmt_lowers@[target.stmt_id.0] {
                StmtLowering::LocalFunction(captures) => capture_bindings(captures@),
                StmtLowering::Other => Seq::empty(),
            }
        } else {
            Seq::empty()
        }) + views(target.context_args@),
        ResolvedCall::Member(_) | ResolvedCall::Companion(_) => Seq::empty(),
    }
}

/// The sources recorded for the expression itself.
pub open spec fn own_sources(facts: CheckedFacts<'_>, expression: ExprId) -> Seq<ContextArgumentView> {
    (if facts.implicit_receiver_selections@.contains_key(expression.0) {
        seq![
            ContextArgumentView::ImplicitReceiver(
                facts.implicit_receiver_selections@[expression.0]@,
            ),
        ]
    } else {
        Seq::empty()
    }) + (if facts.context_args@.contains_key(expression.0) {
        views(facts.context_args@[expression.0]@)
    } else {
        Seq::empty()
    }) + (if facts.resolved_calls@.contains_key(expression.0) {
        call_sources(facts, facts.resolved_calls@[expression.0])
    } else {
        Seq::empty()
    })
}

/// The sources, all used in the same frame.
pub open spec fn used_in(sources: Seq<ContextArgumentView>, frame: Frame) -> Seq<SourceUse> {
    Seq::new(sources.len(), |i: int| SourceUse { source: sources[i], frame })
}

/// The function shape that checking gave a lambda.
pub open spec fn lambda_shape(facts: CheckedFacts<'_>, expression: ExprId) -> Option<FnSig> {
    if (expression.0 as int) < facts.expr_types@.len() {
        match facts.expr_types@[expression.0 as int] {
            Ty::Fun(sig) => Some(*sig),
            _ => None,
        }
    } else {
        None
    }
}

/// A sum that stays at the largest machine count.
pub open spec fn saturated(sum: int) -> int {
    if sum > usize::MAX {
        usize::MAX as int
    } else {
        sum
    }
}

/// A difference that stays at zero.
pub open spec fn floored(difference: int) -> int {
    if difference < 0 {
        0
    } else {
        difference
    }
}

/// How many receivers a function shape declares.
pub open spec fn shape_receivers(sig: FnSig) -> int {
    saturated(sig.context_count + if sig.has_receiver {
        1int
    } else {
        0int
    })
}

/// The names that a lambda binds: its parameters, or `it` where it has one implicit parameter.
pub open spec fn lambda_names(facts: CheckedFacts<'_>, expression: ExprId, params: Seq<String>) -> Seq<Seq<char>> {
    if params.len() > 0 || facts.file.anon_fun_lambdas@.contains(expression.0) {
        views(params)
    } else {
        match lambda_shape(facts, expression) {
            Some(sig) if floored(sig.params@.len() - shape_receivers(sig)) == 1 => seq!["it"@],
            _ => Seq::empty(),
        }
    }
}

/// How many context parameters of a lambda have names of their own.
pub open spec fn named_contexts(facts: CheckedFacts<'_>, expression: ExprId, sig: FnSig) -> int {
    if facts.file.anon_fun_context_count@.contains_key(expression.0) {
        let declared = facts.file.anon_fun_context_count@[expression.0] as int;
        if declared < sig.context_count {
            declared
        } else {
            sig.context_count as int
        }
    } else {
        0
    }
}

/// The frame of the contents of an expression.
pub open spec fn inner_frame(facts: CheckedFacts<'_>, expression: ExprId, frame: Frame) -> Frame {
    match facts.file.expr_at(expression) {
        Expr::Lambda { params, .. } => {
            let (receivers, named) = match lambda_shape(facts, expression) {
                Some(sig) => (shape_receivers(sig), named_contexts(facts, expression, sig)),
                None => (0, 0),
            };
            Frame {
                nested: true,
                bound: frame.bound + lambda_names(facts, expression, params@),
                receivers: saturated(frame.receivers + receivers),
                implicit_this: saturated(frame.implicit_this + floored(receivers - named)),
            }
        },
        _ => frame,
    }
}

/// The expressions directly inside an expression or inside one of its statements.
pub open spec fn flat_children(file: File, expression: ExprId) -> Seq<ExprId> {
    gathered(
        expr_children(file.expr_at(expression)),
        |node: Node|
            match node {
                Node::Expr(child) => seq![child],
                Node::Stmt(statement) => stmt_children(file.stmt_at(statement)),
            },
    )
}

/// The names that a statement binds for the statements behind it.
pub open spec fn bound_behind(stmt: Stmt) -> Seq<Seq<char>> {
    match stmt {
        Stmt::Local { name, .. } => seq![name@],
        Stmt::LocalLateinit { name } => seq![name@],
        Stmt::LocalDelegate { name, .. } => seq![name@],
        Stmt::Destructure { entries, .. } => gathered(
            entries@,
            |entry: DestructureEntry|
                if entry.name@ == "_"@ {
                    Seq::empty()
                } else {
                    seq![entry.name@]
                },
        ),
        _ => Seq::empty(),
    }
}

/// Whether an expression is in the arena and deeper inside than `outer`.
pub open spec fn inside(file: File, expression: ExprId, outer: ExprId) -> bool {
    file.has(Node::Expr(expression)) && file.height(Node::Expr(expression)) < file.height(
        Node::Expr(outer),
    )
}

/// The uses of sources in an expression, in the order of the scan.
pub open spec fn uses(facts: CheckedFacts<'_>, expression: ExprId, frame: Frame) -> Seq<SourceUse>
    decreases facts.file.height(Node::Expr(expression)), 4nat, 0nat,
{
    used_in(own_sources(facts, expression), frame) + match facts.file.expr_at(expression) {
        Expr::Block { stmts, trailing } => block_uses(facts, expression, stmts@, trailing, frame),
        Expr::Try { body, catches, finally } => try_uses(
            facts,
            expression,
            body,
            catches@,
            finally,
            frame,
        ),
        Expr::Lambda { .. } if !facts.deep => Seq::empty(),
        _ => list_uses(
            facts,
            expression,
            flat_children(*facts.file, expression),
            inner_frame(facts, expression, frame),
        ),
    }
}

/// The uses in one part of an expression.
pub open spec fn part_uses(facts: CheckedFacts<'_>, outer: ExprId, part: ExprId, frame: Frame) -> Seq<SourceUse>
    decreases facts.file.height(Node::Expr(outer)), 0nat, 0nat,
{
    if inside(*facts.file, part, outer) {
        uses(facts, part, frame)
    } else {
        Seq::empty()
    }
}

/// The uses in some parts of an expression, one after the other.
pub open spec fn list_uses(facts: CheckedFacts<'_>, outer: ExprId, parts: Seq<ExprId>, frame: Frame) -> Seq<SourceUse>
    decreases facts.file.height(Node::Expr(outer)), 1nat, parts.len(),
{
    if parts.len() == 0 {
        Seq::empty()
    } else {
        part_uses(facts, outer, parts[0], frame) + list_uses(facts, outer, parts.skip(1), frame)
    }
}

/// The uses in a `try`.
pub open spec fn try_uses(
    facts: CheckedFacts<'_>,
    outer: ExprId,
    body: ExprId,
    catches: Seq<CatchClause>,
    finally: Option<ExprId>,
    frame: Frame,
) -> Seq<SourceUse>
    decreases facts.file.height(Node::Expr(outer)), 2nat, 0nat,
{
    part_uses(facts, outer, body, frame) + catch_uses(facts, outer, catches, frame) + match finally {
        Some(last) => part_uses(facts, outer, last, frame),
        None => Seq::empty(),
    }
}

/// The uses in the bodies of `catch` clauses.
pub open spec fn catch_uses(
    facts: CheckedFacts<'_>,
    outer: ExprId,
    catches: Seq<CatchClause>,
    frame: Frame,
) -> Seq<SourceUse>
    decreases facts.file.height(Node::Expr(outer)), 1nat, catches.len(),
{
    if catches.len() == 0 {
        Seq::empty()
    } else {
        part_uses(facts, outer, catches[0].body, frame.binding(catches[0].name@)) + catch_uses(
            facts,
            outer,
            catches.skip(1),
            frame,
        )
    }
}

/// The uses in one statement of a block.
pub open spec fn stmt_uses(facts: CheckedFacts<'_>, outer: ExprId, stmt: Stmt, frame: Frame) -> Seq<SourceUse>
    decreases facts.file.height(Node::Expr(outer)), 2nat, 0nat,
{
    match stmt {
        Stmt::For { name, range, body } => part_uses(facts, outer, range.start, frame) + part_uses(
            facts,
            outer,
            range.end,
            frame,
        ) + part_uses(facts, outer, body, frame.binding(name@)),
        Stmt::ForEach { name, iterable, body } => part_uses(facts, outer, iterable, frame)
            + part_uses(facts, outer, body, frame.binding(name@)),
        Stmt::LocalFun(_) => Seq::empty(),
        _ => list_uses(facts, outer, stmt_children(stmt), frame),
    }
}

/// The uses in the statements of a block and in the value behind them. A lifted local function
/// owns its captures itself, so its body contributes none.
pub open spec fn block_uses(
    facts: CheckedFacts<'_>,
    outer: ExprId,
    stmts: Seq<StmtId>,
    trailing: Option<ExprId>,
    frame: Frame,
) -> Seq<SourceUse>
    decreases facts.file.height(Node::Expr(outer)), 3nat, stmts.len(),
{
    if stmts.len() == 0 {
        match trailing {
            Some(value) => part_uses(facts, outer, value, frame),
            None => Seq::empty(),
        }
    } else {
        let stmt = facts.file.stmt_at(stmts[0]);
        stmt_uses(facts, outer, stmt, frame) + block_uses(
            facts,
            outer,
            stmts.skip(1),
            trailing,
            Frame { bound: frame.bound + bound_behind(stmt), ..frame },
        )
    }
}

/// How many of the names are `wanted`.
fn count_name(names: &Vec<String>, wanted: &str) -> (count: usize)
    ensures
        count == occurrences(views(names@), wanted@),
        count <= names@.len(),
{
    let mut count: usize = 0;
    let mut index: usize = 0;
    while index < names.len()
        invariant
            index <= names@.len(),
            count <= index,
            count == occurrences(views(names@).take(index as int), wanted@),
        decreases names@.len() - index,
    {
        assert(views(names@).take(index as int + 1).drop_last() =~= views(names@).take(index as int));
        if same_text(names[index].as_str(), wanted) {
            count += 1;
        }
        index += 1;
    }
    assert(views(names@).take(index as int) =~= views(names@));
    count
}

fn holds_source(sources: &Vec<ResolvedContextArgument>, wanted: &ResolvedContextArgument) -> (found: bool)
    ensures
        found == views(sources@).contains(wanted@),
{
    let mut index: usize = 0;
    while index < sources.len()
        invariant
            index <= sources@.len(),
            forall|k: int| 0 <= k < index ==> sources@[k]@ != wanted@,
        decreases sources@.len() - index,
    {
        if sources[index] == *wanted {
            assert(views(sources@)[index as int] == wanted@);
            return true;
        }
        index += 1;
    }
    false
}

fn holds_receiver(
    receivers: &Vec<ImplicitReceiverSelection>,
    wanted: &ImplicitReceiverSelection,
) -> (found: bool)
    ensures
        found == views(receivers@).contains(wanted@),
{
    let mut index: usize = 0;
    while index < receivers.len()
        invariant
            index <= receivers@.len(),
            forall|k: int| 0 <= k < index ==> receivers@[k]@ != wanted@,
        decreases receivers@.len() - index,
    {
        if receivers[index] == *wanted {
            assert(views(receivers@)[index as int] == wanted@);
            return true;
        }
        index += 1;
    }
    false
}

/// The frame of a use.
spec fn frame_of(nested: bool, bound: Seq<String>, receivers: usize, implicit_this: usize) -> Frame {
    Frame { nested, bound: views(bound), receivers: receivers as int, implicit_this: implicit_this as int }
}

/// The selection counted from the boundary of the body.
fn selection_at_boundary(
    selection: &ImplicitReceiverSelection,
    bound: &Vec<String>,
    implicit_this: usize,
    Ghost(frame): Ghost<Frame>,
) -> (out: Option<ImplicitReceiverSelection>)
    requires
        frame.bound == views(bound@),
        frame.implicit_this == implicit_this,
    ensures
        match out {
            Some(outer) => at_boundary(selection@, frame) == Some(outer@),
            None => at_boundary(selection@, frame) is None,
        },
{
    let mut outer = selection.clone();
    if let Some(binding) = &selection.context_binding {
        let shadowing: usize = count_name(bound, binding.0.as_str());
        let this_receivers: usize = if same_text(binding.0.as_str(), "this") {
            implicit_this
        } else {
            0
        };
        if binding.1 < shadowing || binding.1 - shadowing < this_receivers {
            return None;
        }
        outer.context_binding = Some((binding.0.clone(), binding.1 - shadowing - this_receivers));
    }
    Some(outer)
}

impl Inventory {
    fn add_receiver(&mut self, selection: ImplicitReceiverSelection)
        ensures
            final(self)@ == (InventoryView {
                receivers: with_new(old(self)@.receivers, Some(selection@)),
                ..old(self)@
            }),
    {
        if !holds_receiver(&self.receivers, &selection) {
            self.receivers.push(selection);
        }
    }

    fn add_source(&mut self, source: ResolvedContextArgument)
        ensures
            final(self)@ == (InventoryView {
                sources: with_new(old(self)@.sources, Some(source@)),
                ..old(self)@
            }),
    {
        if !holds_source(&self.sources, &source) {
            self.sources.push(source);
        }
    }

    /// Record one use of a source.
    fn record(
        &mut self,
        source: &ResolvedContextArgument,
        nested: bool,
        bound: &Vec<String>,
        receivers: usize,
        implicit_this: usize,
    )
        ensures
            final(self)@ == old(self)@.with(
                used_in(seq![source@], frame_of(nested, bound@, receivers, implicit_this)),
            ),
    {
        let ghost frame = frame_of(nested, bound@, receivers, implicit_this);
        let ghost used = SourceUse { source: source@, frame };
        let ghost before = self@;
        proof {
            assert(used_in(seq![source@], frame) =~= seq![used]);
            assert(seq![used].drop_last() =~= Seq::<SourceUse>::empty());
            assert(before.with(seq![used]) == (InventoryView {
                sources: with_new(before.sources, captured_source(used)),
                receivers: with_new(before.receivers, direct_receiver(used)),
            })) by {
                reveal_with_fuel(captured_sources, 2);
                reveal_with_fuel(direct_receivers, 2);
            }
        }
        match source {
            ResolvedContextArgument::Binding { name, shadow_depth } => {
                let inner: usize = count_name(bound, name.as_str());
                if *shadow_depth >= inner {
                    self.add_source(
                        ResolvedContextArgument::Binding {
                            name: name.clone(),
                            shadow_depth: *shadow_depth - inner,
                        },
                    );
                }
            },
            ResolvedContextArgument::ImplicitReceiver(selection) => {
                if !nested {
                    if let Some(outer) = selection_at_boundary(
                        selection,
                        bound,
                        implicit_this,
                        Ghost(frame),
                    ) {
                        self.add_receiver(outer);
                    }
                } else if selection.context_binding.is_some() || selection.singleton.is_some() {
                    if let Some(outer) = selection_at_boundary(
                        selection,
                        bound,
                        implicit_this,
                        Ghost(frame),
                    ) {
                        self.add_source(ResolvedContextArgument::ImplicitReceiver(outer));
                    }
                } else if selection.receiver_depth >= receivers {
                    let mut outer = selection.clone();
                    outer.receiver_depth = selection.receiver_depth - receivers;
                    outer.current = selection.receiver_depth - receivers == 0;
                    self.add_source(ResolvedContextArgument::ImplicitReceiver(outer));
                }
            },
        }
    }

    /// Record the uses of some sources in one frame.
    fn record_all(
        &mut self,
        sources: &Vec<ResolvedContextArgument>,
        nested: bool,
        bound: &Vec<String>,
        receivers: usize,
        implicit_this: usize,
    )
        ensures
            final(self)@ == old(self)@.with(
                used_in(views(sources@), frame_of(nested, bound@, receivers, implicit_this)),
            ),
    {
        let ghost frame = frame_of(nested, bound@, receivers, implicit_this);
        let ghost before = self@;
        let mut index: usize = 0;
        proof {
            assert(used_in(views(sources@).take(0), frame) =~= Seq::empty());
            before.lemma_none();
        }
        while index < sources.len()
            invariant
                index <= sources@.len(),
                frame == frame_of(nested, bound@, receivers, implicit_this),
                self@ == before.with(used_in(views(sources@).take(index as int), frame)),
            decreases sources@.len() - index,
        {
            self.record(&sources[index], nested, bound, receivers, implicit_this);
            proof {
                let done = used_in(views(sources@).take(index as int), frame);
                let one = used_in(seq![sources@[index as int]@], frame);
                before.lemma_parts(done, one);
                assert(used_in(views(sources@).take(index as int + 1), frame) =~= done + one);
            }
            index += 1;
        }
        assert(views(sources@).take(index as int) =~= views(sources@));
    }

    /// Record the uses of the sources among optional ones.
    fn record_present(
        &mut self,
        sources: &Vec<Option<ResolvedContextArgument>>,
        nested: bool,
        bound: &Vec<String>,
        receivers: usize,
        implicit_this: usize,
    )
        ensures
            final(self)@ == old(self)@.with(
                used_in(present(sources@), frame_of(nested, bound@, receivers, implicit_this)),
            ),
    {
        let ghost piece = |source: Option<ResolvedContextArgument>|
            match source {
                Some(found) => seq![found@],
                None => Seq::empty(),
            };
        let ghost frame = frame_of(nested, bound@, receivers, implicit_this);
        let ghost before = self@;
        let mut index: usize = 0;
        proof {
            lemma_gathered_all(sources@, piece);
            assert(used_in(gathered(sources@.take(0), piece), frame) =~= Seq::empty());
            before.lemma_none();
        }
        while index < sources.len()
            invariant
                index <= sources@.len(),
                piece == (|source: Option<ResolvedContextArgument>|
                    match source {
                        Some(found) => seq![found@],
                        None => Seq::empty(),
                    }),
                frame == frame_of(nested, bound@, receivers, implicit_this),
                self@ == before.with(used_in(gathered(sources@.take(index as int), piece), frame)),
            decreases sources@.len() - index,
        {
            proof {
                lemma_gathered_step(sources@, index as int, piece);
            }
            let ghost done = used_in(gathered(sources@.take(index as int), piece), frame);
            if let Some(source) = &sources[index] {
                self.record(source, nested, bound, receivers, implicit_this);
                proof {
                    let one = used_in(seq![source@], frame);
                    before.lemma_parts(done, one);
                    assert(used_in(gathered(sources@.take(index as int + 1), piece), frame) =~= done + one);
                }
            } else {
                assert(used_in(gathered(sources@.take(index as int + 1), piece), frame) =~= done);
            }
            index += 1;
        }
    }

    /// Record the uses that a call of a lifted local function makes of its captures.
    fn record_captures(
        &mut self,
        captures: &Vec<LocalCapture>,
        nested: bool,
        bound: &Vec<String>,
        receivers: usize,
        implicit_this: usize,
    )
        ensures
            final(self)@ == old(self)@.with(
                used_in(
                    capture_bindings(captures@),
                    frame_of(nested, bound@, receivers, implicit_this),
                ),
            ),
    {
        let ghost frame = frame_of(nested, bound@, receivers, implicit_this);
        let ghost before = self@;
        let mut index: usize = 0;
        proof {
            assert(used_in(capture_bindings(captures@).take(0), frame) =~= Seq::empty());
            before.lemma_none();
        }
        while index < captures.len()
            invariant
                index <= captures@.len(),
                frame == frame_of(nested, bound@, receivers, implicit_this),
                self@ == before.with(used_in(capture_bindings(captures@).take(index as int), frame)),
            decreases captures@.len() - index,
        {
            let source = ResolvedContextArgument::Binding {
                name: captures[index].name.clone(),
                shadow_depth: 0,
            };
            self.record(&source, nested, bound, receivers, implicit_this);
            proof {
                let done = used_in(capture_bindings(captures@).take(index as int), frame);
                let one = used_in(seq![source@], frame);
                before.lemma_parts(done, one);
                assert(used_in(capture_bindings(captures@).take(index as int + 1), frame) =~= done + one);
            }
            index += 1;
        }
        assert(capture_bindings(captures@).take(index as int) =~= capture_bindings(captures@));
    }
}

impl<'a> CheckedFacts<'a> {
    /// Record the sources of the expression itself.
    fn record_own(
        &self,
        expression: ExprId,
        nested: bool,
        bound: &Vec<String>,
        receivers: usize,
        implicit_this: usize,
        inventory: &mut Inventory,
    )
        ensures
            final(inventory)@ == old(inventory)@.with(
                used_in(
                    own_sources(*self, expression),
                    frame_of(nested, bound@, receivers, implicit_this),
                ),
            ),
    {
        let ghost frame = frame_of(nested, bound@, receivers, implicit_this);
        let ghost start = inventory@;
        let ghost mut done: Seq<ContextArgumentView> = Seq::empty();
        proof {
            assert(used_in(done, frame) =~= Seq::empty());
            start.lemma_none();
        }
        if let Some(selection) = self.implicit_receiver_selections.get(&expression.0) {
            let source = ResolvedContextArgument::ImplicitReceiver(selection.clone());
            inventory.record(&source, nested, bound, receivers, implicit_this);
            proof {
                lemma_more(start, done, seq![source@], frame);
                done = done + seq![source@];
            }
        }
        if let Some(sources) = self.context_args.get(&expression.0) {
            inventory.record_all(sources, nested, bound, receivers, implicit_this);
            proof {
                lemma_more(start, done, views(sources@), frame);
                done = done + views(sources@);
            }
        }
        if let Some(call) = self.resolved_calls.get(&expression.0) {
            match call {
                ResolvedCall::TopLevel { context_args, .. } => {
                    inventory.record_present(context_args, nested, bound, receivers, implicit_this);
                    proof {
                        lemma_more(start, done, present(context_args@), frame);
                        done = done + present(context_args@);
                    }
                },
                ResolvedCall::Extension { context_args, .. } => {
                    inventory.record_all(context_args, nested, bound, receivers, implicit_this);
                    proof {
                        lemma_more(start, done, views(context_args@), frame);
                        done = done + views(context_args@);
                    }
                },
                ResolvedCall::MemberExtension { dispatch_receiver, context_args, .. } => {
                    let source = ResolvedContextArgument::ImplicitReceiver(dispatch_receiver.clone());
                    inventory.record(&source, nested, bound, receivers, implicit_this);
                    proof {
                        lemma_more(start, done, seq![source@], frame);
                    }
                    inventory.record_present(context_args, nested, bound, receivers, implicit_this);
                    proof {
                        lemma_more(start, done + seq![source@], present(context_args@), frame);
                        assert((done + seq![source@]) + present(context_args@) =~= done + (seq![
                            source@,
                        ] + present(context_args@)));
                        done = done + (seq![source@] + present(context_args@));
                    }
                },
                ResolvedCall::LocalFunction(target) => {
                    let ghost mut captured: Seq<ContextArgumentView> = Seq::empty();
                    proof {
                        assert(done + captured =~= done);
                    }
                    if let Some(StmtLowering::LocalFunction(captures)) = self.stmt_lowers.get(
                        &target.stmt_id.0,
                    ) {
                        inventory.record_captures(captures, nested, bound, receivers, implicit_this);
                        proof {
                            lemma_more(start, done, capture_bindings(captures@), frame);
                            captured = capture_bindings(captures@);
                        }
                    }
                    inventory.record_all(
                        &target.context_args,
                        nested,
                        bound,
                        receivers,
                        implicit_this,
                    );
                    proof {
                        lemma_more(start, done + captured, views(target.context_args@), frame);
                        assert((done + captured) + views(target.context_args@) =~= done + (captured
                            + views(target.context_args@)));
                        done = done + (captured + views(target.context_args@));
                    }
                },
                ResolvedCall::Member(_) => {},
                ResolvedCall::Companion(_) => {},
            }
        }
        assert(done =~= own_sources(*self, expression));
    }
}

proof fn lemma_more(
    start: InventoryView,
    done: Seq<ContextArgumentView>,
    more: Seq<ContextArgumentView>,
    frame: Frame,
)
    ensures
        start.with(used_in(done, frame)).with(used_in(more, frame)) == start.with(
            used_in(done + more, frame),
        ),
{
    start.lemma_parts(used_in(done, frame), used_in(more, frame));
    assert(used_in(done + more, frame) =~= used_in(done, frame) + used_in(more, frame));
}

/// The names that a lambda binds.
fn names_of_lambda(facts: &CheckedFacts<'_>, expression: ExprId, params: &Vec<String>) -> (names: Vec<String>)
    ensures
        views(names@) == lambda_names(*facts, expression, params@),
{
    if params.len() > 0 || holds_index(&facts.file.anon_fun_lambdas, expression.0) {
        return copy_names(params);
    }
    let mut names: Vec<String> = Vec::new();
    if let Some(sig) = shape_of_lambda(facts, expression) {
        if sig.params.len().saturating_sub(receivers_of_shape(sig)) == 1 {
            names.push("it".to_owned());
        }
    }
    assert(views(names@) =~= lambda_names(*facts, expression, params@));
    names
}

fn holds_index(indexes: &Vec<u32>, wanted: u32) -> (found: bool)
    ensures
        found == indexes@.contains(wanted),
{
    let mut index: usize = 0;
    while index < indexes.len()
        invariant
            index <= indexes@.len(),
            forall|k: int| 0 <= k < index ==> indexes@[k] != wanted,
        decreases indexes@.len() - index,
    {
        if indexes[index] == wanted {
            return true;
        }
        index += 1;
    }
    false
}

fn shape_of_lambda<'a>(facts: &CheckedFacts<'a>, expression: ExprId) -> (sig: Option<&'a FnSig>)
    ensures
        match sig {
            Some(found) => lambda_shape(*facts, expression) == Some(*found),
            None => lambda_shape(*facts, expression) is None,
        },
{
    if (expression.0 as usize) < facts.expr_types.len() {
        match &facts.expr_types[expression.0 as usize] {
            Ty::Fun(sig) => Some(sig),
            _ => None,
        }
    } else {
        None
    }
}

fn receivers_of_shape(sig: &FnSig) -> (count: usize)
    ensures
        count == shape_receivers(*sig),
{
    sig.context_count.saturating_add(if sig.has_receiver { 1 } else { 0 })
}

fn named_contexts_of(facts: &CheckedFacts<'_>, expression: ExprId, sig: &FnSig) -> (count: usize)
    ensures
        count == named_contexts(*facts, expression, *sig),
{
    match facts.file.anon_fun_context_count.get(&expression.0) {
        Some(declared) => {
            let declared: usize = *declared as usize;
            if declared < sig.context_count {
                declared
            } else {
                sig.context_count
            }
        },
        None => 0,
    }
}

/// The expressions directly inside an expression or inside one of its statements.
fn flat_child_exprs(file: &File, expression: ExprId) -> (out: Vec<ExprId>)
    requires
        file.well_formed(),
        file.has(Node::Expr(expression)),
    ensures
        out@ == flat_children(*file, expression),
        forall|k: int| 0 <= k < out@.len() ==> inside(*file, #[trigger] out@[k], expression),
{
    let nodes = child_nodes(file.expr(expression));
    let ghost piece = |node: Node|
        match node {
            Node::Expr(child) => seq![child],
            Node::Stmt(statement) => stmt_children(file.stmt_at(statement)),
        };
    let mut out: Vec<ExprId> = Vec::new();
    let mut index: usize = 0;
    proof {
        file.lemma_children(Node::Expr(expression));
        lemma_gathered_all(nodes@, piece);
    }
    while index < nodes.len()
        invariant
            index <= nodes@.len(),
            file.well_formed(),
            nodes@ == file.children(Node::Expr(expression)),
            piece == (|node: Node|
                match node {
                    Node::Expr(child) => seq![child],
                    Node::Stmt(statement) => stmt_children(file.stmt_at(statement)),
                }),
            forall|k: int|
                #![trigger file.children(Node::Expr(expression))[k]]
                0 <= k < nodes@.len() ==> file.has(file.children(Node::Expr(expression))[k])
                    && file.height(file.children(Node::Expr(expression))[k]) < file.height(
                    Node::Expr(expression),
                ),
            out@ == gathered(nodes@.take(index as int), piece),
            forall|k: int| 0 <= k < out@.len() ==> inside(*file, #[trigger] out@[k], expression),
        decreases nodes@.len() - index,
    {
        proof {
            lemma_gathered_step(nodes@, index as int, piece);
            assert(file.has(file.children(Node::Expr(expression))[index as int]));
        }
        match nodes[index] {
            Node::Expr(child) => {
                out.push(child);
            },
            Node::Stmt(statement) => {
                let parts = child_exprs(file.stmt(statement));
                let ghost before = out@;
                let mut inner: usize = 0;
                proof {
                    file.lemma_children(Node::Stmt(statement));
                }
                while inner < parts.len()
                    invariant
                        inner <= parts@.len(),
                        parts@ == stmt_children(file.stmt_at(statement)),
                        out@ == before + parts@.take(inner as int),
                        file.height(Node::Stmt(statement)) < file.height(Node::Expr(expression)),
                        forall|k: int|
                            #![trigger file.children(Node::Stmt(statement))[k]]
                            0 <= k < file.children(Node::Stmt(statement)).len() ==> file.has(
                                file.children(Node::Stmt(statement))[k],
                            ) && file.height(file.children(Node::Stmt(statement))[k])
                                < file.height(Node::Stmt(statement)),
                        forall|k: int|
                            0 <= k < out@.len() ==> inside(*file, #[trigger] out@[k], expression),
                    decreases parts@.len() - inner,
                {
                    assert(file.children(Node::Stmt(statement))[inner as int] == Node::Expr(
                        parts@[inner as int],
                    ));
                    out.push(parts[inner]);
                    assert(parts@.take(inner as int + 1) =~= parts@.take(inner as int).push(
                        parts@[inner as int],
                    ));
                    inner += 1;
                }
                assert(parts@.take(inner as int) =~= parts@);
            },
        }
        index += 1;
    }
    out
}

fn push_bound_names(stmt: &Stmt, bound: &mut Vec<String>)
    ensures
        views(final(bound)@) == views(old(bound)@) + bound_behind(*stmt),
        final(bound)@.len() >= old(bound)@.len(),
        final(bound)@.take(old(bound)@.len() as int) == old(bound)@,
{
    match stmt {
        Stmt::Local { name, .. } => {
            bound.push(name.clone());
        },
        Stmt::LocalLateinit { name } => {
            bound.push(name.clone());
        },
        Stmt::LocalDelegate { name, .. } => {
            bound.push(name.clone());
        },
        Stmt::Destructure { entries, .. } => {
            let ghost piece = |entry: DestructureEntry|
                if entry.name@ == "_"@ {
                    Seq::empty()
                } else {
                    seq![entry.name@]
                };
            let ghost before = bound@;
            let mut index: usize = 0;
            proof {
                lemma_gathered_all(entries@, piece);
            }
            while index < entries.len()
                invariant
                    index <= entries@.len(),
                    piece == (|entry: DestructureEntry|
                        if entry.name@ == "_"@ {
                            Seq::empty()
                        } else {
                            seq![entry.name@]
                        }),
                    views(bound@) == views(before) + gathered(entries@.take(index as int), piece),
                    bound@.len() >= before.len(),
                    bound@.take(before.len() as int) == before,
                decreases entries@.len() - index,
            {
                proof {
                    lemma_gathered_step(entries@, index as int, piece);
                }
                if !same_text(entries[index].name.as_str(), "_") {
                    bound.push(entries[index].name.clone());
                }
                assert(bound@.take(before.len() as int) =~= before);
                index += 1;
            }
        },
        _ => {},
    }
    assert(final(bound)@.take(old(bound)@.len() as int) =~= old(bound)@);
}

impl<'a> CheckedFacts<'a> {
    /// Record the uses in one expression inside `outer`.
    fn scan(
        &self,
        expression: ExprId,
        nested: bool,
        bound: &mut Vec<String>,
        receivers: usize,
        implicit_this: usize,
        inventory: &mut Inventory,
    )
        requires
            self.file.well_formed(),
            self.file.has(Node::Expr(expression)),
        ensures
            final(bound)@ == old(bound)@,
            final(inventory)@ == old(inventory)@.with(
                uses(*self, expression, frame_of(nested, old(bound)@, receivers, implicit_this)),
            ),
        decreases self.file.height(Node::Expr(expression)), 2nat,
    {
        let ghost frame = frame_of(nested, bound@, receivers, implicit_this);
        let ghost start = inventory@;
        let ghost own = used_in(own_sources(*self, expression), frame);
        self.record_own(expression, nested, bound, receivers, implicit_this, inventory);
        let file = self.file;
        match file.expr(expression) {
            Expr::Block { stmts, trailing } => {
                self.scan_block(
                    expression,
                    stmts,
                    *trailing,
                    nested,
                    bound,
                    receivers,
                    implicit_this,
                    inventory,
                );
                proof {
                    start.lemma_parts(own, block_uses(*self, expression, stmts@, *trailing, frame));
                }
            },
            Expr::Try { body, catches, finally } => {
                self.scan_try(
                    expression,
                    *body,
                    catches,
                    *finally,
                    nested,
                    bound,
                    receivers,
                    implicit_this,
                    inventory,
                );
                proof {
                    start.lemma_parts(own, try_uses(*self, expression, *body, catches@, *finally, frame));
                }
            },
            Expr::Lambda { params, .. } => {
                if !self.deep {
                    assert(own + Seq::<SourceUse>::empty() =~= own);
                    return ;
                }
                self.scan_lambda(
                    expression,
                    params,
                    nested,
                    bound,
                    receivers,
                    implicit_this,
                    inventory,
                );
                proof {
                    start.lemma_parts(
                        own,
                        list_uses(
                            *self,
                            expression,
                            flat_children(*self.file, expression),
                            inner_frame(*self, expression, frame),
                        ),
                    );
                }
            },
            _ => {
                self.scan_list(expression, nested, bound, receivers, implicit_this, inventory);
                proof {
                    start.lemma_parts(
                        own,
                        list_uses(
                            *self,
                            expression,
                            flat_children(*self.file, expression),
                            inner_frame(*self, expression, frame),
                        ),
                    );
                }
            },
        }
    }

    /// Record the uses in a `try`.
    fn scan_try(
        &self,
        outer: ExprId,
        body: ExprId,
        catches: &Vec<CatchClause>,
        finally: Option<ExprId>,
        nested: bool,
        bound: &mut Vec<String>,
        receivers: usize,
        implicit_this: usize,
        inventory: &mut Inventory,
    )
        requires
            self.file.well_formed(),
            self.file.has(Node::Expr(outer)),
            self.file.expr_at(outer) matches Expr::Try { body: b, catches: c, finally: f } && b
                == body && c == *catches && f == finally,
        ensures
            final(bound)@ == old(bound)@,
            final(inventory)@ == old(inventory)@.with(
                try_uses(
                    *self,
                    outer,
                    body,
                    catches@,
                    finally,
                    frame_of(nested, old(bound)@, receivers, implicit_this),
                ),
            ),
        decreases self.file.height(Node::Expr(outer)), 1nat,
    {
        let ghost frame = frame_of(nested, bound@, receivers, implicit_this);
        let ghost start = inventory@;
        let ghost children = self.file.children(Node::Expr(outer));
        let ghost first = part_uses(*self, outer, body, frame);
        let ghost caught = catch_uses(*self, outer, catches@, frame);
        proof {
            self.file.lemma_child(Node::Expr(outer), 0);
            assert(children[0] == Node::Expr(body));
            start.lemma_parts(first, caught);
        }
        self.scan(body, nested, bound, receivers, implicit_this, inventory);
        self.scan_catches(outer, catches, nested, bound, receivers, implicit_this, inventory);
        match finally {
            Some(last) => {
                proof {
                    self.file.lemma_child(Node::Expr(outer), 1 + catches@.len() as int);
                    assert(children[1 + catches@.len() as int] == Node::Expr(last));
                    start.lemma_parts(first + caught, part_uses(*self, outer, last, frame));
                }
                self.scan(last, nested, bound, receivers, implicit_this, inventory);
            },
            None => {
                assert(first + caught + Seq::<SourceUse>::empty() =~= first + caught);
            },
        }
    }

    /// Record the uses in a lambda.
    fn scan_lambda(
        &self,
        outer: ExprId,
        params: &Vec<String>,
        nested: bool,
        bound: &mut Vec<String>,
        receivers: usize,
        implicit_this: usize,
        inventory: &mut Inventory,
    )
        requires
            self.file.well_formed(),
            self.file.has(Node::Expr(outer)),
            self.file.expr_at(outer) matches Expr::Lambda { params: p, .. } && p == *params,
        ensures
            final(bound)@ == old(bound)@,
            final(inventory)@ == old(inventory)@.with(
                list_uses(
                    *self,
                    outer,
                    flat_children(*self.file, outer),
                    inner_frame(
                        *self,
                        outer,
                        frame_of(nested, old(bound)@, receivers, implicit_this),
                    ),
                ),
            ),
        decreases self.file.height(Node::Expr(outer)), 1nat,
    {
        let names = names_of_lambda(self, outer, params);
        let mut receiver_count: usize = 0;
        let mut named: usize = 0;
        if let Some(sig) = shape_of_lambda(self, outer) {
            receiver_count = receivers_of_shape(sig);
            named = named_contexts_of(self, outer, sig);
        }
        let saved: usize = bound.len();
        let ghost before = bound@;
        push_names(bound, &names);
        self.scan_list(
            outer,
            true,
            bound,
            receivers.saturating_add(receiver_count),
            implicit_this.saturating_add(receiver_count.saturating_sub(named)),
            inventory,
        );
        bound.truncate(saved);
        assert(bound@ =~= before);
    }

    /// Record the uses in the contents of an expression.
    fn scan_list(
        &self,
        outer: ExprId,
        nested: bool,
        bound: &mut Vec<String>,
        receivers: usize,
        implicit_this: usize,
        inventory: &mut Inventory,
    )
        requires
            self.file.well_formed(),
            self.file.has(Node::Expr(outer)),
        ensures
            final(bound)@ == old(bound)@,
            final(inventory)@ == old(inventory)@.with(
                list_uses(
                    *self,
                    outer,
                    flat_children(*self.file, outer),
                    frame_of(nested, old(bound)@, receivers, implicit_this),
                ),
            ),
        decreases self.file.height(Node::Expr(outer)), 0nat,
    {
        let parts = flat_child_exprs(self.file, outer);
        let ghost frame = frame_of(nested, bound@, receivers, implicit_this);
        let ghost start = inventory@;
        let ghost kept = bound@;
        let mut index: usize = 0;
        assert(parts@.skip(0) =~= parts@);
        while index < parts.len()
            invariant
                index <= parts@.len(),
                self.file.well_formed(),
                forall|k: int|
                    0 <= k < parts@.len() ==> inside(*self.file, #[trigger] parts@[k], outer),
                bound@ == kept,
                frame == frame_of(nested, kept, receivers, implicit_this),
                inventory@.with(list_uses(*self, outer, parts@.skip(index as int), frame))
                    == start.with(list_uses(*self, outer, parts@, frame)),
            decreases parts@.len() - index,
        {
            proof {
                let rest = parts@.skip(index as int);
                assert(rest.skip(1) =~= parts@.skip(index as int + 1));
                assert(inside(*self.file, parts@[index as int], outer));
                inventory@.lemma_parts(
                    part_uses(*self, outer, rest[0], frame),
                    list_uses(*self, outer, rest.skip(1), frame),
                );
            }
            self.scan(parts[index], nested, bound, receivers, implicit_this, inventory);
            index += 1;
        }
        proof {
            inventory@.lemma_none();
        }
    }

    /// Record the uses in the bodies of `catch` clauses.
    fn scan_catches(
        &self,
        outer: ExprId,
        catches: &Vec<CatchClause>,
        nested: bool,
        bound: &mut Vec<String>,
        receivers: usize,
        implicit_this: usize,
        inventory: &mut Inventory,
    )
        requires
            self.file.well_formed(),
            self.file.has(Node::Expr(outer)),
            self.file.expr_at(outer) is Try,
            self.file.expr_at(outer)->catches == *catches,
        ensures
            final(bound)@ == old(bound)@,
            final(inventory)@ == old(inventory)@.with(
                catch_uses(
                    *self,
                    outer,
                    catches@,
                    frame_of(nested, old(bound)@, receivers, implicit_this),
                ),
            ),
        decreases self.file.height(Node::Expr(outer)), 0nat,
    {
        let ghost frame = frame_of(nested, bound@, receivers, implicit_this);
        let ghost start = inventory@;
        let ghost kept = bound@;
        let ghost children = self.file.children(Node::Expr(outer));
        let mut index: usize = 0;
        assert(catches@.skip(0) =~= catches@);
        while index < catches.len()
            invariant
                index <= catches@.len(),
                self.file.well_formed(),
                self.file.has(Node::Expr(outer)),
                self.file.expr_at(outer) is Try,
                self.file.expr_at(outer)->catches == *catches,
                children == self.file.children(Node::Expr(outer)),
                bound@ == kept,
                frame == frame_of(nested, kept, receivers, implicit_this),
                inventory@.with(catch_uses(*self, outer, catches@.skip(index as int), frame))
                    == start.with(catch_uses(*self, outer, catches@, frame)),
            decreases catches@.len() - index,
        {
            bound.push(catches[index].name.clone());
            proof {
                let rest = catches@.skip(index as int);
                assert(rest.skip(1) =~= catches@.skip(index as int + 1));
                self.file.lemma_child(Node::Expr(outer), 1 + index as int);
                assert(children[1 + index as int] == Node::Expr(catches@[index as int].body));
                assert(frame_of(nested, bound@, receivers, implicit_this) == frame.binding(
                    rest[0].name@,
                ));
                inventory@.lemma_parts(
                    part_uses(*self, outer, rest[0].body, frame.binding(rest[0].name@)),
                    catch_uses(*self, outer, rest.skip(1), frame),
                );
            }
            self.scan(catches[index].body, nested, bound, receivers, implicit_this, inventory);
            bound.pop();
            assert(bound@ =~= kept);
            index += 1;
        }
        proof {
            inventory@.lemma_none();
        }
    }

    /// Record the uses in the statements of a block and in the value behind them.
    fn scan_block(
        &self,
        outer: ExprId,
        stmts: &Vec<StmtId>,
        trailing: Option<ExprId>,
        nested: bool,
        bound: &mut Vec<String>,
        receivers: usize,
        implicit_this: usize,
        inventory: &mut Inventory,
    )
        requires
            self.file.well_formed(),
            self.file.has(Node::Expr(outer)),
            self.file.expr_at(outer) is Block,
            self.file.expr_at(outer)->stmts == *stmts,
            self.file.expr_at(outer)->trailing == trailing,
        ensures
            final(bound)@ == old(bound)@,
            final(inventory)@ == old(inventory)@.with(
                block_uses(
                    *self,
                    outer,
                    stmts@,
                    trailing,
                    frame_of(nested, old(bound)@, receivers, implicit_this),
                ),
            ),
        decreases self.file.height(Node::Expr(outer)), 0nat,
    {
        let ghost start = inventory@;
        let ghost first_frame = frame_of(nested, bound@, receivers, implicit_this);
        let ghost kept = bound@;
        let ghost children = self.file.children(Node::Expr(outer));
        let saved: usize = bound.len();
        let mut index: usize = 0;
        assert(stmts@.skip(0) =~= stmts@);
        while index < stmts.len()
            invariant
                index <= stmts@.len(),
                self.file.well_formed(),
                self.file.has(Node::Expr(outer)),
                self.file.expr_at(outer) is Block,
                self.file.expr_at(outer)->stmts == *stmts,
                children == self.file.children(Node::Expr(outer)),
                bound@.len() >= kept.len(),
                bound@.take(kept.len() as int) == kept,
                inventory@.with(
                    block_uses(
                        *self,
                        outer,
                        stmts@.skip(index as int),
                        trailing,
                        frame_of(nested, bound@, receivers, implicit_this),
                    ),
                ) == start.with(block_uses(*self, outer, stmts@, trailing, first_frame)),
            decreases stmts@.len() - index,
        {
            let ghost frame = frame_of(nested, bound@, receivers, implicit_this);
            let ghost rest = stmts@.skip(index as int);
            let stmt = self.file.stmt(stmts[index]);
            proof {
                self.file.lemma_child(Node::Expr(outer), index as int);
                assert(children[index as int] == Node::Stmt(stmts@[index as int]));
                assert(rest.skip(1) =~= stmts@.skip(index as int + 1));
                inventory@.lemma_parts(
                    stmt_uses(*self, outer, *stmt, frame),
                    block_uses(
                        *self,
                        outer,
                        rest.skip(1),
                        trailing,
                        Frame { bound: frame.bound + bound_behind(*stmt), ..frame },
                    ),
                );
            }
            self.scan_statement(
                outer,
                stmts[index],
                nested,
                bound,
                receivers,
                implicit_this,
                inventory,
            );
            let ghost held = bound@;
            push_bound_names(stmt, bound);
            proof {
                assert(bound@.take(kept.len() as int) =~= held.take(kept.len() as int)) by {
                    assert(bound@.take(held.len() as int).take(kept.len() as int) =~= bound@.take(
                        kept.len() as int,
                    ));
                }
                assert(frame_of(nested, bound@, receivers, implicit_this) == (Frame {
                    bound: frame.bound + bound_behind(*stmt),
                    ..frame
                }));
            }
            index += 1;
        }
        let ghost last_frame = frame_of(nested, bound@, receivers, implicit_this);
        assert(stmts@.skip(index as int).len() == 0);
        assert(inventory@.with(
            block_uses(*self, outer, stmts@.skip(index as int), trailing, last_frame),
        ) == start.with(block_uses(*self, outer, stmts@, trailing, first_frame)));
        match trailing {
            Some(value) => {
                proof {
                    self.file.lemma_child(Node::Expr(outer), stmts@.len() as int);
                    assert(children[stmts@.len() as int] == Node::Expr(value));
                    assert(inside(*self.file, value, outer));
                }
                let ghost was = inventory@;
                assert(block_uses(*self, outer, stmts@.skip(index as int), trailing, last_frame) == part_uses(*self, outer, value, last_frame));
                self.scan(value, nested, bound, receivers, implicit_this, inventory);
                assert(inventory@ == was.with(uses(*self, value, last_frame)));
                assert(inventory@ == start.with(block_uses(*self, outer, stmts@, trailing, first_frame)));
            },
            None => {
                assert(block_uses(*self, outer, stmts@.skip(index as int), trailing, last_frame) == Seq::<SourceUse>::empty());
                proof {
                    inventory@.lemma_none();
                }
                assert(inventory@ == start.with(block_uses(*self, outer, stmts@, trailing, first_frame)));
            },
        }
        assert(inventory@ == start.with(block_uses(*self, outer, stmts@, trailing, first_frame)));
        bound.truncate(saved);
        assert(bound@ =~= kept);
    }

    /// Record the uses in one statement of a block.
    fn scan_statement(
        &self,
        outer: ExprId,
        statement: StmtId,
        nested: bool,
        bound: &mut Vec<String>,
        receivers: usize,
        implicit_this: usize,
        inventory: &mut Inventory,
    )
        requires
            self.file.well_formed(),
            self.file.has(Node::Stmt(statement)),
            self.file.height(Node::Stmt(statement)) < self.file.height(Node::Expr(outer)),
        ensures
            final(bound)@ == old(bound)@,
            final(inventory)@ == old(inventory)@.with(
                stmt_uses(
                    *self,
                    outer,
                    self.file.stmt_at(statement),
                    frame_of(nested, old(bound)@, receivers, implicit_this),
                ),
            ),
        decreases self.file.height(Node::Stmt(statement)), 0nat,
    {
        let ghost frame = frame_of(nested, bound@, receivers, implicit_this);
        let ghost start = inventory@;
        let ghost kept = bound@;
        let ghost children = self.file.children(Node::Stmt(statement));
        let stmt = self.file.stmt(statement);
        proof {
            self.file.lemma_children(Node::Stmt(statement));
        }
        match stmt {
            Stmt::For { name, range, body } => {
                proof {
                    assert(children[0] == Node::Expr(range.start));
                    assert(children[1] == Node::Expr(range.end));
                    assert(children[2] == Node::Expr(*body));
                    start.lemma_parts(
                        part_uses(*self, outer, range.start, frame),
                        part_uses(*self, outer, range.end, frame),
                    );
                    start.lemma_parts(
                        part_uses(*self, outer, range.start, frame) + part_uses(
                            *self,
                            outer,
                            range.end,
                            frame,
                        ),
                        part_uses(*self, outer, *body, frame.binding(name@)),
                    );
                }
                self.scan(range.start, nested, bound, receivers, implicit_this, inventory);
                self.scan(range.end, nested, bound, receivers, implicit_this, inventory);
                bound.push(name.clone());
                assert(frame_of(nested, bound@, receivers, implicit_this) == frame.binding(name@));
                self.scan(*body, nested, bound, receivers, implicit_this, inventory);
                bound.pop();
                assert(bound@ =~= kept);
            },
            Stmt::ForEach { name, iterable, body } => {
                proof {
                    assert(children[0] == Node::Expr(*iterable));
                    assert(children[1] == Node::Expr(*body));
                    start.lemma_parts(
                        part_uses(*self, outer, *iterable, frame),
                        part_uses(*self, outer, *body, frame.binding(name@)),
                    );
                }
                self.scan(*iterable, nested, bound, receivers, implicit_this, inventory);
                bound.push(name.clone());
                assert(frame_of(nested, bound@, receivers, implicit_this) == frame.binding(name@));
                self.scan(*body, nested, bound, receivers, implicit_this, inventory);
                bound.pop();
                assert(bound@ =~= kept);
            },
            Stmt::LocalFun(_) => {
                proof {
                    start.lemma_none();
                }
            },
            _ => {
                let parts = child_exprs(stmt);
                let mut index: usize = 0;
                assert(parts@.skip(0) =~= parts@);
                while index < parts.len()
                    invariant
                        index <= parts@.len(),
                        self.file.well_formed(),
                        parts@ == stmt_children(self.file.stmt_at(statement)),
                        children == self.file.children(Node::Stmt(statement)),
                        forall|k: int|
                            #![trigger children[k]]
                            0 <= k < children.len() ==> self.file.has(children[k])
                                && self.file.height(children[k]) < self.file.height(
                                Node::Stmt(statement),
                            ),
                        self.file.height(Node::Stmt(statement)) < self.file.height(
                            Node::Expr(outer),
                        ),
                        bound@ == kept,
                        frame == frame_of(nested, kept, receivers, implicit_this),
                        inventory@.with(list_uses(*self, outer, parts@.skip(index as int), frame))
                            == start.with(list_uses(*self, outer, parts@, frame)),
                    decreases parts@.len() - index,
                {
                    proof {
                        let rest = parts@.skip(index as int);
                        assert(rest.skip(1) =~= parts@.skip(index as int + 1));
                        assert(children[index as int] == Node::Expr(parts@[index as int]));
                        inventory@.lemma_parts(
                            part_uses(*self, outer, rest[0], frame),
                            list_uses(*self, outer, rest.skip(1), frame),
                        );
                    }
                    self.scan(parts[index], nested, bound, receivers, implicit_this, inventory);
                    index += 1;
                }
                proof {
                    inventory@.lemma_none();
                }
            },
        }
    }
}

fn push_names(bound: &mut Vec<String>, names: &Vec<String>)
    ensures
        views(final(bound)@) == views(old(bound)@) + views(names@),
        final(bound)@.len() >= old(bound)@.len(),
        final(bound)@.take(old(bound)@.len() as int) == old(bound)@,
{
    let ghost before = bound@;
    let mut index: usize = 0;
    assert(before.take(before.len() as int) =~= before);
    while index < names.len()
        invariant
            index <= names@.len(),
            views(bound@) == views(before) + views(names@).take(index as int),
            bound@.len() >= before.len(),
            bound@.take(before.len() as int) == before,
        decreases names@.len() - index,
    {
        bound.push(names[index].clone());
        assert(views(names@).take(index as int + 1) =~= views(names@).take(index as int).push(
            names@[index as int]@,
        ));
        assert(bound@.take(before.len() as int) =~= before);
        index += 1;
    }
    assert(views(names@).take(index as int) =~= views(names@));
}

/// Every checker-selected context source used by `body`, normalized to the callable boundary that
/// owns `body`. Direct implicit receivers stay separate because their receiver coordinates still
/// hold that callable's own receiver rungs; sources used through nested callables have those nested
/// bindings and receiver rungs removed.
pub fn selected_context_values(
    file: &File,
    expr_types: &[Ty],
    implicit_receiver_selections: &HashMap<u32, ImplicitReceiverSelection>,
    context_args: &HashMap<u32, Vec<ResolvedContextArgument>>,
    resolved_calls: &HashMap<u32, ResolvedCall>,
    stmt_lowers: &HashMap<u32, StmtLowering>,
    body: ExprId,
    deep: bool,
) -> (out: (Vec<ResolvedContextArgument>, Vec<ImplicitReceiverSelection>))
    requires
        file.well_formed(),
        file.has(Node::Expr(body)),
    ensures
        ({
            let facts = CheckedFacts {
                file,
                expr_types,
                implicit_receiver_selections,
                context_args,
                resolved_calls,
                stmt_lowers,
                deep,
            };
            let found = uses(facts, body, outermost());
            &&& views(out.0@) == captured_sources(Seq::empty(), found)
            &&& views(out.1@) == direct_receivers(Seq::empty(), found)
        }),
{
    let facts = CheckedFacts {
        file,
        expr_types,
        implicit_receiver_selections,
        context_args,
        resolved_calls,
        stmt_lowers,
        deep,
    };
    let mut inventory = Inventory { sources: Vec::new(), receivers: Vec::new() };
    let mut bound: Vec<String> = Vec::new();
    assert(frame_of(false, bound@, 0, 0).bound =~= outermost().bound);
    facts.scan(body, false, &mut bound, 0, 0, &mut inventory);
    (inventory.sources, inventory.receivers)
}

/// The frame of the body itself.
pub open spec fn outermost() -> Frame {
    Frame { nested: false, bound: Seq::empty(), receivers: 0, implicit_this: 0 }
}

/// Whether `wanted` is reached from a node without entering a lambda. A lambda itself is reached,
/// what is inside it is not.
pub open spec fn in_view(file: File, node: Node, wanted: ExprId) -> bool
    decreases file.height(node),
{
    ||| node == Node::Expr(wanted)
    ||| {
        &&& !is_lambda(file, node)
        &&& exists|k: int|
            0 <= k < file.children(node).len() && file.below(
                #[trigger] file.children(node)[k],
                node,
            ) && in_view(file, file.children(node)[k], wanted)
    }
}

/// Whether a node is a lambda.
pub open spec fn is_lambda(file: File, node: Node) -> bool {
    node matches Node::Expr(expression) && file.expr_at(expression) is Lambda
}

/// Whether two inventories of facts were recorded for one file, and record the same for the
/// expressions that are reached from `node` without entering a lambda.
pub open spec fn alike_in_view(
    first: CheckedFacts<'_>,
    second: CheckedFacts<'_>,
    node: Node,
) -> bool {
    &&& *first.file == *second.file
    &&& first.expr_types@ == second.expr_types@
    &&& first.stmt_lowers@ == second.stmt_lowers@
    &&& first.deep == second.deep
    &&& forall|wanted: ExprId| #[trigger]
        in_view(*first.file, node, wanted) ==> own_sources(first, wanted) == own_sources(
            second,
            wanted,
        )
}

proof fn lemma_alike_below(first: CheckedFacts<'_>, second: CheckedFacts<'_>, node: Node, child: Node)
    requires
        first.file.well_formed(),
        first.file.has(node),
        alike_in_view(first, second, node),
        !is_lambda(*first.file, node),
        first.file.children(node).contains(child),
    ensures
        first.file.has(child),
        first.file.below(child, node),
        alike_in_view(first, second, child),
{
    first.file.lemma_inside(node, child);
    let children = first.file.children(node);
    let k = choose|k: int| 0 <= k < children.len() && children[k] == child;
    assert forall|wanted: ExprId| #[trigger]
        in_view(*first.file, child, wanted) implies own_sources(first, wanted) == own_sources(
        second,
        wanted,
    ) by {
        assert(first.file.below(first.file.children(node)[k], node));
        assert(in_view(*first.file, node, wanted));
    }
}

/// The parts of an expression that a scan goes into are alike as far as they are in view.
spec fn parts_alike(
    first: CheckedFacts<'_>,
    second: CheckedFacts<'_>,
    parts: Seq<ExprId>,
) -> bool {
    forall|k: int|
        0 <= k < parts.len() ==> alike_in_view(first, second, Node::Expr(#[trigger] parts[k]))
}

proof fn lemma_stmt_parts_alike(
    first: CheckedFacts<'_>,
    second: CheckedFacts<'_>,
    outer: ExprId,
    statement: StmtId,
)
    requires
        first.file.well_formed(),
        first.file.has(Node::Expr(outer)),
        alike_in_view(first, second, Node::Expr(outer)),
        !is_lambda(*first.file, Node::Expr(outer)),
        first.file.children(Node::Expr(outer)).contains(Node::Stmt(statement)),
    ensures
        parts_alike(first, second, stmt_children(first.file.stmt_at(statement))),
{
    let node = Node::Stmt(statement);
    lemma_alike_below(first, second, Node::Expr(outer), node);
    let parts = stmt_children(first.file.stmt_at(statement));
    assert forall|k: int| 0 <= k < parts.len() implies alike_in_view(
        first,
        second,
        Node::Expr(#[trigger] parts[k]),
    ) by {
        assert(first.file.children(node)[k] == Node::Expr(parts[k]));
        lemma_alike_below(first, second, node, Node::Expr(parts[k]));
    }
}

proof fn lemma_flat_parts_alike(
    first: CheckedFacts<'_>,
    second: CheckedFacts<'_>,
    outer: ExprId,
)
    requires
        first.file.well_formed(),
        first.file.has(Node::Expr(outer)),
        alike_in_view(first, second, Node::Expr(outer)),
        !is_lambda(*first.file, Node::Expr(outer)),
    ensures
        parts_alike(first, second, flat_children(*first.file, outer)),
{
    let file = *first.file;
    let parts = flat_children(file, outer);
    let piece = |node: Node|
        match node {
            Node::Expr(child) => seq![child],
            Node::Stmt(statement) => stmt_children(file.stmt_at(statement)),
        };
    let children = expr_children(file.expr_at(outer));
    assert(children == file.children(Node::Expr(outer)));
    assert(parts == gathered(children, piece));
    assert forall|k: int| 0 <= k < parts.len() implies alike_in_view(
        first,
        second,
        Node::Expr(#[trigger] parts[k]),
    ) by {
        assert(parts.contains(parts[k]));
        lemma_gathered_origin(children, piece, parts[k]);
        let at = choose|at: int|
            0 <= at < children.len() && piece(#[trigger] children[at]).contains(parts[k]);
        assert(children.contains(children[at]));
        match children[at] {
            Node::Expr(child) => {
                assert(child == parts[k]);
                lemma_alike_below(first, second, Node::Expr(outer), Node::Expr(child));
            },
            Node::Stmt(statement) => {
                lemma_stmt_parts_alike(first, second, outer, statement);
                let of_stmt = stmt_children(file.stmt_at(statement));
                let j = choose|j: int| 0 <= j < of_stmt.len() && of_stmt[j] == parts[k];
                assert(alike_in_view(first, second, Node::Expr(of_stmt[j])));
            },
        }
    }
}

proof fn lemma_uses_alike(
    first: CheckedFacts<'_>,
    second: CheckedFacts<'_>,
    expression: ExprId,
    frame: Frame,
)
    requires
        first.file.well_formed(),
        first.file.has(Node::Expr(expression)),
        !first.deep,
        alike_in_view(first, second, Node::Expr(expression)),
    ensures
        uses(first, expression, frame) == uses(second, expression, frame),
    decreases first.file.height(Node::Expr(expression)), 4nat, 0nat,
{
    let file = *first.file;
    assert(in_view(file, Node::Expr(expression), expression));
    let children = file.children(Node::Expr(expression));
    match file.expr_at(expression) {
        Expr::Block { stmts, trailing } => {
            assert forall|k: int| 0 <= k < stmts@.len() implies children.contains(
                Node::Stmt(#[trigger] stmts@[k]),
            ) by {
                assert(children[k] == Node::Stmt(stmts@[k]));
            }
            if let Some(value) = trailing {
                assert(children[stmts@.len() as int] == Node::Expr(value));
                lemma_alike_below(
                    first,
                    second,
                    Node::Expr(expression),
                    Node::Expr(value),
                );
            }
            lemma_block_alike(first, second, expression, stmts@, trailing, frame);
        },
        Expr::Try { body, catches, finally } => {
            assert(children[0] == Node::Expr(body));
            lemma_alike_below(first, second, Node::Expr(expression), Node::Expr(body));
            lemma_part_alike(first, second, expression, body, frame);
            assert forall|k: int| 0 <= k < catches@.len() implies alike_in_view(
                first,
                second,
                Node::Expr((#[trigger] catches@[k]).body),
            ) by {
                assert(children[k + 1] == Node::Expr(catches@[k].body));
                lemma_alike_below(
                    first,
                    second,
                    Node::Expr(expression),
                    Node::Expr(catches@[k].body),
                );
            }
            lemma_catches_alike(first, second, expression, catches@, frame);
            if let Some(last) = finally {
                assert(children[catches@.len() as int + 1] == Node::Expr(last));
                lemma_alike_below(first, second, Node::Expr(expression), Node::Expr(last));
                lemma_part_alike(first, second, expression, last, frame);
            }
        },
        Expr::Lambda { .. } => {},
        _ => {
            lemma_flat_parts_alike(first, second, expression);
            lemma_list_alike(first, second, expression, flat_children(file, expression), frame);
        },
    }
}

proof fn lemma_part_alike(
    first: CheckedFacts<'_>,
    second: CheckedFacts<'_>,
    outer: ExprId,
    part: ExprId,
    frame: Frame,
)
    requires
        first.file.well_formed(),
        !first.deep,
        alike_in_view(first, second, Node::Expr(part)),
    ensures
        part_uses(first, outer, part, frame) == part_uses(second, outer, part, frame),
    decreases first.file.height(Node::Expr(outer)), 0nat, 0nat,
{
    if inside(*first.file, part, outer) {
        lemma_uses_alike(first, second, part, frame);
    }
}

proof fn lemma_list_alike(
    first: CheckedFacts<'_>,
    second: CheckedFacts<'_>,
    outer: ExprId,
    parts: Seq<ExprId>,
    frame: Frame,
)
    requires
        first.file.well_formed(),
        !first.deep,
        parts_alike(first, second, parts),
    ensures
        list_uses(first, outer, parts, frame) == list_uses(second, outer, parts, frame),
    decreases first.file.height(Node::Expr(outer)), 1nat, parts.len(),
{
    if parts.len() > 0 {
        assert(alike_in_view(first, second, Node::Expr(parts[0])));
        lemma_part_alike(first, second, outer, parts[0], frame);
        let rest = parts.skip(1);
        assert forall|k: int| 0 <= k < rest.len() implies alike_in_view(
            first,
            second,
            Node::Expr(#[trigger] rest[k]),
        ) by {
            assert(rest[k] == parts[k + 1]);
        }
        lemma_list_alike(first, second, outer, rest, frame);
    }
}

proof fn lemma_catches_alike(
    first: CheckedFacts<'_>,
    second: CheckedFacts<'_>,
    outer: ExprId,
    catches: Seq<CatchClause>,
    frame: Frame,
)
    requires
        first.file.well_formed(),
        !first.deep,
        forall|k: int|
            0 <= k < catches.len() ==> alike_in_view(
                first,
                second,
                Node::Expr((#[trigger] catches[k]).body),
            ),
    ensures
        catch_uses(first, outer, catches, frame) == catch_uses(second, outer, catches, frame),
    decreases first.file.height(Node::Expr(outer)), 1nat, catches.len(),
{
    if catches.len() > 0 {
        lemma_part_alike(
            first,
            second,
            outer,
            catches[0].body,
            frame.binding(catches[0].name@),
        );
        let rest = catches.skip(1);
        assert forall|k: int| 0 <= k < rest.len() implies alike_in_view(
            first,
            second,
            Node::Expr((#[trigger] rest[k]).body),
        ) by {
            assert(rest[k] == catches[k + 1]);
        }
        lemma_catches_alike(first, second, outer, rest, frame);
    }
}

proof fn lemma_stmt_alike(
    first: CheckedFacts<'_>,
    second: CheckedFacts<'_>,
    outer: ExprId,
    stmt: Stmt,
    frame: Frame,
)
    requires
        first.file.well_formed(),
        !first.deep,
        parts_alike(first, second, stmt_children(stmt)),
    ensures
        stmt_uses(first, outer, stmt, frame) == stmt_uses(second, outer, stmt, frame),
    decreases first.file.height(Node::Expr(outer)), 2nat, 0nat,
{
    let parts = stmt_children(stmt);
    match stmt {
        Stmt::For { name, range, body } => {
            assert(parts[0] == range.start && parts[1] == range.end && parts[2] == body);
            lemma_part_alike(first, second, outer, range.start, frame);
            lemma_part_alike(first, second, outer, range.end, frame);
            lemma_part_alike(first, second, outer, body, frame.binding(name@));
        },
        Stmt::ForEach { name, iterable, body } => {
            assert(parts[0] == iterable && parts[1] == body);
            lemma_part_alike(first, second, outer, iterable, frame);
            lemma_part_alike(first, second, outer, body, frame.binding(name@));
        },
        Stmt::LocalFun(_) => {},
        _ => {
            lemma_list_alike(first, second, outer, parts, frame);
        },
    }
}

proof fn lemma_block_alike(
    first: CheckedFacts<'_>,
    second: CheckedFacts<'_>,
    outer: ExprId,
    stmts: Seq<StmtId>,
    trailing: Option<ExprId>,
    frame: Frame,
)
    requires
        first.file.well_formed(),
        first.file.has(Node::Expr(outer)),
        !first.deep,
        alike_in_view(first, second, Node::Expr(outer)),
        !is_lambda(*first.file, Node::Expr(outer)),
        forall|k: int|
            0 <= k < stmts.len() ==> first.file.children(Node::Expr(outer)).contains(
                Node::Stmt(#[trigger] stmts[k]),
            ),
        trailing matches Some(value) ==> alike_in_view(first, second, Node::Expr(value)),
    ensures
        block_uses(first, outer, stmts, trailing, frame) == block_uses(
            second,
            outer,
            stmts,
            trailing,
            frame,
        ),
    decreases first.file.height(Node::Expr(outer)), 3nat, stmts.len(),
{
    if stmts.len() == 0 {
        if let Some(value) = trailing {
            lemma_part_alike(first, second, outer, value, frame);
        }
    } else {
        let stmt = first.file.stmt_at(stmts[0]);
        lemma_stmt_parts_alike(first, second, outer, stmts[0]);
        lemma_stmt_alike(first, second, outer, stmt, frame);
        let rest = stmts.skip(1);
        assert forall|k: int| 0 <= k < rest.len() implies first.file.children(
            Node::Expr(outer),
        ).contains(Node::Stmt(#[trigger] rest[k])) by {
            assert(rest[k] == stmts[k + 1]);
        }
        lemma_block_alike(
            first,
            second,
            outer,
            rest,
            trailing,
            Frame { bound: frame.bound + bound_behind(stmt), ..frame },
        );
    }
}

/// A scan that does not go into lambdas finds the same where the recorded facts differ only inside
/// lambdas: what is recorded for an expression that is reached through a lambda alone has no part in
/// it.
pub proof fn a_shallow_scan_sees_nothing_inside_a_lambda(
    first: CheckedFacts<'_>,
    second: CheckedFacts<'_>,
    body: ExprId,
)
    requires
        first.file.well_formed(),
        first.file.has(Node::Expr(body)),
        !first.deep,
        *second.file == *first.file,
        second.expr_types@ == first.expr_types@,
        second.stmt_lowers@ == first.stmt_lowers@,
        second.deep == first.deep,
        forall|wanted: ExprId| #[trigger]
            in_view(*first.file, Node::Expr(body), wanted) ==> recorded_alike(
                first,
                second,
                wanted,
            ),
    ensures
        captured_sources(Seq::empty(), uses(first, body, outermost())) == captured_sources(
            Seq::empty(),
            uses(second, body, outermost()),
        ),
        direct_receivers(Seq::empty(), uses(first, body, outermost())) == direct_receivers(
            Seq::empty(),
            uses(second, body, outermost()),
        ),
{
    assert forall|wanted: ExprId| #[trigger]
        in_view(*first.file, Node::Expr(body), wanted) implies own_sources(first, wanted)
        == own_sources(second, wanted) by {
        assert(recorded_alike(first, second, wanted));
    }
    lemma_uses_alike(first, second, body, outermost());
}

/// Whether the same is recorded for an expression.
pub open spec fn recorded_alike(
    first: CheckedFacts<'_>,
    second: CheckedFacts<'_>,
    expression: ExprId,
) -> bool {
    let at = expression.0;
    &&& first.implicit_receiver_selections@.contains_key(at)
        == second.implicit_receiver_selections@.contains_key(at)
    &&& first.implicit_receiver_selections@.contains_key(at)
        ==> first.implicit_receiver_selections@[at] == second.implicit_receiver_selections@[at]
    &&& first.context_args@.contains_key(at) == second.context_args@.contains_key(at)
    &&& first.context_args@.contains_key(at) ==> first.context_args@[at]
        == second.context_args@[at]
    &&& first.resolved_calls@.contains_key(at) == second.resolved_calls@.contains_key(at)
    &&& first.resolved_calls@.contains_key(at) ==> first.resolved_calls@[at]
        == second.resolved_calls@[at]
}

/// No source is captured twice, whatever uses it.
pub proof fn captured_sources_are_distinct(
    known: Seq<ContextArgumentView>,
    uses: Seq<SourceUse>,
)
    requires
        known.no_duplicates(),
    ensures
        captured_sources(known, uses).no_duplicates(),
    decreases uses.len(),
{
    if uses.len() > 0 {
        captured_sources_are_distinct(known, uses.drop_last());
    }
}

/// No receiver is listed twice, whatever uses it.
pub proof fn direct_receivers_are_distinct(
    known: Seq<ImplicitReceiverView>,
    uses: Seq<SourceUse>,
)
    requires
        known.no_duplicates(),
    ensures
        direct_receivers(known, uses).no_duplicates(),
    decreases uses.len(),
{
    if uses.len() > 0 {
        direct_receivers_are_distinct(known, uses.drop_last());
    }
}

} // verus!
