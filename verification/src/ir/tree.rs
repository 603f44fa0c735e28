//! The trees that expressions stand for.
//!
//! An expression refers to its operands by position, so what it means depends on the whole arena.
//! The tree of an expression unfolds those references. An expression has a tree exactly where the
//! unfolding ends, that is where no expression reaches itself.

use vstd::prelude::*;

use crate::ir::expr::{
    branch_operands, listed, Callee, CalleeView, ClassId, ExprId, IrBinOp, IrConst, IrConstView,
    IrExpr, IrLabel, IrTypeOp,
};
use crate::names::{qualified, TypeName};
use crate::text::views;
use crate::types::{Ty, TyView};

verus! {

broadcast use crate::text::group_views;

/// An expression together with everything below it.
#[verifier::ext_equal]
pub struct IrTree {
    pub label: IrLabel,
    pub operands: Seq<IrTree>,
}

/// Whether `tree` is what the expression at `id` unfolds to.
pub open spec fn depicts(exprs: Seq<IrExpr>, id: ExprId, tree: IrTree) -> bool
    decreases tree,
{
    &&& id < exprs.len()
    &&& exprs[id as int].label() == tree.label
    &&& exprs[id as int].operands().len() == tree.operands.len()
    &&& forall|k: int|
        0 <= k < tree.operands.len() ==> depicts(
            exprs,
            exprs[id as int].operands()[k],
            #[trigger] tree.operands[k],
        )
}

/// Whether the expression at `id` unfolds to a tree.
pub closed spec fn grounded(exprs: Seq<IrExpr>, id: ExprId) -> bool {
    exists|tree: IrTree| depicts(exprs, id, tree)
}

/// The tree that the expression at `id` unfolds to.
pub closed spec fn tree(exprs: Seq<IrExpr>, id: ExprId) -> IrTree {
    choose|tree: IrTree| depicts(exprs, id, tree)
}

/// The trees of several expressions.
pub open spec fn trees(exprs: Seq<IrExpr>, ids: Seq<ExprId>) -> Seq<IrTree> {
    Seq::new(ids.len(), |k: int| tree(exprs, ids[k]))
}

/// Whether every one of several expressions unfolds to a tree.
pub open spec fn all_grounded(exprs: Seq<IrExpr>, ids: Seq<ExprId>) -> bool {
    forall|k: int| 0 <= k < ids.len() ==> grounded(exprs, #[trigger] ids[k])
}

/// Whether `after` keeps every expression of `before` and may hold more.
pub open spec fn grows(before: Seq<IrExpr>, after: Seq<IrExpr>) -> bool {
    &&& before.len() <= after.len()
    &&& forall|k: int| 0 <= k < before.len() ==> #[trigger] after[k] == before[k]
}

proof fn lemma_one_tree(exprs: Seq<IrExpr>, id: ExprId, left: IrTree, right: IrTree)
    requires
        depicts(exprs, id, left),
        depicts(exprs, id, right),
    ensures
        left == right,
    decreases left,
{
    assert forall|k: int| 0 <= k < left.operands.len() implies left.operands[k]
        == right.operands[k] by {
        lemma_one_tree(
            exprs,
            exprs[id as int].operands()[k],
            left.operands[k],
            right.operands[k],
        );
    }
    assert(left.operands =~= right.operands);
}

/// Further expressions leave what an earlier one depicts as it is.
pub proof fn lemma_kept(before: Seq<IrExpr>, after: Seq<IrExpr>, id: ExprId, tree: IrTree)
    requires
        grows(before, after),
        depicts(before, id, tree),
    ensures
        depicts(after, id, tree),
    decreases tree,
{
    assert(after[id as int] == before[id as int]);
    assert forall|k: int| 0 <= k < tree.operands.len() implies depicts(
        after,
        after[id as int].operands()[k],
        #[trigger] tree.operands[k],
    ) by {
        lemma_kept(before, after, before[id as int].operands()[k], tree.operands[k]);
    }
}

/// The tree of an expression is the one it is shown to depict.
pub proof fn lemma_depicted(exprs: Seq<IrExpr>, id: ExprId, shown: IrTree)
    requires
        depicts(exprs, id, shown),
    ensures
        grounded(exprs, id),
        tree(exprs, id) == shown,
{
    lemma_one_tree(exprs, id, tree(exprs, id), shown);
}

/// An expression that has a tree depicts it.
pub proof fn lemma_depicts_its_tree(exprs: Seq<IrExpr>, id: ExprId)
    requires
        grounded(exprs, id),
    ensures
        depicts(exprs, id, tree(exprs, id)),
{
}

/// Further expressions leave the trees of earlier ones as they are.
pub broadcast proof fn lemma_growth_keeps_trees(
    before: Seq<IrExpr>,
    after: Seq<IrExpr>,
    id: ExprId,
)
    requires
        #[trigger] grows(before, after),
        grounded(before, id),
    ensures
        grounded(after, id),
        #[trigger] tree(after, id) == tree(before, id),
{
    lemma_kept(before, after, id, tree(before, id));
    lemma_depicted(after, id, tree(before, id));
}

/// Further expressions keep earlier ones grounded.
pub broadcast proof fn lemma_growth_keeps_ground(
    before: Seq<IrExpr>,
    after: Seq<IrExpr>,
    id: ExprId,
)
    requires
        #[trigger] grows(before, after),
        grounded(before, id),
    ensures
        #[trigger] grounded(after, id),
{
    lemma_growth_keeps_trees(before, after, id);
}

pub broadcast group group_growth {
    lemma_growth_keeps_trees,
    lemma_growth_keeps_ground,
}

/// An expression whose operands have trees has one.
pub proof fn lemma_planted(exprs: Seq<IrExpr>, id: ExprId)
    requires
        id < exprs.len(),
        all_grounded(exprs, exprs[id as int].operands()),
    ensures
        grounded(exprs, id),
        tree(exprs, id) == (IrTree {
            label: exprs[id as int].label(),
            operands: trees(exprs, exprs[id as int].operands()),
        }),
{
    let ids = exprs[id as int].operands();
    let shown = IrTree { label: exprs[id as int].label(), operands: trees(exprs, ids) };
    assert forall|k: int| 0 <= k < shown.operands.len() implies depicts(
        exprs,
        ids[k],
        #[trigger] shown.operands[k],
    ) by {
        assert(grounded(exprs, ids[k]));
    }
    lemma_depicted(exprs, id, shown);
}

/// Whether `after` is `before` with one more expression, at `id`, over `operands`.
pub open spec fn appended(
    before: Seq<IrExpr>,
    after: Seq<IrExpr>,
    id: ExprId,
    operands: Seq<ExprId>,
) -> bool {
    &&& id == before.len()
    &&& after.len() == before.len() + 1
    &&& after[id as int].operands() == operands
}

/// How many expressions a tree holds.
pub open spec fn nodes(shown: IrTree) -> nat
    decreases shown,
{
    1 + total_nodes(shown.operands)
}

/// How many expressions some trees hold together.
pub open spec fn total_nodes(shown: Seq<IrTree>) -> nat
    decreases shown,
{
    if shown.len() == 0 {
        0
    } else {
        total_nodes(shown.drop_last()) + nodes(shown.last())
    }
}

/// Trees side by side hold what each of them holds.
pub proof fn lemma_total_nodes(left: Seq<IrTree>, right: Seq<IrTree>)
    ensures
        total_nodes(left + right) == total_nodes(left) + total_nodes(right),
    decreases right.len(),
{
    if right.len() == 0 {
        assert(left + right =~= left);
    } else {
        lemma_total_nodes(left, right.drop_last());
        assert((left + right).drop_last() =~= left + right.drop_last());
    }
}

/// One more tree holds what it holds.
pub proof fn lemma_more_nodes(shown: Seq<IrTree>, more: IrTree)
    ensures
        total_nodes(shown.push(more)) == total_nodes(shown) + nodes(more),
{
    assert(shown.push(more).drop_last() =~= shown);
}

/// Whether `after` is `before` with `count` more expressions, the last of them at `id`.
pub open spec fn adds(
    before: Seq<IrExpr>,
    after: Seq<IrExpr>,
    id: ExprId,
    count: nat,
) -> bool {
    &&& after.len() == before.len() + count
    &&& id + 1 == after.len()
}

/// Add an expression whose operands stand already.
pub fn plant(exprs: &mut Vec<IrExpr>, expr: IrExpr) -> (id: ExprId)
    requires
        all_grounded(old(exprs)@, expr.operands()),
    ensures
        id == old(exprs)@.len(),
        final(exprs)@ == old(exprs)@.push(expr),
        grows(old(exprs)@, final(exprs)@),
        grounded(final(exprs)@, id),
        tree(final(exprs)@, id) == (IrTree {
            label: expr.label(),
            operands: trees(old(exprs)@, expr.operands()),
        }),
{
    let id: usize = exprs.len();
    let ghost before = exprs@;
    exprs.push(expr);
    proof {
        broadcast use group_growth;

        assert(grows(before, exprs@));
        assert(all_grounded(exprs@, expr.operands()));
        lemma_planted(exprs@, id);
        assert(trees(before, expr.operands()) =~= trees(exprs@, expr.operands()));
    }
    id
}

/// A leaf.
pub open spec fn leaf(label: IrLabel) -> IrTree {
    IrTree { label, operands: seq![] }
}

/// A constant.
pub open spec fn const_tree(value: IrConstView) -> IrTree {
    leaf(IrLabel::Const(value))
}

/// The number `value`.
pub open spec fn int_tree(value: i32) -> IrTree {
    const_tree(IrConstView::Int(value))
}

/// `null`.
pub open spec fn null_tree() -> IrTree {
    const_tree(IrConstView::Null)
}

/// The value in the local `slot`.
pub open spec fn value_tree(slot: u32) -> IrTree {
    leaf(IrLabel::GetValue(slot))
}

/// The field `index` of `receiver`, an instance of `class`.
pub open spec fn field_tree(receiver: IrTree, class: ClassId, index: u32) -> IrTree {
    IrTree { label: IrLabel::GetField { class, index }, operands: seq![receiver] }
}

/// A call without a receiver.
pub open spec fn plain_call_tree(
    callee: CalleeView,
    args: Seq<IrTree>,
) -> IrTree {
    IrTree { label: IrLabel::Call { callee, has_receiver: false }, operands: args }
}

/// A call on `receiver`.
pub open spec fn call_tree(
    callee: CalleeView,
    receiver: IrTree,
    args: Seq<IrTree>,
) -> IrTree {
    IrTree { label: IrLabel::Call { callee, has_receiver: true }, operands: seq![receiver] + args }
}

/// `value` narrowed to `operand`.
pub open spec fn cast_tree(value: IrTree, operand: TyView) -> IrTree {
    IrTree { label: IrLabel::TypeOp { op: IrTypeOp::Cast, operand }, operands: seq![value] }
}

/// An operation on two primitive operands.
pub open spec fn binary_tree(op: IrBinOp, left: IrTree, right: IrTree) -> IrTree {
    IrTree { label: IrLabel::PrimitiveBinOp(op), operands: seq![left, right] }
}

/// Statements without a value.
pub open spec fn block_tree(statements: Seq<IrTree>) -> IrTree {
    IrTree { label: IrLabel::Block { has_value: false }, operands: statements }
}

/// `return value`.
pub open spec fn return_tree(value: IrTree) -> IrTree {
    IrTree { label: IrLabel::Return { has_value: true }, operands: seq![value] }
}

/// A local that starts with `value`.
pub open spec fn variable_tree(index: u32, ty: TyView, value: IrTree) -> IrTree {
    IrTree {
        label: IrLabel::Variable { index, ty, initialized: true, named: false },
        operands: seq![value],
    }
}

/// `local = value`.
pub open spec fn set_tree(var: u32, value: IrTree) -> IrTree {
    IrTree { label: IrLabel::SetValue { var }, operands: seq![value] }
}

/// An array of `elements`, none of them spread.
pub open spec fn array_tree(array_type: TyView, elements: Seq<IrTree>) -> IrTree {
    IrTree {
        label: IrLabel::Vararg { array_type, spreads: Seq::new(elements.len(), |k: int| false) },
        operands: elements,
    }
}

/// A construction through the constructor with the given descriptor.
pub open spec fn external_new_tree(
    internal: Seq<char>,
    descriptor: Seq<char>,
    args: Seq<IrTree>,
) -> IrTree {
    IrTree {
        label: IrLabel::New { internal, ctor_params: None, ctor_desc: Some(descriptor) },
        operands: args,
    }
}

/// A planned operation that nothing has realized.
pub open spec fn residual_tree(
    kind: Seq<char>,
    data: Seq<Seq<char>>,
    types: Seq<TyView>,
) -> IrTree {
    leaf(IrLabel::PluginPlaceholder { plugin: "serialization"@, kind, data, types })
}

/// `if (condition) result`.
pub open spec fn if_tree(condition: IrTree, result: IrTree) -> IrTree {
    IrTree { label: IrLabel::When { guarded: seq![true] }, operands: seq![condition, result] }
}

/// `if (condition) result else otherwise`.
pub open spec fn if_else_tree(condition: IrTree, result: IrTree, otherwise: IrTree) -> IrTree {
    IrTree {
        label: IrLabel::When { guarded: seq![true, false] },
        operands: seq![condition, result, otherwise],
    }
}

/// `receiver.field = value`.
pub open spec fn store_tree(receiver: IrTree, class: ClassId, index: u32, value: IrTree) -> IrTree {
    IrTree { label: IrLabel::SetField { class, index }, operands: seq![receiver, value] }
}

/// `throw operand`.
pub open spec fn throw_tree(operand: IrTree) -> IrTree {
    IrTree { label: IrLabel::Throw, operands: seq![operand] }
}

/// The `INSTANCE` of a named classifier.
pub open spec fn instance_tree(owner: Seq<char>) -> IrTree {
    leaf(IrLabel::ExternalStaticInstance { owner, ty: owner, field: "INSTANCE"@ })
}

/// The `INSTANCE` of a class of this file.
pub open spec fn local_instance_tree(class: ClassId) -> IrTree {
    leaf(IrLabel::StaticInstance { owner: class, ty: class, field: "INSTANCE"@ })
}

fn no_spreads(count: usize) -> (spreads: Vec<bool>)
    ensures
        spreads@ == Seq::new(count as nat, |k: int| false),
{
    let mut spreads: Vec<bool> = Vec::new();
    while spreads.len() < count
        invariant
            spreads@.len() <= count,
            forall|k: int| 0 <= k < spreads@.len() ==> !spreads@[k],
        decreases count - spreads@.len(),
    {
        spreads.push(false);
    }
    assert(spreads@ =~= Seq::new(count as nat, |k: int| false));
    spreads
}

/// Add a constant.
pub fn plant_const(exprs: &mut Vec<IrExpr>, value: IrConst) -> (id: ExprId)
    ensures
        grows(old(exprs)@, final(exprs)@),
        grounded(final(exprs)@, id),
        tree(final(exprs)@, id) == const_tree(value@),
        appended(old(exprs)@, final(exprs)@, id, seq![]),
{
    let ghost before = exprs@;
    let id: ExprId = plant(exprs, IrExpr::Const(value));
    assert(trees(before, Seq::<ExprId>::empty()) =~= Seq::<IrTree>::empty());
    id
}

/// Add a read of the local `slot`.
pub fn plant_value(exprs: &mut Vec<IrExpr>, slot: u32) -> (id: ExprId)
    ensures
        grows(old(exprs)@, final(exprs)@),
        grounded(final(exprs)@, id),
        tree(final(exprs)@, id) == value_tree(slot),
        appended(old(exprs)@, final(exprs)@, id, seq![]),
{
    let ghost before = exprs@;
    let id: ExprId = plant(exprs, IrExpr::GetValue(slot));
    assert(trees(before, Seq::<ExprId>::empty()) =~= Seq::<IrTree>::empty());
    id
}

/// Add an assignment of a local.
pub fn plant_set(exprs: &mut Vec<IrExpr>, var: u32, value: ExprId) -> (id: ExprId)
    requires
        grounded(old(exprs)@, value),
    ensures
        grows(old(exprs)@, final(exprs)@),
        grounded(final(exprs)@, id),
        tree(final(exprs)@, id) == set_tree(var, tree(old(exprs)@, value)),
        appended(old(exprs)@, final(exprs)@, id, seq![value]),
{
    let ghost before = exprs@;
    let id: ExprId = plant(exprs, IrExpr::SetValue { var, value });
    assert(trees(before, seq![value]) =~= seq![tree(before, value)]);
    id
}

/// Add a local that starts with `value`.
pub fn plant_variable(exprs: &mut Vec<IrExpr>, index: u32, ty: Ty, value: ExprId) -> (id: ExprId)
    requires
        grounded(old(exprs)@, value),
    ensures
        grows(old(exprs)@, final(exprs)@),
        grounded(final(exprs)@, id),
        tree(final(exprs)@, id) == variable_tree(index, ty@, tree(old(exprs)@, value)),
        appended(old(exprs)@, final(exprs)@, id, seq![value]),
{
    let ghost before = exprs@;
    let id: ExprId = plant(exprs, IrExpr::Variable { index, ty, init: Some(value), named: false });
    assert(trees(before, seq![value]) =~= seq![tree(before, value)]);
    id
}

/// Add a read of a field.
pub fn plant_field(exprs: &mut Vec<IrExpr>, receiver: ExprId, class: ClassId, index: u32) -> (id: ExprId)
    requires
        grounded(old(exprs)@, receiver),
    ensures
        grows(old(exprs)@, final(exprs)@),
        grounded(final(exprs)@, id),
        tree(final(exprs)@, id) == field_tree(tree(old(exprs)@, receiver), class, index),
        appended(old(exprs)@, final(exprs)@, id, seq![receiver]),
{
    let ghost before = exprs@;
    let id: ExprId = plant(exprs, IrExpr::GetField { receiver, class, index });
    assert(trees(before, seq![receiver]) =~= seq![tree(before, receiver)]);
    id
}

/// Add a store to a field.
pub fn plant_store(exprs: &mut Vec<IrExpr>, receiver: ExprId, class: ClassId, index: u32, value: ExprId) -> (id: ExprId)
    requires
        grounded(old(exprs)@, receiver),
        grounded(old(exprs)@, value),
    ensures
        grows(old(exprs)@, final(exprs)@),
        grounded(final(exprs)@, id),
        tree(final(exprs)@, id) == store_tree(tree(old(exprs)@, receiver), class, index, tree(old(exprs)@, value)),
        appended(old(exprs)@, final(exprs)@, id, seq![receiver, value]),
{
    let ghost before = exprs@;
    let id: ExprId = plant(exprs, IrExpr::SetField { receiver, class, index, value });
    assert(trees(before, seq![receiver, value]) =~= seq![tree(before, receiver), tree(before, value)]);
    id
}

/// Narrow `value` to `operand`.
pub fn plant_cast(exprs: &mut Vec<IrExpr>, value: ExprId, operand: Ty) -> (id: ExprId)
    requires
        grounded(old(exprs)@, value),
    ensures
        grows(old(exprs)@, final(exprs)@),
        grounded(final(exprs)@, id),
        tree(final(exprs)@, id) == cast_tree(tree(old(exprs)@, value), operand@),
        appended(old(exprs)@, final(exprs)@, id, seq![value]),
{
    let ghost before = exprs@;
    let id: ExprId = plant(exprs, IrExpr::TypeOp { op: IrTypeOp::Cast, arg: value, type_operand: operand });
    assert(trees(before, seq![value]) =~= seq![tree(before, value)]);
    id
}

/// Add an operation on two primitive operands.
pub fn plant_binary(exprs: &mut Vec<IrExpr>, op: IrBinOp, lhs: ExprId, rhs: ExprId) -> (id: ExprId)
    requires
        grounded(old(exprs)@, lhs),
        grounded(old(exprs)@, rhs),
    ensures
        grows(old(exprs)@, final(exprs)@),
        grounded(final(exprs)@, id),
        tree(final(exprs)@, id) == binary_tree(op, tree(old(exprs)@, lhs), tree(old(exprs)@, rhs)),
        appended(old(exprs)@, final(exprs)@, id, seq![lhs, rhs]),
{
    let ghost before = exprs@;
    let id: ExprId = plant(exprs, IrExpr::PrimitiveBinOp { op, lhs, rhs });
    assert(trees(before, seq![lhs, rhs]) =~= seq![tree(before, lhs), tree(before, rhs)]);
    id
}

/// Add `return value`.
pub fn plant_return(exprs: &mut Vec<IrExpr>, value: ExprId) -> (id: ExprId)
    requires
        grounded(old(exprs)@, value),
    ensures
        grows(old(exprs)@, final(exprs)@),
        grounded(final(exprs)@, id),
        tree(final(exprs)@, id) == return_tree(tree(old(exprs)@, value)),
        appended(old(exprs)@, final(exprs)@, id, seq![value]),
{
    let ghost before = exprs@;
    let id: ExprId = plant(exprs, IrExpr::Return(Some(value)));
    assert(trees(before, seq![value]) =~= seq![tree(before, value)]);
    id
}

/// Add `throw operand`.
pub fn plant_throw(exprs: &mut Vec<IrExpr>, operand: ExprId) -> (id: ExprId)
    requires
        grounded(old(exprs)@, operand),
    ensures
        grows(old(exprs)@, final(exprs)@),
        grounded(final(exprs)@, id),
        tree(final(exprs)@, id) == throw_tree(tree(old(exprs)@, operand)),
        appended(old(exprs)@, final(exprs)@, id, seq![operand]),
{
    let ghost before = exprs@;
    let id: ExprId = plant(exprs, IrExpr::Throw { operand });
    assert(trees(before, seq![operand]) =~= seq![tree(before, operand)]);
    id
}

/// Add a read of the `INSTANCE` of a named classifier.
pub fn plant_instance(exprs: &mut Vec<IrExpr>, owner: &TypeName) -> (id: ExprId)
    ensures
        grows(old(exprs)@, final(exprs)@),
        grounded(final(exprs)@, id),
        tree(final(exprs)@, id) == instance_tree(owner@),
        appended(old(exprs)@, final(exprs)@, id, seq![]),
{
    let ghost before = exprs@;
    let id: ExprId = plant(exprs, IrExpr::ExternalStaticInstance { owner: owner.clone(), ty: owner.clone(), field: "INSTANCE".to_owned() });
    assert(trees(before, Seq::<ExprId>::empty()) =~= Seq::<IrTree>::empty());
    id
}

/// Add a read of the `INSTANCE` of a class of this file.
pub fn plant_local_instance(exprs: &mut Vec<IrExpr>, class: ClassId) -> (id: ExprId)
    ensures
        grows(old(exprs)@, final(exprs)@),
        grounded(final(exprs)@, id),
        tree(final(exprs)@, id) == local_instance_tree(class),
        appended(old(exprs)@, final(exprs)@, id, seq![]),
{
    let ghost before = exprs@;
    let id: ExprId = plant(exprs, IrExpr::StaticInstance { owner: class, ty: class, field: "INSTANCE" });
    assert(trees(before, Seq::<ExprId>::empty()) =~= Seq::<IrTree>::empty());
    id
}

/// Add a planned operation that nothing has realized.
pub fn plant_residual(exprs: &mut Vec<IrExpr>, kind: &'static str, data: Vec<TypeName>, types: Vec<Ty>) -> (id: ExprId)
    ensures
        grows(old(exprs)@, final(exprs)@),
        grounded(final(exprs)@, id),
        tree(final(exprs)@, id) == residual_tree(kind@, views(data@), views(types@)),
        appended(old(exprs)@, final(exprs)@, id, seq![]),
{
    let ghost before = exprs@;
    let id: ExprId = plant(exprs, IrExpr::PluginPlaceholder { plugin: "serialization", kind, exprs: Vec::new(), data, types });
    assert(trees(before, Seq::<ExprId>::empty()) =~= Seq::<IrTree>::empty());
    id
}

/// Add a call on `receiver`.
pub fn plant_call(exprs: &mut Vec<IrExpr>, callee: Callee, receiver: ExprId, args: Vec<ExprId>) -> (id: ExprId)
    requires
        grounded(old(exprs)@, receiver),
        all_grounded(old(exprs)@, args@),
    ensures
        grows(old(exprs)@, final(exprs)@),
        grounded(final(exprs)@, id),
        tree(final(exprs)@, id) == call_tree(callee@, tree(old(exprs)@, receiver), trees(old(exprs)@, args@)),
        appended(old(exprs)@, final(exprs)@, id, seq![receiver] + args@),
{
    let ghost before = exprs@;
    let ghost ids = listed(Some(receiver)) + args@;
    assert forall|k: int| 0 <= k < ids.len() implies grounded(before, #[trigger] ids[k]) by {
        if k > 0 {
            assert(ids[k] == args@[k - 1]);
        }
    }
    let ghost shown = seq![tree(before, receiver)] + trees(before, args@);
    let id: ExprId = plant(exprs, IrExpr::Call { callee, dispatch_receiver: Some(receiver), args });
    assert(trees(before, ids) =~= shown);
    id
}

/// Add a call without a receiver.
pub fn plant_plain_call(exprs: &mut Vec<IrExpr>, callee: Callee, args: Vec<ExprId>) -> (id: ExprId)
    requires
        all_grounded(old(exprs)@, args@),
    ensures
        grows(old(exprs)@, final(exprs)@),
        grounded(final(exprs)@, id),
        tree(final(exprs)@, id) == plain_call_tree(callee@, trees(old(exprs)@, args@)),
        appended(old(exprs)@, final(exprs)@, id, args@),
{
    let ghost before = exprs@;
    let ghost ids = listed(None) + args@;
    assert(ids =~= args@);
    let id: ExprId = plant(exprs, IrExpr::Call { callee, dispatch_receiver: None, args });
    id
}

/// Add a construction through the constructor with the given descriptor.
pub fn plant_new(exprs: &mut Vec<IrExpr>, internal: &str, descriptor: &str, args: Vec<ExprId>) -> (id: ExprId)
    requires
        all_grounded(old(exprs)@, args@),
    ensures
        grows(old(exprs)@, final(exprs)@),
        grounded(final(exprs)@, id),
        tree(final(exprs)@, id) == external_new_tree(internal@, descriptor@, trees(old(exprs)@, args@)),
        appended(old(exprs)@, final(exprs)@, id, args@),
{
    let ghost before = exprs@;
    let id: ExprId = plant(
        exprs,
        IrExpr::New {
            internal: qualified(internal),
            args,
            ctor_params: None,
            ctor_desc: Some(descriptor.to_owned()),
        },
    );
    id
}

/// Add statements without a value.
pub fn plant_block(exprs: &mut Vec<IrExpr>, stmts: Vec<ExprId>) -> (id: ExprId)
    requires
        all_grounded(old(exprs)@, stmts@),
    ensures
        grows(old(exprs)@, final(exprs)@),
        grounded(final(exprs)@, id),
        tree(final(exprs)@, id) == block_tree(trees(old(exprs)@, stmts@)),
        appended(old(exprs)@, final(exprs)@, id, stmts@),
{
    let ghost before = exprs@;
    assert(stmts@ + listed(None) =~= stmts@);
    let id: ExprId = plant(exprs, IrExpr::Block { stmts, value: None });
    id
}

/// Add an array of `elements`, none of them spread.
pub fn plant_array(exprs: &mut Vec<IrExpr>, array_type: Ty, elements: Vec<ExprId>) -> (id: ExprId)
    requires
        all_grounded(old(exprs)@, elements@),
    ensures
        grows(old(exprs)@, final(exprs)@),
        grounded(final(exprs)@, id),
        tree(final(exprs)@, id) == array_tree(array_type@, trees(old(exprs)@, elements@)),
        appended(old(exprs)@, final(exprs)@, id, elements@),
{
    let ghost before = exprs@;
    let spreads: Vec<bool> = no_spreads(elements.len());
    assert(spreads@ =~= Seq::new(trees(before, elements@).len(), |k: int| false));
    let id: ExprId = plant(exprs, IrExpr::Vararg { array_type, elements, spreads });
    id
}

/// Add `if (condition) result`.
pub fn plant_if(exprs: &mut Vec<IrExpr>, condition: ExprId, result: ExprId) -> (id: ExprId)
    requires
        grounded(old(exprs)@, condition),
        grounded(old(exprs)@, result),
    ensures
        grows(old(exprs)@, final(exprs)@),
        grounded(final(exprs)@, id),
        tree(final(exprs)@, id) == if_tree(tree(old(exprs)@, condition), tree(old(exprs)@, result)),
        appended(old(exprs)@, final(exprs)@, id, seq![condition, result]),
{
    let ghost before = exprs@;
    let mut branches: Vec<(Option<ExprId>, ExprId)> = Vec::new();
    branches.push((Some(condition), result));
    proof {
        reveal_with_fuel(branch_operands, 2);
        assert(branches@.drop_last() =~= seq![]);
        assert(branch_operands(branches@) =~= seq![condition, result]);
        assert(Seq::new(branches@.len(), |k: int| branches@[k].0 is Some) =~= seq![true]);
    }
    let id: ExprId = plant(exprs, IrExpr::When { branches });
    assert(trees(before, seq![condition, result]) =~= seq![tree(before, condition), tree(before, result)]);
    id
}

/// Add `if (condition) result else otherwise`.
pub fn plant_if_else(exprs: &mut Vec<IrExpr>, condition: ExprId, result: ExprId, otherwise: ExprId) -> (id: ExprId)
    requires
        grounded(old(exprs)@, condition),
        grounded(old(exprs)@, result),
        grounded(old(exprs)@, otherwise),
    ensures
        grows(old(exprs)@, final(exprs)@),
        grounded(final(exprs)@, id),
        tree(final(exprs)@, id) == if_else_tree(tree(old(exprs)@, condition), tree(old(exprs)@, result), tree(old(exprs)@, otherwise)),
        appended(old(exprs)@, final(exprs)@, id, seq![condition, result, otherwise]),
{
    let ghost before = exprs@;
    let mut branches: Vec<(Option<ExprId>, ExprId)> = Vec::new();
    branches.push((Some(condition), result));
    branches.push((None, otherwise));
    proof {
        reveal_with_fuel(branch_operands, 3);
        assert(branches@.drop_last().drop_last() =~= seq![]);
        assert(branch_operands(branches@) =~= seq![condition, result, otherwise]);
        assert(Seq::new(branches@.len(), |k: int| branches@[k].0 is Some) =~= seq![true, false]);
    }
    let id: ExprId = plant(exprs, IrExpr::When { branches });
    assert(trees(before, seq![condition, result, otherwise]) =~= seq![
        tree(before, condition),
        tree(before, result),
        tree(before, otherwise),
    ]);
    id
}

/// Add a call on `receiver` with one argument.
pub fn plant_call1(exprs: &mut Vec<IrExpr>, callee: Callee, receiver: ExprId, a: ExprId) -> (id: ExprId)
    requires
        grounded(old(exprs)@, receiver),
        grounded(old(exprs)@, a),
    ensures
        grows(old(exprs)@, final(exprs)@),
        grounded(final(exprs)@, id),
        tree(final(exprs)@, id) == call_tree(callee@, tree(old(exprs)@, receiver), seq![tree(old(exprs)@, a)]),
        appended(old(exprs)@, final(exprs)@, id, seq![receiver, a]),
{
    let ghost before = exprs@;
    let mut args: Vec<ExprId> = Vec::new();
    args.push(a);
    let ghost ids = args@;
    let id: ExprId = plant_call(exprs, callee, receiver, args);
    assert(trees(before, ids) =~= seq![tree(before, a)]);
    assert(seq![receiver] + ids =~= seq![receiver, a]);
    id
}

/// Add a call on `receiver` with two arguments.
pub fn plant_call2(exprs: &mut Vec<IrExpr>, callee: Callee, receiver: ExprId, a: ExprId, b: ExprId) -> (id: ExprId)
    requires
        grounded(old(exprs)@, receiver),
        grounded(old(exprs)@, a),
        grounded(old(exprs)@, b),
    ensures
        grows(old(exprs)@, final(exprs)@),
        grounded(final(exprs)@, id),
        tree(final(exprs)@, id) == call_tree(callee@, tree(old(exprs)@, receiver), seq![tree(old(exprs)@, a), tree(old(exprs)@, b)]),
        appended(old(exprs)@, final(exprs)@, id, seq![receiver, a, b]),
{
    let ghost before = exprs@;
    let mut args: Vec<ExprId> = Vec::new();
    args.push(a);
    args.push(b);
    let ghost ids = args@;
    let id: ExprId = plant_call(exprs, callee, receiver, args);
    assert(trees(before, ids) =~= seq![tree(before, a), tree(before, b)]);
    assert(seq![receiver] + ids =~= seq![receiver, a, b]);
    id
}

/// Add a call on `receiver` with three arguments.
pub fn plant_call3(exprs: &mut Vec<IrExpr>, callee: Callee, receiver: ExprId, a: ExprId, b: ExprId, c: ExprId) -> (id: ExprId)
    requires
        grounded(old(exprs)@, receiver),
        grounded(old(exprs)@, a),
        grounded(old(exprs)@, b),
        grounded(old(exprs)@, c),
    ensures
        grows(old(exprs)@, final(exprs)@),
        grounded(final(exprs)@, id),
        tree(final(exprs)@, id) == call_tree(callee@, tree(old(exprs)@, receiver), seq![tree(old(exprs)@, a), tree(old(exprs)@, b), tree(old(exprs)@, c)]),
        appended(old(exprs)@, final(exprs)@, id, seq![receiver, a, b, c]),
{
    let ghost before = exprs@;
    let mut args: Vec<ExprId> = Vec::new();
    args.push(a);
    args.push(b);
    args.push(c);
    let ghost ids = args@;
    let id: ExprId = plant_call(exprs, callee, receiver, args);
    assert(trees(before, ids) =~= seq![tree(before, a), tree(before, b), tree(before, c)]);
    assert(seq![receiver] + ids =~= seq![receiver, a, b, c]);
    id
}

/// Add a call on `receiver` with four arguments.
pub fn plant_call4(exprs: &mut Vec<IrExpr>, callee: Callee, receiver: ExprId, a: ExprId, b: ExprId, c: ExprId, d: ExprId) -> (id: ExprId)
    requires
        grounded(old(exprs)@, receiver),
        grounded(old(exprs)@, a),
        grounded(old(exprs)@, b),
        grounded(old(exprs)@, c),
        grounded(old(exprs)@, d),
    ensures
        grows(old(exprs)@, final(exprs)@),
        grounded(final(exprs)@, id),
        tree(final(exprs)@, id) == call_tree(callee@, tree(old(exprs)@, receiver), seq![tree(old(exprs)@, a), tree(old(exprs)@, b), tree(old(exprs)@, c), tree(old(exprs)@, d)]),
        appended(old(exprs)@, final(exprs)@, id, seq![receiver, a, b, c, d]),
{
    let ghost before = exprs@;
    let mut args: Vec<ExprId> = Vec::new();
    args.push(a);
    args.push(b);
    args.push(c);
    args.push(d);
    let ghost ids = args@;
    let id: ExprId = plant_call(exprs, callee, receiver, args);
    assert(trees(before, ids) =~= seq![tree(before, a), tree(before, b), tree(before, c), tree(before, d)]);
    assert(seq![receiver] + ids =~= seq![receiver, a, b, c, d]);
    id
}

/// Add a call on `receiver` without arguments.
pub fn plant_call0(exprs: &mut Vec<IrExpr>, callee: Callee, receiver: ExprId) -> (id: ExprId)
    requires
        grounded(old(exprs)@, receiver),
    ensures
        grows(old(exprs)@, final(exprs)@),
        grounded(final(exprs)@, id),
        tree(final(exprs)@, id) == call_tree(callee@, tree(old(exprs)@, receiver), seq![]),
        appended(old(exprs)@, final(exprs)@, id, seq![receiver]),
{
    let ghost before = exprs@;
    let args: Vec<ExprId> = Vec::new();
    let ghost ids = args@;
    let id: ExprId = plant_call(exprs, callee, receiver, args);
    assert(trees(before, ids) =~= seq![]);
    assert(seq![receiver] + ids =~= seq![receiver]);
    id
}

/// Add a block of one statement.
pub fn plant_block1(exprs: &mut Vec<IrExpr>, a: ExprId) -> (id: ExprId)
    requires
        grounded(old(exprs)@, a),
    ensures
        grows(old(exprs)@, final(exprs)@),
        grounded(final(exprs)@, id),
        tree(final(exprs)@, id) == block_tree(seq![tree(old(exprs)@, a)]),
        appended(old(exprs)@, final(exprs)@, id, seq![a]),
{
    let ghost before = exprs@;
    let mut stmts: Vec<ExprId> = Vec::new();
    stmts.push(a);
    let ghost ids = stmts@;
    let id: ExprId = plant_block(exprs, stmts);
    assert(trees(before, ids) =~= seq![tree(before, a)]);
    assert(ids =~= seq![a]);
    id
}

/// Add a block of two statements.
pub fn plant_block2(exprs: &mut Vec<IrExpr>, a: ExprId, b: ExprId) -> (id: ExprId)
    requires
        grounded(old(exprs)@, a),
        grounded(old(exprs)@, b),
    ensures
        grows(old(exprs)@, final(exprs)@),
        grounded(final(exprs)@, id),
        tree(final(exprs)@, id) == block_tree(seq![tree(old(exprs)@, a), tree(old(exprs)@, b)]),
        appended(old(exprs)@, final(exprs)@, id, seq![a, b]),
{
    let ghost before = exprs@;
    let mut stmts: Vec<ExprId> = Vec::new();
    stmts.push(a);
    stmts.push(b);
    let ghost ids = stmts@;
    let id: ExprId = plant_block(exprs, stmts);
    assert(trees(before, ids) =~= seq![tree(before, a), tree(before, b)]);
    assert(ids =~= seq![a, b]);
    id
}

/// Add a block of three statements.
pub fn plant_block3(exprs: &mut Vec<IrExpr>, a: ExprId, b: ExprId, c: ExprId) -> (id: ExprId)
    requires
        grounded(old(exprs)@, a),
        grounded(old(exprs)@, b),
        grounded(old(exprs)@, c),
    ensures
        grows(old(exprs)@, final(exprs)@),
        grounded(final(exprs)@, id),
        tree(final(exprs)@, id) == block_tree(seq![tree(old(exprs)@, a), tree(old(exprs)@, b), tree(old(exprs)@, c)]),
        appended(old(exprs)@, final(exprs)@, id, seq![a, b, c]),
{
    let ghost before = exprs@;
    let mut stmts: Vec<ExprId> = Vec::new();
    stmts.push(a);
    stmts.push(b);
    stmts.push(c);
    let ghost ids = stmts@;
    let id: ExprId = plant_block(exprs, stmts);
    assert(trees(before, ids) =~= seq![tree(before, a), tree(before, b), tree(before, c)]);
    assert(ids =~= seq![a, b, c]);
    id
}

/// Conditions and results in turn.
pub open spec fn interleaved(conditions: Seq<IrTree>, results: Seq<IrTree>) -> Seq<IrTree>
    decreases conditions.len(),
{
    if conditions.len() == 0 {
        seq![]
    } else {
        interleaved(conditions.drop_last(), results.drop_last()).push(conditions.last()).push(
            results.last(),
        )
    }
}

/// The first result whose condition holds, and `otherwise` where none does.
pub open spec fn dispatch_tree(
    conditions: Seq<IrTree>,
    results: Seq<IrTree>,
    otherwise: IrTree,
) -> IrTree {
    IrTree {
        label: IrLabel::When {
            guarded: Seq::new(conditions.len() + 1, |k: int| k < conditions.len()),
        },
        operands: interleaved(conditions, results).push(otherwise),
    }
}

proof fn lemma_branch_operands(
    exprs: Seq<IrExpr>,
    branches: Seq<(Option<ExprId>, ExprId)>,
    conditions: Seq<ExprId>,
    results: Seq<ExprId>,
)
    requires
        conditions.len() == results.len(),
        branches.len() == conditions.len(),
        forall|k: int|
            0 <= k < branches.len() ==> #[trigger] branches[k] == (
                Some(conditions[k]),
                results[k],
            ),
        all_grounded(exprs, conditions),
        all_grounded(exprs, results),
    ensures
        all_grounded(exprs, branch_operands(branches)),
        trees(exprs, branch_operands(branches)) == interleaved(
            trees(exprs, conditions),
            trees(exprs, results),
        ),
    decreases branches.len(),
{
    if branches.len() == 0 {
        assert(trees(exprs, branch_operands(branches)) =~= seq![]);
    } else {
        let last = branches.len() - 1;
        assert(branches[last] == (Some(conditions[last]), results[last]));
        lemma_branch_operands(
            exprs,
            branches.drop_last(),
            conditions.drop_last(),
            results.drop_last(),
        );
        let before = branch_operands(branches.drop_last());
        let all = branch_operands(branches);
        assert(all =~= before.push(conditions[last]).push(results[last]));
        assert(grounded(exprs, conditions[last]));
        assert(grounded(exprs, results[last]));
        assert forall|k: int| 0 <= k < all.len() implies grounded(exprs, #[trigger] all[k]) by {
            if k < before.len() {
                assert(all[k] == before[k]);
                assert(grounded(exprs, before[k]));
            }
        }
        assert(trees(exprs, conditions).drop_last() =~= trees(exprs, conditions.drop_last()));
        assert(trees(exprs, results).drop_last() =~= trees(exprs, results.drop_last()));
        assert(trees(exprs, all) =~= interleaved(
            trees(exprs, conditions),
            trees(exprs, results),
        ));
    }
}

/// Add a choice of the first result whose condition holds, and of `otherwise` where none does.
pub fn plant_dispatch(
    exprs: &mut Vec<IrExpr>,
    conditions: &Vec<ExprId>,
    results: &Vec<ExprId>,
    otherwise: ExprId,
) -> (id: ExprId)
    requires
        conditions@.len() == results@.len(),
        all_grounded(old(exprs)@, conditions@),
        all_grounded(old(exprs)@, results@),
        grounded(old(exprs)@, otherwise),
    ensures
        grows(old(exprs)@, final(exprs)@),
        grounded(final(exprs)@, id),
        tree(final(exprs)@, id) == dispatch_tree(
            trees(old(exprs)@, conditions@),
            trees(old(exprs)@, results@),
            tree(old(exprs)@, otherwise),
        ),
        id == old(exprs)@.len(),
        final(exprs)@.len() == id + 1,
{
    let ghost before = exprs@;
    let mut branches: Vec<(Option<ExprId>, ExprId)> = Vec::new();
    let mut index: usize = 0;
    while index < conditions.len()
        invariant
            index <= conditions@.len(),
            conditions@.len() == results@.len(),
            branches@.len() == index,
            forall|k: int|
                0 <= k < index ==> #[trigger] branches@[k] == (
                    Some(conditions@[k]),
                    results@[k],
                ),
        decreases conditions@.len() - index,
    {
        branches.push((Some(conditions[index]), results[index]));
        index += 1;
    }
    let ghost guarded = branches@;
    branches.push((None, otherwise));
    let ghost ids = branch_operands(branches@);
    proof {
        lemma_branch_operands(before, guarded, conditions@, results@);
        assert(branches@.drop_last() =~= guarded);
        assert(ids =~= branch_operands(guarded).push(otherwise));
        assert forall|k: int| 0 <= k < ids.len() implies grounded(before, #[trigger] ids[k]) by {
            if k < ids.len() - 1 {
                assert(ids[k] == branch_operands(guarded)[k]);
                assert(grounded(before, branch_operands(guarded)[k]));
            }
        }
        assert(Seq::new(branches@.len(), |k: int| branches@[k].0 is Some) =~= Seq::new(
            (conditions@.len() + 1) as nat,
            |k: int| k < conditions@.len(),
        ));
    }
    let id: ExprId = plant(exprs, IrExpr::When { branches });
    assert(trees(before, ids) =~= trees(before, branch_operands(guarded)).push(
        tree(before, otherwise),
    ));
    id
}

/// `while (condition) body`.
pub open spec fn while_tree(condition: IrTree, body: IrTree) -> IrTree {
    IrTree {
        label: IrLabel::While { has_update: false, post_test: false, label: None },
        operands: seq![condition, body],
    }
}

/// Add `while (condition) body`.
pub fn plant_while(exprs: &mut Vec<IrExpr>, condition: ExprId, body: ExprId) -> (id: ExprId)
    requires
        grounded(old(exprs)@, condition),
        grounded(old(exprs)@, body),
    ensures
        grows(old(exprs)@, final(exprs)@),
        grounded(final(exprs)@, id),
        tree(final(exprs)@, id) == while_tree(
            tree(old(exprs)@, condition),
            tree(old(exprs)@, body),
        ),
        appended(old(exprs)@, final(exprs)@, id, seq![condition, body]),
{
    let ghost before = exprs@;
    let ghost ids = seq![condition, body] + listed(None);
    assert(ids =~= seq![condition, body]);
    let id: ExprId = plant(
        exprs,
        IrExpr::While { cond: condition, body, update: None, post_test: false, label: None },
    );
    assert(trees(before, ids) =~= seq![tree(before, condition), tree(before, body)]);
    id
}

/// Further expressions leave the trees of earlier ones as they are.
pub proof fn lemma_trees_kept(before: Seq<IrExpr>, after: Seq<IrExpr>, ids: Seq<ExprId>)
    requires
        grows(before, after),
        all_grounded(before, ids),
    ensures
        all_grounded(after, ids),
        trees(after, ids) == trees(before, ids),
{
    assert forall|k: int| 0 <= k < ids.len() implies grounded(after, #[trigger] ids[k]) && tree(
        after,
        ids[k],
    ) == tree(before, ids[k]) by {
        assert(grounded(before, ids[k]));
        lemma_growth_keeps_trees(before, after, ids[k]);
    }
    assert(trees(after, ids) =~= trees(before, ids));
}

/// One more expression in a list shows one more tree.
pub proof fn lemma_listed(
    before: Seq<IrExpr>,
    after: Seq<IrExpr>,
    ids: Seq<ExprId>,
    id: ExprId,
)
    requires
        grows(before, after),
        all_grounded(before, ids),
        grounded(after, id),
    ensures
        all_grounded(after, ids.push(id)),
        trees(after, ids.push(id)) == trees(before, ids).push(tree(after, id)),
{
    lemma_trees_kept(before, after, ids);
    assert forall|k: int| 0 <= k < ids.push(id).len() implies grounded(
        after,
        #[trigger] ids.push(id)[k],
    ) by {
        if k < ids.len() {
            assert(grounded(after, ids[k]));
        }
    }
    assert(trees(after, ids.push(id)) =~= trees(before, ids).push(tree(after, id)));
}

} // verus!
