//! Taking expressions apart and putting them together again.

use vstd::prelude::*;

use crate::ir::expr::{branch_operands, listed, Callee, ExprId, IrCatch, IrExpr, IrLabel};
use crate::model::{copy_all, copy_plain};

verus! {

broadcast use {crate::text::group_views, crate::types::group_ty_views};

impl Clone for Callee {
    fn clone(&self) -> (copy: Self)
        ensures
            copy@ == self@,
    {
        match self {
            Callee::Virtual { owner, name, descriptor, params, interface } => Callee::Virtual {
                owner: owner.clone(),
                name: name.clone(),
                descriptor: descriptor.clone(),
                params: match params {
                    Some((inputs, output)) => Some((copy_all(inputs), output.clone())),
                    None => None,
                },
                interface: *interface,
            },
            Callee::Static { owner, name, descriptor, inline } => Callee::Static {
                owner: owner.clone(),
                name: name.clone(),
                descriptor: descriptor.clone(),
                inline: *inline,
            },
            Callee::ClassStatic { owner, function } => Callee::ClassStatic {
                owner: owner.clone(),
                function: *function,
            },
            Callee::Intrinsic { operation, ret } => Callee::Intrinsic {
                operation: *operation,
                ret: ret.clone(),
            },
            Callee::Super {
                owner,
                dispatch_owner,
                enclosing_dispatch,
                kind,
                name,
                params,
                ret,
                interface,
                realization,
                descriptor,
            } => Callee::Super {
                owner: owner.clone(),
                dispatch_owner: dispatch_owner.clone(),
                enclosing_dispatch: *enclosing_dispatch,
                kind: *kind,
                name: name.clone(),
                params: copy_all(params),
                ret: ret.clone(),
                interface: *interface,
                realization: *realization,
                descriptor: descriptor.clone(),
            },
            Callee::Special { owner, name, descriptor } => Callee::Special {
                owner: owner.clone(),
                name: name.clone(),
                descriptor: descriptor.clone(),
            },
        }
    }
}

fn push_listed(ids: &mut Vec<ExprId>, operand: &Option<ExprId>)
    ensures
        final(ids)@ == old(ids)@ + listed(*operand),
{
    let ghost before = ids@;
    match operand {
        Some(id) => {
            ids.push(*id);
        },
        None => {},
    }
    assert(ids@ =~= before + listed(*operand));
}

fn one(id: ExprId) -> (ids: Vec<ExprId>)
    ensures
        ids@ == seq![id],
{
    let mut ids: Vec<ExprId> = Vec::new();
    ids.push(id);
    assert(ids@ =~= seq![id]);
    ids
}

/// The operands of an expression, in evaluation order.
pub fn operand_list(expr: &IrExpr) -> (ids: Vec<ExprId>)
    ensures
        ids@ == expr.operands(),
{
    match expr {
        IrExpr::SetValue { value, .. } => one(*value),
        IrExpr::Variable { init, .. } => {
            let mut ids: Vec<ExprId> = Vec::new();
            push_listed(&mut ids, init);
            assert(ids@ =~= listed(*init));
            ids
        },
        IrExpr::GetField { receiver, .. } => one(*receiver),
        IrExpr::SetField { receiver, value, .. } => {
            let mut ids = one(*receiver);
            ids.push(*value);
            assert(ids@ =~= seq![*receiver, *value]);
            ids
        },
        IrExpr::Call { dispatch_receiver, args, .. } => {
            let mut ids: Vec<ExprId> = Vec::new();
            push_listed(&mut ids, dispatch_receiver);
            let mut rest = copy_plain(args);
            ids.append(&mut rest);
            assert(ids@ =~= listed(*dispatch_receiver) + args@);
            ids
        },
        IrExpr::MethodCall { receiver, args, .. } => {
            let mut ids = one(*receiver);
            let mut rest = copy_plain(args);
            ids.append(&mut rest);
            ids
        },
        IrExpr::New { args, .. } => copy_plain(args),
        IrExpr::Vararg { elements, .. } => copy_plain(elements),
        IrExpr::TypeOp { arg, .. } => one(*arg),
        IrExpr::PrimitiveBinOp { lhs, rhs, .. } => {
            let mut ids = one(*lhs);
            ids.push(*rhs);
            assert(ids@ =~= seq![*lhs, *rhs]);
            ids
        },
        IrExpr::When { branches } => {
            let mut ids: Vec<ExprId> = Vec::new();
            let mut index: usize = 0;
            assert(branches@.take(0) =~= seq![]);
            while index < branches.len()
                invariant
                    index <= branches@.len(),
                    ids@ == branch_operands(branches@.take(index as int)),
                decreases branches@.len() - index,
            {
                assert(branches@.take(index as int + 1).drop_last() =~= branches@.take(
                    index as int,
                ));
                let ghost before = ids@;
                push_listed(&mut ids, &branches[index].0);
                ids.push(branches[index].1);
                assert(ids@ =~= before + listed(branches@[index as int].0).push(
                    branches@[index as int].1,
                ));
                index += 1;
            }
            assert(branches@.take(index as int) =~= branches@);
            ids
        },
        IrExpr::Block { stmts, value } => {
            let mut ids = copy_plain(stmts);
            push_listed(&mut ids, value);
            ids
        },
        IrExpr::While { cond, body, update, .. } => {
            let mut ids = one(*cond);
            ids.push(*body);
            assert(ids@ =~= seq![*cond, *body]);
            push_listed(&mut ids, update);
            ids
        },
        IrExpr::Try { body, catches, finally } => {
            let mut ids = one(*body);
            let ghost bodies = Seq::new(catches@.len(), |k: int| catches@[k].body);
            let mut index: usize = 0;
            assert(seq![*body] + bodies.take(0) =~= seq![*body]);
            while index < catches.len()
                invariant
                    index <= catches@.len(),
                    bodies == Seq::new(catches@.len(), |k: int| catches@[k].body),
                    ids@ == seq![*body] + bodies.take(index as int),
                decreases catches@.len() - index,
            {
                ids.push(catches[index].body);
                assert(bodies.take(index as int + 1) =~= bodies.take(index as int).push(
                    bodies[index as int],
                ));
                assert(seq![*body] + bodies.take(index as int + 1) =~= (seq![*body] + bodies.take(
                    index as int,
                )).push(bodies[index as int]));
                index += 1;
            }
            assert(bodies.take(index as int) =~= bodies);
            push_listed(&mut ids, finally);
            ids
        },
        IrExpr::Throw { operand } => one(*operand),
        IrExpr::Return(value) => {
            let mut ids: Vec<ExprId> = Vec::new();
            push_listed(&mut ids, value);
            assert(ids@ =~= listed(*value));
            ids
        },
        IrExpr::Lambda { captures, inline_body, .. } => {
            let mut ids = copy_plain(captures);
            push_listed(&mut ids, inline_body);
            ids
        },
        IrExpr::PluginPlaceholder { exprs, .. } => copy_plain(exprs),
        _ => Vec::new(),
    }
}

/// The places of the locals of an expression moved by a rule.
pub open spec fn moved(label: IrLabel, place: spec_fn(u32) -> u32) -> IrLabel {
    match label {
        IrLabel::GetValue(slot) => IrLabel::GetValue(place(slot)),
        IrLabel::SetValue { var } => IrLabel::SetValue { var: place(var) },
        IrLabel::Variable { index, ty, initialized, named } => IrLabel::Variable {
            index: place(index),
            ty,
            initialized,
            named,
        },
        IrLabel::Try { catches, has_finally } => IrLabel::Try {
            catches: Seq::new(catches.len(), |k: int| (place(catches[k].0), catches[k].1)),
            has_finally,
        },
        _ => label,
    }
}

/// The slots that an expression names.
pub open spec fn slots_of(label: IrLabel) -> Seq<u32> {
    match label {
        IrLabel::GetValue(slot) => seq![slot],
        IrLabel::SetValue { var } => seq![var],
        IrLabel::Variable { index, .. } => seq![index],
        IrLabel::Try { catches, .. } => Seq::new(catches.len(), |k: int| catches[k].0),
        _ => seq![],
    }
}

/// A move of locals: those from `from` on go to `to` and further.
#[derive(Clone, Copy, Debug, PartialEq, Eq, Structural)]
pub struct LocalShift {
    pub from: u32,
    pub to: u32,
}

impl LocalShift {
    /// Where a local goes.
    pub open spec fn place(self, slot: u32) -> u32 {
        if slot >= self.from {
            (slot - self.from + self.to) as u32
        } else {
            slot
        }
    }

    /// Whether there is a number for where a local goes.
    pub open spec fn fits(self, slot: u32) -> bool {
        slot >= self.from ==> slot - self.from + self.to <= u32::MAX
    }

    /// Whether every local that an expression names has a number to go to.
    pub open spec fn moves(self, label: IrLabel) -> bool {
        forall|k: int| 0 <= k < slots_of(label).len() ==> self.fits(#[trigger] slots_of(label)[k])
    }

    fn relocate(&self, slot: u32) -> (moved: u32)
        requires
            self.fits(slot),
        ensures
            moved == self.place(slot),
    {
        if slot >= self.from {
            slot - self.from + self.to
        } else {
            slot
        }
    }
}

fn some_of(ids: &Vec<ExprId>, present: bool, place: usize) -> (operand: Option<ExprId>)
    requires
        present ==> place < ids@.len(),
    ensures
        listed(operand) == if present {
            seq![ids@[place as int]]
        } else {
            seq![]
        },
        operand is Some == present,
{
    if present {
        Some(ids[place])
    } else {
        None
    }
}

fn some_from(ids: &Vec<ExprId>, from: usize, to: usize) -> (out: Vec<ExprId>)
    requires
        from <= to <= ids@.len(),
    ensures
        out@ == ids@.subrange(from as int, to as int),
{
    let mut out: Vec<ExprId> = Vec::new();
    let mut index: usize = from;
    while index < to
        invariant
            from <= index <= to,
            to <= ids@.len(),
            out@ == ids@.subrange(from as int, index as int),
        decreases to - index,
    {
        out.push(ids[index]);
        assert(ids@.subrange(from as int, index as int + 1) =~= ids@.subrange(
            from as int,
            index as int,
        ).push(ids@[index as int]));
        index += 1;
    }
    out
}

proof fn lemma_branch_count(branches: Seq<(Option<ExprId>, ExprId)>, seen: int)
    requires
        0 <= seen <= branches.len(),
    ensures
        branch_operands(branches.take(seen)).len() <= branch_operands(branches).len(),
    decreases branches.len() - seen,
{
    if seen < branches.len() {
        lemma_branch_count(branches, seen + 1);
        assert(branches.take(seen + 1).drop_last() =~= branches.take(seen));
    } else {
        assert(branches.take(seen) =~= branches);
    }
}

fn rebuild_branches(branches: &Vec<(Option<ExprId>, ExprId)>, ids: &Vec<ExprId>) -> (out: Vec<
    (Option<ExprId>, ExprId),
>)
    requires
        ids@.len() == branch_operands(branches@).len(),
    ensures
        branch_operands(out@) == ids@,
        out@.len() == branches@.len(),
        forall|k: int|
            0 <= k < out@.len() ==> (#[trigger] out@[k]).0 is Some == branches@[k].0 is Some,
{
    let total: usize = ids.len();
    let mut out: Vec<(Option<ExprId>, ExprId)> = Vec::new();
    let mut index: usize = 0;
    let mut used: usize = 0;
    assert(branches@.take(0) =~= seq![]);
    assert(ids@.take(0) =~= seq![]);
    while index < branches.len()
        invariant
            index <= branches@.len(),
            ids@.len() == branch_operands(branches@).len(),
            used == branch_operands(branches@.take(index as int)).len(),
            used <= total,
            total == ids@.len(),
            branch_operands(out@) == ids@.take(used as int),
            out@.len() == index,
            forall|k: int|
                0 <= k < out@.len() ==> (#[trigger] out@[k]).0 is Some == branches@[k].0 is Some,
        decreases branches@.len() - index,
    {
        let ghost before = out@;
        let ghost start = used as int;
        proof {
            lemma_branch_count(branches@, index as int + 1);
            assert(branches@.take(index as int + 1).drop_last() =~= branches@.take(index as int));
        }
        if branches[index].0.is_some() {
            out.push((Some(ids[used]), ids[used + 1]));
            used += 2;
        } else {
            out.push((None, ids[used]));
            used += 1;
        }
        assert(out@.drop_last() =~= before);
        assert(branch_operands(out@) =~= ids@.take(used as int));
        index += 1;
    }
    assert(branches@.take(index as int) =~= branches@);
    assert(ids@.take(used as int) =~= ids@);
    out
}

fn rebuild_catches(catches: &Vec<IrCatch>, ids: &Vec<ExprId>, shift: &LocalShift) -> (out: Vec<
    IrCatch,
>)
    requires
        ids@.len() > catches@.len(),
        forall|k: int| 0 <= k < catches@.len() ==> shift.fits((#[trigger] catches@[k]).var),
    ensures
        out@.len() == catches@.len(),
        forall|k: int|
            0 <= k < out@.len() ==> (#[trigger] out@[k]).body == ids@[k + 1] && out@[k].var
                == shift.place(catches@[k].var) && out@[k].ty@ == catches@[k].ty@,
{
    let mut out: Vec<IrCatch> = Vec::new();
    let mut index: usize = 0;
    while index < catches.len()
        invariant
            index <= catches@.len(),
            ids@.len() > catches@.len(),
            forall|k: int| 0 <= k < catches@.len() ==> shift.fits((#[trigger] catches@[k]).var),
            out@.len() == index,
            forall|k: int|
                0 <= k < out@.len() ==> (#[trigger] out@[k]).body == ids@[k + 1] && out@[k].var
                    == shift.place(catches@[k].var) && out@[k].ty@ == catches@[k].ty@,
        decreases catches@.len() - index,
    {
        out.push(
            IrCatch {
                var: shift.relocate(catches[index].var),
                ty: catches[index].ty.clone(),
                body: ids[index + 1],
            },
        );
        index += 1;
    }
    out
}

/// The same expression with other operands and with its locals moved.
#[verifier::rlimit(60)]
#[verifier::spinoff_prover]
pub fn rebuild(expr: &IrExpr, ids: &Vec<ExprId>, shift: &LocalShift) -> (out: IrExpr)
    requires
        ids@.len() == expr.operands().len(),
        shift.moves(expr.label()),
    ensures
        out.operands() == ids@,
        out.label() == moved(expr.label(), |slot: u32| shift.place(slot)),
{
    let ghost place = |slot: u32| shift.place(slot);
    match expr {
        IrExpr::Const(value) => {
            assert(ids@ =~= seq![]);
            IrExpr::Const(value.clone())
        },
        IrExpr::GetValue(slot) => {
            assert(shift.fits(slots_of(expr.label())[0]));
            assert(ids@ =~= seq![]);
            IrExpr::GetValue(shift.relocate(*slot))
        },
        IrExpr::SetValue { var, value } => {
            assert(shift.fits(slots_of(expr.label())[0]));
            assert(ids@ =~= seq![ids@[0]]);
            IrExpr::SetValue { var: shift.relocate(*var), value: ids[0] }
        },
        IrExpr::Variable { index, ty, init, named } => {
            assert(shift.fits(slots_of(expr.label())[0]));
            let operand = some_of(ids, init.is_some(), 0);
            assert(listed(operand) =~= ids@);
            IrExpr::Variable {
                index: shift.relocate(*index),
                ty: ty.clone(),
                init: operand,
                named: *named,
            }
        },
        IrExpr::GetField { receiver, class, index } => {
            assert(ids@ =~= seq![ids@[0]]);
            IrExpr::GetField { receiver: ids[0], class: *class, index: *index }
        },
        IrExpr::SetField { receiver, class, index, value } => {
            assert(ids@ =~= seq![ids@[0], ids@[1]]);
            IrExpr::SetField { receiver: ids[0], class: *class, index: *index, value: ids[1] }
        },
        IrExpr::GetStatic(index) => {
            assert(ids@ =~= seq![]);
            IrExpr::GetStatic(*index)
        },
        IrExpr::StaticInstance { owner, ty, field } => {
            assert(ids@ =~= seq![]);
            IrExpr::StaticInstance { owner: *owner, ty: *ty, field: *field }
        },
        IrExpr::ExternalStaticInstance { owner, ty, field } => {
            assert(ids@ =~= seq![]);
            IrExpr::ExternalStaticInstance {
                owner: owner.clone(),
                ty: ty.clone(),
                field: field.clone(),
            }
        },
        IrExpr::ExternalStaticField { owner, name, descriptor } => {
            assert(ids@ =~= seq![]);
            IrExpr::ExternalStaticField {
                owner: owner.clone(),
                name: name.clone(),
                descriptor: descriptor.clone(),
            }
        },
        IrExpr::EnumEntry { classifier, name } => {
            assert(ids@ =~= seq![]);
            IrExpr::EnumEntry { classifier: classifier.clone(), name: name.clone() }
        },
        IrExpr::ClassLiteral { classifier } => {
            assert(ids@ =~= seq![]);
            IrExpr::ClassLiteral { classifier: classifier.clone() }
        },
        IrExpr::Call { callee, dispatch_receiver, args } => {
            let first: usize = if dispatch_receiver.is_some() {
                1
            } else {
                0
            };
            let receiver = some_of(ids, dispatch_receiver.is_some(), 0);
            let rest = some_from(ids, first, ids.len());
            assert(listed(receiver) + rest@ =~= ids@);
            IrExpr::Call { callee: callee.clone(), dispatch_receiver: receiver, args: rest }
        },
        IrExpr::MethodCall { class, index, receiver, args } => {
            let rest = some_from(ids, 1, ids.len());
            assert(seq![ids@[0]] + rest@ =~= ids@);
            IrExpr::MethodCall { class: *class, index: *index, receiver: ids[0], args: rest }
        },
        IrExpr::New { internal, args, ctor_params, ctor_desc } => {
            IrExpr::New {
                internal: internal.clone(),
                args: copy_plain(ids),
                ctor_params: match ctor_params {
                    Some(types) => Some(copy_all(types)),
                    None => None,
                },
                ctor_desc: match ctor_desc {
                    Some(descriptor) => Some(descriptor.clone()),
                    None => None,
                },
            }
        },
        IrExpr::Vararg { array_type, elements, spreads } => {
            IrExpr::Vararg {
                array_type: array_type.clone(),
                elements: copy_plain(ids),
                spreads: copy_plain(spreads),
            }
        },
        IrExpr::TypeOp { op, arg, type_operand } => {
            assert(ids@ =~= seq![ids@[0]]);
            IrExpr::TypeOp { op: *op, arg: ids[0], type_operand: type_operand.clone() }
        },
        IrExpr::PrimitiveBinOp { op, lhs, rhs } => {
            assert(ids@ =~= seq![ids@[0], ids@[1]]);
            IrExpr::PrimitiveBinOp { op: *op, lhs: ids[0], rhs: ids[1] }
        },
        IrExpr::When { branches } => {
            let rebuilt = rebuild_branches(branches, ids);
            assert(Seq::new(rebuilt@.len(), |k: int| rebuilt@[k].0 is Some) =~= Seq::new(
                branches@.len(),
                |k: int| branches@[k].0 is Some,
            ));
            IrExpr::When { branches: rebuilt }
        },
        IrExpr::Block { stmts, value } => {
            let count: usize = stmts.len();
            let rest = some_from(ids, 0, count);
            let last = some_of(ids, value.is_some(), count);
            assert(rest@ + listed(last) =~= ids@);
            IrExpr::Block { stmts: rest, value: last }
        },
        IrExpr::While { cond, body, update, post_test, label } => {
            let step = some_of(ids, update.is_some(), 2);
            assert(seq![ids@[0], ids@[1]] + listed(step) =~= ids@);
            IrExpr::While {
                cond: ids[0],
                body: ids[1],
                update: step,
                post_test: *post_test,
                label: match label {
                    Some(name) => Some(name.clone()),
                    None => None,
                },
            }
        },
        IrExpr::Try { body, catches, finally } => {
            let count: usize = catches.len();
            let total: usize = ids.len();
            assert forall|k: int| 0 <= k < catches@.len() implies shift.fits(
                (#[trigger] catches@[k]).var,
            ) by {
                assert(shift.fits(slots_of(expr.label())[k]));
            }
            let rebuilt = rebuild_catches(catches, ids, shift);
            let last = some_of(ids, finally.is_some(), count + 1);
            let out = IrExpr::Try { body: ids[0], catches: rebuilt, finally: last };
            assert(out.operands() =~= ids@);
            assert(out.label()->Try_catches =~= moved(expr.label(), place)->Try_catches);
            out
        },
        IrExpr::Throw { operand } => {
            assert(ids@ =~= seq![ids@[0]]);
            IrExpr::Throw { operand: ids[0] }
        },
        IrExpr::Return(value) => {
            let operand = some_of(ids, value.is_some(), 0);
            assert(listed(operand) =~= ids@);
            IrExpr::Return(operand)
        },
        IrExpr::Lambda { impl_fn, arity, captures, inline_body } => {
            let count: usize = captures.len();
            let rest = some_from(ids, 0, count);
            let last = some_of(ids, inline_body.is_some(), count);
            assert(rest@ + listed(last) =~= ids@);
            IrExpr::Lambda { impl_fn: *impl_fn, arity: *arity, captures: rest, inline_body: last }
        },
        IrExpr::PluginPlaceholder { plugin, kind, exprs, data, types } => {
            IrExpr::PluginPlaceholder {
                plugin: *plugin,
                kind: *kind,
                exprs: copy_plain(ids),
                data: copy_all(data),
                types: copy_all(types),
            }
        },
    }
}

} // verus!
