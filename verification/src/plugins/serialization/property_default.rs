//! The default of a serializable property, taken over into a generated method that applies it.
//!
//! The default of a property is that of its constructor parameter or, for a property declared in
//! the class body, its initializer. Either one makes the element optional. Both were checked in the
//! frame of the primary constructor: there the receiver is value 0, constructor parameter `k` is
//! value `k + 1`, and an earlier property is a parameter. In the generated method that property is
//! one of the object being built, which is where it is read from.

use std::collections::HashMap;

use vstd::prelude::*;

use crate::ir::copy::{moved, operand_list, rebuild, slots_of, LocalShift};
use crate::ir::expr::{ClassId, ExprId, IrExpr, IrLabel};
use crate::ir::file::{CheckedProperty, IrClass, IrCtorArg, IrFile};
use crate::ir::tree::{
    all_grounded, depicts, field_tree, grounded, grows, lemma_depicted, lemma_depicts_its_tree,
    lemma_kept, lemma_listed, plant, plant_field, plant_value, tree, trees, value_tree, IrTree,
};
use crate::names::TypeName;

verus! {

broadcast use crate::ir::tree::group_growth;

/// Whether a constructor parameter is the property of the field `field`.
pub open spec fn stores(argument: IrCtorArg, field: u32) -> bool {
    argument.is_field && argument.field_index == Some(field)
}

/// The first constructor parameter that is the property of the field `field`.
pub open spec fn parameter_of(arguments: Seq<IrCtorArg>, field: u32) -> Option<nat>
    decreases arguments.len(),
{
    if arguments.len() == 0 {
        None
    } else {
        match parameter_of(arguments.drop_last(), field) {
            Some(place) => Some(place),
            None => if stores(arguments.last(), field) {
                Some((arguments.len() - 1) as nat)
            } else {
                None
            },
        }
    }
}

/// The recorded defaults of the constructor parameters of the class `name`.
pub open spec fn recorded_defaults(
    records: Seq<(TypeName, Vec<Option<ExprId>>)>,
    name: Seq<char>,
) -> Option<Seq<Option<ExprId>>>
    decreases records.len(),
{
    if records.len() == 0 {
        None
    } else if records[0].0@ == name {
        Some(records[0].1@)
    } else {
        recorded_defaults(records.skip(1), name)
    }
}

/// The recorded default of parameter `place` of the class `name`.
pub open spec fn recorded_default(ir: IrFile, name: Seq<char>, place: nat) -> Option<ExprId> {
    match recorded_defaults(ir.class_ctor_defaults@, name) {
        Some(defaults) => if place < defaults.len() {
            defaults[place as int]
        } else {
            None
        },
        None => None,
    }
}

/// The first initializer of a property of `class` that is kept in the field `field`.
pub open spec fn body_initializer(
    properties: Seq<CheckedProperty>,
    class: ClassId,
    field: u32,
) -> Option<ExprId>
    decreases properties.len(),
{
    if properties.len() == 0 {
        None
    } else if properties[0].member == Some((class, field)) && properties[0].initializer is Some {
        properties[0].initializer
    } else {
        body_initializer(properties.skip(1), class, field)
    }
}

/// The default of a property and how many constructor parameters it sees. The default of a
/// parameter sees those before it, an initializer in the body sees all. A class without a primary
/// constructor runs its initializers elsewhere.
pub open spec fn default_in_scope(ir: IrFile, class_id: ClassId, field: int) -> Option<
    (ExprId, u32),
> {
    let class = ir.classes@[class_id as int];
    if field > u32::MAX {
        None
    } else {
        match parameter_of(class.ctor_args@, field as u32) {
            Some(place) => if !class.ctor_args@[place as int].has_default || place > u32::MAX {
                None
            } else {
                match recorded_default(ir, class.name@, place) {
                    Some(default) => Some((default, place as u32)),
                    None => None,
                }
            },
            None => if !class.has_primary_ctor || class.ctor_args@.len() > u32::MAX {
                None
            } else {
                match body_initializer(ir.checked_properties@, class_id, field as u32) {
                    Some(initializer) => Some((initializer, class.ctor_args@.len() as u32)),
                    None => None,
                }
            },
        }
    }
}

/// Whether every constructor property that declares a default has it recorded.
pub open spec fn defaults_recorded(ir: IrFile, class: IrClass) -> bool {
    forall|k: int|
        0 <= k < class.ctor_args@.len() && (#[trigger] class.ctor_args@[k]).is_field
            && class.ctor_args@[k].has_default ==> recorded_default(ir, class.name@, k as nat)
            is Some
}

fn find_parameter(arguments: &Vec<IrCtorArg>, field: u32) -> (place: Option<usize>)
    ensures
        match place {
            Some(place) => parameter_of(arguments@, field) == Some(place as nat) && place
                < arguments@.len() && stores(arguments@[place as int], field),
            None => parameter_of(arguments@, field) is None,
        },
{
    let mut index: usize = 0;
    while index < arguments.len()
        invariant
            index <= arguments@.len(),
            parameter_of(arguments@.take(index as int), field) is None,
        decreases arguments@.len() - index,
    {
        assert(arguments@.take(index as int + 1).drop_last() =~= arguments@.take(index as int));
        let argument = &arguments[index];
        if argument.is_field && argument.field_index.is_some() && argument.field_index.unwrap()
            == field {
            proof {
                lemma_parameter_stays(arguments@, index as int + 1, field);
            }
            return Some(index);
        }
        index += 1;
    }
    assert(arguments@.take(index as int) =~= arguments@);
    None
}

proof fn lemma_parameter_stays(arguments: Seq<IrCtorArg>, seen: int, field: u32)
    requires
        0 <= seen <= arguments.len(),
        parameter_of(arguments.take(seen), field) is Some,
    ensures
        parameter_of(arguments, field) == parameter_of(arguments.take(seen), field),
    decreases arguments.len() - seen,
{
    if seen < arguments.len() {
        assert(arguments.take(seen + 1).drop_last() =~= arguments.take(seen));
        lemma_parameter_stays(arguments, seen + 1, field);
    } else {
        assert(arguments.take(seen) =~= arguments);
    }
}

fn find_recorded(ir: &IrFile, name: &TypeName, place: usize) -> (default: Option<ExprId>)
    ensures
        default == recorded_default(*ir, name@, place as nat),
{
    let mut index: usize = 0;
    assert(ir.class_ctor_defaults@.skip(0) =~= ir.class_ctor_defaults@);
    while index < ir.class_ctor_defaults.len()
        invariant
            index <= ir.class_ctor_defaults@.len(),
            recorded_defaults(ir.class_ctor_defaults@.skip(index as int), name@)
                == recorded_defaults(ir.class_ctor_defaults@, name@),
        decreases ir.class_ctor_defaults@.len() - index,
    {
        assert(ir.class_ctor_defaults@.skip(index as int).skip(1)
            =~= ir.class_ctor_defaults@.skip(index as int + 1));
        if ir.class_ctor_defaults[index].0 == *name {
            let defaults = &ir.class_ctor_defaults[index].1;
            return if place < defaults.len() {
                defaults[place]
            } else {
                None
            };
        }
        index += 1;
    }
    None
}

fn find_initializer(ir: &IrFile, class_id: ClassId, field: u32) -> (initializer: Option<ExprId>)
    ensures
        initializer == body_initializer(ir.checked_properties@, class_id, field),
{
    let mut index: usize = 0;
    assert(ir.checked_properties@.skip(0) =~= ir.checked_properties@);
    while index < ir.checked_properties.len()
        invariant
            index <= ir.checked_properties@.len(),
            body_initializer(ir.checked_properties@.skip(index as int), class_id, field)
                == body_initializer(ir.checked_properties@, class_id, field),
        decreases ir.checked_properties@.len() - index,
    {
        assert(ir.checked_properties@.skip(index as int).skip(1) =~= ir.checked_properties@.skip(
            index as int + 1,
        ));
        let property = &ir.checked_properties[index];
        let here = match property.member {
            Some((class, backing)) => class == class_id && backing == field,
            None => false,
        };
        if here && property.initializer.is_some() {
            return property.initializer;
        }
        index += 1;
    }
    None
}

fn checked_default_in_scope(ir: &IrFile, class_id: ClassId, field: usize) -> (found: Option<
    (ExprId, u32),
>)
    requires
        class_id < ir.classes@.len(),
        defaults_recorded(*ir, ir.classes@[class_id as int]),
    ensures
        found == default_in_scope(*ir, class_id, field as int),
        found matches Some((_, count)) ==> count <= ir.classes@[class_id as int].ctor_args@.len(),
{
    let class = &ir.classes[class_id];
    if field > u32::MAX as usize {
        return None;
    }
    if let Some(place) = find_parameter(&class.ctor_args, field as u32) {
        if !class.ctor_args[place].has_default || place > u32::MAX as usize {
            return None;
        }
        return match find_recorded(ir, &class.name, place) {
            Some(default) => Some((default, place as u32)),
            None => None,
        };
    }
    if !class.has_primary_ctor || class.ctor_args.len() > u32::MAX as usize {
        return None;
    }
    match find_initializer(ir, class_id, field as u32) {
        Some(initializer) => Some((initializer, class.ctor_args.len() as u32)),
        None => None,
    }
}

/// The default of a property: that of its constructor parameter, or its initializer in the class
/// body.
pub fn checked_default(ir: &IrFile, class_id: ClassId, field: usize) -> (default: Option<ExprId>)
    requires
        class_id < ir.classes@.len(),
        defaults_recorded(*ir, ir.classes@[class_id as int]),
    ensures
        default == match default_in_scope(*ir, class_id, field as int) {
            Some((expression, _)) => Some(expression),
            None => None,
        },
{
    match checked_default_in_scope(ir, class_id, field) {
        Some((expression, _)) => Some(expression),
        None => None,
    }
}

/// How the method that a default is taken over into reaches what the constructor saw.
#[derive(Clone, Copy, Debug, PartialEq, Eq, Structural)]
pub struct DefaultFrame {
    /// The first value that the method has not claimed; the locals of the default are moved there.
    pub first_free_local: u32,
    /// The value that holds the object whose properties are read.
    pub object: u32,
    /// The value that holds the receiver, where the method may use it.
    pub receiver: Option<u32>,
    /// The line of the property, which the code of the default is attributed to.
    pub property_line: Option<u32>,
    /// The line that a property which is read in place of a parameter is attributed to.
    pub read_line: Option<u32>,
}

/// How each value of the frame of the constructor is reached.
struct Reframing {
    shift: LocalShift,
    /// For each constructor parameter in scope, the field it is stored in.
    parameter_fields: Vec<Option<u32>>,
    class: ClassId,
    frame: DefaultFrame,
}

/// The model of how each value of the frame of the constructor is reached.
pub struct ReframingView {
    pub shift: LocalShift,
    pub parameter_fields: Seq<Option<u32>>,
    pub class: ClassId,
    pub frame: DefaultFrame,
}

impl View for Reframing {
    type V = ReframingView;

    closed spec fn view(&self) -> ReframingView {
        ReframingView {
            shift: self.shift,
            parameter_fields: self.parameter_fields@,
            class: self.class,
            frame: self.frame,
        }
    }
}

/// The number of operands of an expression that stand in the frame of the expression itself: an
/// inlined body of a lambda stands in that of the lambda.
pub open spec fn own_operands(label: IrLabel, count: nat) -> nat {
    match label {
        IrLabel::Lambda { captures, .. } => captures,
        _ => count,
    }
}

impl ReframingView {
    /// Whether every value that a default uses can be reached.
    pub open spec fn reaches(self, shown: IrTree) -> bool
        decreases shown,
    {
        match shown.label {
            IrLabel::GetValue(slot) => if slot == 0 {
                self.frame.receiver is Some
            } else if slot <= self.parameter_fields.len() {
                self.parameter_fields[slot - 1] is Some
            } else {
                true
            },
            _ => forall|k: int|
                0 <= k < shown.operands.len() && k < own_operands(
                    shown.label,
                    shown.operands.len(),
                ) ==> self.reaches(#[trigger] shown.operands[k]),
        }
    }

    /// Whether every local of a default has a number to go to.
    pub open spec fn moves(self, shown: IrTree) -> bool
        decreases shown,
    {
        &&& self.shift.moves(shown.label)
        &&& forall|k: int|
            0 <= k < shown.operands.len() && k < own_operands(
                shown.label,
                shown.operands.len(),
            ) ==> self.moves(#[trigger] shown.operands[k])
    }

    /// The default as the method evaluates it.
    pub open spec fn reframed(self, shown: IrTree) -> IrTree
        decreases shown,
    {
        match shown.label {
            IrLabel::GetValue(slot) if slot == 0 => value_tree(self.frame.receiver->0),
            IrLabel::GetValue(slot) if slot <= self.parameter_fields.len() => field_tree(
                value_tree(self.frame.object),
                self.class,
                self.parameter_fields[slot - 1]->0,
            ),
            _ => IrTree {
                label: moved(shown.label, |slot: u32| self.shift.place(slot)),
                operands: Seq::new(
                    shown.operands.len(),
                    |k: int|
                        if 0 <= k < shown.operands.len() && k < own_operands(
                            shown.label,
                            shown.operands.len(),
                        ) {
                            self.reframed(shown.operands[k])
                        } else {
                            shown.operands[k]
                        },
                ),
            },
        }
    }

}

/// Whether an expression and everything below it were added behind the first `base` expressions.
pub open spec fn apart(exprs: Seq<IrExpr>, base: nat, id: ExprId, shown: IrTree) -> bool
    decreases shown,
{
    &&& base <= id
    &&& forall|k: int|
        0 <= k < shown.operands.len() ==> apart(
            exprs,
            base,
            exprs[id as int].operands()[k],
            #[trigger] shown.operands[k],
        )
}

proof fn lemma_apart_kept(
    before: Seq<IrExpr>,
    after: Seq<IrExpr>,
    base: nat,
    id: ExprId,
    shown: IrTree,
)
    requires
        grows(before, after),
        depicts(before, id, shown),
        apart(before, base, id, shown),
    ensures
        apart(after, base, id, shown),
    decreases shown,
{
    assert(after[id as int] == before[id as int]);
    assert forall|k: int| 0 <= k < shown.operands.len() implies apart(
        after,
        base,
        after[id as int].operands()[k],
        #[trigger] shown.operands[k],
    ) by {
        lemma_apart_kept(
            before,
            after,
            base,
            before[id as int].operands()[k],
            shown.operands[k],
        );
    }
}

/// Which expressions are copies of which: of those in the frame of a default, and of those in the
/// frame of a lambda inside it.
pub struct CopiesView {
    pub framed: Map<ExprId, ExprId>,
    pub inlined: Map<ExprId, ExprId>,
}

/// Whether a map takes no two expressions to one, and none to an expression of `before`.
pub open spec fn one_to_one(
    before: Seq<IrExpr>,
    after: Seq<IrExpr>,
    copies: Map<ExprId, ExprId>,
) -> bool {
    &&& forall|id: ExprId| #[trigger]
        copies.contains_key(id) ==> id < before.len() && before.len() <= copies[id] < after.len()
    &&& forall|left: ExprId, right: ExprId|
        #[trigger] copies.contains_key(left) && #[trigger] copies.contains_key(right)
            && copies[left] == copies[right] ==> left == right
}

impl ReframingView {
    /// Whether an expression reads a value that the method has in another place.
    pub open spec fn replaces(self, label: IrLabel) -> bool {
        label matches IrLabel::GetValue(slot) && slot <= self.parameter_fields.len()
    }

    /// Whether an expression reads a parameter of the constructor.
    pub open spec fn rereads(self, label: IrLabel) -> bool {
        label matches IrLabel::GetValue(slot) && 0 < slot <= self.parameter_fields.len()
    }

    /// The lines once the copies of the first `count` expressions are attributed: a property that is
    /// read in place of a parameter to the line of the read, and what is the default's own, where it
    /// has no line, to that of the property.
    pub open spec fn attributed(
        self,
        before: Seq<IrExpr>,
        lines: Map<ExprId, u32>,
        copies: Map<ExprId, ExprId>,
        count: nat,
    ) -> Map<ExprId, u32>
        decreases count,
    {
        if count == 0 {
            lines
        } else {
            let earlier = self.attributed(before, lines, copies, (count - 1) as nat);
            let id = (count - 1) as ExprId;
            if !copies.contains_key(id) {
                earlier
            } else if self.rereads(before[id as int].label()) {
                match self.frame.read_line {
                    Some(line) => earlier.insert(copies[id], line),
                    None => earlier,
                }
            } else {
                match self.frame.property_line {
                    Some(line) if !earlier.contains_key(copies[id]) => earlier.insert(
                        copies[id],
                        line,
                    ),
                    _ => earlier,
                }
            }
        }
    }

    /// Whether the copy of an expression of the default stands over the copies of its operands.
    pub open spec fn copied_over(
        self,
        before: Seq<IrExpr>,
        after: Seq<IrExpr>,
        copies: CopiesView,
        id: ExprId,
    ) -> bool {
        let from = before[id as int].operands();
        let to = after[copies.framed[id] as int].operands();
        &&& from.len() == to.len()
        &&& forall|k: int|
            #![trigger from[k]]
            #![trigger to[k]]
            0 <= k < from.len() ==> if k < own_operands(before[id as int].label(), from.len()) {
                copies.framed.contains_key(from[k]) && to[k] == copies.framed[from[k]]
            } else {
                copies.inlined.contains_key(from[k]) && to[k] == copies.inlined[from[k]]
            }
    }

    /// Whether the copies stand to each other as what they are copies of does: an expression that
    /// two others share has one copy, which their copies share.
    pub open spec fn mirrors(
        self,
        before: Seq<IrExpr>,
        after: Seq<IrExpr>,
        copies: CopiesView,
    ) -> bool {
        &&& one_to_one(before, after, copies.framed)
        &&& one_to_one(before, after, copies.inlined)
        &&& forall|id: ExprId| #[trigger]
            copies.framed.contains_key(id) ==> self.replaces(before[id as int].label())
                || self.copied_over(before, after, copies, id)
        &&& forall|id: ExprId| #[trigger]
            copies.inlined.contains_key(id) ==> inlined_over(before, after, copies.inlined, id)
    }
}

/// Whether the copy of an expression in an inlined body stands over the copies of its operands.
pub open spec fn inlined_over(
    before: Seq<IrExpr>,
    after: Seq<IrExpr>,
    copies: Map<ExprId, ExprId>,
    id: ExprId,
) -> bool {
    let from = before[id as int].operands();
    let to = after[copies[id] as int].operands();
    &&& from.len() == to.len()
    &&& forall|k: int|
        #![trigger from[k]]
        #![trigger to[k]]
        0 <= k < from.len() ==> copies.contains_key(from[k]) && to[k] == copies[from[k]]
}

/// The copies that were made of a default so far.
struct Copies {
    framed: HashMap<ExprId, ExprId>,
    inlined: HashMap<ExprId, ExprId>,
}

impl Copies {
    spec fn shown(&self) -> CopiesView {
        CopiesView { framed: self.framed@, inlined: self.inlined@ }
    }

    /// Whether the copies are those of expressions of `start`, as `rule` has them.
    spec fn follows(&self, rule: ReframingView, start: Seq<IrExpr>, exprs: Seq<IrExpr>) -> bool {
        &&& rule.mirrors(start, exprs, self.shown())
        &&& forall|id: ExprId| #[trigger]
            self.framed@.contains_key(id) ==> stands_for(
                start,
                exprs,
                id,
                self.framed@[id],
                rule.reframed(tree(start, id)),
            ) && rule.reaches(tree(start, id))
        &&& forall|id: ExprId| #[trigger]
            self.inlined@.contains_key(id) ==> stands_for(
                start,
                exprs,
                id,
                self.inlined@[id],
                tree(start, id),
            )
    }
}

/// Whether `copy` shows `shown` and stands apart from everything in `start`, where the expression
/// it is a copy of stands.
spec fn stands_for(
    start: Seq<IrExpr>,
    exprs: Seq<IrExpr>,
    id: ExprId,
    copy: ExprId,
    shown: IrTree,
) -> bool {
    &&& grounded(start, id)
    &&& depicts(exprs, copy, shown)
    &&& apart(exprs, start.len(), copy, shown)
}

proof fn lemma_follows_kept(
    copies: Copies,
    rule: ReframingView,
    start: Seq<IrExpr>,
    before: Seq<IrExpr>,
    after: Seq<IrExpr>,
)
    requires
        copies.follows(rule, start, before),
        grows(before, after),
    ensures
        copies.follows(rule, start, after),
{
    let shown = copies.shown();
    assert forall|id: ExprId| #[trigger] copies.framed@.contains_key(id) implies stands_for(
        start,
        after,
        id,
        copies.framed@[id],
        rule.reframed(tree(start, id)),
    ) && (rule.replaces(start[id as int].label()) || rule.copied_over(start, after, shown, id)) by {
        let copy = copies.framed@[id];
        lemma_kept(before, after, copy, rule.reframed(tree(start, id)));
        lemma_apart_kept(before, after, start.len(), copy, rule.reframed(tree(start, id)));
        assert(after[copy as int] == before[copy as int]);
        if !rule.replaces(start[id as int].label()) {
            assert(rule.copied_over(start, before, shown, id));
        }
    }
    assert forall|id: ExprId| #[trigger] copies.inlined@.contains_key(id) implies stands_for(
        start,
        after,
        id,
        copies.inlined@[id],
        tree(start, id),
    ) && inlined_over(start, after, shown.inlined, id) by {
        let copy = copies.inlined@[id];
        lemma_kept(before, after, copy, tree(start, id));
        lemma_apart_kept(before, after, start.len(), copy, tree(start, id));
        assert(after[copy as int] == before[copy as int]);
        assert(inlined_over(start, before, shown.inlined, id));
    }
}

proof fn lemma_framed_added(
    earlier: Copies,
    later: Copies,
    rule: ReframingView,
    start: Seq<IrExpr>,
    before: Seq<IrExpr>,
    after: Seq<IrExpr>,
    id: ExprId,
    copy: ExprId,
)
    requires
        earlier.follows(rule, start, before),
        grows(start, before),
        grows(before, after),
        !earlier.framed@.contains_key(id),
        later.framed@ == earlier.framed@.insert(id, copy),
        later.inlined@ == earlier.inlined@,
        before.len() <= copy < after.len(),
        id < start.len(),
        stands_for(start, after, id, copy, rule.reframed(tree(start, id))),
        rule.reaches(tree(start, id)),
        rule.replaces(start[id as int].label()) || rule.copied_over(
            start,
            after,
            later.shown(),
            id,
        ),
    ensures
        later.follows(rule, start, after),
{
    lemma_follows_kept(earlier, rule, start, before, after);
    assert(earlier.follows(rule, start, after));
    assert(rule.mirrors(start, after, earlier.shown()));
    assert(one_to_one(start, before, earlier.framed@));
    assert forall|other: ExprId| #[trigger] later.framed@.contains_key(other) implies rule.replaces(
        start[other as int].label(),
    ) || rule.copied_over(start, after, later.shown(), other) by {
        if other != id && !rule.replaces(start[other as int].label()) {
            assert(earlier.framed@.contains_key(other));
            assert(rule.copied_over(start, after, earlier.shown(), other));
            let from = start[other as int].operands();
            assert forall|k: int| 0 <= k < from.len() && k < own_operands(
                start[other as int].label(),
                from.len(),
            ) implies from[k] != id by {
                assert(earlier.framed@.contains_key(from[k]));
            }
        }
    }
    assert forall|left: ExprId, right: ExprId|
        #[trigger] later.framed@.contains_key(left) && #[trigger] later.framed@.contains_key(right)
            && later.framed@[left] == later.framed@[right] implies left == right by {
        if left != id {
            assert(earlier.framed@.contains_key(left));
        }
        if right != id {
            assert(earlier.framed@.contains_key(right));
        }
    }
    assert forall|other: ExprId| #[trigger] later.framed@.contains_key(other) implies stands_for(
        start,
        after,
        other,
        later.framed@[other],
        rule.reframed(tree(start, other)),
    ) && rule.reaches(tree(start, other)) && other < start.len() && start.len()
        <= later.framed@[other] < after.len() by {
        if other != id {
            assert(earlier.framed@.contains_key(other));
        }
    }
    assert(later.shown().inlined == earlier.shown().inlined);
}

proof fn lemma_inlined_added(
    earlier: Copies,
    later: Copies,
    rule: ReframingView,
    start: Seq<IrExpr>,
    before: Seq<IrExpr>,
    after: Seq<IrExpr>,
    id: ExprId,
    copy: ExprId,
)
    requires
        earlier.follows(rule, start, before),
        grows(start, before),
        grows(before, after),
        !earlier.inlined@.contains_key(id),
        later.inlined@ == earlier.inlined@.insert(id, copy),
        later.framed@ == earlier.framed@,
        before.len() <= copy < after.len(),
        id < start.len(),
        stands_for(start, after, id, copy, tree(start, id)),
        inlined_over(start, after, later.inlined@, id),
    ensures
        later.follows(rule, start, after),
{
    lemma_follows_kept(earlier, rule, start, before, after);
    assert(earlier.follows(rule, start, after));
    assert(rule.mirrors(start, after, earlier.shown()));
    assert(one_to_one(start, before, earlier.inlined@));
    assert forall|other: ExprId| #[trigger] later.inlined@.contains_key(other) implies inlined_over(
        start,
        after,
        later.inlined@,
        other,
    ) by {
        if other != id {
            assert(earlier.inlined@.contains_key(other));
            assert(inlined_over(start, after, earlier.inlined@, other));
        }
    }
    assert forall|other: ExprId| #[trigger] later.framed@.contains_key(other) implies rule.replaces(
        start[other as int].label(),
    ) || rule.copied_over(start, after, later.shown(), other) by {
        if !rule.replaces(start[other as int].label()) {
            assert(rule.copied_over(start, after, earlier.shown(), other));
            let from = start[other as int].operands();
            assert forall|k: int| 0 <= k < from.len() && k >= own_operands(
                start[other as int].label(),
                from.len(),
            ) implies from[k] != id by {
                assert(earlier.inlined@.contains_key(from[k]));
            }
        }
    }
    assert forall|left: ExprId, right: ExprId|
        #[trigger] later.inlined@.contains_key(left) && #[trigger] later.inlined@.contains_key(
            right,
        ) && later.inlined@[left] == later.inlined@[right] implies left == right by {
        if left != id {
            assert(earlier.inlined@.contains_key(left));
        }
        if right != id {
            assert(earlier.inlined@.contains_key(right));
        }
    }
    assert forall|other: ExprId| #[trigger] later.inlined@.contains_key(other) implies stands_for(
        start,
        after,
        other,
        later.inlined@[other],
        tree(start, other),
    ) && other < start.len() && start.len() <= later.inlined@[other] < after.len() by {
        if other != id {
            assert(earlier.inlined@.contains_key(other));
        }
    }
}

proof fn lemma_unmoved(label: IrLabel, shift: LocalShift)
    requires
        shift.from == shift.to,
    ensures
        moved(label, |slot: u32| shift.place(slot)) == label,
        shift.moves(label),
{
    let place = |slot: u32| shift.place(slot);
    if let IrLabel::Try { catches, has_finally } = label {
        assert(moved(label, place)->Try_catches =~= catches);
    }
}

/// How deep the first `count` operands of an expression go.
spec fn tallest(shown: IrTree, count: nat) -> nat
    decreases shown, count,
{
    if count == 0 || count > shown.operands.len() {
        0
    } else {
        let earlier = tallest(shown, (count - 1) as nat);
        let last = height(shown.operands[count - 1]) + 1;
        if earlier < last {
            last
        } else {
            earlier
        }
    }
}

/// How deep an expression goes.
spec fn height(shown: IrTree) -> nat
    decreases shown, shown.operands.len() + 1,
{
    tallest(shown, shown.operands.len())
}

proof fn lemma_height(shown: IrTree, count: nat, k: int)
    requires
        0 <= k < count <= shown.operands.len(),
    ensures
        height(shown.operands[k]) < tallest(shown, count),
    decreases count,
{
    if k < count - 1 {
        lemma_height(shown, (count - 1) as nat, k);
    }
}

/// Whether `later` holds everything that `earlier` holds.
spec fn keeps(earlier: Map<ExprId, ExprId>, later: Map<ExprId, ExprId>) -> bool {
    forall|id: ExprId|
        #![trigger earlier.contains_key(id)]
        #![trigger later.contains_key(id)]
        earlier.contains_key(id) ==> later.contains_key(id) && later[id] == earlier[id]
}

/// Whether what `later` holds beyond `earlier` goes less deep than `limit`.
spec fn adds_below(
    start: Seq<IrExpr>,
    earlier: Map<ExprId, ExprId>,
    later: Map<ExprId, ExprId>,
    limit: nat,
) -> bool {
    forall|id: ExprId| #[trigger]
        later.contains_key(id) && !earlier.contains_key(id) ==> height(tree(start, id)) < limit
}

impl Reframing {
    fn copy(
        &self,
        exprs: &mut Vec<IrExpr>,
        copies: &mut Copies,
        id: ExprId,
        Ghost(start): Ghost<Seq<IrExpr>>,
        Ghost(shown): Ghost<IrTree>,
    ) -> (out: Option<ExprId>)
        requires
            grows(start, old(exprs)@),
            depicts(start, id, shown),
            self@.moves(shown),
            old(copies).follows(self@, start, old(exprs)@),
        ensures
            grows(old(exprs)@, final(exprs)@),
            final(copies).follows(self@, start, final(exprs)@),
            adds_below(start, old(copies).framed@, final(copies).framed@, height(shown) + 1),
            adds_below(start, old(copies).inlined@, final(copies).inlined@, height(shown)),
            keeps(old(copies).framed@, final(copies).framed@),
            keeps(old(copies).inlined@, final(copies).inlined@),
            match out {
                Some(copy) => self@.reaches(shown) && final(copies).framed@.contains_key(id)
                    && final(copies).framed@[id] == copy,
                None => !self@.reaches(shown),
            },
        decreases shown,
    {
        proof {
            lemma_depicted(start, id, shown);
        }
        if let Some(copy) = copies.framed.get(&id) {
            return Some(*copy);
        }
        let ghost first = exprs@;
        let ghost held = *copies;
        assert(exprs@[id as int] == start[id as int]);
        match &exprs[id] {
            IrExpr::GetValue(slot) => {
                let slot: u32 = *slot;
                if (slot as usize) <= self.parameter_fields.len() {
                    let copy: ExprId = if slot == 0 {
                        match self.frame.receiver {
                            Some(receiver) => plant_value(exprs, receiver),
                            None => {
                                return None;
                            },
                        }
                    } else {
                        match self.parameter_fields[slot as usize - 1] {
                            Some(field) => {
                                let object: ExprId = plant_value(exprs, self.frame.object);
                                plant_field(exprs, object, self.class, field)
                            },
                            None => {
                                return None;
                            },
                        }
                    };
                    copies.framed.insert(id, copy);
                    proof {
                        let result = self@.reframed(shown);
                        lemma_depicts_its_tree(exprs@, copy);
                        assert(tree(exprs@, copy) == result);
                        if slot != 0 {
                            assert(result.operands.len() == 1);
                            let object = exprs@[copy as int].operands()[0];
                            assert(apart(exprs@, start.len(), object, result.operands[0]));
                        }
                        assert(apart(exprs@, start.len(), copy, result));
                        lemma_framed_added(
                            held,
                            *copies,
                            self@,
                            start,
                            first,
                            exprs@,
                            id,
                            copy,
                        );
                    }
                    return Some(copy);
                }
            },
            _ => {},
        }
        let operands = operand_list(&exprs[id]);
        let own: usize = match &exprs[id] {
            IrExpr::Lambda { captures, .. } => captures.len(),
            _ => operands.len(),
        };
        assert(own as nat == own_operands(shown.label, shown.operands.len()));
        let ghost parts = self@.reframed(shown).operands;
        let mut made: Vec<ExprId> = Vec::new();
        let mut index: usize = 0;
        assert(trees(exprs@, made@) =~= parts.take(0));
        while index < operands.len()
            invariant
                index <= operands@.len(),
                operands@ == start[id as int].operands(),
                depicts(start, id, shown),
                self@.moves(shown),
                own as nat == own_operands(shown.label, shown.operands.len()),
                grows(start, first),
                grows(first, exprs@),
                first == old(exprs)@,
                held == *old(copies),
                parts == self@.reframed(shown).operands,
                parts.len() == operands@.len(),
                forall|k: int|
                    0 <= k < parts.len() ==> #[trigger] parts[k] == (if k < own {
                        self@.reframed(shown.operands[k])
                    } else {
                        shown.operands[k]
                    }),
                shown.label is GetValue ==> operands@.len() == 0,
                copies.follows(self@, start, exprs@),
                keeps(held.framed@, copies.framed@),
                keeps(held.inlined@, copies.inlined@),
                adds_below(start, held.framed@, copies.framed@, height(shown)),
                adds_below(start, held.inlined@, copies.inlined@, height(shown)),
                made@.len() == index,
                forall|k: int|
                    0 <= k < index && k < own ==> self@.reaches(#[trigger] shown.operands[k]),
                forall|k: int|
                    #![trigger operands@[k]]
                    #![trigger made@[k]]
                    0 <= k < index ==> if k < own {
                        copies.framed@.contains_key(operands@[k]) && made@[k]
                            == copies.framed@[operands@[k]]
                    } else {
                        copies.inlined@.contains_key(operands@[k]) && made@[k]
                            == copies.inlined@[operands@[k]]
                    },
                all_grounded(exprs@, made@),
                trees(exprs@, made@) == parts.take(index as int),
            decreases operands@.len() - index,
        {
            let ghost before = exprs@;
            let ghost part = shown.operands[index as int];
            proof {
                assert(depicts(start, operands@[index as int], part));
                lemma_depicted(start, operands@[index as int], part);
                lemma_height(shown, shown.operands.len(), index as int);
            }
            let copied: ExprId = if index < own {
                assert(self@.moves(part));
                match self.copy(exprs, copies, operands[index], Ghost(start), Ghost(part)) {
                    Some(copied) => {
                        assert(copies.framed@.contains_key(operands@[index as int]));
                        copied
                    },
                    None => {
                        assert(!self@.reaches(shown.operands[index as int]));
                        return None;
                    },
                }
            } else {
                let copied: ExprId = copy_whole(
                    exprs,
                    copies,
                    operands[index],
                    Ghost(self@),
                    Ghost(start),
                    Ghost(part),
                );
                assert(copies.inlined@.contains_key(operands@[index as int]));
                copied
            };
            proof {
                lemma_depicted(exprs@, copied, parts[index as int]);
                lemma_listed(before, exprs@, made@, copied);
                assert(parts.take(index as int + 1) =~= parts.take(index as int).push(
                    parts[index as int],
                ));
            }
            made.push(copied);
            index += 1;
        }
        assert(parts.take(index as int) =~= parts);
        assert(exprs@[id as int] == start[id as int]);
        let ghost before = exprs@;
        let ghost grown = *copies;
        let rebuilt = rebuild(&exprs[id], &made, &self.shift);
        let copy: ExprId = plant(exprs, rebuilt);
        assert(tree(exprs@, copy) == self@.reframed(shown));
        copies.framed.insert(id, copy);
        proof {
            let result = self@.reframed(shown);
            lemma_depicts_its_tree(exprs@, copy);
            lemma_follows_kept(grown, self@, start, before, exprs@);
            assert forall|k: int| 0 <= k < result.operands.len() implies apart(
                exprs@,
                start.len(),
                exprs@[copy as int].operands()[k],
                #[trigger] result.operands[k],
            ) by {
                let operand = operands@[k];
                lemma_depicted(start, operand, shown.operands[k]);
                assert(made@[k] == exprs@[copy as int].operands()[k]);
                if k < own {
                    assert(grown.framed@.contains_key(operand));
                } else {
                    assert(grown.inlined@.contains_key(operand));
                }
            }
            assert(apart(exprs@, start.len(), copy, result));
            assert(!grown.framed@.contains_key(id));
            assert(self@.copied_over(start, exprs@, copies.shown(), id)) by {
                assert forall|k: int| 0 <= k < operands@.len() && k < own implies copies.framed@[operands@[k]]
                    == grown.framed@[operands@[k]] by {
                    assert(made@[k] == grown.framed@[operands@[k]]);
                    assert(grown.framed@.contains_key(operands@[k]));
                }
            }
            lemma_framed_added(grown, *copies, self@, start, before, exprs@, id, copy);
        }
        Some(copy)
    }
}

/// A copy of an expression in an inlined body and of everything below it.
fn copy_whole(
    exprs: &mut Vec<IrExpr>,
    copies: &mut Copies,
    id: ExprId,
    Ghost(rule): Ghost<ReframingView>,
    Ghost(start): Ghost<Seq<IrExpr>>,
    Ghost(shown): Ghost<IrTree>,
) -> (copy: ExprId)
    requires
        grows(start, old(exprs)@),
        depicts(start, id, shown),
        old(copies).follows(rule, start, old(exprs)@),
    ensures
        grows(old(exprs)@, final(exprs)@),
        final(copies).follows(rule, start, final(exprs)@),
        final(copies).framed@ == old(copies).framed@,
        adds_below(start, old(copies).inlined@, final(copies).inlined@, height(shown) + 1),
        keeps(old(copies).inlined@, final(copies).inlined@),
        final(copies).inlined@.contains_key(id),
        final(copies).inlined@[id] == copy,
    decreases shown,
{
    proof {
        lemma_depicted(start, id, shown);
    }
    if let Some(copy) = copies.inlined.get(&id) {
        return *copy;
    }
    let ghost first = exprs@;
    let ghost held = *copies;
    assert(exprs@[id as int] == start[id as int]);
    let shift = LocalShift { from: 0, to: 0 };
    let operands = operand_list(&exprs[id]);
    let mut made: Vec<ExprId> = Vec::new();
    let mut index: usize = 0;
    assert(trees(exprs@, made@) =~= shown.operands.take(0));
    while index < operands.len()
        invariant
            index <= operands@.len(),
            operands@ == start[id as int].operands(),
            depicts(start, id, shown),
            grows(start, first),
            grows(first, exprs@),
            first == old(exprs)@,
            held == *old(copies),
            copies.follows(rule, start, exprs@),
            copies.framed@ == held.framed@,
            keeps(held.inlined@, copies.inlined@),
            adds_below(start, held.inlined@, copies.inlined@, height(shown)),
            made@.len() == index,
            forall|k: int|
                #![trigger operands@[k]]
                #![trigger made@[k]]
                0 <= k < index ==> copies.inlined@.contains_key(operands@[k]) && made@[k]
                    == copies.inlined@[operands@[k]],
            all_grounded(exprs@, made@),
            trees(exprs@, made@) == shown.operands.take(index as int),
        decreases operands@.len() - index,
    {
        let ghost before = exprs@;
        let ghost part = shown.operands[index as int];
        proof {
            assert(depicts(start, operands@[index as int], part));
            lemma_depicted(start, operands@[index as int], part);
            lemma_height(shown, shown.operands.len(), index as int);
        }
        let copied: ExprId = copy_whole(
            exprs,
            copies,
            operands[index],
            Ghost(rule),
            Ghost(start),
            Ghost(part),
        );
        proof {
            lemma_depicted(exprs@, copied, part);
            lemma_listed(before, exprs@, made@, copied);
            assert(shown.operands.take(index as int + 1) =~= shown.operands.take(
                index as int,
            ).push(part));
        }
        made.push(copied);
        index += 1;
    }
    assert(shown.operands.take(index as int) =~= shown.operands);
    assert(exprs@[id as int] == start[id as int]);
    proof {
        lemma_unmoved(shown.label, shift);
    }
    let ghost before = exprs@;
    let ghost grown = *copies;
    let rebuilt = rebuild(&exprs[id], &made, &shift);
    let copy: ExprId = plant(exprs, rebuilt);
    assert(tree(exprs@, copy) == shown);
    copies.inlined.insert(id, copy);
    proof {
        lemma_depicts_its_tree(exprs@, copy);
        lemma_follows_kept(grown, rule, start, before, exprs@);
        assert forall|k: int| 0 <= k < shown.operands.len() implies apart(
            exprs@,
            start.len(),
            exprs@[copy as int].operands()[k],
            #[trigger] shown.operands[k],
        ) by {
            lemma_depicted(start, operands@[k], shown.operands[k]);
            assert(made@[k] == exprs@[copy as int].operands()[k]);
            assert(grown.inlined@.contains_key(operands@[k]));
        }
        assert(apart(exprs@, start.len(), copy, shown));
        assert(!grown.inlined@.contains_key(id));
        lemma_inlined_added(grown, *copies, rule, start, before, exprs@, id, copy);
    }
    copy
}

/// The fields in which the first `count` constructor parameters are stored.
pub open spec fn stored_fields(arguments: Seq<IrCtorArg>, count: nat) -> Seq<Option<u32>> {
    Seq::new(
        count,
        |k: int|
            if arguments[k].is_field {
                arguments[k].field_index
            } else {
                None
            },
    )
}

fn parameter_fields(arguments: &Vec<IrCtorArg>, count: usize) -> (fields: Vec<Option<u32>>)
    requires
        count <= arguments@.len(),
    ensures
        fields@ == stored_fields(arguments@, count as nat),
{
    let mut fields: Vec<Option<u32>> = Vec::new();
    let mut index: usize = 0;
    while index < count
        invariant
            index <= count,
            count <= arguments@.len(),
            fields@.len() == index,
            forall|k: int|
                0 <= k < index ==> #[trigger] fields@[k] == stored_fields(
                    arguments@,
                    count as nat,
                )[k],
        decreases count - index,
    {
        fields.push(
            if arguments[index].is_field {
                arguments[index].field_index
            } else {
                None
            },
        );
        index += 1;
    }
    assert(fields@ =~= stored_fields(arguments@, count as nat));
    fields
}

/// How a default that sees `count` constructor parameters is taken over into `frame`.
pub open spec fn reframing(
    ir: IrFile,
    class_id: ClassId,
    count: u32,
    frame: DefaultFrame,
) -> ReframingView {
    ReframingView {
        shift: LocalShift { from: (count + 1) as u32, to: frame.first_free_local },
        parameter_fields: stored_fields(ir.classes@[class_id as int].ctor_args@, count as nat),
        class: class_id,
        frame,
    }
}

/// What the default of a property is in a generated method.
pub enum FramedDefault {
    /// The property declares none.
    Undeclared,
    /// It uses a value that the method cannot reach.
    Unreachable,
    /// It evaluates so.
    Evaluated(IrTree),
}

/// The default of a property, as the method evaluates it.
pub open spec fn framed_default(
    ir: IrFile,
    class_id: ClassId,
    field: int,
    frame: DefaultFrame,
) -> FramedDefault {
    match default_in_scope(ir, class_id, field) {
        None => FramedDefault::Undeclared,
        Some((default, count)) => {
            let shown = tree(ir.exprs@, default);
            let rule = reframing(ir, class_id, count, frame);
            if rule.reaches(shown) {
                FramedDefault::Evaluated(rule.reframed(shown))
            } else {
                FramedDefault::Unreachable
            }
        },
    }
}

/// Whether the default of a property can be taken over into `frame`: it unfolds to a tree, and its
/// locals have numbers to go to.
pub open spec fn default_fits(
    ir: IrFile,
    class_id: ClassId,
    field: int,
    frame: DefaultFrame,
) -> bool {
    default_in_scope(ir, class_id, field) matches Some((default, count)) ==> count < u32::MAX
        && grounded(ir.exprs@, default) && reframing(ir, class_id, count, frame).moves(
        tree(ir.exprs@, default),
    )
}

/// Whether `copy` is the copy of the default of a property among `copies`, which stand to each other
/// as the parts of the default do.
pub open spec fn copied_default(
    before: IrFile,
    after: IrFile,
    class_id: ClassId,
    field: int,
    frame: DefaultFrame,
    copies: CopiesView,
    copy: ExprId,
) -> bool {
    default_in_scope(before, class_id, field) matches Some((default, count)) && reframing(
        before,
        class_id,
        count,
        frame,
    ).mirrors(before.exprs@, after.exprs@, copies) && copies.framed.contains_key(default)
        && copies.framed[default] == copy && after.expr_source_lines@ == reframing(
        before,
        class_id,
        count,
        frame,
    ).attributed(
        before.exprs@,
        before.expr_source_lines@,
        copies.framed,
        before.exprs@.len(),
    )
}

impl Reframing {
    /// Attribute the copies to the lines of the frame.
    fn attribute(&self, ir: &mut IrFile, copies: &HashMap<ExprId, ExprId>, count: usize)
        requires
            count <= old(ir).exprs@.len(),
        ensures
            *final(ir) == (IrFile { expr_source_lines: final(ir).expr_source_lines, ..*old(ir) }),
            final(ir).expr_source_lines@ == self@.attributed(
                old(ir).exprs@,
                old(ir).expr_source_lines@,
                copies@,
                count as nat,
            ),
            self.frame.property_line is None && self.frame.read_line is None ==> *final(ir)
                == *old(ir),
    {
        let ghost start = *ir;
        let mut next: usize = 0;
        while next < count
            invariant
                next <= count <= start.exprs@.len(),
                *ir == (IrFile { expr_source_lines: ir.expr_source_lines, ..start }),
                ir.expr_source_lines@ == self@.attributed(
                    start.exprs@,
                    start.expr_source_lines@,
                    copies@,
                    next as nat,
                ),
                self.frame.property_line is None && self.frame.read_line is None ==> *ir == start,
            decreases count - next,
        {
            if let Some(copy) = copies.get(&next) {
                let rereads = match &ir.exprs[next] {
                    IrExpr::GetValue(slot) => 0 < *slot && *slot as usize
                        <= self.parameter_fields.len(),
                    _ => false,
                };
                if rereads {
                    if let Some(line) = self.frame.read_line {
                        ir.expr_source_lines.insert(*copy, line);
                    }
                } else if let Some(line) = self.frame.property_line {
                    if !ir.expr_source_lines.contains_key(copy) {
                        ir.expr_source_lines.insert(*copy, line);
                    }
                }
            }
            next += 1;
        }
    }
}

proof fn lemma_attributed_same(
    rule: ReframingView,
    before: Seq<IrExpr>,
    after: Seq<IrExpr>,
    lines: Map<ExprId, u32>,
    copies: Map<ExprId, ExprId>,
    count: nat,
)
    requires
        grows(before, after),
        count <= before.len(),
    ensures
        rule.attributed(after, lines, copies, count) == rule.attributed(
            before,
            lines,
            copies,
            count,
        ),
    decreases count,
{
    if count > 0 {
        lemma_attributed_same(rule, before, after, lines, copies, (count - 1) as nat);
        assert(after[count - 1] == before[count - 1]);
    }
}

/// A private copy of the default of a property that a generated method evaluates in `frame`; none
/// where the property declares no default or the default uses a value that the method cannot reach.
/// Nothing in the copy is an expression of the constructor, and what the default shares the copy
/// shares. The copy is attributed to the lines of the frame.
pub fn default_in_frame(
    ir: &mut IrFile,
    class_id: ClassId,
    field: usize,
    frame: DefaultFrame,
) -> (copy: Option<ExprId>)
    requires
        class_id < old(ir).classes@.len(),
        defaults_recorded(*old(ir), old(ir).classes@[class_id as int]),
        default_fits(*old(ir), class_id, field as int, frame),
    ensures
        *final(ir) == (IrFile {
            exprs: final(ir).exprs,
            expr_source_lines: final(ir).expr_source_lines,
            ..*old(ir)
        }),
        grows(old(ir).exprs@, final(ir).exprs@),
        copy is None || frame.property_line is None && frame.read_line is None
            ==> final(ir).expr_source_lines == old(ir).expr_source_lines,
        match (copy, framed_default(*old(ir), class_id, field as int, frame)) {
            (Some(copy), FramedDefault::Evaluated(shown)) => grounded(final(ir).exprs@, copy)
                && tree(final(ir).exprs@, copy) == shown && apart(
                final(ir).exprs@,
                old(ir).exprs@.len(),
                copy,
                shown,
            ) && exists|copies: CopiesView| #[trigger]
                copied_default(*old(ir), *final(ir), class_id, field as int, frame, copies, copy),
            (None, FramedDefault::Undeclared) => true,
            (None, FramedDefault::Unreachable) => true,
            _ => false,
        },
{
    match checked_default_in_scope(ir, class_id, field) {
        None => None,
        Some((default, count)) => {
            let rule = Reframing {
                shift: LocalShift { from: count + 1, to: frame.first_free_local },
                parameter_fields: parameter_fields(
                    &ir.classes[class_id].ctor_args,
                    count as usize,
                ),
                class: class_id,
                frame,
            };
            let ghost shown = tree(ir.exprs@, default);
            proof {
                lemma_depicts_its_tree(ir.exprs@, default);
            }
            assert(rule@ == reframing(*ir, class_id, count, frame));
            let ghost start = *ir;
            let known: usize = ir.exprs.len();
            let mut copies = Copies { framed: HashMap::new(), inlined: HashMap::new() };
            let copy = rule.copy(
                &mut ir.exprs,
                &mut copies,
                default,
                Ghost(start.exprs@),
                Ghost(shown),
            );
            if copy.is_some() {
                let ghost copied = *ir;
                rule.attribute(ir, &copies.framed, known);
                proof {
                    lemma_attributed_same(
                        rule@,
                        start.exprs@,
                        copied.exprs@,
                        start.expr_source_lines@,
                        copies.framed@,
                        start.exprs@.len(),
                    );
                }
            }
            proof {
                if let Some(copy) = copy {
                    lemma_depicted(ir.exprs@, copy, rule@.reframed(shown));
                    assert(copied_default(
                        start,
                        *ir,
                        class_id,
                        field as int,
                        frame,
                        copies.shown(),
                        copy,
                    ));
                }
            }
            copy
        },
    }
}

/// A default that names no value of the frame it was checked in means the same in any other.
pub proof fn a_default_without_values_is_kept(rule: ReframingView, shown: IrTree)
    requires
        names_no_values(shown),
    ensures
        rule.reaches(shown),
        rule.reframed(shown) == shown,
    decreases shown,
{
    let place = |slot: u32| rule.shift.place(slot);
    let result = rule.reframed(shown);
    assert forall|k: int| 0 <= k < shown.operands.len() implies rule.reaches(
        #[trigger] shown.operands[k],
    ) && rule.reframed(shown.operands[k]) == shown.operands[k] by {
        a_default_without_values_is_kept(rule, shown.operands[k]);
    }
    assert(result.operands =~= shown.operands);
    if let IrLabel::Try { catches, has_finally } = shown.label {
        assert(moved(shown.label, place)->Try_catches =~= catches) by {
            assert(slots_of(shown.label).len() == catches.len());
        }
    }
}

/// Whether nothing in an expression names a value of the frame.
pub open spec fn names_no_values(shown: IrTree) -> bool
    decreases shown,
{
    &&& slots_of(shown.label).len() == 0
    &&& forall|k: int| 0 <= k < shown.operands.len() ==> names_no_values(#[trigger] shown.operands[k])
}

} // verus!
