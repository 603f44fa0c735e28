//! What a default computes in the frame of a generated method.

use vstd::prelude::*;

use crate::ir::copy::LocalShift;
use crate::ir::expr::{ClassId, IrLabel};
use crate::ir::file::{IrCtorArg, IrFile};
use crate::ir::run::{ask, run, run_operands, Datum, Event, Machine, Outcome, Run, World};
use crate::ir::tree::{field_tree, value_tree, IrTree};
use crate::plugins::serialization::property_default::{
    default_in_scope, parameter_of, reframing, stores, DefaultFrame, ReframingView,
};

verus! {

/// Whether an expression is computed from constants and values of its frame.
pub open spec fn is_computed(shown: IrTree) -> bool
    decreases shown,
{
    match shown.label {
        IrLabel::Const(_) | IrLabel::GetValue(_) => shown.operands.len() == 0,
        IrLabel::PrimitiveBinOp(_) => shown.operands.len() == 2 && is_computed(shown.operands[0])
            && is_computed(shown.operands[1]),
        _ => false,
    }
}

/// Whether a method sees what the constructor saw: the receiver in its place, each parameter in the
/// field that stores it, and each further local where it was moved to.
pub open spec fn sees(
    rule: ReframingView,
    world: World,
    constructor: Machine,
    method: Machine,
) -> bool {
    &&& rule.frame.receiver matches Some(receiver) ==> method.locals[receiver]
        == constructor.locals[0]
    &&& forall|slot: u32, field: u32, log: Seq<Event>|
        0 < slot <= rule.parameter_fields.len() && rule.parameter_fields[slot - 1] == Some(field)
            ==> #[trigger] (world.answers)(
            log,
            reads_field(rule, slot, field, method),
        ) == constructor.locals[slot]
    &&& forall|slot: u32|
        slot > rule.parameter_fields.len() ==> method.locals[#[trigger] rule.shift.place(slot)]
            == constructor.locals[slot]
}

/// The read of the field that stores a parameter.
pub open spec fn reads_field(
    rule: ReframingView,
    slot: u32,
    field: u32,
    method: Machine,
) -> Event {
    Event {
        label: IrLabel::GetField { class: rule.class, index: field },
        operands: seq![method.locals[rule.frame.object]],
    }
}

/// A default computes in the method what it computed in the constructor.
pub proof fn a_default_computes_the_same_in_the_method(
    rule: ReframingView,
    shown: IrTree,
    world: World,
    rounds: nat,
    constructor: Machine,
    method: Machine,
)
    requires
        is_computed(shown),
        rule.reaches(shown),
        sees(rule, world, constructor, method),
    ensures
        run(world, rounds, rule.reframed(shown), method).outcome == run(
            world,
            rounds,
            shown,
            constructor,
        ).outcome,
        run(world, rounds, shown, constructor).outcome is Value,
        run(world, rounds, shown, constructor).machine == constructor,
        run(world, rounds, rule.reframed(shown), method).machine.locals == method.locals,
    decreases shown,
{
    let framed = rule.reframed(shown);
    match shown.label {
        IrLabel::Const(value) => {
            assert(framed.label == shown.label);
        },
        IrLabel::GetValue(slot) => {
            if slot == 0 {
                assert(framed == value_tree(rule.frame.receiver->0));
            } else if slot <= rule.parameter_fields.len() {
                let field = rule.parameter_fields[slot - 1]->0;
                let read = reads_field(rule, slot, field, method);
                assert(framed == field_tree(value_tree(rule.frame.object), rule.class, field));
                let object = value_tree(rule.frame.object);
                assert(framed.operands[0] == object);
                assert(run(world, rounds, object, method) == (Run {
                    machine: method,
                    outcome: Outcome::Value(method.locals[rule.frame.object]),
                }));
                let none = run_operands(world, rounds, framed, 0, method);
                assert(none.outcome == Ok::<Seq<Datum>, Outcome>(seq![]));
                let one = run_operands(world, rounds, framed, 1, method);
                assert(one.outcome->Ok_0 =~= read.operands);
                assert(run(world, rounds, framed, method) == ask(
                    world,
                    framed.label,
                    read.operands,
                    method,
                ));
                assert((world.answers)(method.log, read) == constructor.locals[slot]);
            } else {
                assert(framed.label == IrLabel::GetValue(rule.shift.place(slot)));
            }
        },
        IrLabel::PrimitiveBinOp(op) => {
            let left = shown.operands[0];
            let right = shown.operands[1];
            assert(framed.label == shown.label);
            assert(framed.operands[0] == rule.reframed(left));
            assert(framed.operands[1] == rule.reframed(right));
            assert(rule.reaches(left) && rule.reaches(right));
            a_default_computes_the_same_in_the_method(
                rule,
                left,
                world,
                rounds,
                constructor,
                method,
            );
            let after = run(world, rounds, rule.reframed(left), method).machine;
            assert(sees(rule, world, constructor, after)) by {
                assert forall|slot: u32, field: u32, log: Seq<Event>|
                    0 < slot <= rule.parameter_fields.len() && rule.parameter_fields[slot - 1]
                        == Some(field) implies #[trigger] (world.answers)(
                    log,
                    reads_field(rule, slot, field, after),
                ) == constructor.locals[slot] by {
                    assert(reads_field(rule, slot, field, after) == reads_field(
                        rule,
                        slot,
                        field,
                        method,
                    ));
                }
            }
            a_default_computes_the_same_in_the_method(
                rule,
                right,
                world,
                rounds,
                constructor,
                after,
            );
        },
        _ => {},
    }
}

/// The locals of a default stay apart where they are moved to: they come to stand behind the free
/// local, and no two in one place.
pub proof fn moved_locals_stay_apart(shift: LocalShift, left: u32, right: u32)
    requires
        shift.from <= left,
        shift.from <= right,
        shift.fits(left),
        shift.fits(right),
    ensures
        shift.to <= shift.place(left),
        shift.place(left) == shift.place(right) <==> left == right,
        left < right ==> shift.place(left) < shift.place(right),
{
}

/// The parameter of a field is the first one that stores it.
pub proof fn the_first_parameter_that_stores_a_field_is_found(
    arguments: Seq<IrCtorArg>,
    field: u32,
)
    ensures
        match parameter_of(arguments, field) {
            Some(place) => place < arguments.len() && stores(arguments[place as int], field)
                && forall|k: int| 0 <= k < place ==> !stores(#[trigger] arguments[k], field),
            None => forall|k: int| 0 <= k < arguments.len() ==> !stores(
                #[trigger] arguments[k],
                field,
            ),
        },
    decreases arguments.len(),
{
    if arguments.len() > 0 {
        let front = arguments.drop_last();
        the_first_parameter_that_stores_a_field_is_found(front, field);
        assert forall|k: int| 0 <= k < front.len() implies front[k] == #[trigger] arguments[k] by {}
    }
}

/// A default sees the parameters in front of its own, and an initializer in the body all of them:
/// each as the field in which it is stored.
pub proof fn a_default_sees_the_parameters_in_front_of_it(
    ir: IrFile,
    class: ClassId,
    field: int,
    frame: DefaultFrame,
)
    ensures
        default_in_scope(ir, class, field) matches Some((default, count)) ==> {
            let arguments = ir.classes@[class as int].ctor_args@;
            let rule = reframing(ir, class, count, frame);
            &&& match parameter_of(arguments, field as u32) {
                Some(place) => count == place && stores(arguments[place as int], field as u32)
                    && arguments[place as int].has_default,
                None => count == arguments.len(),
            }
            &&& rule.parameter_fields.len() == count
            &&& forall|k: int|
                0 <= k < count ==> (#[trigger] rule.parameter_fields[k] matches Some(found)
                    ==> stores(arguments[k], found))
            &&& rule.shift.place((count + 1) as u32) == frame.first_free_local
        },
{
    let arguments = ir.classes@[class as int].ctor_args@;
    the_first_parameter_that_stores_a_field_is_found(arguments, field as u32);
}

} // verus!
