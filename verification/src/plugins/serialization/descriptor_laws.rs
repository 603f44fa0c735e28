//! What the generated descriptors say of the elements and entries of a class.

use vstd::prelude::*;

use crate::ir::expr::{CalleeView, IrConstView, IrLabel};
use crate::ir::run::{
    ask, datum, lemma_run_more, lemma_run_none, lemma_run_one, run, run_all, run_operands, Datum,
    Event, Machine, World,
};
use crate::ir::tree::{const_tree, value_tree, IrTree};
use crate::kt_string::KtString;
use crate::plugins::serialization::body_laws::lemma_leaf_values;
use crate::plugins::serialization::deserialization_constructor::element_additions;
use crate::plugins::serialization::enum_serializer::enum_factory;

verus! {

/// Whether an element is added to a descriptor under its name, and as optional or not.
pub open spec fn adds_element(
    event: Event,
    descriptor: Datum,
    name: Seq<u16>,
    optional: bool,
) -> bool {
    &&& event.label matches IrLabel::Call { callee, .. }
    &&& callee matches CalleeView::Virtual { name: member, .. }
    &&& member == "addElement"@
    &&& event.operands == seq![
        descriptor,
        datum(IrConstView::String(name)),
        Datum::Boolean(optional),
    ]
}

/// The elements are added to the descriptor one by one, in their order, each under its name and
/// with whether it is optional.
pub proof fn elements_are_added_in_order(
    elements: Seq<(KtString, bool)>,
    count: nat,
    world: World,
    rounds: nat,
    machine: Machine,
)
    requires
        count <= elements.len(),
    ensures
        ({
            let after = run_all(world, rounds, element_additions(elements, count), machine);
            let log = after.machine.log;
            let first = machine.log.len() as int;
            &&& after.outcome is Value
            &&& after.machine.locals == machine.locals
            &&& log.len() == first + count
            &&& log.take(first) == machine.log
            &&& forall|k: int|
                0 <= k < count ==> adds_element(
                    #[trigger] log[first + k],
                    machine.locals[0],
                    elements[k].0@,
                    elements[k].1,
                )
        }),
    decreases count,
{
    let statements = element_additions(elements, count);
    let first = machine.log.len() as int;
    if count == 0 {
        assert(statements =~= seq![]);
        lemma_run_none(world, rounds, machine);
        assert(machine.log.take(first) =~= machine.log);
    } else {
        let before = element_additions(elements, (count - 1) as nat);
        let last = statements[count - 1];
        elements_are_added_in_order(elements, (count - 1) as nat, world, rounds, machine);
        assert(statements =~= before.push(last));
        let so_far = run_all(world, rounds, before, machine).machine;
        lemma_run_more(world, rounds, before, last, machine);
        lemma_run_one(world, rounds, last, so_far);
        let name = const_tree(IrConstView::String(elements[count - 1].0@));
        let optional = const_tree(IrConstView::Boolean(elements[count - 1].1));
        assert(last.operands =~= seq![value_tree(0), name, optional]);
        lemma_leaf_values(world, rounds, last, 3, so_far);
        let values = run_operands(world, rounds, last, 3, so_far).outcome->Ok_0;
        assert(values =~= seq![
            machine.locals[0],
            datum(IrConstView::String(elements[count - 1].0@)),
            Datum::Boolean(elements[count - 1].1),
        ]);
        assert(run(world, rounds, last, so_far) == ask(world, last.label, values, so_far));
        let log = run_all(world, rounds, statements, machine).machine.log;
        assert(log.take(first) =~= so_far.log.take(first));
        assert forall|k: int| 0 <= k < count implies adds_element(
            #[trigger] log[first + k],
            machine.locals[0],
            elements[k].0@,
            elements[k].1,
        ) by {
            if k < count - 1 {
                assert(log[first + k] == so_far.log[first + k]);
            }
        }
    }
}

/// A factory for an enum gets its serial name and its entries first. It gets the names of the
/// entries wherever one has a name of its own: each at the place of its entry, and null for an
/// entry without one.
pub proof fn an_enum_factory_gets_the_names_of_the_entries(
    names: Seq<Option<Seq<u16>>>,
    name: IrTree,
    enums: IrTree,
    k: int,
)
    requires
        0 <= k < names.len(),
    ensures
        ({
            let call = enum_factory(names, name, enums);
            &&& call.operands[0] == name
            &&& call.operands[1] == enums
            &&& names[k] matches Some(own) ==> call.operands.len() == 5
                && call.operands[2].operands[k].label == IrLabel::Const(IrConstView::String(own))
            &&& call.operands.len() == 5 ==> call.operands[2].operands.len() == names.len()
                && call.operands[3].operands.len() == names.len() && (names[k] is None
                ==> call.operands[2].operands[k].label == IrLabel::Const(IrConstView::Null))
            &&& call.operands.len() == 2 || call.operands.len() == 5
        }),
{
}

} // verus!
