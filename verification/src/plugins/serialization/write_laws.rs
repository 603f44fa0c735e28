//! What the generated `serialize` does when it runs.

use vstd::prelude::*;

use crate::ir::expr::{CalleeView, IrBinOp, IrConstView, IrLabel};
use crate::ir::file::IrFile;
use crate::ir::run::{
    ask, datum, is_plain, lemma_operand_values, lemma_plain, lemma_run_binary, lemma_run_both,
    lemma_run_if, lemma_run_more, lemma_run_none, lemma_run_one, lemma_run_set, operate, run,
    run_all, run_operands, Datum, Event, Machine, Outcome, Run, World,
};
use crate::ir::tree::{
    binary_tree, call_tree, const_tree, if_tree, int_tree, leaf, value_tree, IrTree,
};
use crate::names::getter_name;
use crate::plugins::context::PluginContext;
use crate::plugins::serialization::body_laws::{
    lemma_leaf_values, lemma_over_class, lemma_plan_plain, lemma_run_three,
};
use crate::plugins::serialization::element_serializer::element_plan;
use crate::plugins::serialization::serialize_body::{
    begin_structure, encoder_member, end_structure, SerializeBody, WrittenAs,
};
use crate::plugins::serialization::support::element_encoder;
use crate::plugins::serialization::type_parameter_serializers::ScopeView;
use crate::types::TyView;

verus! {

/// A call of a member of the encoder on the given element.
pub open spec fn is_on_element(event: Event, encoder: Datum, k: int) -> bool {
    &&& event.label matches IrLabel::Call { callee, has_receiver }
    &&& has_receiver
    &&& callee matches CalleeView::Virtual { owner, interface, .. }
    &&& interface
    &&& owner == "kotlinx/serialization/encoding/CompositeEncoder"@
    &&& event.operands.len() >= 3
    &&& event.operands[0] == encoder
    &&& event.operands[2] == Datum::Int(k as i32)
}

/// Whether the encoder is asked if an element is to be written though it is its default.
pub open spec fn is_question(event: Event, encoder: Datum, k: int) -> bool {
    &&& is_on_element(event, encoder, k)
    &&& event.operands.len() == 3
    &&& event.label matches IrLabel::Call { callee, .. }
    &&& callee matches CalleeView::Virtual { name, .. }
    &&& name == "shouldEncodeElementDefault"@
}

/// Whether the encoder is given the value of an element: itself where its type has a member of the
/// encoder, and else with a serializer in front of it.
pub open spec fn is_write(event: Event, encoder: Datum, k: int, ty: TyView, value: Datum) -> bool {
    &&& is_on_element(event, encoder, k)
    &&& event.operands.last() == value
    &&& event.label matches IrLabel::Call { callee, .. }
    &&& callee matches CalleeView::Virtual { name, descriptor, .. }
    &&& if event.operands.len() == 4 {
        !ty.is_nullable() && element_encoder(ty) == Some((name, descriptor))
    } else {
        &&& event.operands.len() == 5
        &&& name == if ty.is_nullable() {
            "encodeNullableSerializableElement"@
        } else {
            "encodeSerializableElement"@
        }
    }
}

impl SerializeBody<'_> {
    /// The encoder: the second parameter of the write helper, and a local of `serialize`.
    pub open spec fn encoder_in(&self, delegate: bool, machine: Machine) -> Datum {
        if delegate {
            machine.locals[1]
        } else {
            machine.locals[3]
        }
    }

    /// Whether an event reads the property of an element from the value that is written: the
    /// receiver of the write helper, and the second parameter of `serialize`.
    pub open spec fn is_reading(
        &self,
        ir: IrFile,
        delegate: bool,
        k: int,
        machine: Machine,
        event: Event,
    ) -> bool {
        if delegate {
            &&& event.label == IrLabel::GetField { class: self.serialized_class, index: k as u32 }
            &&& event.operands == seq![machine.locals[0]]
        } else {
            &&& event.label matches IrLabel::Call { callee, has_receiver }
            &&& has_receiver
            &&& callee matches CalleeView::Virtual { owner, name, .. }
            &&& owner == ir.classes@[self.serialized_class as int].name@
            &&& name == getter_name(self.fields@[k].0@)
            &&& event.operands == seq![machine.locals[2]]
        }
    }

    /// Whether an element was read and then written, and nothing after that.
    pub open spec fn writes_element(
        &self,
        ir: IrFile,
        world: World,
        delegate: bool,
        k: int,
        before: Machine,
        after: Machine,
    ) -> bool {
        let reads = after.log.len() - 2;
        let event = after.log[reads];
        &&& before.log.len() <= reads
        &&& after.log.take(before.log.len() as int) == before.log
        &&& after.locals == before.locals
        &&& self.is_reading(ir, delegate, k, before, event)
        &&& is_write(
            after.log.last(),
            self.encoder_in(delegate, before),
            k,
            self.fields@[k].1@,
            (world.answers)(after.log.take(reads), event),
        )
    }

    /// Whether an element with a constant default was handled: first the encoder was asked whether
    /// it wants defaults. The element was written where the encoder does; otherwise it was read,
    /// and written exactly where it differs from its default.
    pub open spec fn handles_default(
        &self,
        ir: IrFile,
        world: World,
        delegate: bool,
        k: int,
        default: IrConstView,
        before: Machine,
        after: Machine,
    ) -> bool {
        let log = after.log;
        // The descriptor of the serializer is read from its field.
        let asks = before.log.len() + if delegate { 0int } else { 1 };
        let answer = (world.answers)(log.take(asks), log[asks]);
        let asked = Machine { locals: before.locals, log: log.take(asks + 1) };
        let reading = log[asks + 1];
        let current = (world.answers)(asked.log, reading);
        &&& after.locals == before.locals
        &&& asks < log.len()
        &&& log.take(before.log.len() as int) == before.log
        &&& is_question(log[asks], self.encoder_in(delegate, before), k)
        &&& answer == Datum::Boolean(true) ==> self.writes_element(
            ir,
            world,
            delegate,
            k,
            asked,
            after,
        )
        &&& answer == Datum::Boolean(false) ==> {
            &&& asks + 1 < log.len()
            &&& self.is_reading(ir, delegate, k, before, reading)
            &&& if current == datum(default) {
                log.len() == asks + 2
            } else {
                self.writes_element(ir, world, delegate, k, asked.asking(reading), after)
            }
        }
    }

    /// Whether an element was handled: written where it has no constant default, and else unless it
    /// is its default and the encoder wants none.
    pub open spec fn handles_element(
        &self,
        ir: IrFile,
        world: World,
        delegate: bool,
        k: int,
        before: Machine,
        after: Machine,
    ) -> bool {
        match self.default_of(k) {
            Some(default) => self.handles_default(ir, world, delegate, k, default, before, after),
            None => self.writes_element(ir, world, delegate, k, before, after),
        }
    }

    proof fn lemma_property(
        &self,
        ir: IrFile,
        ctx: PluginContext,
        world: World,
        rounds: nat,
        delegate: bool,
        k: int,
        machine: Machine,
    )
        requires
            self.property(ir, ctx, delegate, k) is Some,
        ensures
            is_plain(self.property(ir, ctx, delegate, k)->0),
            ({
                let after = run(world, rounds, self.property(ir, ctx, delegate, k)->0, machine);
                let event = after.machine.log.last();
                &&& after.machine == machine.asking(event)
                &&& self.is_reading(ir, delegate, k, machine, event)
                &&& after.outcome == Outcome::Value((world.answers)(machine.log, event))
            }),
    {
        let property = self.property(ir, ctx, delegate, k)->0;
        let local: u32 = if delegate { 0 } else { 2 };
        assert(property.operands =~= seq![value_tree(local)]);
        assert(is_plain(property.operands[0]));
        assert(is_plain(property));
        let none = run_operands(world, rounds, property, 0, machine);
        assert(none.outcome == Ok::<Seq<Datum>, Outcome>(seq![]) && none.machine == machine);
        let one = run_operands(world, rounds, property, 1, machine);
        let found = run(world, rounds, property.operands[0], machine);
        assert(found == Run { machine, outcome: Outcome::Value(machine.locals[local]) });
        assert(one.machine == machine);
        assert(one.outcome->Ok_0 =~= seq![machine.locals[local]]);
        let event = Event { label: property.label, operands: seq![machine.locals[local]] };
        let after = run(world, rounds, property, machine);
        assert(after == ask(world, property.label, seq![machine.locals[local]], machine));
        assert(after.machine.log.last() == event);
    }

    proof fn lemma_serializer_plain(&self, ir: IrFile, ctx: PluginContext, k: int)
        ensures
            self.written_as(ir, ctx, k) matches WrittenAs::Through(serializer) ==> is_plain(
                serializer,
            ),
    {
        let ty = self.fields@[k].1@;
        if let Some(classifier) = ty.kotlin_class_internal() {
            lemma_over_class(classifier);
        }
        if let Some(plan) = element_plan(ir, ctx, ty, ScopeView::none()) {
            lemma_plan_plain(ir.classes@, ir.functions@, plan);
        }
        reveal_with_fuel(is_plain, 5);
    }

    proof fn lemma_write(
        &self,
        ir: IrFile,
        ctx: PluginContext,
        world: World,
        rounds: nat,
        delegate: bool,
        k: int,
        machine: Machine,
    )
        requires
            self.write(ir, ctx, delegate, k) is Some,
        ensures
            ({
                let after = run(world, rounds, self.write(ir, ctx, delegate, k)->0, machine);
                &&& after.outcome is Value
                &&& self.writes_element(ir, world, delegate, k, machine, after.machine)
            }),
    {
        let write = self.write(ir, ctx, delegate, k)->0;
        let property = self.property(ir, ctx, delegate, k)->0;
        let count = write.operands.len();
        let front = (count - 1) as nat;
        self.lemma_serializer_plain(ir, ctx, k);
        assert(is_plain(self.descriptor(delegate))) by {
            reveal_with_fuel(is_plain, 2);
        }
        assert(count == 4 || count == 5);
        assert(write.operands[front as int] == property);
        assert(write.operands[2] == int_tree(k as i32));
        assert(write.operands[0] == self.encoder(delegate));
        assert forall|j: int| 0 <= j < front implies is_plain(#[trigger] write.operands[j]) by {
            if j == 1 {
                assert(write.operands[j] == self.descriptor(delegate));
            }
        }
        lemma_operand_values(world, rounds, write, front, machine);
        let before = run_operands(world, rounds, write, front, machine);
        self.lemma_property(ir, ctx, world, rounds, delegate, k, before.machine);
        let read = run(world, rounds, property, before.machine);
        let all = run_operands(world, rounds, write, count, machine);
        let value = read.outcome->Value_0;
        assert(all.machine == read.machine);
        assert(all.outcome == Ok::<Seq<Datum>, Outcome>(before.outcome->Ok_0.push(value)));
        let values = all.outcome->Ok_0;
        assert(values[0] == before.outcome->Ok_0[0]);
        assert(values[2] == before.outcome->Ok_0[2]);
        assert(values.last() == value);
        let after = run(world, rounds, write, machine);
        assert(after == ask(world, write.label, values, read.machine));
        let reads = before.machine.log.len() as int;
        assert(after.machine.log.len() == reads + 2);
        assert(after.machine.log.take(reads) =~= before.machine.log);
        assert(after.machine.log.take(machine.log.len() as int) =~= before.machine.log.take(
            machine.log.len() as int,
        ));
        assert(after.machine.log[reads] == read.machine.log.last());
        assert(after.machine.log.last() == Event { label: write.label, operands: values });
    }

    /// An element without a constant default is written, whatever the encoder says.
    pub proof fn an_element_without_a_default_is_written(
        &self,
        ir: IrFile,
        ctx: PluginContext,
        world: World,
        rounds: nat,
        delegate: bool,
        k: int,
        machine: Machine,
    )
        requires
            0 <= k < self.fields@.len(),
            k <= i32::MAX,
            self.element(ir, ctx, delegate, k) is Some,
            self.default_of(k) is None,
        ensures
            ({
                let after = run(world, rounds, self.element(ir, ctx, delegate, k)->0, machine);
                &&& after.outcome is Value
                &&& self.writes_element(ir, world, delegate, k, machine, after.machine)
            }),
    {
        self.lemma_write(ir, ctx, world, rounds, delegate, k, machine);
    }

    /// An element with a constant default is left out only where it is its default: first the
    /// encoder is asked whether it wants defaults. The element is written where the encoder does;
    /// otherwise it is read, and written exactly where it differs from its default.
    pub proof fn an_element_is_left_out_only_where_it_is_its_default(
        &self,
        ir: IrFile,
        ctx: PluginContext,
        world: World,
        rounds: nat,
        delegate: bool,
        k: int,
        default: IrConstView,
        machine: Machine,
    )
        requires
            0 <= k < self.fields@.len(),
            k <= i32::MAX,
            self.element(ir, ctx, delegate, k) is Some,
            self.default_of(k) == Some(default),
        ensures
            ({
                let after = run(world, rounds, self.element(ir, ctx, delegate, k)->0, machine);
                &&& after.outcome is Value
                &&& self.handles_default(ir, world, delegate, k, default, machine, after.machine)
            }),
    {
        let write = self.write(ir, ctx, delegate, k)->0;
        let property = self.property(ir, ctx, delegate, k)->0;
        let element = self.element(ir, ctx, delegate, k)->0;
        let condition = element.operands[0];
        let should = condition.operands[0];
        let differs = condition.operands[1];
        assert(element == if_tree(condition, write));
        assert(condition == binary_tree(IrBinOp::Or, should, differs));
        assert(differs == binary_tree(IrBinOp::Ne, property, const_tree(default)));
        self.lemma_should(world, rounds, delegate, k, should, machine);
        let asked = run(world, rounds, should, machine);
        let asks = machine.log.len() + if delegate { 0int } else { 1 };
        let after = run(world, rounds, element, machine);
        if asked.outcome == Outcome::Value(Datum::Boolean(true)) {
            assert(run(world, rounds, condition, machine) == asked);
            lemma_run_if(world, rounds, condition, write, write, machine);
            self.lemma_write(ir, ctx, world, rounds, delegate, k, asked.machine);
            assert(after == run(world, rounds, write, asked.machine));
            let log = after.machine.log;
            assert(log.take(asks + 1) == asked.machine.log);
            assert(log[asks] == asked.machine.log[asks]);
            assert(log.take(asks) =~= asked.machine.log.take(asks));
            assert(log.take(machine.log.len() as int) =~= asked.machine.log.take(
                machine.log.len() as int,
            ));
        } else {
            self.lemma_property(ir, ctx, world, rounds, delegate, k, asked.machine);
            let read = run(world, rounds, property, asked.machine);
            lemma_run_binary(
                world,
                rounds,
                IrBinOp::Ne,
                property,
                const_tree(default),
                asked.machine,
            );
            let compared = run(world, rounds, differs, asked.machine);
            assert(compared == Run {
                machine: read.machine,
                outcome: Outcome::Value(
                    operate(IrBinOp::Ne, read.outcome->Value_0, datum(default)),
                ),
            });
            let held = run(world, rounds, condition, machine);
            assert(held.machine == read.machine);
            assert(held.outcome == Outcome::Value(
                operate(
                    IrBinOp::Or,
                    asked.outcome->Value_0,
                    operate(IrBinOp::Ne, read.outcome->Value_0, datum(default)),
                ),
            ));
            lemma_run_if(world, rounds, condition, write, write, machine);
            self.lemma_write(ir, ctx, world, rounds, delegate, k, read.machine);
            let log = after.machine.log;
            let reading = read.machine.log.last();
            assert(log.take(asks + 2) =~= read.machine.log);
            assert(log.take(asks + 1) =~= asked.machine.log);
            assert(log[asks + 1] == read.machine.log[asks + 1]);
            assert(log[asks] == read.machine.log[asks]);
            assert(log.take(asks) =~= asked.machine.log.take(asks));
            assert(log.take(machine.log.len() as int) =~= asked.machine.log.take(
                machine.log.len() as int,
            ));
        }
    }

    proof fn lemma_elements(
        &self,
        ir: IrFile,
        ctx: PluginContext,
        world: World,
        rounds: nat,
        count: nat,
        machine: Machine,
    ) -> (stops: Seq<Machine>)
        requires
            count <= self.fields@.len() <= i32::MAX,
            forall|k: int|
                0 <= k < count ==> (#[trigger] self.element(ir, ctx, self.delegates(ir), k)) is Some,
        ensures
            run_all(world, rounds, self.elements(ir, ctx).take(count as int), machine) == (Run {
                machine: stops.last(),
                outcome: Outcome::Value(Datum::Unit),
            }),
            self.handles_elements(ir, world, self.delegates(ir), count, machine, stops),
        decreases count,
    {
        let all = self.elements(ir, ctx);
        let delegate = self.delegates(ir);
        if count == 0 {
            assert(all.take(0) =~= seq![]);
            lemma_run_none(world, rounds, machine);
            seq![machine]
        } else {
            let last = count - 1;
            let before = self.lemma_elements(ir, ctx, world, rounds, last as nat, machine);
            let so_far = before.last();
            assert(self.element(ir, ctx, delegate, last) is Some);
            if let Some(default) = self.default_of(last) {
                self.an_element_is_left_out_only_where_it_is_its_default(
                    ir,
                    ctx,
                    world,
                    rounds,
                    delegate,
                    last,
                    default,
                    so_far,
                );
            } else {
                self.an_element_without_a_default_is_written(
                    ir,
                    ctx,
                    world,
                    rounds,
                    delegate,
                    last,
                    so_far,
                );
            }
            assert(all.take(count as int) =~= all.take(last).push(all[last]));
            lemma_run_more(world, rounds, all.take(last), all[last], machine);
            lemma_run_one(world, rounds, all[last], so_far);
            let after = run(world, rounds, all[last], so_far);
            let stops = before.push(after.machine);
            assert forall|k: int| 0 <= k < count implies self.handles_element(
                ir,
                world,
                delegate,
                k,
                #[trigger] stops[k],
                stops[k + 1],
            ) by {
                if k < last {
                    assert(stops[k] == before[k] && stops[k + 1] == before[k + 1]);
                    assert(self.handles_element(ir, world, delegate, k, before[k], before[k + 1]));
                }
            }
            stops
        }
    }

    /// Whether each element was handled, from one stop to the next, in the order of the elements.
    pub open spec fn handles_elements(
        &self,
        ir: IrFile,
        world: World,
        delegate: bool,
        count: nat,
        machine: Machine,
        stops: Seq<Machine>,
    ) -> bool {
        &&& stops.len() == count + 1
        &&& stops[0] == machine
        &&& forall|k: int|
            0 <= k < count ==> self.handles_element(
                ir,
                world,
                delegate,
                k,
                #[trigger] stops[k],
                stops[k + 1],
            )
    }

    /// The write helper handles every element once, in order, and does nothing else.
    pub proof fn the_write_helper_handles_every_element_in_order(
        &self,
        ir: IrFile,
        ctx: PluginContext,
        world: World,
        rounds: nat,
        machine: Machine,
    )
        requires
            self.fields@.len() <= i32::MAX,
            self.delegates(ir),
            forall|k: int|
                0 <= k < self.fields@.len() ==> (#[trigger] self.element(ir, ctx, true, k)) is Some,
        ensures
            ({
                let after = run(world, rounds, self.helper_body(ir, ctx), machine);
                &&& after.outcome == Outcome::Returned(Datum::Unit)
                &&& exists|stops: Seq<Machine>|
                    #[trigger] self.handles_elements(
                        ir,
                        world,
                        true,
                        self.fields@.len(),
                        machine,
                        stops,
                    ) && stops.last() == after.machine
            }),
    {
        let count = self.fields@.len();
        let all = self.elements(ir, ctx);
        let stops = self.lemma_elements(ir, ctx, world, rounds, count, machine);
        assert(all.take(count as int) =~= all);
        let returning = leaf(IrLabel::Return { has_value: false });
        lemma_run_more(world, rounds, all, returning, machine);
        assert(run(world, rounds, returning, stops.last()) == (Run {
            machine: stops.last(),
            outcome: Outcome::Returned(Datum::Unit),
        }));
        lemma_run_one(world, rounds, returning, stops.last());
    }

    proof fn lemma_should(
        &self,
        world: World,
        rounds: nat,
        delegate: bool,
        k: int,
        should: IrTree,
        machine: Machine,
    )
        requires
            should == call_tree(
                encoder_member(
                    "shouldEncodeElementDefault"@,
                    "(Lkotlinx/serialization/descriptors/SerialDescriptor;I)Z"@,
                ),
                self.encoder(delegate),
                seq![self.descriptor(delegate), int_tree(k as i32)],
            ),
        ensures
            ({
                let after = run(world, rounds, should, machine);
                let asks = machine.log.len() + if delegate { 0int } else { 1 };
                let log = after.machine.log;
                &&& after.outcome == Outcome::Value(
                    (world.answers)(log.take(asks), log[asks]),
                )
                &&& after.machine.locals == machine.locals
                &&& log.len() == asks + 1
                &&& log.take(machine.log.len() as int) == machine.log
                &&& is_question(log[asks], self.encoder_in(delegate, machine), k)
            }),
    {
        let after = run(world, rounds, should, machine);
        let described = self.descriptor(delegate);
        assert(is_plain(described)) by {
            reveal_with_fuel(is_plain, 2);
        }
        assert(should.operands =~= seq![self.encoder(delegate), described, int_tree(k as i32)]);
        assert forall|j: int| 0 <= j < 3 implies is_plain(#[trigger] should.operands[j]) by {}
        lemma_operand_values(world, rounds, should, 3, machine);
        lemma_plain(world, rounds, described, machine);
        let one = run(world, rounds, should.operands[0], machine);
        let two = run(world, rounds, should.operands[1], one.machine);
        let three = run(world, rounds, should.operands[2], two.machine);
        assert(one.machine == machine);
        assert(three.machine == two.machine);
        lemma_run_three(world, rounds, should, machine, one, two, three);
        if !delegate {
            let inner = run_operands(world, rounds, described, 1, machine);
            assert(run_operands(world, rounds, described, 0, machine).machine == machine);
            assert(described.operands[0] == value_tree(0));
            assert(run(world, rounds, value_tree(0), machine).machine == machine);
            assert(inner.machine == machine);
            assert(two.machine.log.len() == machine.log.len() + 1);
        }
        let all = run_operands(world, rounds, should, 3, machine);
        assert(after == ask(world, should.label, all.outcome->Ok_0, two.machine));
        let asks = machine.log.len() + if delegate { 0int } else { 1 };
        assert(after.machine.log.take(asks) =~= two.machine.log);
        assert(after.machine.log.take(machine.log.len() as int) =~= two.machine.log.take(
            machine.log.len() as int,
        ));
    }
}

/// Whether a member of an interface is called on the given operands.
pub open spec fn calls_member(
    event: Event,
    interface_name: Seq<char>,
    member: Seq<char>,
    operands: Seq<Datum>,
) -> bool {
    &&& event.label matches IrLabel::Call { callee, has_receiver }
    &&& has_receiver
    &&& callee matches CalleeView::Virtual { owner, name, .. }
    &&& owner == interface_name
    &&& name == member
    &&& event.operands == operands
}

/// Whether a static function of a class is called on the given operands.
pub open spec fn calls_static(
    event: Event,
    class: Seq<char>,
    function: Seq<char>,
    operands: Seq<Datum>,
) -> bool {
    &&& event.label matches IrLabel::Call { callee, has_receiver }
    &&& !has_receiver
    &&& callee matches CalleeView::Static { owner, name, .. }
    &&& owner == class
    &&& name == function
    &&& event.operands == operands
}

/// A call of a member with one argument on a local, which is evaluated first.
proof fn lemma_run_member(
    world: World,
    rounds: nat,
    callee: CalleeView,
    local: u32,
    argument: IrTree,
    machine: Machine,
)
    requires
        run(world, rounds, argument, machine).outcome is Value,
    ensures
        ({
            let found = run(world, rounds, argument, machine);
            run(world, rounds, call_tree(callee, value_tree(local), seq![argument]), machine)
                == ask(
                world,
                IrLabel::Call { callee, has_receiver: true },
                seq![machine.locals[local], found.outcome->Value_0],
                found.machine,
            )
        }),
{
    let tree = call_tree(callee, value_tree(local), seq![argument]);
    let found = run(world, rounds, argument, machine);
    assert(tree.operands =~= seq![value_tree(local), argument]);
    assert(run(world, rounds, value_tree(local), machine) == (Run {
        machine,
        outcome: Outcome::Value(machine.locals[local]),
    }));
    let none = run_operands(world, rounds, tree, 0, machine);
    assert(none.machine == machine && none.outcome == Ok::<Seq<Datum>, Outcome>(seq![]));
    let one = run_operands(world, rounds, tree, 1, machine);
    assert(one.machine == machine);
    assert(one.outcome->Ok_0 =~= seq![machine.locals[local]]);
    let two = run_operands(world, rounds, tree, 2, machine);
    assert(two.machine == found.machine);
    assert(two.outcome->Ok_0 =~= seq![machine.locals[local], found.outcome->Value_0]);
}

impl SerializeBody<'_> {
    proof fn lemma_described(&self, world: World, rounds: nat, machine: Machine)
        ensures
            run(world, rounds, self.own_descriptor(), machine) == ask(
                world,
                IrLabel::GetField { class: self.serializer_class, index: 0 },
                seq![machine.locals[0]],
                machine,
            ),
    {
        let tree = self.own_descriptor();
        assert(tree.operands =~= seq![value_tree(0)]);
        assert(run(world, rounds, value_tree(0), machine) == (Run {
            machine,
            outcome: Outcome::Value(machine.locals[0]),
        }));
        let none = run_operands(world, rounds, tree, 0, machine);
        assert(none.machine == machine && none.outcome == Ok::<Seq<Datum>, Outcome>(seq![]));
        let one = run_operands(world, rounds, tree, 1, machine);
        assert(one.outcome->Ok_0 =~= seq![machine.locals[0]]);
    }

    /// `serialize` of a class with a write helper reads its descriptor, opens the structure with
    /// it, has the helper write the value, and closes the structure that it opened.
    pub proof fn serialize_opens_delegates_and_closes(
        &self,
        ir: IrFile,
        world: World,
        rounds: nat,
        machine: Machine,
    )
        ensures
            ({
                let after = run(world, rounds, self.delegating_body(ir), machine);
                let log = after.machine.log;
                let first = machine.log.len() as int;
                let described = (world.answers)(log.take(first), log[first]);
                let opened = (world.answers)(log.take(first + 1), log[first + 1]);
                &&& after.outcome is Value
                &&& log.len() == first + 4
                &&& log.take(first) == machine.log
                &&& log[first] == (Event {
                    label: IrLabel::GetField { class: self.serializer_class, index: 0 },
                    operands: seq![machine.locals[0]],
                })
                &&& calls_member(
                    log[first + 1],
                    "kotlinx/serialization/encoding/Encoder"@,
                    "beginStructure"@,
                    seq![machine.locals[1], described],
                )
                &&& calls_static(
                    log[first + 2],
                    ir.classes@[self.serialized_class as int].name@,
                    self.write_self_name@,
                    seq![machine.locals[2], opened, described],
                )
                &&& calls_member(
                    log[first + 3],
                    "kotlinx/serialization/encoding/CompositeEncoder"@,
                    "endStructure"@,
                    seq![opened, described],
                )
            }),
    {
        let body = self.delegating_body(ir);
        let all = body.operands;
        let first = machine.log.len() as int;
        self.lemma_described(world, rounds, machine);
        lemma_run_set(world, rounds, 3, self.own_descriptor(), machine);
        let one = run(world, rounds, all[0], machine).machine;
        let begin = begin_structure(value_tree(3));
        assert(run(world, rounds, value_tree(3), one) == (Run {
            machine: one,
            outcome: Outcome::Value(one.locals[3]),
        }));
        lemma_run_member(world, rounds, begin.label->callee, 1, value_tree(3), one);
        lemma_run_set(world, rounds, 4, begin, one);
        let two = run(world, rounds, all[1], one).machine;
        let call = all[2];
        assert(call.operands =~= seq![value_tree(2), value_tree(4), value_tree(3)]);
        lemma_leaf_values(world, rounds, call, 3, two);
        let values = run_operands(world, rounds, call, 3, two).outcome->Ok_0;
        assert(values =~= seq![two.locals[2], two.locals[4], two.locals[3]]);
        assert(run(world, rounds, call, two) == ask(world, call.label, values, two));
        let three = run(world, rounds, call, two).machine;
        assert(run(world, rounds, value_tree(3), three) == (Run {
            machine: three,
            outcome: Outcome::Value(three.locals[3]),
        }));
        lemma_run_member(world, rounds, all[3].label->callee, 4, value_tree(3), three);
        let four = run(world, rounds, all[3], three).machine;
        lemma_run_one(world, rounds, all[0], machine);
        lemma_run_more(world, rounds, seq![all[0]], all[1], machine);
        lemma_run_one(world, rounds, all[1], one);
        lemma_run_more(world, rounds, seq![all[0]].push(all[1]), all[2], machine);
        lemma_run_one(world, rounds, all[2], two);
        lemma_run_more(world, rounds, seq![all[0]].push(all[1]).push(all[2]), all[3], machine);
        lemma_run_one(world, rounds, all[3], three);
        assert(all =~= seq![all[0]].push(all[1]).push(all[2]).push(all[3]));
        let log = four.log;
        assert(log.take(first) =~= machine.log);
        assert(log.take(first + 1) =~= one.log);
        assert(two.locals[2] == machine.locals[2]);
    }

    /// `serialize` of a generic class opens the structure with its descriptor, handles every
    /// element in order with the encoder that it got, and closes the structure.
    pub proof fn serialize_opens_writes_and_closes(
        &self,
        ir: IrFile,
        ctx: PluginContext,
        world: World,
        rounds: nat,
        machine: Machine,
    )
        requires
            self.fields@.len() <= i32::MAX,
            !self.delegates(ir),
            forall|k: int|
                0 <= k < self.fields@.len() ==> (#[trigger] self.element(ir, ctx, false, k))
                    is Some,
        ensures
            ({
                let after = run(world, rounds, self.inlined_body(ir, ctx), machine);
                let log = after.machine.log;
                let first = machine.log.len() as int;
                let described = (world.answers)(log.take(first), log[first]);
                let encoder = (world.answers)(log.take(first + 1), log[first + 1]);
                let opened = Machine {
                    locals: machine.locals.insert(3, encoder),
                    log: log.take(first + 2),
                };
                let last = log.len() - 2;
                &&& after.outcome is Value
                &&& first + 2 <= last
                &&& log.take(first) == machine.log
                &&& calls_member(
                    log[first + 1],
                    "kotlinx/serialization/encoding/Encoder"@,
                    "beginStructure"@,
                    seq![machine.locals[1], described],
                )
                &&& exists|stops: Seq<Machine>|
                    #[trigger] self.handles_elements(
                        ir,
                        world,
                        false,
                        self.fields@.len(),
                        opened,
                        stops,
                    ) && stops.last().log == log.take(last)
                &&& calls_member(
                    log.last(),
                    "kotlinx/serialization/encoding/CompositeEncoder"@,
                    "endStructure"@,
                    seq![encoder, (world.answers)(log.take(last), log[last])],
                )
            }),
    {
        let count = self.fields@.len();
        let body = self.inlined_body(ir, ctx);
        let elements = self.elements(ir, ctx);
        let begin = begin_structure(self.own_descriptor());
        let opening = body.operands[0];
        let closing = end_structure(value_tree(3), self.own_descriptor());
        let first = machine.log.len() as int;
        self.lemma_described(world, rounds, machine);
        lemma_run_member(world, rounds, begin.label->callee, 1, self.own_descriptor(), machine);
        lemma_run_set(world, rounds, 3, begin, machine);
        let opened = run(world, rounds, opening, machine).machine;
        let stops = self.lemma_elements(ir, ctx, world, rounds, count, opened);
        assert(elements.take(count as int) =~= elements);
        let written = stops.last();
        self.lemma_kept(ir, world, count, opened, stops);
        self.lemma_described(world, rounds, written);
        lemma_run_member(world, rounds, closing.label->callee, 3, self.own_descriptor(), written);
        let closed = run(world, rounds, closing, written).machine;
        assert(body.operands =~= (seq![opening] + elements).push(closing));
        lemma_run_one(world, rounds, opening, machine);
        lemma_run_both(world, rounds, seq![opening], elements, machine);
        lemma_run_more(world, rounds, seq![opening] + elements, closing, machine);
        lemma_run_one(world, rounds, closing, written);
        let log = closed.log;
        let last = log.len() - 2;
        assert(log.take(last) =~= written.log);
        assert(written.log.take(first + 2) == opened.log);
        assert(log.take(first + 2) =~= opened.log);
        assert(log.take(first) =~= machine.log);
        assert(log.take(first + 1) =~= opened.log.take(first + 1));
        assert(opened.log.take(first + 1) =~= run(
            world,
            rounds,
            self.own_descriptor(),
            machine,
        ).machine.log);
        assert(log[first] == opened.log[first]);
        assert(log[first + 1] == opened.log[first + 1]);
        assert(opened == (Machine {
            locals: machine.locals.insert(3, opened.locals[3]),
            log: log.take(first + 2),
        }));
    }

    /// Handling elements keeps the locals and everything that was asked before.
    proof fn lemma_kept(
        &self,
        ir: IrFile,
        world: World,
        count: nat,
        machine: Machine,
        stops: Seq<Machine>,
    )
        requires
            self.handles_elements(ir, world, false, count, machine, stops),
            count < stops.len(),
        ensures
            stops[count as int].locals == machine.locals,
            machine.log.len() <= stops[count as int].log.len(),
            stops[count as int].log.take(machine.log.len() as int) == machine.log,
        decreases count,
    {
        if count == 0 {
            assert(machine.log.take(machine.log.len() as int) =~= machine.log);
        } else {
            let before = stops[count - 1];
            let after = stops[count as int];
            let front = stops.take(count as int);
            assert forall|k: int| 0 <= k < count - 1 implies self.handles_element(
                ir,
                world,
                false,
                k,
                #[trigger] front[k],
                front[k + 1],
            ) by {
                assert(self.handles_element(ir, world, false, k, stops[k], stops[k + 1]));
            }
            self.lemma_kept(ir, world, (count - 1) as nat, machine, front);
            assert(self.handles_element(ir, world, false, count - 1, before, stops[count - 1 + 1]));
            assert(after.log.take(before.log.len() as int) == before.log);
            assert(after.log.take(machine.log.len() as int) =~= before.log.take(
                machine.log.len() as int,
            ));
        }
    }
}

} // verus!
