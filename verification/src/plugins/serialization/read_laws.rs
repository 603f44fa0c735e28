//! What the generated `deserialize` does when it runs.

use vstd::prelude::*;

use crate::ir::expr::{CalleeView, IrBinOp, IrConstView, IrLabel, IrTypeOp};
use crate::ir::file::IrFile;
use crate::ir::run::{
    ask, datum, is_plain, lemma_operand_values, lemma_plain, lemma_run_binary, lemma_run_both,
    lemma_run_if, lemma_run_more, lemma_run_none, lemma_run_one, lemma_run_set, run, run_all,
    run_branch, run_operands, Datum, Event, Machine, Outcome, Run, World,
};
use crate::ir::tree::{
    block_tree, call_tree, const_tree, dispatch_tree, if_else_tree, int_tree, interleaved,
    return_tree, set_tree, value_tree, variable_tree, while_tree, IrTree,
};
use crate::plugins::context::PluginContext;
use crate::plugins::serialization::body_laws::{
    blocks_of, has_bit, holds_words, is_seen, lemma_decoded_plain, lemma_leaf_values, marks,
    reading_an_element_marks_it_alone, reading_elements_marks_exactly_them,
};
use crate::plugins::serialization::child_serializer_cache::cache_read;
use crate::plugins::serialization::deserialize_body::{
    begin_decoding, decoder_member, index_is, unknown_index, word_count, DecodeLocals,
    DeserializeBody, ElementDecode,
};
use crate::plugins::serialization::support::{class_type, element_decoder, interface_member};
use crate::types::TyView;

verus! {

/// A call of a member of the decoder.
pub open spec fn is_of_decoder(event: Event, locals: DecodeLocals, machine: Machine) -> bool {
    &&& event.label matches IrLabel::Call { callee, has_receiver }
    &&& has_receiver
    &&& callee matches CalleeView::Virtual { owner, interface, .. }
    &&& interface
    &&& owner == "kotlinx/serialization/encoding/CompositeDecoder"@
    &&& event.operands.len() >= 2
    &&& event.operands[0] == machine.locals[locals.composite]
    &&& event.operands[1] == machine.locals[locals.descriptor]
}

/// Whether the decoder is asked for the value of an element: by the member for its type, or through
/// a serializer, which is handed what was read before.
pub open spec fn is_read(
    event: Event,
    locals: DecodeLocals,
    k: int,
    ty: TyView,
    machine: Machine,
) -> bool {
    &&& is_of_decoder(event, locals, machine)
    &&& event.operands.len() >= 3
    &&& event.operands[2] == Datum::Int(k as i32)
    &&& event.label matches IrLabel::Call { callee, .. }
    &&& callee matches CalleeView::Virtual { name, descriptor, .. }
    &&& if event.operands.len() == 3 {
        !ty.is_nullable() && element_decoder(ty) == Some((name, descriptor))
    } else {
        &&& event.operands.len() == 5
        &&& event.operands[4] == machine.locals[locals.field(k)]
        &&& name == if ty.is_nullable() {
            "decodeNullableSerializableElement"@
        } else {
            "decodeSerializableElement"@
        }
    }
}

/// A value that is narrowed to a type.
pub open spec fn narrows(ty: TyView, value: Datum) -> Event {
    Event { label: IrLabel::TypeOp { op: IrTypeOp::Cast, operand: ty }, operands: seq![value] }
}

/// The value of an element is what the decoder answers when it is asked for the element at that
/// place; what comes through a serializer is narrowed to the type of the element.
pub proof fn an_element_is_asked_for_by_its_place(
    elements: ElementDecode<'_>,
    ir: IrFile,
    ctx: PluginContext,
    k: int,
    world: World,
    rounds: nat,
    machine: Machine,
)
    requires
        0 <= k < elements.fields@.len(),
        k <= i32::MAX,
    ensures
        ({
            let after = run(world, rounds, elements.decoded(ir, ctx, k), machine);
            let ty = elements.fields@[k].1@;
            let log = after.machine.log;
            let last = log.len() - 1;
            &&& machine.log.len() <= last
            &&& log.take(machine.log.len() as int) == machine.log
            &&& after.machine.locals == machine.locals
            &&& after.outcome == Outcome::Value((world.answers)(log.take(last), log[last]))
            &&& {
                ||| is_read(log[last], elements.locals, k, ty, machine)
                    && log[last].operands.len() == 3
                ||| {
                    &&& machine.log.len() <= last - 1
                    &&& is_read(log[last - 1], elements.locals, k, ty, machine)
                    &&& log[last - 1].operands.len() == 5
                    &&& log[last] == narrows(
                        ty,
                        (world.answers)(log.take(last - 1), log[last - 1]),
                    )
                }
            }
        }),
{
    let decoded = elements.decoded(ir, ctx, k);
    let ty = elements.fields@[k].1@;
    lemma_decoded_plain(elements, ir, ctx, k);
    lemma_plain(world, rounds, decoded, machine);
    let after = run(world, rounds, decoded, machine);
    if decoded.operands.len() == 3 {
        assert forall|j: int| 0 <= j < 3 implies (#[trigger] decoded.operands[j]).label is Const
            || decoded.operands[j].label is GetValue by {}
        lemma_leaf_values(world, rounds, decoded, 3, machine);
        assert(after.machine.log.drop_last() =~= machine.log);
        assert(after.machine.log.take(after.machine.log.len() - 1) =~= machine.log);
    } else {
        let call = decoded.operands[0];
        assert(decoded.operands.len() == 1);
        assert(is_plain(call));
        lemma_plain(world, rounds, call, machine);
        assert forall|j: int| 0 <= j < call.operands.len() implies is_plain(
            #[trigger] call.operands[j],
        ) by {}
        lemma_operand_values(world, rounds, call, 5, machine);
        let values = run_operands(world, rounds, call, 5, machine);
        let called = run(world, rounds, call, machine);
        assert(called == ask(world, call.label, values.outcome->Ok_0, values.machine));
        let none = run_operands(world, rounds, decoded, 0, machine);
        assert(none.machine == machine && none.outcome == Ok::<Seq<Datum>, Outcome>(seq![]));
        let one = run_operands(world, rounds, decoded, 1, machine);
        assert(one.outcome->Ok_0 =~= seq![called.outcome->Value_0]);
        assert(one.machine == called.machine);
        assert(after == ask(world, decoded.label, one.outcome->Ok_0, called.machine));
        let last = after.machine.log.len() - 1;
        assert(after.machine.log.take(last) =~= called.machine.log);
        assert(after.machine.log.take(last - 1) =~= values.machine.log);
        assert(after.machine.log[last - 1] == called.machine.log.last());
    }
}

/// The object is constructed from the words that say which elements were seen, the values of the
/// elements in their order, and `null` for each marker.
pub proof fn the_constructor_gets_the_words_and_the_elements(
    body: DeserializeBody<'_>,
    ir: IrFile,
    world: World,
    rounds: nat,
    machine: Machine,
)
    requires
        body.has_constructor(ir),
    ensures
        ({
            let after = run(world, rounds, body.constructing(ir), machine);
            let event = after.machine.log.last();
            let count = body.fields@.len();
            let words = word_count(count);
            let locals = body.locals(ir);
            &&& after.machine == machine.asking(event)
            &&& after.outcome == Outcome::Value((world.answers)(machine.log, event))
            &&& event.label matches IrLabel::New { internal, .. } && internal == body.class_name(ir)
            &&& words + count < event.operands.len()
            &&& forall|w: int|
                0 <= w < words ==> #[trigger] event.operands[w] == machine.locals[(locals.first_seen
                    + w) as u32]
            &&& forall|k: int|
                0 <= k < count ==> #[trigger] event.operands[words + k]
                    == machine.locals[(locals.first_field + k) as u32]
            &&& forall|k: int|
                words + count <= k < event.operands.len() ==> #[trigger] event.operands[k]
                    == Datum::Null
        }),
{
    let construction = body.constructing(ir);
    let all = construction.operands.len();
    assert forall|j: int| 0 <= j < all implies (#[trigger] construction.operands[j]).label is Const
        || construction.operands[j].label is GetValue by {}
    lemma_leaf_values(world, rounds, construction, all, machine);
    let values = run_operands(world, rounds, construction, all, machine).outcome->Ok_0;
    let event = Event { label: construction.label, operands: values };
    let after = run(world, rounds, construction, machine);
    assert(after.machine.log.last() == event);
    let count = body.fields@.len();
    let words = word_count(count);
    assert forall|k: int| 0 <= k < count implies #[trigger] values[words + k]
        == machine.locals[(body.locals(ir).first_field + k) as u32] by {
        assert(construction.operands[words + k] == value_tree(body.locals(ir).field(k)));
    }
}

proof fn lemma_interleaved(conditions: Seq<IrTree>, results: Seq<IrTree>, k: int)
    requires
        conditions.len() == results.len(),
        0 <= k < conditions.len(),
    ensures
        interleaved(conditions, results).len() == 2 * conditions.len(),
        interleaved(conditions, results)[2 * k] == conditions[k],
        interleaved(conditions, results)[2 * k + 1] == results[k],
    decreases conditions.len(),
{
    let front = interleaved(conditions.drop_last(), results.drop_last());
    if conditions.len() == 1 {
        assert(front =~= seq![]);
    } else if k < conditions.len() - 1 {
        lemma_interleaved(conditions.drop_last(), results.drop_last(), k);
    } else {
        lemma_interleaved(conditions.drop_last(), results.drop_last(), 0);
    }
}

/// The result whose condition is the first that holds.
proof fn lemma_dispatch(
    world: World,
    rounds: nat,
    conditions: Seq<IrTree>,
    results: Seq<IrTree>,
    otherwise: IrTree,
    holds: Seq<bool>,
    from: nat,
    taken: nat,
    machine: Machine,
)
    requires
        conditions.len() == results.len() == holds.len(),
        0 < conditions.len(),
        from <= taken <= conditions.len(),
        forall|k: int|
            0 <= k < holds.len() ==> run(world, rounds, #[trigger] conditions[k], machine) == (
            Run { machine, outcome: Outcome::Value(Datum::Boolean(holds[k])) }),
        forall|k: int| 0 <= k < taken ==> !#[trigger] holds[k],
        taken < conditions.len() ==> holds[taken as int],
    ensures
        ({
            let tree = dispatch_tree(conditions, results, otherwise);
            run_branch(
                world,
                rounds,
                tree,
                tree.label->guarded,
                from,
                2 * from,
                machine,
            ) == if taken < conditions.len() {
                run(world, rounds, results[taken as int], machine)
            } else {
                run(world, rounds, otherwise, machine)
            }
        }),
    decreases taken - from,
{
    let tree = dispatch_tree(conditions, results, otherwise);
    let all = interleaved(conditions, results);
    reveal_with_fuel(run_branch, 2);
    lemma_interleaved(conditions, results, 0);
    if from < conditions.len() {
        lemma_interleaved(conditions, results, from as int);
        assert(tree.operands[2 * from as int] == conditions[from as int]);
        assert(tree.operands[2 * from as int + 1] == results[from as int]);
        assert(tree.label->guarded[from as int]);
        assert(run(world, rounds, conditions[from as int], machine) == (Run {
            machine,
            outcome: Outcome::Value(Datum::Boolean(holds[from as int])),
        }));
        if from < taken {
            assert(!holds[from as int]);
            lemma_dispatch(
                world,
                rounds,
                conditions,
                results,
                otherwise,
                holds,
                from + 1,
                taken,
                machine,
            );
        }
    } else {
        assert(!tree.label->guarded[from as int]);
        assert(tree.operands[2 * from as int] == otherwise);
    }
}

/// The question of which element comes next.
pub open spec fn index_question(locals: DecodeLocals, machine: Machine) -> Event {
    Event {
        label: IrLabel::Call {
            callee: interface_member(
                "kotlinx/serialization/encoding/CompositeDecoder"@,
                "decodeElementIndex"@,
                "(Lkotlinx/serialization/descriptors/SerialDescriptor;)I"@,
            ),
            has_receiver: true,
        },
        operands: seq![machine.locals[locals.composite], machine.locals[locals.descriptor]],
    }
}

/// The error on an index that names no element.
pub open spec fn is_unknown(event: Event, index: i32) -> bool {
    &&& event.label matches IrLabel::New { internal, .. }
    &&& internal == "kotlinx/serialization/UnknownFieldException"@
    &&& event.operands == seq![Datum::Int(index)]
}

/// Once the flag is cleared the loop is over.
pub proof fn a_cleared_flag_ends_the_loop(
    body: DeserializeBody<'_>,
    ir: IrFile,
    ctx: PluginContext,
    world: World,
    rounds: nat,
    machine: Machine,
)
    requires
        0 < rounds,
        machine.locals[body.locals(ir).flag] == Datum::Boolean(false),
    ensures
        run(world, rounds, body.index_loop(ir, ctx), machine) == (Run {
            machine,
            outcome: Outcome::Value(Datum::Unit),
        }),
{
    let tree = body.index_loop(ir, ctx);
    let flag = value_tree(body.locals(ir).flag);
    assert(run(world, rounds, flag, machine) == (Run {
        machine,
        outcome: Outcome::Value(Datum::Boolean(false)),
    }));
    assert(tree.operands[0] == flag);
}

proof fn lemma_round(
    world: World,
    rounds: nat,
    flag: u32,
    statements: IrTree,
    machine: Machine,
)
    requires
        0 < rounds,
        machine.locals[flag] == Datum::Boolean(true),
    ensures
        ({
            let tree = while_tree(value_tree(flag), statements);
            let round = run(world, rounds, statements, machine);
            run(world, rounds, tree, machine) == match round.outcome {
                Outcome::Value(_) => run(world, (rounds - 1) as nat, tree, round.machine),
                _ => round,
            }
        }),
{
    let tree = while_tree(value_tree(flag), statements);
    assert(tree.operands[0] == value_tree(flag));
    assert(tree.operands[1] == statements);
    assert(run(world, rounds, value_tree(flag), machine) == (Run {
        machine,
        outcome: Outcome::Value(Datum::Boolean(true)),
    }));
}

proof fn lemma_next_index(
    locals: DecodeLocals,
    question: IrTree,
    world: World,
    rounds: nat,
    machine: Machine,
)
    requires
        question == call_tree(
            decoder_member(
                "decodeElementIndex"@,
                "(Lkotlinx/serialization/descriptors/SerialDescriptor;)I"@,
            ),
            value_tree(locals.composite),
            seq![value_tree(locals.descriptor)],
        ),
    ensures
        ({
            let asking = index_question(locals, machine);
            run(world, rounds, set_tree(locals.index, question), machine) == (Run {
                machine: machine.asking(asking).with(
                    locals.index,
                    (world.answers)(machine.log, asking),
                ),
                outcome: Outcome::Value(Datum::Unit),
            })
        }),
{
    assert forall|j: int| 0 <= j < 2 implies (#[trigger] question.operands[j]).label is Const
        || question.operands[j].label is GetValue by {}
    lemma_leaf_values(world, rounds, question, 2, machine);
    let values = run_operands(world, rounds, question, 2, machine).outcome->Ok_0;
    let asking = index_question(locals, machine);
    assert(question.operands[0] == value_tree(locals.composite));
    assert(question.operands[1] == value_tree(locals.descriptor));
    assert(values =~= asking.operands);
    assert(run(world, rounds, question, machine) == ask(world, question.label, values, machine));
    lemma_run_set(world, rounds, locals.index, question, machine);
}

/// The branch that an index takes.
proof fn lemma_index_branch(
    body: DeserializeBody<'_>,
    locals: DecodeLocals,
    results: Seq<IrTree>,
    index: i32,
    world: World,
    rounds: nat,
    machine: Machine,
)
    requires
        body.fields@.len() <= i32::MAX,
        results.len() == body.fields@.len() + 1,
        machine.locals[locals.index] == Datum::Int(index),
    ensures
        ({
            let conditions = body.index_conditions(locals, body.fields@.len());
            run(
                world,
                rounds,
                dispatch_tree(conditions, results, unknown_index(locals)),
                machine,
            ) == if -1 <= index < body.fields@.len() {
                run(world, rounds, results[index + 1], machine)
            } else {
                run(world, rounds, unknown_index(locals), machine)
            }
        }),
{
    let count = body.fields@.len();
    let conditions = body.index_conditions(locals, count);
    let holds = Seq::new(conditions.len(), |k: int| index == k - 1);
    assert forall|k: int| 0 <= k < holds.len() implies run(
        world,
        rounds,
        #[trigger] conditions[k],
        machine,
    ) == (Run { machine, outcome: Outcome::Value(Datum::Boolean(holds[k])) }) by {
        assert(conditions[k] == index_is(locals, (k - 1) as i32));
        lemma_run_binary(
            world,
            rounds,
            IrBinOp::Eq,
            value_tree(locals.index),
            int_tree((k - 1) as i32),
            machine,
        );
    }
    let taken: nat = if -1 <= index < count {
        (index + 1) as nat
    } else {
        conditions.len()
    };
    let unknown = unknown_index(locals);
    lemma_dispatch(world, rounds, conditions, results, unknown, holds, 0, taken, machine);
}

proof fn lemma_unknown(locals: DecodeLocals, index: i32, world: World, rounds: nat, machine: Machine)
    requires
        machine.locals[locals.index] == Datum::Int(index),
    ensures
        ({
            let after = run(world, rounds, unknown_index(locals), machine);
            &&& after.outcome is Thrown
            &&& after.machine.log.drop_last() == machine.log
            &&& is_unknown(after.machine.log.last(), index)
        }),
{
    let unknown = unknown_index(locals);
    let raised = unknown.operands[0];
    let error = raised.operands[0];
    assert(error.operands[0] == value_tree(locals.index));
    lemma_leaf_values(world, rounds, error, 1, machine);
    let handed = run_operands(world, rounds, error, 1, machine).outcome->Ok_0;
    assert(handed =~= seq![Datum::Int(index)]);
    assert(run(world, rounds, error, machine) == ask(world, error.label, handed, machine));
    assert(run(world, rounds, raised, machine).outcome is Thrown);
    assert(unknown == block_tree(seq![raised]));
    lemma_run_one(world, rounds, raised, machine);
    let after = run(world, rounds, unknown, machine);
    assert(after.machine.log.drop_last() =~= machine.log);
}

/// A round of the loop asks the decoder which element comes next. The end of the structure clears
/// the flag, the index of an element reads it and marks it alone, and any other index is an error.
pub proof fn a_round_reads_the_element_that_comes_next(
    body: DeserializeBody<'_>,
    ir: IrFile,
    ctx: PluginContext,
    index: i32,
    world: World,
    rounds: nat,
    machine: Machine,
)
    requires
        0 < rounds,
        body.well_formed(ir, ctx),
        body.fields@.len() <= i32::MAX,
        machine.locals[body.locals(ir).flag] == Datum::Boolean(true),
        holds_words(machine, body.locals(ir).first_seen, word_count(body.fields@.len())),
        (world.answers)(machine.log, index_question(body.locals(ir), machine)) == Datum::Int(index),
    ensures
        ({
            let tree = body.index_loop(ir, ctx);
            let after = run(world, rounds, tree, machine);
            let locals = body.locals(ir);
            let words = word_count(body.fields@.len());
            let asked = machine.asking(index_question(locals, machine)).with(
                locals.index,
                Datum::Int(index),
            );
            if index == -1 {
                after == run(
                    world,
                    (rounds - 1) as nat,
                    tree,
                    asked.with(locals.flag, Datum::Boolean(false)),
                )
            } else if 0 <= index < body.fields@.len() {
                exists|next: Machine|
                    {
                        &&& after == #[trigger] run(world, (rounds - 1) as nat, tree, next)
                        &&& marks(asked, next, locals.first_seen, words, index as int)
                        &&& holds_words(next, locals.first_seen, words)
                        &&& asked.log.len() <= next.log.len()
                        &&& next.log.take(asked.log.len() as int) == asked.log
                        &&& forall|local: u32|
                            local != locals.field(index as int) && !(locals.first_seen <= local
                                < locals.first_seen + words)
                                ==> #[trigger] next.locals[local] == asked.locals[local]
                    }
            } else {
                &&& after.outcome is Thrown
                &&& after.machine.log.drop_last() == asked.log
                &&& is_unknown(after.machine.log.last(), index)
            }
        }),
{
    let tree = body.index_loop(ir, ctx);
    let locals = body.locals(ir);
    let count = body.fields@.len();
    let words = word_count(count);
    let statements = tree.operands[1];
    let next = statements.operands[0];
    let ending = block_tree(
        seq![set_tree(locals.flag, const_tree(IrConstView::Boolean(false)))],
    );
    let results = seq![ending] + body.element_decode(ir).blocks(ir, ctx);
    let dispatch = dispatch_tree(
        body.index_conditions(locals, count),
        results,
        unknown_index(locals),
    );
    assert(tree == while_tree(value_tree(locals.flag), statements));
    assert(next == set_tree(locals.index, next.operands[0]));
    assert(statements.operands =~= seq![next].push(dispatch));
    assert(statements == block_tree(seq![next].push(dispatch)));
    lemma_next_index(locals, next.operands[0], world, rounds, machine);
    let asked = run(world, rounds, next, machine).machine;
    lemma_index_branch(body, locals, results, index, world, rounds, asked);
    lemma_run_one(world, rounds, next, machine);
    lemma_run_more(world, rounds, seq![next], dispatch, machine);
    lemma_run_one(world, rounds, dispatch, asked);
    lemma_round(world, rounds, locals.flag, statements, machine);
    if index == -1 {
        let clear = ending.operands[0];
        assert(results[0] == ending);
        assert(run(world, rounds, const_tree(IrConstView::Boolean(false)), asked) == (Run {
            machine: asked,
            outcome: Outcome::Value(Datum::Boolean(false)),
        }));
        lemma_run_set(
            world,
            rounds,
            locals.flag,
            const_tree(IrConstView::Boolean(false)),
            asked,
        );
        lemma_run_one(world, rounds, clear, asked);
    } else if 0 <= index < count {
        let block = body.element_decode(ir).block_for(ir, ctx, index as int);
        assert(results[index + 1] == block);
        assert forall|w: int| 0 <= w < words implies (
        #[trigger] asked.locals[(locals.first_seen + w) as u32]) is Int by {
            assert(machine.locals[(locals.first_seen + w) as u32] is Int);
            assert((locals.first_seen + w) as u32 != locals.index);
        }
        reading_an_element_marks_it_alone(
            body.element_decode(ir),
            ir,
            ctx,
            index as int,
            ir.functions@[body.function as int].params@.len(),
            world,
            rounds,
            asked,
        );
        let decoded = body.element_decode(ir).decoded(ir, ctx, index as int);
        lemma_decoded_plain(body.element_decode(ir), ir, ctx, index as int);
        lemma_plain(world, rounds, decoded, asked);
        let done = run(world, rounds, block, asked).machine;
        assert(run(world, rounds, tree, machine) == run(world, (rounds - 1) as nat, tree, done));
    } else {
        lemma_unknown(locals, index, world, rounds, asked);
    }
}

/// The words at the start say that nothing was seen, and the loop is to run.
pub proof fn nothing_is_seen_at_the_start(
    body: DeserializeBody<'_>,
    ir: IrFile,
    ctx: PluginContext,
    world: World,
    rounds: nat,
    machine: Machine,
)
    requires
        body.well_formed(ir, ctx),
    ensures
        ({
            let locals = body.locals(ir);
            let after = run_all(world, rounds, body.declarations(locals), machine);
            let words = word_count(body.fields@.len());
            &&& after.outcome is Value
            &&& after.machine.locals[locals.flag] == Datum::Boolean(true)
            &&& holds_words(after.machine, locals.first_seen, words)
            &&& forall|w: int|
                0 <= w < words ==> (#[trigger] after.machine.locals[(locals.first_seen + w) as u32])
                    == Datum::Int(0)
            &&& forall|k: int|
                0 <= k < body.fields@.len() ==> (#[trigger] after.machine.locals[(
                locals.first_field + k) as u32]) == datum(
                    IrConstView::zero_of(body.fields@[k].1@),
                )
        }),
{
    let locals = body.locals(ir);
    let count = body.fields@.len();
    let words = word_count(count);
    let all = body.declarations(locals);
    let seen = body.seen_declarations(locals, words);
    let fields = body.field_declarations(locals, count);
    let first = seq![all[0], all[1], all[2]];
    assert(all =~= (first + seen) + fields);
    let one = run(world, rounds, all[0], machine);
    let described = body.own_descriptor();
    assert(is_plain(described)) by {
        reveal_with_fuel(is_plain, 2);
    }
    lemma_plain(world, rounds, described, machine);
    lemma_run_set(world, rounds, locals.descriptor, described, machine);
    let raised = const_tree(IrConstView::Boolean(true));
    assert(run(world, rounds, raised, one.machine) == (Run {
        machine: one.machine,
        outcome: Outcome::Value(Datum::Boolean(true)),
    }));
    lemma_run_set(world, rounds, locals.flag, raised, one.machine);
    let two = run(world, rounds, all[1], one.machine);
    assert(two.outcome is Value && two.machine.locals[locals.flag] == Datum::Boolean(true));
    let three = run(world, rounds, all[2], two.machine);
    assert(three.machine == two.machine && three.outcome is Value);
    lemma_run_one(world, rounds, all[0], machine);
    lemma_run_more(world, rounds, seq![all[0]], all[1], machine);
    lemma_run_one(world, rounds, all[1], one.machine);
    assert(seq![all[0]].push(all[1]) =~= seq![all[0], all[1]]);
    lemma_run_more(world, rounds, seq![all[0], all[1]], all[2], machine);
    lemma_run_one(world, rounds, all[2], two.machine);
    assert(seq![all[0], all[1]].push(all[2]) =~= first);
    let opened = run_all(world, rounds, first, machine);
    assert(opened.machine == two.machine && opened.outcome is Value);
    let numbers = Seq::new(words, |w: int| class_type("kotlin/Int"@));
    let places = Seq::new(words, |w: int| IrConstView::Int(0));
    lemma_declared(world, rounds, seen, locals.first_seen, numbers, places, opened.machine);
    let cleared = run_all(world, rounds, seen, opened.machine);
    let values = Seq::new(count, |k: int| IrConstView::zero_of(body.fields@[k].1@));
    let types = Seq::new(count, |k: int| body.fields@[k].1@);
    lemma_declared(world, rounds, fields, locals.first_field, types, values, cleared.machine);
    lemma_run_both(world, rounds, first, seen, machine);
    lemma_run_both(world, rounds, first + seen, fields, machine);
    let after = run_all(world, rounds, all, machine);
    assert forall|w: int| 0 <= w < words implies (
    #[trigger] after.machine.locals[(locals.first_seen + w) as u32]) == Datum::Int(0) by {
        assert(places[w] == IrConstView::Int(0));
        assert(cleared.machine.locals[(locals.first_seen + w) as u32] == datum(places[w]));
    }
    assert forall|k: int| 0 <= k < count implies (
    #[trigger] after.machine.locals[(locals.first_field + k) as u32]) == datum(
        IrConstView::zero_of(body.fields@[k].1@),
    ) by {
        assert(values[k] == IrConstView::zero_of(body.fields@[k].1@));
    }
}

/// Locals that are declared one after the other hold the constants they start with.
proof fn lemma_declared(
    world: World,
    rounds: nat,
    statements: Seq<IrTree>,
    first: u32,
    types: Seq<TyView>,
    values: Seq<IrConstView>,
    machine: Machine,
)
    requires
        statements.len() == types.len() == values.len(),
        first + values.len() <= u32::MAX,
        forall|k: int|
            0 <= k < values.len() ==> #[trigger] statements[k] == variable_tree(
                (first + k) as u32,
                types[k],
                const_tree(values[k]),
            ),
    ensures
        ({
            let after = run_all(world, rounds, statements, machine);
            &&& after.outcome == Outcome::Value(Datum::Unit)
            &&& after.machine.log == machine.log
            &&& forall|k: int|
                0 <= k < values.len() ==> (#[trigger] after.machine.locals[(first + k) as u32])
                    == datum(values[k])
            &&& forall|local: u32|
                !(first <= local < first + values.len())
                    ==> #[trigger] after.machine.locals[local] == machine.locals[local]
        }),
    decreases statements.len(),
{
    if statements.len() == 0 {
        assert(statements =~= seq![]);
        lemma_run_none(world, rounds, machine);
    } else {
        let before = statements.drop_last();
        let earlier = values.drop_last();
        let last = statements.len() - 1;
        lemma_declared(world, rounds, before, first, types.drop_last(), earlier, machine);
        let so_far = run_all(world, rounds, before, machine);
        assert(statements =~= before.push(statements[last]));
        let value = const_tree(values[last]);
        assert(run(world, rounds, value, so_far.machine) == (Run {
            machine: so_far.machine,
            outcome: Outcome::Value(datum(values[last])),
        }));
        lemma_run_set(world, rounds, (first + last) as u32, value, so_far.machine);
        assert(statements[last] == variable_tree((first + last) as u32, types[last], value));
        lemma_run_more(world, rounds, before, statements[last], machine);
        lemma_run_one(world, rounds, statements[last], so_far.machine);
        let after = run_all(world, rounds, statements, machine);
        assert forall|k: int| 0 <= k < values.len() implies (
        #[trigger] after.machine.locals[(first + k) as u32]) == datum(values[k]) by {
            if k < last {
                assert(earlier[k] == values[k]);
                assert(so_far.machine.locals[(first + k) as u32] == datum(earlier[k]));
            }
        }
    }
}

/// The question of whether the elements come in their order.
pub open spec fn asks_for_order(event: Event) -> bool {
    &&& event.label matches IrLabel::Call { callee, .. }
    &&& callee matches CalleeView::Virtual { owner, name, .. }
    &&& owner == "kotlinx/serialization/encoding/CompositeDecoder"@
    &&& name == "decodeSequentially"@
}

/// Whether the elements come in their order, whenever the decoder is asked.
pub open spec fn is_sequential(world: World) -> bool {
    forall|log: Seq<Event>, event: Event|
        asks_for_order(event) ==> #[trigger] (world.answers)(log, event) == Datum::Boolean(true)
}

/// Whether the words say that an element was seen.
pub open spec fn says_seen(words: Seq<Datum>, j: int) -> bool {
    words[j / 32] matches Datum::Int(word) && has_bit(word, j % 32)
}

/// Whether the words say that every element was seen, and no more.
pub open spec fn says_all(words: Seq<Datum>, count: nat) -> bool {
    &&& words.len() == word_count(count)
    &&& forall|j: int|
        0 <= j < 32 * words.len() ==> (#[trigger] says_seen(words, j) <==> j < count)
}

proof fn lemma_order(
    body: DeserializeBody<'_>,
    locals: DecodeLocals,
    question: IrTree,
    world: World,
    rounds: nat,
    machine: Machine,
)
    requires
        is_sequential(world),
        question == call_tree(
            decoder_member("decodeSequentially"@, "()Z"@),
            value_tree(locals.composite),
            seq![],
        ),
    ensures
        ({
            let after = run(world, rounds, question, machine);
            &&& after.outcome == Outcome::Value(Datum::Boolean(true))
            &&& after.machine.locals == machine.locals
        }),
{
    assert(question.operands[0] == value_tree(locals.composite));
    lemma_leaf_values(world, rounds, question, 1, machine);
    let values = run_operands(world, rounds, question, 1, machine).outcome->Ok_0;
    let event = Event { label: question.label, operands: values };
    assert(asks_for_order(event));
    assert((world.answers)(machine.log, event) == Datum::Boolean(true));
}

proof fn lemma_opened(
    body: DeserializeBody<'_>,
    ir: IrFile,
    locals: DecodeLocals,
    world: World,
    rounds: nat,
    machine: Machine,
)
    ensures
        ({
            let after = run_all(world, rounds, body.opening(ir, locals), machine);
            &&& after.outcome is Value
            &&& forall|local: u32|
                local != locals.composite && local != locals.cache
                    ==> #[trigger] after.machine.locals[local] == machine.locals[local]
        }),
{
    let opening = body.opening(ir, locals);
    let beginning = begin_decoding(value_tree(locals.descriptor));
    assert(is_plain(beginning)) by {
        reveal_with_fuel(is_plain, 2);
    }
    lemma_plain(world, rounds, beginning, machine);
    lemma_run_set(world, rounds, locals.composite, beginning, machine);
    lemma_run_one(world, rounds, opening[0], machine);
    let begun = run(world, rounds, opening[0], machine);
    if let Some(plan) = body.cache {
        let read = cache_read(body.class_name(ir), plan.accessor);
        assert(is_plain(read)) by {
            reveal_with_fuel(is_plain, 3);
        }
        lemma_plain(world, rounds, read, begun.machine);
        lemma_run_set(world, rounds, locals.cache, read, begun.machine);
        lemma_run_one(world, rounds, opening[1], begun.machine);
        lemma_run_more(world, rounds, seq![opening[0]], opening[1], machine);
        assert(opening =~= seq![opening[0]].push(opening[1]));
    } else {
        assert(opening =~= seq![opening[0]]);
    }
}

/// Where the decoder promises that the elements come in their order, `deserialize` returns the
/// object that the constructor makes, and the words that the constructor gets say that every
/// element was seen.
#[verifier::rlimit(40)]
pub proof fn a_sequential_decoder_is_read_in_full(
    body: DeserializeBody<'_>,
    ir: IrFile,
    ctx: PluginContext,
    world: World,
    rounds: nat,
    machine: Machine,
)
    requires
        body.well_formed(ir, ctx),
        body.has_constructor(ir),
        is_sequential(world),
    ensures
        ({
            let after = run(world, rounds, body.decoding_body(ir, ctx), machine);
            let event = after.machine.log.last();
            let count = body.fields@.len();
            &&& event.label matches IrLabel::New { internal, .. } && internal == body.class_name(ir)
            &&& after.outcome == Outcome::Returned(
                (world.answers)(after.machine.log.drop_last(), event),
            )
            &&& word_count(count) + count < event.operands.len()
            &&& says_all(event.operands.take(word_count(count) as int), count)
        }),
{
    let locals = body.locals(ir);
    let count = body.fields@.len();
    let words = word_count(count);
    let declarations = body.declarations(locals);
    let opening = body.opening(ir, locals);
    let reading = body.reading(ir, ctx);
    let closing = body.closing(locals);
    let returning = return_tree(body.constructing(ir));
    let elements = body.element_decode(ir);
    nothing_is_seen_at_the_start(body, ir, ctx, world, rounds, machine);
    let declared = run_all(world, rounds, declarations, machine).machine;
    lemma_opened(body, ir, locals, world, rounds, declared);
    let opened = run_all(world, rounds, opening, declared).machine;
    let question = reading.operands[0];
    lemma_order(body, locals, question, world, rounds, opened);
    let told = run(world, rounds, question, opened).machine;
    let blocks = elements.blocks(ir, ctx);
    let indexed = block_tree(seq![body.index_loop(ir, ctx)]);
    assert(reading == if_else_tree(question, block_tree(blocks), indexed));
    lemma_run_if(world, rounds, question, block_tree(blocks), indexed, opened);
    let order = Seq::new(count, |k: int| k);
    assert(blocks =~= blocks_of(elements, ir, ctx, order));
    assert forall|w: int| 0 <= w < words implies (
    #[trigger] told.locals[(locals.first_seen + w) as u32]) == Datum::Int(0) by {
        assert(declared.locals[(locals.first_seen + w) as u32] == Datum::Int(0));
        assert(opened.locals[(locals.first_seen + w) as u32] == Datum::Int(0));
    }
    reading_elements_marks_exactly_them(
        elements,
        ir,
        ctx,
        order,
        ir.functions@[body.function as int].params@.len(),
        world,
        rounds,
        told,
    );
    let read = run_all(world, rounds, blocks, told).machine;
    assert(is_plain(closing)) by {
        reveal_with_fuel(is_plain, 2);
    }
    lemma_plain(world, rounds, closing, read);
    let closed = run(world, rounds, closing, read).machine;
    the_constructor_gets_the_words_and_the_elements(body, ir, world, rounds, closed);
    let built = run(world, rounds, body.constructing(ir), closed);
    assert(returning.operands[0] == body.constructing(ir));
    let returned = run(world, rounds, returning, closed);
    assert(returned.outcome == Outcome::Returned(built.outcome->Value_0));
    assert(returned.machine == built.machine);
    let front = declarations + opening;
    lemma_run_both(world, rounds, declarations, opening, machine);
    let with_read = front.push(reading);
    lemma_run_more(world, rounds, front, reading, machine);
    lemma_run_one(world, rounds, reading, opened);
    let with_closed = with_read.push(closing);
    lemma_run_more(world, rounds, with_read, closing, machine);
    lemma_run_one(world, rounds, closing, read);
    let all = with_closed.push(returning);
    lemma_run_more(world, rounds, with_closed, returning, machine);
    lemma_run_one(world, rounds, returning, closed);
    assert(declarations + opening + seq![reading, closing, returning] =~= all);
    let event = built.machine.log.last();
    assert(built.machine.log.drop_last() =~= closed.log);
    let said = event.operands.take(words as int);
    assert forall|j: int| 0 <= j < 32 * words implies (#[trigger] says_seen(said, j) <==> j
        < count) by {
        assert(0 <= j / 32 < words);
        assert(event.operands[j / 32] == closed.locals[(locals.first_seen + j / 32) as u32]);
        assert(is_seen(read, locals.first_seen, j) <==> order.contains(j));
        if j < count {
            assert(order[j] == j);
        }
    }
}

} // verus!
