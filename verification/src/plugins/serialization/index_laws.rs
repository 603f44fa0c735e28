//! What the loop of the generated `deserialize` does over all its rounds.

use vstd::prelude::*;

use crate::ir::expr::{CalleeView, IrLabel};
use crate::ir::file::IrFile;
use crate::ir::run::{run, Datum, Event, Machine, World};
use crate::plugins::context::PluginContext;
use crate::plugins::serialization::body_laws::{holds_words, is_seen, marks};
use crate::plugins::serialization::deserialize_body::{word_count, DeserializeBody};
use crate::plugins::serialization::read_laws::{
    a_cleared_flag_ends_the_loop, a_round_reads_the_element_that_comes_next, index_question,
};

verus! {

/// Whether the decoder named an element when it was asked which one comes next.
pub open spec fn was_named(world: World, log: Seq<Event>, k: int) -> bool {
    exists|at: int|
        0 <= at < log.len() && is_index_question(#[trigger] log[at]) && (world.answers)(
            log.take(at),
            log[at],
        ) == Datum::Int(k as i32)
}

/// Whether an event asks which element comes next.
pub open spec fn is_index_question(event: Event) -> bool {
    &&& event.label matches IrLabel::Call { callee, .. }
    &&& callee matches CalleeView::Virtual { owner, name, .. }
    &&& owner == "kotlinx/serialization/encoding/CompositeDecoder"@
    &&& name == "decodeElementIndex"@
}

/// Whether the decoder answers the question of which element comes next with a number.
pub open spec fn answers_numbers(world: World) -> bool {
    forall|log: Seq<Event>, event: Event|
        is_index_question(event) ==> (#[trigger] (world.answers)(log, event)) is Int
}

proof fn lemma_named_before(world: World, before: Seq<Event>, after: Seq<Event>, k: int)
    requires
        before.len() <= after.len(),
        after.take(before.len() as int) == before,
        was_named(world, before, k),
    ensures
        was_named(world, after, k),
{
    let at = choose|at: int|
        0 <= at < before.len() && is_index_question(#[trigger] before[at]) && (world.answers)(
            before.take(at),
            before[at],
        ) == Datum::Int(k as i32);
    assert(after[at] == before[at]);
    assert(after.take(at) =~= before.take(at));
}

/// The loop ends only where the decoder said that the structure has. The elements that it marked
/// are those that the decoder named, and what was marked before stays marked.
pub proof fn the_loop_marks_what_the_decoder_named(
    body: DeserializeBody<'_>,
    ir: IrFile,
    ctx: PluginContext,
    world: World,
    rounds: nat,
    machine: Machine,
)
    requires
        body.well_formed(ir, ctx),
        body.fields@.len() <= i32::MAX,
        machine.locals[body.locals(ir).flag] is Boolean,
        holds_words(machine, body.locals(ir).first_seen, word_count(body.fields@.len())),
        answers_numbers(world),
    ensures
        ({
            let after = run(world, rounds, body.index_loop(ir, ctx), machine);
            let locals = body.locals(ir);
            let words = word_count(body.fields@.len());
            after.outcome is Value ==> {
                &&& after.machine.locals[locals.flag] == Datum::Boolean(false)
                &&& holds_words(after.machine, locals.first_seen, words)
                &&& machine.log.len() <= after.machine.log.len()
                &&& after.machine.log.take(machine.log.len() as int) == machine.log
                &&& forall|j: int|
                    0 <= j < 32 * words && #[trigger] is_seen(after.machine, locals.first_seen, j)
                        ==> is_seen(machine, locals.first_seen, j) || was_named(
                        world,
                        after.machine.log,
                        j,
                    )
                &&& forall|j: int|
                    0 <= j < 32 * words && is_seen(machine, locals.first_seen, j)
                        ==> #[trigger] is_seen(after.machine, locals.first_seen, j)
            }
        }),
    decreases rounds, 1nat,
{
    let tree = body.index_loop(ir, ctx);
    let locals = body.locals(ir);
    let count = body.fields@.len();
    let words = word_count(count);
    let first = locals.first_seen;
    assert(machine.log.take(machine.log.len() as int) =~= machine.log);
    if rounds > 0 {
        if machine.locals[locals.flag] == Datum::Boolean(false) {
            a_cleared_flag_ends_the_loop(body, ir, ctx, world, rounds, machine);
        } else {
            let question = index_question(locals, machine);
            assert(is_index_question(question));
            assert((world.answers)(machine.log, question) is Int);
            let index = (world.answers)(machine.log, question)->Int_0;
            let asked = machine.asking(question).with(locals.index, Datum::Int(index));
            a_round_reads_the_element_that_comes_next(body, ir, ctx, index, world, rounds, machine);
            assert(locals.index < first && locals.flag < first && locals.index != locals.flag);
            assert forall|j: int| 0 <= j < 32 * words implies #[trigger] is_seen(asked, first, j)
                == is_seen(machine, first, j) by {
                assert(0 <= j / 32 < words);
                assert((first + j / 32) as u32 != locals.index);
            }
            assert(asked.log.take(machine.log.len() as int) =~= machine.log);
            if index == -1 {
                let next = asked.with(locals.flag, Datum::Boolean(false));
                assert(next.log.take(asked.log.len() as int) =~= asked.log);
                lemma_next(body, ir, ctx, world, rounds, machine, asked, next, -1);
            } else if 0 <= index < count {
                let next = choose|next: Machine|
                    {
                        &&& run(world, rounds, tree, machine) == #[trigger] run(
                            world,
                            (rounds - 1) as nat,
                            tree,
                            next,
                        )
                        &&& marks(asked, next, first, words, index as int)
                        &&& holds_words(next, first, words)
                        &&& asked.log.len() <= next.log.len()
                        &&& next.log.take(asked.log.len() as int) == asked.log
                        &&& forall|local: u32|
                            local != locals.field(index as int) && !(first <= local < first
                                + words) ==> #[trigger] next.locals[local] == asked.locals[local]
                    };
                assert(next.locals[locals.flag] == asked.locals[locals.flag]);
                assert(was_named(world, next.log, index as int)) by {
                    let at = machine.log.len() as int;
                    assert(asked.log[at] == question);
                    assert(next.log[at] == next.log.take(asked.log.len() as int)[at]);
                    assert(next.log.take(at) =~= asked.log.take(at));
                    assert(asked.log.take(at) =~= machine.log);
                }
                lemma_next(body, ir, ctx, world, rounds, machine, asked, next, index as int);
            }
        }
    }
}

proof fn lemma_next(
    body: DeserializeBody<'_>,
    ir: IrFile,
    ctx: PluginContext,
    world: World,
    rounds: nat,
    machine: Machine,
    asked: Machine,
    next: Machine,
    k: int,
)
    requires
        0 < rounds,
        body.well_formed(ir, ctx),
        body.fields@.len() <= i32::MAX,
        holds_words(machine, body.locals(ir).first_seen, word_count(body.fields@.len())),
        answers_numbers(world),
        next.locals[body.locals(ir).flag] is Boolean,
        asked.log.len() == machine.log.len() + 1,
        asked.log.take(machine.log.len() as int) == machine.log,
        asked.log.len() <= next.log.len(),
        next.log.take(asked.log.len() as int) == asked.log,
        forall|w: int|
            0 <= w < word_count(body.fields@.len()) ==> (
            #[trigger] next.locals[(body.locals(ir).first_seen + w) as u32]) is Int,
        forall|j: int|
            0 <= j < 32 * word_count(body.fields@.len()) ==> (#[trigger] is_seen(
                next,
                body.locals(ir).first_seen,
                j,
            ) <==> is_seen(machine, body.locals(ir).first_seen, j) || j == k),
        k >= 0 ==> was_named(world, next.log, k),
        run(world, rounds, body.index_loop(ir, ctx), machine) == run(
            world,
            (rounds - 1) as nat,
            body.index_loop(ir, ctx),
            next,
        ),
    ensures
        ({
            let after = run(world, rounds, body.index_loop(ir, ctx), machine);
            let locals = body.locals(ir);
            let words = word_count(body.fields@.len());
            after.outcome is Value ==> {
                &&& after.machine.locals[locals.flag] == Datum::Boolean(false)
                &&& holds_words(after.machine, locals.first_seen, words)
                &&& machine.log.len() <= after.machine.log.len()
                &&& after.machine.log.take(machine.log.len() as int) == machine.log
                &&& forall|j: int|
                    0 <= j < 32 * words && #[trigger] is_seen(after.machine, locals.first_seen, j)
                        ==> is_seen(machine, locals.first_seen, j) || was_named(
                        world,
                        after.machine.log,
                        j,
                    )
                &&& forall|j: int|
                    0 <= j < 32 * words && is_seen(machine, locals.first_seen, j)
                        ==> #[trigger] is_seen(after.machine, locals.first_seen, j)
            }
        }),
    decreases rounds, 0nat,
{
    let first = body.locals(ir).first_seen;
    let words = word_count(body.fields@.len());
    the_loop_marks_what_the_decoder_named(body, ir, ctx, world, (rounds - 1) as nat, next);
    let after = run(world, rounds, body.index_loop(ir, ctx), machine);
    if after.outcome is Value {
        let log = after.machine.log;
        assert(log.take(machine.log.len() as int) =~= log.take(next.log.len() as int).take(
            asked.log.len() as int,
        ).take(machine.log.len() as int));
        assert forall|j: int|
            0 <= j < 32 * words && #[trigger] is_seen(after.machine, first, j) implies is_seen(
            machine,
            first,
            j,
        ) || was_named(world, log, j) by {
            if is_seen(next, first, j) && j == k {
                lemma_named_before(world, next.log, log, k);
            }
        }
        assert forall|j: int| 0 <= j < 32 * words && is_seen(machine, first, j) implies
            #[trigger] is_seen(after.machine, first, j) by {
            assert(is_seen(next, first, j));
        }
    }
}

} // verus!
