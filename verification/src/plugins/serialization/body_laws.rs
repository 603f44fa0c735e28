//! What the generated bodies do when they run.

use vstd::prelude::*;

use crate::ir::expr::{CalleeView, ClassId, IrBinOp, IrLabel};
use crate::ir::file::{IrClass, IrFile, IrFunction};
use crate::ir::run::{
    datum, is_plain, lemma_operand_values, lemma_plain, lemma_run_binary, lemma_run_if,
    lemma_run_more, lemma_run_none, lemma_run_one, lemma_run_set, run, run_all, run_operands, Datum,
    Event, Machine, Outcome, Run, World,
};
use crate::ir::tree::{
    binary_tree, block_tree, call_tree, cast_tree, if_tree, int_tree, set_tree, value_tree, IrTree,
};
use crate::model::first_place;
use crate::plugins::context::PluginContext;
use crate::plugins::serialization::annotations::{field_serializer, is_contextual};
use crate::plugins::serialization::child_serializer_cache::{is_cached, slot_value};
use crate::plugins::serialization::deserialization_constructor::{
    applied_default, bit_set, element_absent, element_bit, element_local, field_statement,
    field_store, missing_check, reported_descriptor, required_word, required_words,
    required_words_hold_the_required_elements, word_misses, words_miss,
};
use crate::plugins::serialization::deserialize_body::{
    locals_fit, word_count, DecodeLocals, ElementDecode,
};
use crate::plugins::serialization::element_serializer::{
    element_plan, element_tree, narrowed_serializer, plan_tree, plan_trees, unsupported_element,
    PlanView,
};
use crate::plugins::serialization::support::{
    accessor_call, accessor_companion, class_type, contextual_for, contextual_serializer,
    element_decoder, external_accessor_call, literal_tree, named_serializer, polymorphic_serializer,
};

verus! {

/// A call is plain where what it is made on is.
pub(crate) proof fn lemma_plain_call(callee: CalleeView, receiver: IrTree, args: Seq<IrTree>)
    requires
        is_plain(receiver),
        forall|k: int| 0 <= k < args.len() ==> is_plain(#[trigger] args[k]),
    ensures
        is_plain(call_tree(callee, receiver, args)),
{
    let tree = call_tree(callee, receiver, args);
    assert forall|k: int| 0 <= k < tree.operands.len() implies is_plain(
        #[trigger] tree.operands[k],
    ) by {
        if k > 0 {
            assert(tree.operands[k] == args[k - 1]);
        }
    }
}

proof fn lemma_plans_plain(
    classes: Seq<IrClass>,
    functions: Seq<IrFunction>,
    plans: Seq<PlanView>,
    narrow: bool,
)
    ensures
        ({
            let all = plan_trees(classes, functions, plans, narrow);
            forall|k: int| 0 <= k < all.len() ==> is_plain(#[trigger] all[k])
        }),
    decreases plans,
{
    let all = plan_trees(classes, functions, plans, narrow);
    assert forall|k: int| 0 <= k < all.len() implies is_plain(#[trigger] all[k]) by {
        lemma_plan_plain(classes, functions, plans[k]);
        let serializer = plan_tree(classes, functions, plans[k]);
        assert(narrowed_serializer(serializer).operands =~= seq![serializer]);
    }
}

/// Coming by a serializer sets no local.
pub(crate) proof fn lemma_plan_plain(classes: Seq<IrClass>, functions: Seq<IrFunction>, plan: PlanView)
    ensures
        is_plain(plan_tree(classes, functions, plan)),
    decreases plan,
{
    match plan {
        PlanView::Generated { classifier, arguments } => {
            lemma_plans_plain(classes, functions, arguments, false);
            let args = plan_trees(classes, functions, arguments, false);
            let tree = accessor_call(classes, functions, classifier, args);
            if let Some((class, companion)) = accessor_companion(
                classes,
                functions,
                classifier,
                args.len(),
            ) {
                assert forall|k: int| 0 <= k < tree.operands.len() implies is_plain(
                    #[trigger] tree.operands[k],
                ) by {
                    if k > 0 {
                        assert(tree.operands[k] == args[k - 1]);
                    }
                }
                assert(is_plain(tree));
            } else {
                assert(tree.operands == args);
                assert(is_plain(tree));
            }
        },
        PlanView::ConstructedStandard { arguments, .. } => {
            lemma_plans_plain(classes, functions, arguments, true);
            assert(plan_tree(classes, functions, plan).operands == plan_trees(
                classes,
                functions,
                arguments,
                true,
            ));
            assert(is_plain(plan_tree(classes, functions, plan)));
        },
        PlanView::Nullable(inner) => {
            lemma_plan_plain(classes, functions, *inner);
            let serializer = plan_tree(classes, functions, *inner);
            let narrowed = narrowed_serializer(serializer);
            assert(narrowed.operands =~= seq![serializer]);
            assert(is_plain(narrowed));
            assert(plan_tree(classes, functions, plan).operands =~= seq![narrowed]);
            assert(is_plain(plan_tree(classes, functions, plan)));
        },
        PlanView::LocalConstructed { arguments, .. } => {
            lemma_plans_plain(classes, functions, arguments, false);
            assert(plan_tree(classes, functions, plan).operands == plan_trees(
                classes,
                functions,
                arguments,
                false,
            ));
            assert(is_plain(plan_tree(classes, functions, plan)));
        },
        PlanView::ExternalCompanion { classifier, field, companion, arguments } => {
            lemma_plans_plain(classes, functions, arguments, true);
            let args = plan_trees(classes, functions, arguments, true);
            let tree = external_accessor_call(classifier, field, companion, args);
            assert forall|k: int| 0 <= k < tree.operands.len() implies is_plain(
                #[trigger] tree.operands[k],
            ) by {
                if k > 0 {
                    assert(tree.operands[k] == args[k - 1]);
                }
            }
        },
        PlanView::Contextual(classifier) => {
            lemma_over_class(classifier);
        },
        PlanView::Polymorphic(classifier) => {
            lemma_over_class(classifier);
        },
        PlanView::Object { object, serial_name, serial_info_unsupported } => {
            reveal_with_fuel(is_plain, 3);
            assert(is_plain(plan_tree(classes, functions, plan)));
        },
        _ => {
            reveal_with_fuel(is_plain, 3);
            assert(is_plain(plan_tree(classes, functions, plan)));
        },
    }
}

pub(crate) proof fn lemma_over_class(classifier: Seq<char>)
    ensures
        is_plain(literal_tree(classifier)),
        is_plain(contextual_serializer(classifier)),
        is_plain(polymorphic_serializer(classifier)),
{
    reveal_with_fuel(is_plain, 3);
}

/// Reading an element sets no local by itself.
pub(crate) proof fn lemma_decoded_plain(elements: ElementDecode<'_>, ir: IrFile, ctx: PluginContext, k: int)
    ensures
        is_plain(elements.decoded(ir, ctx, k)),
{
    let name = elements.fields@[k].0@;
    let ty = elements.fields@[k].1@;
    let serializer = match contextual_for(is_contextual(ctx, elements.serialized_class, name), ty) {
        Some(serializer) => serializer,
        None => match field_serializer(ctx, elements.serialized_class, name) {
            Some(serializer) => named_serializer(ir, serializer),
            None => if is_cached(*elements.cache, k) {
                cast_tree(
                    slot_value(elements.locals.cache, k as usize),
                    class_type("kotlinx/serialization/DeserializationStrategy"@),
                )
            } else {
                match element_tree(ir, ctx, ty, elements.type_parameter_serializers@) {
                    Some(serializer) => serializer,
                    None => unsupported_element(ty),
                }
            },
        },
    };
    if let Some(classifier) = ty.kotlin_class_internal() {
        lemma_over_class(classifier);
    }
    if let Some(plan) = element_plan(ir, ctx, ty, elements.type_parameter_serializers@) {
        lemma_plan_plain(ir.classes@, ir.functions@, plan);
    }
    assert(is_plain(serializer)) by {
        reveal_with_fuel(is_plain, 5);
    }
    let narrowed = cast_tree(
        serializer,
        class_type("kotlinx/serialization/DeserializationStrategy"@),
    );
    assert(narrowed.operands =~= seq![serializer]);
    assert(is_plain(narrowed));
    let read = elements.through(k, serializer);
    let call = read.operands[0];
    assert forall|j: int| 0 <= j < call.operands.len() implies is_plain(
        #[trigger] call.operands[j],
    ) by {
        if j == 3 {
            assert(call.operands[j] == narrowed);
        }
    }
    assert(is_plain(call));
    assert(is_plain(read));
    if let Some((member, descriptor)) = element_decoder(ty) {
        reveal_with_fuel(is_plain, 3);
    }
}

/// Whether the bit `bit` of a number is set.
pub open spec fn has_bit(word: i32, bit: int) -> bool {
    bit_set(word as u32, bit as u32)
}

/// Whether the words from the local `first` on hold numbers.
pub open spec fn holds_words(machine: Machine, first: u32, words: nat) -> bool {
    forall|w: int|
        0 <= w < words ==> (#[trigger] machine.locals[(first + w) as u32]) is Int
}

/// Whether the words from the local `first` on say that element `k` was seen.
pub open spec fn is_seen(machine: Machine, first: u32, k: int) -> bool {
    machine.locals[(first + k / 32) as u32] matches Datum::Int(word) && has_bit(word, k % 32)
}

/// Whether the words say the same of every element but `k`, which they say was seen.
pub open spec fn marks(before: Machine, after: Machine, first: u32, words: nat, k: int) -> bool {
    forall|j: int|
        0 <= j < 32 * words ==> (#[trigger] is_seen(after, first, j) <==> is_seen(before, first, j)
            || j == k)
}

proof fn lemma_bits(word: i32, k: nat, bit: int)
    requires
        0 <= bit < 32,
    ensures
        has_bit(word | element_bit(k), bit) <==> has_bit(word, bit) || bit == k % 32,
{
    let place = (k % 32) as u32;
    let wanted = bit as u32;
    assert(((((word | ((1u32 << place) as i32)) as u32) >> wanted) & 1 == 1) <==> (((word as u32)
        >> wanted) & 1 == 1 || wanted == place)) by (bit_vector)
        requires
            place < 32,
            wanted < 32,
    ;
}

/// Running the block of an element reads it into its local and marks it as seen, and it alone:
/// every other bit of the words stays, and so does every other local.
pub proof fn reading_an_element_marks_it_alone(
    elements: ElementDecode<'_>,
    ir: IrFile,
    ctx: PluginContext,
    k: int,
    params: nat,
    world: World,
    rounds: nat,
    machine: Machine,
)
    requires
        0 <= k < elements.fields@.len(),
        locals_fit(params, elements.fields@.len()),
        elements.locals == DecodeLocals::numbered(params, elements.fields@.len()),
        holds_words(machine, elements.locals.first_seen, word_count(elements.fields@.len())),
    ensures
        ({
            let first = elements.locals.first_seen;
            let words = word_count(elements.fields@.len());
            let read = run(world, rounds, elements.decoded(ir, ctx, k), machine);
            let after = run(world, rounds, elements.block_for(ir, ctx, k), machine);
            &&& after.outcome == Outcome::Value(Datum::Unit)
            &&& after.machine.log == read.machine.log
            &&& read.outcome == Outcome::Value(after.machine.locals[elements.locals.field(k)])
            &&& holds_words(after.machine, first, words)
            &&& marks(machine, after.machine, first, words, k)
            &&& forall|local: u32|
                local != elements.locals.field(k) && !(first <= local < first + words)
                    ==> #[trigger] after.machine.locals[local] == machine.locals[local]
        }),
{
    let locals = elements.locals;
    let first = locals.first_seen;
    let words = word_count(elements.fields@.len());
    let decoded = elements.decoded(ir, ctx, k);
    lemma_decoded_plain(elements, ir, ctx, k);
    lemma_plain(world, rounds, decoded, machine);
    let read = run(world, rounds, decoded, machine);
    let value = read.outcome->Value_0;
    lemma_run_set(world, rounds, locals.field(k), decoded, machine);
    let held = read.machine.with(locals.field(k), value);
    let slot = locals.seen(k);
    assert(0 <= k / 32 < words);
    assert(slot != locals.field(k));
    let word = machine.locals[(first + k / 32) as u32]->Int_0;
    assert(held.locals[slot] == Datum::Int(word));
    let bit = int_tree(element_bit(k as nat));
    lemma_run_binary(world, rounds, IrBinOp::BitOr, value_tree(slot), bit, held);
    let marked = binary_tree(IrBinOp::BitOr, value_tree(slot), bit);
    lemma_run_set(world, rounds, slot, marked, held);
    let done = held.with(slot, Datum::Int(word | element_bit(k as nat)));
    let statements = seq![set_tree(locals.field(k), decoded), set_tree(slot, marked)];
    assert(statements =~= seq![statements[0]].push(statements[1]));
    lemma_run_more(world, rounds, seq![statements[0]], statements[1], machine);
    lemma_run_one(world, rounds, statements[0], machine);
    lemma_run_one(world, rounds, statements[1], held);
    assert(elements.block_for(ir, ctx, k) == block_tree(statements));
    let after = run(world, rounds, elements.block_for(ir, ctx, k), machine);
    assert(after.machine == done);
    assert forall|j: int| 0 <= j < 32 * words implies (#[trigger] is_seen(done, first, j)
        <==> is_seen(machine, first, j) || j == k) by {
        assert(0 <= j / 32 < words);
        if j / 32 == k / 32 {
            lemma_bits(word, k as nat, j % 32);
            assert((first + j / 32) as u32 == slot);
        } else {
            assert((first + j / 32) as u32 != slot);
            assert((first + j / 32) as u32 != locals.field(k));
        }
    }
    assert forall|w: int| 0 <= w < words implies (
    #[trigger] done.locals[(first + w) as u32]) is Int by {
        assert((first + w) as u32 != locals.field(k));
        assert(machine.locals[(first + w) as u32] is Int);
    }
}

/// The blocks of some elements, in the order in which they are read.
pub open spec fn blocks_of(
    elements: ElementDecode<'_>,
    ir: IrFile,
    ctx: PluginContext,
    order: Seq<int>,
) -> Seq<IrTree> {
    Seq::new(order.len(), |i: int| elements.block_for(ir, ctx, order[i]))
}

/// Reading some elements, in any order, marks exactly those: from words that say that nothing was
/// seen, the words come to say of each element whether it was read.
pub proof fn reading_elements_marks_exactly_them(
    elements: ElementDecode<'_>,
    ir: IrFile,
    ctx: PluginContext,
    order: Seq<int>,
    params: nat,
    world: World,
    rounds: nat,
    machine: Machine,
)
    requires
        forall|i: int| 0 <= i < order.len() ==> 0 <= #[trigger] order[i] < elements.fields@.len(),
        locals_fit(params, elements.fields@.len()),
        elements.locals == DecodeLocals::numbered(params, elements.fields@.len()),
        forall|w: int|
            0 <= w < word_count(elements.fields@.len()) ==> (
            #[trigger] machine.locals[(elements.locals.first_seen + w) as u32]) == Datum::Int(0),
    ensures
        ({
            let first = elements.locals.first_seen;
            let words = word_count(elements.fields@.len());
            let after = run_all(world, rounds, blocks_of(elements, ir, ctx, order), machine);
            &&& after.outcome == Outcome::Value(Datum::Unit)
            &&& holds_words(after.machine, first, words)
            &&& forall|j: int|
                0 <= j < 32 * words ==> (#[trigger] is_seen(after.machine, first, j)
                    <==> order.contains(j))
            &&& forall|local: u32|
                (forall|i: int|
                    0 <= i < order.len() ==> local != elements.locals.field(#[trigger] order[i]))
                    && !(first <= local < first + words) ==> #[trigger] after.machine.locals[local]
                    == machine.locals[local]
        }),
    decreases order.len(),
{
    let first = elements.locals.first_seen;
    let words = word_count(elements.fields@.len());
    let blocks = blocks_of(elements, ir, ctx, order);
    if order.len() == 0 {
        assert(blocks =~= seq![]);
        lemma_run_none(world, rounds, machine);
        assert forall|w: int| 0 <= w < words implies (
        #[trigger] machine.locals[(first + w) as u32]) is Int by {}
        assert forall|j: int| 0 <= j < 32 * words implies !(#[trigger] is_seen(
            machine,
            first,
            j,
        )) by {
            assert(0 <= j / 32 < words);
            let bit = (j % 32) as u32;
            assert(machine.locals[(first + j / 32) as u32] == Datum::Int(0));
            assert((((0i32 as u32) >> bit) & 1) == 0) by (bit_vector);
        }
    } else {
        let earlier = order.drop_last();
        let last = order.last();
        assert forall|i: int| 0 <= i < earlier.len() implies 0 <= #[trigger] earlier[i]
            < elements.fields@.len() by {
            assert(earlier[i] == order[i]);
        }
        reading_elements_marks_exactly_them(
            elements,
            ir,
            ctx,
            earlier,
            params,
            world,
            rounds,
            machine,
        );
        let before = blocks_of(elements, ir, ctx, earlier);
        assert(blocks =~= before.push(elements.block_for(ir, ctx, last)));
        lemma_run_more(world, rounds, before, elements.block_for(ir, ctx, last), machine);
        let so_far = run_all(world, rounds, before, machine);
        assert(last == order[order.len() - 1]);
        reading_an_element_marks_it_alone(
            elements,
            ir,
            ctx,
            last,
            params,
            world,
            rounds,
            so_far.machine,
        );
        lemma_run_one(world, rounds, elements.block_for(ir, ctx, last), so_far.machine);
        let after = run_all(world, rounds, blocks, machine);
        assert forall|j: int| 0 <= j < 32 * words implies (#[trigger] is_seen(
            after.machine,
            first,
            j,
        ) <==> order.contains(j)) by {
            assert(is_seen(so_far.machine, first, j) <==> earlier.contains(j));
            if earlier.contains(j) {
                let i = choose|i: int| 0 <= i < earlier.len() && earlier[i] == j;
                assert(order[i] == j);
            }
            if order.contains(j) && j != last {
                let i = choose|i: int| 0 <= i < order.len() && order[i] == j;
                assert(earlier[i] == j);
            }
        }
        assert forall|local: u32|
            (forall|i: int|
                0 <= i < order.len() ==> local != elements.locals.field(#[trigger] order[i]))
                && !(first <= local < first + words) implies #[trigger] after.machine.locals[local]
            == machine.locals[local] by {
            assert(local != elements.locals.field(last)) by {
                assert(local != elements.locals.field(order[order.len() - 1]));
            }
            assert forall|i: int| 0 <= i < earlier.len() implies local
                != elements.locals.field(#[trigger] earlier[i]) by {
                assert(earlier[i] == order[i]);
            }
            assert(so_far.machine.locals[local] == machine.locals[local]);
        }
    }
}

proof fn lemma_covered(required: i32, seen: i32)
    ensures
        required != (required & seen) <==> exists|bit: int|
            0 <= bit < 32 && #[trigger] has_bit(required, bit) && !has_bit(seen, bit),
{
    if required != (required & seen) {
        let found = choose_missing(required as u32, seen as u32);
        lemma_missing(required as u32, seen as u32);
        assert((required as u32) != ((required as u32) & (seen as u32))) by (bit_vector)
            requires
                required != (required & seen),
        ;
        assert(has_bit(required, found));
    }
    if exists|bit: int| 0 <= bit < 32 && #[trigger] has_bit(required, bit) && !has_bit(seen, bit) {
        let bit = choose|bit: int|
            0 <= bit < 32 && #[trigger] has_bit(required, bit) && !has_bit(seen, bit);
        let place = bit as u32;
        assert(required != (required & seen)) by (bit_vector)
            requires
                place < 32,
                ((required as u32) >> place) & 1 == 1,
                !(((seen as u32) >> place) & 1 == 1),
        ;
    }
}

/// A bit that is set in `required` and not in `seen`.
spec fn choose_missing(required: u32, seen: u32) -> int {
    choose|bit: int|
        0 <= bit < 32 && bit_set(required, bit as u32) && !(#[trigger] bit_set(seen, bit as u32))
}

proof fn lemma_missing(required: u32, seen: u32)
    ensures
        required != (required & seen) ==> exists|bit: int|
            0 <= bit < 32 && bit_set(required, bit as u32) && !(#[trigger] bit_set(
                seen,
                bit as u32,
            )),
{
    if required != (required & seen) {
        assert(((required & !seen) >> 0) != 0) by (bit_vector)
            requires
                required != (required & seen),
        ;
        lemma_missing_from(required, seen, 0);
    }
}

proof fn lemma_missing_from(required: u32, seen: u32, from: u32)
    requires
        from < 32,
        ((required & !seen) >> from) != 0,
    ensures
        exists|bit: int|
            0 <= bit < 32 && bit_set(required, bit as u32) && !(#[trigger] bit_set(
                seen,
                bit as u32,
            )),
    decreases 32 - from,
{
    if (required >> from) & 1 == 1 && !((seen >> from) & 1 == 1) {
        assert(bit_set(required, from) && !bit_set(seen, from));
        assert(!bit_set(seen, (from as int) as u32));
    } else {
        let next = (from + 1) as u32;
        assert(((required & !seen) >> next) != 0 && next < 32) by (bit_vector)
            requires
                from < 32,
                next == from + 1,
                ((required & !seen) >> from) != 0,
                !((required >> from) & 1 == 1 && !((seen >> from) & 1 == 1)),
        ;
        lemma_missing_from(required, seen, next);
    }
}

/// Whether some bit of a word that has to be set is not.
pub open spec fn misses(machine: Machine, required: i32, local: u32) -> bool {
    machine.locals[local] matches Datum::Int(word) && exists|bit: int|
        0 <= bit < 32 && #[trigger] has_bit(required, bit) && !has_bit(word, bit)
}

proof fn lemma_word_misses(
    world: World,
    rounds: nat,
    required: i32,
    local: u32,
    machine: Machine,
)
    requires
        machine.locals[local] is Int,
    ensures
        run(world, rounds, word_misses(required, local), machine) == (Run {
            machine,
            outcome: Outcome::Value(Datum::Boolean(misses(machine, required, local))),
        }),
{
    let word = machine.locals[local]->Int_0;
    let masked = binary_tree(IrBinOp::BitAnd, int_tree(required), value_tree(local));
    lemma_run_binary(
        world,
        rounds,
        IrBinOp::BitAnd,
        int_tree(required),
        value_tree(local),
        machine,
    );
    lemma_run_binary(world, rounds, IrBinOp::Ne, int_tree(required), masked, machine);
    lemma_covered(required, word);
}

proof fn lemma_words_miss(world: World, rounds: nat, masks: Seq<i32>, machine: Machine)
    requires
        0 < masks.len() < u32::MAX,
        forall|w: int| 0 <= w < masks.len() ==> (#[trigger] machine.locals[(w + 1) as u32]) is Int,
    ensures
        run(world, rounds, words_miss(masks), machine) == (Run {
            machine,
            outcome: Outcome::Value(
                Datum::Boolean(
                    exists|w: int|
                        0 <= w < masks.len() && misses(
                            machine,
                            #[trigger] masks[w],
                            (w + 1) as u32,
                        ),
                ),
            ),
        }),
    decreases masks.len(),
{
    let last = masks.len() - 1;
    assert(machine.locals[(last + 1) as u32] is Int);
    lemma_word_misses(world, rounds, masks[last], (last + 1) as u32, machine);
    if masks.len() > 1 {
        let front = masks.drop_last();
        assert forall|w: int| 0 <= w < front.len() implies (
        #[trigger] machine.locals[(w + 1) as u32]) is Int by {}
        lemma_words_miss(world, rounds, front, machine);
        lemma_run_binary(
            world,
            rounds,
            IrBinOp::BitOr,
            words_miss(front),
            word_misses(masks.last(), masks.len() as u32),
            machine,
        );
        let any = exists|w: int|
            0 <= w < masks.len() && misses(machine, #[trigger] masks[w], (w + 1) as u32);
        let earlier = exists|w: int|
            0 <= w < front.len() && misses(machine, #[trigger] front[w], (w + 1) as u32);
        if earlier {
            let w = choose|w: int|
                0 <= w < front.len() && misses(machine, #[trigger] front[w], (w + 1) as u32);
            assert(masks[w] == front[w]);
        }
        if misses(machine, masks[last], (last + 1) as u32) {
            assert(any);
        }
        if any {
            let w = choose|w: int|
                0 <= w < masks.len() && misses(machine, #[trigger] masks[w], (w + 1) as u32);
            if w < last {
                assert(front[w] == masks[w]);
            }
        }
    } else {
        let any = exists|w: int|
            0 <= w < masks.len() && misses(machine, #[trigger] masks[w], (w + 1) as u32);
        if misses(machine, masks[0], 1) {
            assert(misses(machine, masks[0], (0 + 1) as u32));
        }
        if any {
            let w = choose|w: int|
                0 <= w < masks.len() && misses(machine, #[trigger] masks[w], (w + 1) as u32);
            assert(w == 0);
        }
    }
}

/// Whether a required element was not seen.
pub open spec fn lacks(machine: Machine, optional: Seq<bool>) -> bool {
    exists|e: int| 0 <= e < optional.len() && !(#[trigger] optional[e]) && !is_seen(machine, 1, e)
}

/// Whether the report of missing elements was asked for.
pub open spec fn is_report(event: Event) -> bool {
    &&& event.label matches IrLabel::Call { callee, has_receiver }
    &&& !has_receiver
    &&& callee matches CalleeView::Static { owner, name, .. }
    &&& owner == "kotlinx/serialization/internal/PluginExceptionsKt"@
    &&& name == "throwMissingFieldException"@ || name == "throwArrayMissingFieldException"@
}

/// Whether a word has the bits of the required ones among the elements that it stands for.
pub open spec fn holds_required(word: Datum, optional: Seq<bool>, w: int) -> bool {
    word matches Datum::Int(mask) && forall|bit: int|
        0 <= bit < 32 ==> (#[trigger] has_bit(mask, bit) <==> 32 * w + bit < optional.len()
            && !optional[32 * w + bit])
}

/// Whether the words that were seen and those that are required are handed to a report: by
/// themselves where there is one, and else in two arrays.
pub open spec fn hands_words(
    before: Machine,
    after: Machine,
    optional: Seq<bool>,
) -> bool {
    let words = word_count(optional.len());
    if words == 1 {
        let report = after.log.last().operands;
        &&& report.len() == 3
        &&& report[0] == before.locals[1]
        &&& holds_required(report[1], optional, 0)
    } else {
        let seen = after.log[before.log.len() as int].operands;
        let required = after.log[before.log.len() as int + 1].operands;
        &&& before.log.len() + 2 < after.log.len()
        &&& seen.len() == words && required.len() == words
        &&& forall|w: int|
            0 <= w < words ==> #[trigger] seen[w] == before.locals[(w + 1) as u32]
        &&& forall|w: int|
            0 <= w < words ==> holds_required(#[trigger] required[w], optional, w)
    }
}

proof fn lemma_required(optional: Seq<bool>, w: int)
    requires
        0 <= w < word_count(optional.len()),
    ensures
        holds_required(Datum::Int(required_words(optional)[w]), optional, w),
{
    let mask = required_words(optional)[w];
    lemma_same_bits(required_word(optional, w as nat));
    assert forall|bit: int| 0 <= bit < 32 implies (#[trigger] has_bit(mask, bit) <==> 32 * w + bit
        < optional.len() && !optional[32 * w + bit]) by {
        let e = 32 * w + bit;
        assert(e / 32 == w && e % 32 == bit);
        required_words_hold_the_required_elements(optional, e as nat);
    }
}

proof fn lemma_hands_words(
    optional: Seq<bool>,
    descriptor: IrTree,
    world: World,
    rounds: nat,
    machine: Machine,
)
    requires
        0 < word_count(optional.len()) < u32::MAX,
        is_plain(descriptor),
    ensures
        ({
            let report = missing_check(required_words(optional), descriptor).operands[1].operands[0];
            hands_words(machine, run(world, rounds, report, machine).machine, optional)
        }),
{
    let masks = required_words(optional);
    let words = masks.len();
    let report = missing_check(masks, descriptor).operands[1].operands[0];
    let after = run(world, rounds, report, machine);
    if words == 1 {
        assert forall|j: int| 0 <= j < report.operands.len() implies is_plain(
            #[trigger] report.operands[j],
        ) by {
            reveal_with_fuel(is_plain, 2);
        }
        lemma_operand_values(world, rounds, report, 3, machine);
        lemma_required(optional, 0);
    } else {
        let seen = report.operands[0];
        let required = report.operands[1];
        assert forall|i: int| 0 <= i < words implies is_plain(#[trigger] seen.operands[i]) by {}
        assert forall|i: int| 0 <= i < words implies is_plain(#[trigger] required.operands[i]) by {}
        assert forall|i: int| 0 <= i < words implies holds_required(
            Datum::Int(#[trigger] masks[i]),
            optional,
            i,
        ) by {
            lemma_required(optional, i);
        }
        lemma_leaf_values(world, rounds, seen, words, machine);
        let one = run(world, rounds, seen, machine);
        assert(one.outcome is Value);
        lemma_leaf_values(world, rounds, required, words, one.machine);
        let two = run(world, rounds, required, one.machine);
        assert(two.outcome is Value);
        lemma_plain(world, rounds, descriptor, two.machine);
        let three = run(world, rounds, descriptor, two.machine);
        lemma_run_three(world, rounds, report, machine, one, two, three);
        let handed = three.machine.log.take(two.machine.log.len() as int);
        assert(after.machine.log.len() == three.machine.log.len() + 1);
        assert(handed == two.machine.log);
        let first = machine.log.len() as int;
        assert(after.machine.log[first] == handed[first]);
        assert(after.machine.log[first + 1] == handed[first + 1]);
        let required_values = after.machine.log[first + 1].operands;
        assert forall|w: int| 0 <= w < words implies holds_required(
            #[trigger] required_values[w],
            optional,
            w,
        ) by {
            assert(required.operands[w] == int_tree(masks[w]));
            assert(required_values[w] == Datum::Int(masks[w]));
        }
        let seen_values = after.machine.log[first].operands;
        assert forall|w: int| 0 <= w < words implies #[trigger] seen_values[w]
            == machine.locals[(w + 1) as u32] by {
            assert(seen.operands[w] == value_tree((w + 1) as u32));
        }
    }
}

/// Constants and locals are evaluated without asking for anything.
pub(crate) proof fn lemma_leaf_values(
    world: World,
    rounds: nat,
    tree: IrTree,
    count: nat,
    machine: Machine,
)
    requires
        count <= tree.operands.len(),
        forall|k: int|
            0 <= k < count ==> (#[trigger] tree.operands[k]).label is Const
                || tree.operands[k].label is GetValue,
    ensures
        ({
            let after = run_operands(world, rounds, tree, count, machine);
            &&& after.machine == machine
            &&& after.outcome matches Ok(values) && values.len() == count && forall|k: int|
                #![trigger values[k]]
                0 <= k < count ==> (tree.operands[k].label matches IrLabel::Const(value)
                    ==> values[k] == datum(value)) && (
                tree.operands[k].label matches IrLabel::GetValue(local) ==> values[k]
                    == machine.locals[local])
        }),
    decreases count,
{
    if count > 0 {
        lemma_leaf_values(world, rounds, tree, (count - 1) as nat, machine);
        let operand = tree.operands[count - 1];
        assert(operand.label is Const || operand.label is GetValue);
        let before = run_operands(world, rounds, tree, (count - 1) as nat, machine);
        let last = run(world, rounds, operand, machine);
        let value = last.outcome->Value_0;
        let after = run_operands(world, rounds, tree, count, machine);
        assert(after.outcome == Ok::<Seq<Datum>, Outcome>(before.outcome->Ok_0.push(value)));
        let values = after.outcome->Ok_0;
        assert forall|k: int| #![trigger values[k]] 0 <= k < count implies (
        tree.operands[k].label matches IrLabel::Const(value) ==> values[k] == datum(value)) && (
        tree.operands[k].label matches IrLabel::GetValue(local) ==> values[k]
            == machine.locals[local]) by {
            if k < count - 1 {
                assert(values[k] == before.outcome->Ok_0[k]);
            }
        }
    }
}

/// The operands of an operation on three run one after the other.
pub(crate) proof fn lemma_run_three(
    world: World,
    rounds: nat,
    tree: IrTree,
    machine: Machine,
    one: Run,
    two: Run,
    three: Run,
)
    requires
        tree.operands.len() == 3,
        one == run(world, rounds, tree.operands[0], machine),
        two == run(world, rounds, tree.operands[1], one.machine),
        three == run(world, rounds, tree.operands[2], two.machine),
        one.outcome is Value,
        two.outcome is Value,
        three.outcome is Value,
    ensures
        ({
            let after = run_operands(world, rounds, tree, 3, machine);
            &&& after.machine == three.machine
            &&& after.outcome is Ok
        }),
{
    let none = run_operands(world, rounds, tree, 0, machine);
    let first = run_operands(world, rounds, tree, 1, machine);
    assert(none.machine == machine && none.outcome is Ok);
    assert(first.machine == one.machine && first.outcome is Ok);
    let second = run_operands(world, rounds, tree, 2, machine);
    assert(second.machine == two.machine && second.outcome is Ok);
}

proof fn lemma_lacking(machine: Machine, optional: Seq<bool>)
    requires
        holds_words(machine, 1, word_count(optional.len())),
        word_count(optional.len()) < u32::MAX,
    ensures
        lacks(machine, optional) <==> exists|w: int|
            0 <= w < required_words(optional).len() && misses(
                machine,
                #[trigger] required_words(optional)[w],
                (w + 1) as u32,
            ),
{
    let masks = required_words(optional);
    if lacks(machine, optional) {
        let e = choose|e: int|
            0 <= e < optional.len() && !(#[trigger] optional[e]) && !is_seen(machine, 1, e);
        let w = e / 32;
        required_words_hold_the_required_elements(optional, e as nat);
        assert(0 <= w < masks.len());
        lemma_same_bits(required_word(optional, w as nat));
        assert(machine.locals[(1 + w) as u32] is Int);
        assert(has_bit(masks[w], e % 32));
        assert(misses(machine, masks[w], (w + 1) as u32));
    }
    if exists|w: int|
        0 <= w < masks.len() && misses(machine, #[trigger] masks[w], (w + 1) as u32) {
        let w = choose|w: int|
            0 <= w < masks.len() && misses(machine, #[trigger] masks[w], (w + 1) as u32);
        let word = machine.locals[(w + 1) as u32]->Int_0;
        let bit = choose|bit: int|
            0 <= bit < 32 && #[trigger] has_bit(masks[w], bit) && !has_bit(word, bit);
        let e = 32 * w + bit;
        assert(e / 32 == w && e % 32 == bit);
        lemma_same_bits(required_word(optional, w as nat));
        required_words_hold_the_required_elements(optional, e as nat);
        assert(!optional[e]);
        assert(!is_seen(machine, 1, e));
    }
}

proof fn lemma_same_bits(word: u32)
    ensures
        (word as i32) as u32 == word,
{
    assert((word as i32) as u32 == word) by (bit_vector);
}

/// The check at the start of the deserialization constructor reports missing elements exactly where
/// a required element was not seen, and does nothing otherwise. The words are its first parameters,
/// and the report gets them together with those of the required elements.
pub proof fn missing_elements_are_reported_exactly(
    optional: Seq<bool>,
    descriptor: IrTree,
    world: World,
    rounds: nat,
    machine: Machine,
)
    requires
        word_count(optional.len()) < u32::MAX,
        holds_words(machine, 1, word_count(optional.len())),
        is_plain(descriptor),
    ensures
        ({
            let after = run(
                world,
                rounds,
                missing_check(required_words(optional), descriptor),
                machine,
            );
            &&& after.outcome is Value
            &&& after.machine.locals == machine.locals
            &&& !lacks(machine, optional) ==> after.machine == machine
            &&& lacks(machine, optional) ==> after.machine.log.len() > machine.log.len()
                && is_report(after.machine.log.last()) && hands_words(
                machine,
                after.machine,
                optional,
            )
        }),
{
    let masks = required_words(optional);
    assert forall|w: int| 0 <= w < masks.len() implies (
    #[trigger] machine.locals[(w + 1) as u32]) is Int by {
        assert(machine.locals[(1 + w) as u32] is Int);
    }
    lemma_lacking(machine, optional);
    lemma_words_miss(world, rounds, masks, machine);
    let check = missing_check(masks, descriptor);
    let condition = check.operands[0];
    let result = check.operands[1];
    let report = result.operands[0];
    assert(check == if_tree(condition, result));
    assert(condition == words_miss(masks));
    lemma_run_if(world, rounds, condition, result, result, machine);
    assert(is_plain(report)) by {
        if masks.len() == 1 {
            assert forall|j: int| 0 <= j < report.operands.len() implies is_plain(
                #[trigger] report.operands[j],
            ) by {
                reveal_with_fuel(is_plain, 2);
            }
        } else {
            assert forall|j: int| 0 <= j < report.operands.len() implies is_plain(
                #[trigger] report.operands[j],
            ) by {
                if j < 2 {
                    let array = report.operands[j];
                    assert forall|i: int| 0 <= i < array.operands.len() implies is_plain(
                        #[trigger] array.operands[i],
                    ) by {}
                    assert(is_plain(array));
                }
            }
        }
    }
    assert(result =~= block_tree(seq![report]));
    lemma_plain(world, rounds, report, machine);
    lemma_run_one(world, rounds, report, machine);
    lemma_operand_values(world, rounds, report, report.operands.len(), machine);
    lemma_hands_words(optional, descriptor, world, rounds, machine);
}

/// The descriptor that missing elements are reported with is only read.
pub proof fn a_reported_descriptor_is_only_read(
    ir: IrFile,
    serializer: ClassId,
    cached_descriptor: Option<usize>,
)
    ensures
        is_plain(reported_descriptor(ir, serializer, cached_descriptor)),
{
    reveal_with_fuel(is_plain, 3);
}

/// The store of a value to a field.
pub open spec fn stores(class: ClassId, field: int, object: Datum, value: Datum) -> Event {
    Event {
        label: IrLabel::SetField { class, index: field as u32 },
        operands: seq![object, value],
    }
}

proof fn lemma_run_store(
    world: World,
    rounds: nat,
    class: ClassId,
    field: int,
    value: IrTree,
    machine: Machine,
)
    requires
        run(world, rounds, value, machine).outcome is Value,
    ensures
        ({
            let found = run(world, rounds, value, machine);
            let after = run(world, rounds, field_store(class, field, value), machine);
            &&& after.outcome is Value
            &&& after.machine == found.machine.asking(
                stores(class, field, machine.locals[0], found.outcome->Value_0),
            )
        }),
{
    let store = field_store(class, field, value);
    reveal_with_fuel(run_operands, 4);
    let found = run(world, rounds, value, machine);
    assert(store.operands[0] == value_tree(0) && store.operands[1] == value);
    let none = run_operands(world, rounds, store, 0, machine);
    let one = run_operands(world, rounds, store, 1, machine);
    assert(one.outcome == Ok::<Seq<Datum>, Outcome>(seq![].push(machine.locals[0])));
    let two = run_operands(world, rounds, store, 2, machine);
    assert(two.outcome->Ok_0 =~= seq![machine.locals[0], found.outcome->Value_0]);
}

proof fn lemma_absent(world: World, rounds: nat, e: nat, machine: Machine)
    requires
        machine.locals[(e / 32 + 1) as u32] is Int,
        e / 32 + 1 <= u32::MAX,
    ensures
        run(world, rounds, element_absent(e), machine) == (Run {
            machine,
            outcome: Outcome::Value(Datum::Boolean(!is_seen(machine, 1, e as int))),
        }),
{
    let local = (e / 32 + 1) as u32;
    let word = machine.locals[local]->Int_0;
    let bit = element_bit(e);
    let masked = binary_tree(IrBinOp::BitAnd, value_tree(local), int_tree(bit));
    lemma_run_binary(world, rounds, IrBinOp::BitAnd, value_tree(local), int_tree(bit), machine);
    lemma_run_binary(world, rounds, IrBinOp::Eq, masked, int_tree(0), machine);
    let place = (e % 32) as u32;
    assert(((word & ((1u32 << place) as i32)) == 0) <==> !(((word as u32) >> place) & 1 == 1)) by (bit_vector)
        requires
            place < 32,
    ;
    assert((1 + (e as int) / 32) as u32 == local);
}

/// The deserialization constructor stores to a field what was read for it, where its element was
/// seen; an optional element that was not seen gets its default; and a property that is no element
/// its initializer.
pub proof fn a_field_is_what_was_read_or_its_default(
    ir: IrFile,
    class: ClassId,
    elements: Seq<usize>,
    field: int,
    world: World,
    rounds: nat,
    machine: Machine,
)
    requires
        word_count(elements.len()) + elements.len() + 1 <= u32::MAX,
        holds_words(machine, 1, word_count(elements.len())),
        field_statement(ir, class, elements, field) is Some,
        applied_default(ir, class, elements, field) matches Some(value) ==> run(
            world,
            rounds,
            value,
            machine,
        ).outcome is Value,
        first_place(elements, field as usize) matches Some(e) ==> e < elements.len(),
    ensures
        ({
            let after = run(
                world,
                rounds,
                field_statement(ir, class, elements, field)->0,
                machine,
            );
            let default = applied_default(ir, class, elements, field);
            let applied = run(world, rounds, default->0, machine);
            match first_place(elements, field as usize) {
                Some(e) => if default is None || is_seen(machine, 1, e as int) {
                    after.machine == machine.asking(
                        stores(
                            class,
                            field,
                            machine.locals[0],
                            machine.locals[(1 + word_count(elements.len()) + e) as u32],
                        ),
                    )
                } else {
                    after.machine == applied.machine.asking(
                        stores(class, field, machine.locals[0], applied.outcome->Value_0),
                    )
                },
                None => after.machine == applied.machine.asking(
                    stores(class, field, machine.locals[0], applied.outcome->Value_0),
                ),
            }
        }),
{
    let default = applied_default(ir, class, elements, field);
    match first_place(elements, field as usize) {
        Some(e) => {
            let read = value_tree(element_local(elements, e));
            lemma_run_store(world, rounds, class, field, read, machine);
            let supplied = field_store(class, field, read);
            if let Some(value) = default {
                assert(0 <= (e as int) / 32 < word_count(elements.len()));
                assert(machine.locals[(1 + (e as int) / 32) as u32] is Int);
                lemma_absent(world, rounds, e, machine);
                lemma_run_store(world, rounds, class, field, value, machine);
                let applied = field_store(class, field, value);
                lemma_run_one(world, rounds, applied, machine);
                lemma_run_one(world, rounds, supplied, machine);
                lemma_run_if(
                    world,
                    rounds,
                    element_absent(e),
                    block_tree(seq![applied]),
                    block_tree(seq![supplied]),
                    machine,
                );
            }
        },
        None => {
            lemma_run_store(world, rounds, class, field, default->0, machine);
        },
    }
}

} // verus!
