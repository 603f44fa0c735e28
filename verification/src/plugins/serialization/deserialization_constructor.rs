//! The constructor that deserialization builds an object with.

use vstd::prelude::*;

use crate::ir::expr::{ClassId, ExprId, IrBinOp, IrConst, IrConstView, IrExpr, IrLabel};
use crate::ir::file::{
    lemma_terminal_same, CtorDelegateTarget, GeneratedConstructor, IrClass, IrFile,
    IrSecondaryConstructorRole, IrSecondaryCtor, IrStatic, IrStaticView,
};
use crate::ir::generated::IrGeneratedDeclarationDebug;
use crate::ir::tree::{
    all_grounded, array_tree, binary_tree, block_tree, call_tree, cast_tree, const_tree,
    external_new_tree, grounded, grows, if_else_tree, if_tree, int_tree, leaf, lemma_listed,
    lemma_trees_kept, local_instance_tree, null_tree, plain_call_tree, plant, plant_array,
    plant_binary, plant_block, plant_block1, plant_call0, plant_call2, plant_cast, plant_const,
    plant_if, plant_if_else, plant_local_instance, plant_new, plant_plain_call, plant_residual,
    plant_store, plant_value, plant_variable, residual_tree, store_tree, tree, trees, value_tree,
    variable_tree, IrTree,
};
use crate::kt_string::KtString;
use crate::libraries::Visibility;
use crate::model::{first_place, position_of};
use crate::names::{qualified, TypeName};
use crate::plugins::serialization::deserialize_body::{types_view, word_count};
use crate::plugins::serialization::property_default::{
    checked_default, default_fits, default_in_frame, default_in_scope, defaults_recorded,
    framed_default, DefaultFrame, FramedDefault,
};
use crate::plugins::serialization::serial_elements::SerialElements;
use crate::plugins::serialization::support::{
    class_member, class_ty, class_type, static_callee, static_member, virtual_class,
};
use crate::plugins::serialization::value_class_types::value_class_underlying;
use crate::text::{decimal, decimal_text, same_text, views};
use crate::types::{Ty, TyView};

verus! {

broadcast use {
    crate::text::group_views,
    crate::types::group_ty_views,
    crate::ir::tree::group_growth,
};

/// The bit that stands for element `k` in its word.
pub open spec fn element_bit(k: nat) -> i32 {
    (1u32 << ((k % 32) as u32)) as i32
}

pub fn element_bit_of(k: usize) -> (bit: i32)
    ensures
        bit == element_bit(k as nat),
{
    (1u32 << ((k % 32) as u32)) as i32
}

/// The word `word` of the required elements: it holds the bit of each of its elements that is not
/// optional.
pub open spec fn required_word(optional: Seq<bool>, word: nat) -> u32
    decreases optional.len(),
{
    if optional.len() == 0 {
        0
    } else {
        let before = required_word(optional.drop_last(), word);
        let last = (optional.len() - 1) as nat;
        if !optional.last() && last / 32 == word {
            before | (1u32 << ((last % 32) as u32))
        } else {
            before
        }
    }
}

/// The words of the required elements.
pub open spec fn required_words(optional: Seq<bool>) -> Seq<i32> {
    Seq::new(word_count(optional.len()), |w: int| required_word(optional, w as nat) as i32)
}

/// The words of the required elements, in the shape the constructor takes: there is one more word
/// where the last is full.
pub fn required_masks(optional: &[bool]) -> (masks: Vec<i32>)
    ensures
        masks@ == required_words(optional@),
{
    let words: usize = optional.len() / 32 + 1;
    let mut masks: Vec<i32> = Vec::new();
    let mut word: usize = 0;
    while word < words
        invariant
            word <= words,
            words == word_count(optional@.len()),
            masks@.len() == word,
            forall|w: int|
                0 <= w < word ==> #[trigger] masks@[w] == required_word(
                    optional@,
                    w as nat,
                ) as i32,
        decreases words - word,
    {
        let mut mask: u32 = 0;
        let mut index: usize = 0;
        assert(optional@.take(0) =~= seq![]);
        while index < optional.len()
            invariant
                index <= optional@.len(),
                mask == required_word(optional@.take(index as int), word as nat),
            decreases optional@.len() - index,
        {
            assert(optional@.take(index as int + 1).drop_last() =~= optional@.take(index as int));
            if !optional[index] && index / 32 == word {
                mask = mask | (1u32 << ((index % 32) as u32));
            }
            index += 1;
        }
        assert(optional@.take(index as int) =~= optional@);
        masks.push(mask as i32);
        word += 1;
    }
    assert(masks@ =~= required_words(optional@));
    masks
}

/// Whether the bit `bit` of `word` is set.
pub open spec fn bit_set(word: u32, bit: u32) -> bool {
    (word >> bit) & 1 == 1
}

/// The bit of an element is set in its word exactly where the element is required, and no bit is
/// set that stands for no element.
pub proof fn required_words_hold_the_required_elements(optional: Seq<bool>, k: nat)
    ensures
        bit_set(required_word(optional, k / 32), (k % 32) as u32) <==> k < optional.len()
            && !optional[k as int],
    decreases optional.len(),
{
    let bit = (k % 32) as u32;
    if optional.len() == 0 {
        assert((0u32 >> bit) & 1 == 0) by (bit_vector);
    } else {
        let last = (optional.len() - 1) as nat;
        let before = required_word(optional.drop_last(), k / 32);
        let place = (last % 32) as u32;
        required_words_hold_the_required_elements(optional.drop_last(), k);
        assert(bit < 32 && place < 32);
        assert(((before | (1u32 << place)) >> bit) & 1 == 1 <==> ((before >> bit) & 1 == 1 || bit
            == place)) by (bit_vector)
            requires
                bit < 32,
                place < 32,
        ;
        if k < last {
            assert(optional.drop_last()[k as int] == optional[k as int]);
        }
        if k / 32 == last / 32 && bit == place {
            assert(k == last);
        }
    }
}

/// The descriptor that a generic class keeps for the constructor, which has no serializer to ask.
pub open spec fn cached_descriptor_tree(
    serial_name: Seq<u16>,
    elements: Seq<(KtString, bool)>,
) -> IrTree {
    let implementation = "kotlinx/serialization/internal/PluginGeneratedSerialDescriptor"@;
    IrTree {
        label: IrLabel::Block { has_value: true },
        operands: seq![
            variable_tree(
                0,
                class_type(implementation),
                external_new_tree(
                    implementation,
                    "(Ljava/lang/String;Lkotlinx/serialization/internal/GeneratedSerializer;I)V"@,
                    seq![
                        const_tree(IrConstView::String(serial_name)),
                        null_tree(),
                        int_tree(elements.len() as i32),
                    ],
                ),
            ),
        ] + element_additions(elements, elements.len()) + seq![
            cast_tree(
                value_tree(0),
                class_type("kotlinx/serialization/descriptors/SerialDescriptor"@),
            ),
        ],
    }
}

/// The calls that add the first `count` elements to the descriptor.
pub open spec fn element_additions(elements: Seq<(KtString, bool)>, count: nat) -> Seq<IrTree> {
    Seq::new(
        count,
        |k: int|
            call_tree(
                class_member(
                    "kotlinx/serialization/internal/PluginGeneratedSerialDescriptor"@,
                    "addElement"@,
                    "(Ljava/lang/String;Z)V"@,
                ),
                value_tree(0),
                seq![
                    const_tree(IrConstView::String(elements[k].0@)),
                    const_tree(IrConstView::Boolean(elements[k].1)),
                ],
            ),
    )
}

/// Add the descriptor that a generic class keeps for its deserialization constructor.
pub fn add_cached_descriptor(
    ir: &mut IrFile,
    owner: &TypeName,
    serial_name: &KtString,
    elements: &[(KtString, bool)],
) -> (index: usize)
    ensures
        index == old(ir).statics@.len(),
        *final(ir) == (IrFile {
            exprs: final(ir).exprs,
            statics: final(ir).statics,
            ..*old(ir)
        }),
        grows(old(ir).exprs@, final(ir).exprs@),
        final(ir).statics@.len() == old(ir).statics@.len() + 1,
        final(ir).statics@.drop_last() == old(ir).statics@,
        final(ir).statics@.last()@ == (IrStaticView {
            name: "$cachedDescriptor"@,
            ty: class_type("kotlinx/serialization/descriptors/SerialDescriptor"@),
            init: final(ir).statics@.last().init,
            is_var: false,
            is_const: false,
            owner: Some(owner@),
            visibility: Visibility::Private,
            custom_accessor: true,
            line: 0,
            source_order: u32::MAX,
        }),
        grounded(final(ir).exprs@, final(ir).statics@.last().init),
        tree(final(ir).exprs@, final(ir).statics@.last().init) == cached_descriptor_tree(
            serial_name@,
            elements@,
        ),
{
    let ghost start = *ir;
    let name: ExprId = plant_const(&mut ir.exprs, IrConst::String(serial_name.clone()));
    let generated: ExprId = plant_const(&mut ir.exprs, IrConst::Null);
    let count: ExprId = plant_const(&mut ir.exprs, IrConst::Int(elements.len() as i32));
    let mut args: Vec<ExprId> = Vec::new();
    args.push(name);
    args.push(generated);
    args.push(count);
    assert(trees(ir.exprs@, args@) =~= seq![
        const_tree(IrConstView::String(serial_name@)),
        null_tree(),
        int_tree(elements@.len() as i32),
    ]);
    let descriptor: ExprId = plant_new(
        &mut ir.exprs,
        "kotlinx/serialization/internal/PluginGeneratedSerialDescriptor",
        "(Ljava/lang/String;Lkotlinx/serialization/internal/GeneratedSerializer;I)V",
        args,
    );
    let variable: ExprId = plant_variable(
        &mut ir.exprs,
        0,
        class_ty("kotlinx/serialization/internal/PluginGeneratedSerialDescriptor"),
        descriptor,
    );
    let mut stmts: Vec<ExprId> = Vec::new();
    stmts.push(variable);
    let ghost head = seq![tree(ir.exprs@, variable)];
    assert(trees(ir.exprs@, stmts@) =~= head + element_additions(elements@, 0));
    let owner_class = qualified("kotlinx/serialization/internal/PluginGeneratedSerialDescriptor");
    let mut index: usize = 0;
    while index < elements.len()
        invariant
            index <= elements@.len(),
            owner_class@ == "kotlinx/serialization/internal/PluginGeneratedSerialDescriptor"@,
            *ir == (IrFile { exprs: ir.exprs, ..start }),
            grows(start.exprs@, ir.exprs@),
            all_grounded(ir.exprs@, stmts@),
            trees(ir.exprs@, stmts@) == head + element_additions(elements@, index as nat),
        decreases elements@.len() - index,
    {
        let ghost before = ir.exprs@;
        let receiver: ExprId = plant_value(&mut ir.exprs, 0);
        let element: ExprId = plant_const(
            &mut ir.exprs,
            IrConst::String(elements[index].0.clone()),
        );
        let optional: ExprId = plant_const(&mut ir.exprs, IrConst::Boolean(elements[index].1));
        let added: ExprId = plant_call2(
            &mut ir.exprs,
            virtual_class(&owner_class, "addElement", "(Ljava/lang/String;Z)V"),
            receiver,
            element,
            optional,
        );
        proof {
            assert(grows(before, ir.exprs@));
            lemma_listed(before, ir.exprs@, stmts@, added);
            assert(head + element_additions(elements@, (index + 1) as nat) =~= (head
                + element_additions(elements@, index as nat)).push(tree(ir.exprs@, added)));
        }
        stmts.push(added);
        index += 1;
    }
    let ghost filled = ir.exprs@;
    let value: ExprId = plant_value(&mut ir.exprs, 0);
    let shown: ExprId = plant_cast(
        &mut ir.exprs,
        value,
        class_ty("kotlinx/serialization/descriptors/SerialDescriptor"),
    );
    proof {
        assert(grows(filled, ir.exprs@));
        lemma_listed(filled, ir.exprs@, stmts@, shown);
    }
    let ghost ids = stmts@ + seq![shown];
    assert(ids =~= stmts@.push(shown));
    let ghost before = ir.exprs@;
    let init: ExprId = plant(&mut ir.exprs, IrExpr::Block { stmts, value: Some(shown) });
    assert(trees(before, ids) =~= cached_descriptor_tree(serial_name@, elements@).operands);
    let position: usize = ir.statics.len();
    ir.statics.push(
        IrStatic {
            name: "$cachedDescriptor".to_owned(),
            ty: class_ty("kotlinx/serialization/descriptors/SerialDescriptor"),
            init,
            is_var: false,
            is_const: false,
            owner: Some(owner.clone()),
            visibility: Visibility::Private,
            custom_accessor: true,
            line: 0,
            source_order: u32::MAX,
        },
    );
    assert(ir.statics@.drop_last() =~= start.statics@);
    position
}

/// The descriptor that the constructor reports a missing element with: that of the serializer,
/// where it is an object, and the one the class keeps otherwise.
pub open spec fn reported_descriptor(
    ir: IrFile,
    serializer: ClassId,
    cached_descriptor: Option<usize>,
) -> IrTree {
    if ir.classes@[serializer as int].is_object {
        call_tree(
            class_member(
                ir.classes@[serializer as int].name@,
                "getDescriptor"@,
                "()Lkotlinx/serialization/descriptors/SerialDescriptor;"@,
            ),
            local_instance_tree(serializer),
            seq![],
        )
    } else {
        leaf(IrLabel::GetStatic(cached_descriptor->0))
    }
}

fn descriptor_access(
    ir: &mut IrFile,
    serializer: ClassId,
    cached_descriptor: Option<usize>,
) -> (id: ExprId)
    requires
        serializer < old(ir).classes@.len(),
        old(ir).classes@[serializer as int].is_object || cached_descriptor is Some,
    ensures
        *final(ir) == (IrFile { exprs: final(ir).exprs, ..*old(ir) }),
        grows(old(ir).exprs@, final(ir).exprs@),
        grounded(final(ir).exprs@, id),
        tree(final(ir).exprs@, id) == reported_descriptor(
            *old(ir),
            serializer,
            cached_descriptor,
        ),
{
    if !ir.classes[serializer].is_object {
        let ghost before = ir.exprs@;
        let id: ExprId = plant(&mut ir.exprs, IrExpr::GetStatic(cached_descriptor.unwrap()));
        assert(trees(before, Seq::<ExprId>::empty()) =~= Seq::<IrTree>::empty());
        return id;
    }
    let callee = virtual_class(
        &ir.classes[serializer].name,
        "getDescriptor",
        "()Lkotlinx/serialization/descriptors/SerialDescriptor;",
    );
    let instance: ExprId = plant_local_instance(&mut ir.exprs, serializer);
    plant_call0(&mut ir.exprs, callee, instance)
}

/// `required != (required and seen)`, for the word in `local`.
pub open spec fn word_misses(required: i32, local: u32) -> IrTree {
    binary_tree(
        IrBinOp::Ne,
        int_tree(required),
        binary_tree(IrBinOp::BitAnd, int_tree(required), value_tree(local)),
    )
}

fn plant_word_misses(exprs: &mut Vec<IrExpr>, required: i32, local: u32) -> (id: ExprId)
    ensures
        grows(old(exprs)@, final(exprs)@),
        grounded(final(exprs)@, id),
        tree(final(exprs)@, id) == word_misses(required, local),
{
    let expected: ExprId = plant_const(exprs, IrConst::Int(required));
    let mask: ExprId = plant_const(exprs, IrConst::Int(required));
    let seen: ExprId = plant_value(exprs, local);
    let masked: ExprId = plant_binary(exprs, IrBinOp::BitAnd, mask, seen);
    plant_binary(exprs, IrBinOp::Ne, expected, masked)
}

/// Whether a word misses a required element, over all words.
pub open spec fn words_miss(masks: Seq<i32>) -> IrTree
    decreases masks.len(),
{
    if masks.len() <= 1 {
        word_misses(masks[0], 1)
    } else {
        binary_tree(
            IrBinOp::BitOr,
            words_miss(masks.drop_last()),
            word_misses(masks.last(), masks.len() as u32),
        )
    }
}

/// The check of several words: it reports all of them at once.
pub open spec fn words_check(masks: Seq<i32>, descriptor: IrTree) -> IrTree {
    if_tree(
        words_miss(masks),
        block_tree(
            seq![
                plain_call_tree(
                    static_member(
                        "kotlinx/serialization/internal/PluginExceptionsKt"@,
                        "throwArrayMissingFieldException"@,
                        "([I[ILkotlinx/serialization/descriptors/SerialDescriptor;)V"@,
                    ),
                    seq![
                        array_tree(
                            class_type("kotlin/IntArray"@),
                            Seq::new(masks.len(), |w: int| value_tree((w + 1) as u32)),
                        ),
                        array_tree(
                            class_type("kotlin/IntArray"@),
                            Seq::new(masks.len(), |w: int| int_tree(masks[w])),
                        ),
                        descriptor,
                    ],
                ),
            ],
        ),
    )
}

/// The check of a single word.
pub open spec fn word_check(mask: i32, descriptor: IrTree) -> IrTree {
    if_tree(
        word_misses(mask, 1),
        block_tree(
            seq![
                plain_call_tree(
                    static_member(
                        "kotlinx/serialization/internal/PluginExceptionsKt"@,
                        "throwMissingFieldException"@,
                        "(IILkotlinx/serialization/descriptors/SerialDescriptor;)V"@,
                    ),
                    seq![value_tree(1), int_tree(mask), descriptor],
                ),
            ],
        ),
    )
}

/// The check that every required element was seen.
pub open spec fn missing_check(masks: Seq<i32>, descriptor: IrTree) -> IrTree {
    if masks.len() == 1 {
        word_check(masks[0], descriptor)
    } else {
        words_check(masks, descriptor)
    }
}

fn plant_report(exprs: &mut Vec<IrExpr>, name: &str, signature: &str, a: ExprId, b: ExprId, c: ExprId) -> (id:
    ExprId)
    requires
        grounded(old(exprs)@, a),
        grounded(old(exprs)@, b),
        grounded(old(exprs)@, c),
    ensures
        grows(old(exprs)@, final(exprs)@),
        grounded(final(exprs)@, id),
        tree(final(exprs)@, id) == block_tree(
            seq![
                plain_call_tree(
                    static_member(
                        "kotlinx/serialization/internal/PluginExceptionsKt"@,
                        name@,
                        signature@,
                    ),
                    seq![tree(old(exprs)@, a), tree(old(exprs)@, b), tree(old(exprs)@, c)],
                ),
            ],
        ),
{
    let ghost before = exprs@;
    let mut args: Vec<ExprId> = Vec::new();
    args.push(a);
    args.push(b);
    args.push(c);
    assert(trees(before, args@) =~= seq![tree(before, a), tree(before, b), tree(before, c)]);
    let report: ExprId = plant_plain_call(
        exprs,
        static_callee("kotlinx/serialization/internal/PluginExceptionsKt", name, signature),
        args,
    );
    plant_block1(exprs, report)
}

fn multi_mask_check(
    ir: &mut IrFile,
    serializer: ClassId,
    cached_descriptor: Option<usize>,
    masks: &Vec<i32>,
) -> (id: ExprId)
    requires
        serializer < old(ir).classes@.len(),
        old(ir).classes@[serializer as int].is_object || cached_descriptor is Some,
        0 < masks@.len() < u32::MAX,
    ensures
        *final(ir) == (IrFile { exprs: final(ir).exprs, ..*old(ir) }),
        grows(old(ir).exprs@, final(ir).exprs@),
        grounded(final(ir).exprs@, id),
        tree(final(ir).exprs@, id) == words_check(
            masks@,
            reported_descriptor(*old(ir), serializer, cached_descriptor),
        ),
{
    let ghost start = *ir;
    let mut conditions: Vec<ExprId> = Vec::new();
    let mut word: usize = 0;
    while word < masks.len()
        invariant
            word <= masks@.len(),
            masks@.len() < u32::MAX,
            *ir == (IrFile { exprs: ir.exprs, ..start }),
            grows(start.exprs@, ir.exprs@),
            conditions@.len() == word,
            forall|w: int|
                0 <= w < word ==> grounded(ir.exprs@, #[trigger] conditions@[w]) && tree(
                    ir.exprs@,
                    conditions@[w],
                ) == word_misses(masks@[w], (w + 1) as u32),
        decreases masks@.len() - word,
    {
        let ghost before = ir.exprs@;
        let condition: ExprId = plant_word_misses(&mut ir.exprs, masks[word], word as u32 + 1);
        assert(grows(before, ir.exprs@));
        conditions.push(condition);
        word += 1;
    }
    let mut missing: ExprId = conditions[0];
    let mut joined: usize = 1;
    assert(masks@.take(1)[0] == masks@[0]);
    while joined < masks.len()
        invariant
            1 <= joined <= masks@.len(),
            masks@.len() < u32::MAX,
            conditions@.len() == masks@.len(),
            *ir == (IrFile { exprs: ir.exprs, ..start }),
            grows(start.exprs@, ir.exprs@),
            forall|w: int|
                0 <= w < masks@.len() ==> grounded(ir.exprs@, #[trigger] conditions@[w]) && tree(
                    ir.exprs@,
                    conditions@[w],
                ) == word_misses(masks@[w], (w + 1) as u32),
            grounded(ir.exprs@, missing),
            tree(ir.exprs@, missing) == words_miss(masks@.take(joined as int)),
        decreases masks@.len() - joined,
    {
        let ghost before = ir.exprs@;
        assert(masks@.take(joined as int + 1).drop_last() =~= masks@.take(joined as int));
        missing = plant_binary(&mut ir.exprs, IrBinOp::BitOr, missing, conditions[joined]);
        assert(grows(before, ir.exprs@));
        joined += 1;
    }
    assert(masks@.take(joined as int) =~= masks@);
    let ghost judged = ir.exprs@;
    let mut seen_ids: Vec<ExprId> = Vec::new();
    let mut word: usize = 0;
    while word < masks.len()
        invariant
            word <= masks@.len(),
            masks@.len() < u32::MAX,
            *ir == (IrFile { exprs: ir.exprs, ..start }),
            grows(judged, ir.exprs@),
            seen_ids@.len() == word,
            forall|w: int|
                0 <= w < word ==> grounded(ir.exprs@, #[trigger] seen_ids@[w]) && tree(
                    ir.exprs@,
                    seen_ids@[w],
                ) == value_tree((w + 1) as u32),
        decreases masks@.len() - word,
    {
        let ghost before = ir.exprs@;
        let id: ExprId = plant_value(&mut ir.exprs, word as u32 + 1);
        assert(grows(before, ir.exprs@));
        seen_ids.push(id);
        word += 1;
    }
    assert(trees(ir.exprs@, seen_ids@) =~= Seq::new(
        masks@.len(),
        |w: int| value_tree((w + 1) as u32),
    ));
    let seen: ExprId = plant_array(&mut ir.exprs, class_ty("kotlin/IntArray"), seen_ids);
    let ghost shown = ir.exprs@;
    let mut required_ids: Vec<ExprId> = Vec::new();
    let mut word: usize = 0;
    while word < masks.len()
        invariant
            word <= masks@.len(),
            *ir == (IrFile { exprs: ir.exprs, ..start }),
            grows(shown, ir.exprs@),
            required_ids@.len() == word,
            forall|w: int|
                0 <= w < word ==> grounded(ir.exprs@, #[trigger] required_ids@[w]) && tree(
                    ir.exprs@,
                    required_ids@[w],
                ) == int_tree(masks@[w]),
        decreases masks@.len() - word,
    {
        let ghost before = ir.exprs@;
        let id: ExprId = plant_const(&mut ir.exprs, IrConst::Int(masks[word]));
        assert(grows(before, ir.exprs@));
        required_ids.push(id);
        word += 1;
    }
    assert(trees(ir.exprs@, required_ids@) =~= Seq::new(
        masks@.len(),
        |w: int| int_tree(masks@[w]),
    ));
    let required: ExprId = plant_array(&mut ir.exprs, class_ty("kotlin/IntArray"), required_ids);
    let descriptor: ExprId = descriptor_access(ir, serializer, cached_descriptor);
    let reported: ExprId = plant_report(
        &mut ir.exprs,
        "throwArrayMissingFieldException",
        "([I[ILkotlinx/serialization/descriptors/SerialDescriptor;)V",
        seen,
        required,
        descriptor,
    );
    plant_if(&mut ir.exprs, missing, reported)
}

fn plant_missing_check(
    ir: &mut IrFile,
    serializer: ClassId,
    cached_descriptor: Option<usize>,
    masks: &Vec<i32>,
) -> (id: ExprId)
    requires
        serializer < old(ir).classes@.len(),
        old(ir).classes@[serializer as int].is_object || cached_descriptor is Some,
        0 < masks@.len() < u32::MAX,
    ensures
        *final(ir) == (IrFile { exprs: final(ir).exprs, ..*old(ir) }),
        grows(old(ir).exprs@, final(ir).exprs@),
        grounded(final(ir).exprs@, id),
        tree(final(ir).exprs@, id) == missing_check(
            masks@,
            reported_descriptor(*old(ir), serializer, cached_descriptor),
        ),
{
    if masks.len() != 1 {
        return multi_mask_check(ir, serializer, cached_descriptor, masks);
    }
    let required: i32 = masks[0];
    let missing: ExprId = plant_word_misses(&mut ir.exprs, required, 1);
    let seen: ExprId = plant_value(&mut ir.exprs, 1);
    let expected: ExprId = plant_const(&mut ir.exprs, IrConst::Int(required));
    let descriptor: ExprId = descriptor_access(ir, serializer, cached_descriptor);
    let reported: ExprId = plant_report(
        &mut ir.exprs,
        "throwMissingFieldException",
        "(IILkotlinx/serialization/descriptors/SerialDescriptor;)V",
        seen,
        expected,
        descriptor,
    );
    plant_if(&mut ir.exprs, missing, reported)
}

/// Which elements are optional: those whose property declares a default.
pub open spec fn optional_elements(ir: IrFile, class: ClassId, elements: Seq<usize>) -> Seq<bool> {
    Seq::new(
        elements.len(),
        |e: int| default_in_scope(ir, class, elements[e] as int) is Some,
    )
}

/// The local that holds the argument for element `e`: the words come before the elements.
pub open spec fn element_local(elements: Seq<usize>, e: nat) -> u32 {
    (e + 1 + word_count(elements.len())) as u32
}

/// How the constructor reaches what a default uses: a property is read off the object, which is
/// value 0, and the locals of a default go behind the parameters.
pub open spec fn constructor_frame(elements: Seq<usize>) -> DefaultFrame {
    DefaultFrame {
        first_free_local: (word_count(elements.len()) + elements.len() + 2) as u32,
        object: 0,
        receiver: Some(0),
        property_line: None,
        read_line: None,
    }
}

/// The default that the constructor applies to a field: that of an optional element, and the
/// initializer of a transient property. A `lateinit` property has none. Where the default uses a
/// value that the constructor cannot reach, a planned operation that nothing realizes stands for
/// it.
pub open spec fn applied_default(
    ir: IrFile,
    class: ClassId,
    elements: Seq<usize>,
    field: int,
) -> Option<IrTree> {
    let applies = match first_place(elements, field as usize) {
        Some(e) => optional_elements(ir, class, elements)[e as int],
        None => !ir.classes@[class as int].fields@[field].lateinit,
    };
    if applies {
        Some(
            match framed_default(ir, class, field, constructor_frame(elements)) {
                FramedDefault::Evaluated(value) => value,
                _ => residual_tree(
                    "deserialization-default"@,
                    seq![ir.classes@[class as int].name@],
                    seq![],
                ),
            },
        )
    } else {
        None
    }
}

/// The store of a value to a field of the object.
pub open spec fn field_store(class: ClassId, field: int, value: IrTree) -> IrTree {
    store_tree(value_tree(0), class, field as u32, value)
}

/// Whether element `e` was not seen.
pub open spec fn element_absent(e: nat) -> IrTree {
    binary_tree(
        IrBinOp::Eq,
        binary_tree(
            IrBinOp::BitAnd,
            value_tree((e / 32 + 1) as u32),
            int_tree(element_bit(e)),
        ),
        int_tree(0),
    )
}

/// The statement that initializes a field: from its argument, or from its default where the element
/// was not seen, or from its initializer where it is no element.
pub open spec fn field_statement(
    ir: IrFile,
    class: ClassId,
    elements: Seq<usize>,
    field: int,
) -> Option<IrTree> {
    let default = applied_default(ir, class, elements, field);
    match first_place(elements, field as usize) {
        Some(e) => {
            let supplied = field_store(class, field, value_tree(element_local(elements, e)));
            match default {
                Some(value) => Some(
                    if_else_tree(
                        element_absent(e),
                        block_tree(seq![field_store(class, field, value)]),
                        block_tree(seq![supplied]),
                    ),
                ),
                None => Some(supplied),
            }
        },
        None => match default {
            Some(value) => Some(field_store(class, field, value)),
            None => None,
        },
    }
}

/// The statements for the first `count` fields.
pub open spec fn field_statements(
    ir: IrFile,
    class: ClassId,
    elements: Seq<usize>,
    count: nat,
) -> Seq<IrTree>
    decreases count,
{
    if count == 0 {
        seq![]
    } else {
        let before = field_statements(ir, class, elements, (count - 1) as nat);
        match field_statement(ir, class, elements, count - 1) {
            Some(statement) => before.push(statement),
            None => before,
        }
    }
}

/// The expressions that initialize one field.
#[derive(Clone, Copy, Debug)]
pub struct FieldIds {
    /// The read of the argument, where the field is an element.
    pub argument: Option<ExprId>,
    /// The default and its store, where one is applied.
    pub default: Option<(ExprId, ExprId)>,
}

/// Whether `ids` are expressions that initialize the field `field`, none of which was there before.
pub open spec fn initialize(
    exprs: Seq<IrExpr>,
    ir: IrFile,
    class: ClassId,
    elements: Seq<usize>,
    field: int,
    ids: FieldIds,
) -> bool {
    &&& match (ids.argument, first_place(elements, field as usize)) {
        (Some(argument), Some(e)) => ir.exprs@.len() <= argument && grounded(exprs, argument)
            && tree(exprs, argument) == value_tree(element_local(elements, e)),
        (None, None) => true,
        _ => false,
    }
    &&& match (ids.default, applied_default(ir, class, elements, field)) {
        (Some((value, store)), Some(shown)) => ir.exprs@.len() <= value && grounded(exprs, value)
            && tree(exprs, value) == shown && ir.exprs@.len() <= store && grounded(exprs, store)
            && tree(exprs, store) == field_store(class, field, shown),
        (None, None) => true,
        _ => false,
    }
}

/// Whether the expression `store` stores `value`.
pub open spec fn stores_value(exprs: Seq<IrExpr>, store: ExprId, value: ExprId) -> bool {
    &&& store < exprs.len()
    &&& exprs[store as int].operands().len() == 2
    &&& exprs[store as int].operands()[1] == value
}

/// Whether `statement` is the initialization of a field by `ids`: the expressions themselves stand
/// in it.
pub open spec fn placed(exprs: Seq<IrExpr>, statement: Option<ExprId>, ids: FieldIds) -> bool {
    match (statement, ids.argument, ids.default) {
        (Some(choice), Some(argument), Some((value, store))) => {
            let branches = exprs[choice as int].operands();
            &&& choice < exprs.len()
            &&& branches.len() == 3
            &&& branches[1] < exprs.len()
            &&& exprs[branches[1] as int].operands() == seq![store]
            &&& stores_value(exprs, store, value)
            &&& branches[2] < exprs.len()
            &&& exprs[branches[2] as int].operands().len() == 1
            &&& stores_value(exprs, exprs[branches[2] as int].operands()[0], argument)
        },
        (Some(supplied), Some(argument), None) => stores_value(exprs, supplied, argument),
        (Some(applied), None, Some((value, store))) => applied == store && stores_value(
            exprs,
            store,
            value,
        ),
        (None, None, None) => true,
        _ => false,
    }
}

proof fn lemma_placed_kept(
    before: Seq<IrExpr>,
    after: Seq<IrExpr>,
    statement: Option<ExprId>,
    ids: FieldIds,
)
    requires
        grows(before, after),
        placed(before, statement, ids),
    ensures
        placed(after, statement, ids),
{
    if let Some(id) = statement {
        assert(after[id as int] == before[id as int]);
        if ids.argument is Some && ids.default is Some {
            let branches = before[id as int].operands();
            assert(after[branches[1] as int] == before[branches[1] as int]);
            assert(after[branches[2] as int] == before[branches[2] as int]);
            let store = (ids.default->0).1;
            assert(after[store as int] == before[store as int]);
            let supplied = before[branches[2] as int].operands()[0];
            assert(after[supplied as int] == before[supplied as int]);
        }
    }
}

/// The one of the statements that is for the field `field`, where there is one.
pub open spec fn statement_for(
    ir: IrFile,
    class: ClassId,
    elements: Seq<usize>,
    statements: Seq<ExprId>,
    field: int,
) -> Option<ExprId> {
    if field_statement(ir, class, elements, field) is Some {
        Some(statements[field_statements(ir, class, elements, field as nat).len() as int])
    } else {
        None
    }
}

proof fn lemma_statement_count(
    ir: IrFile,
    class: ClassId,
    elements: Seq<usize>,
    field: int,
    count: nat,
)
    requires
        0 <= field < count,
    ensures
        field_statements(ir, class, elements, field as nat).len() <= field_statements(
            ir,
            class,
            elements,
            count,
        ).len(),
        field_statement(ir, class, elements, field) is Some ==> field_statements(
            ir,
            class,
            elements,
            field as nat,
        ).len() < field_statements(ir, class, elements, count).len(),
    decreases count,
{
    if field < count - 1 {
        lemma_statement_count(ir, class, elements, field, (count - 1) as nat);
    }
}

/// The recorded declaration line of a property; none where it is not known.
pub open spec fn property_line(
    records: Seq<(TypeName, String, u32)>,
    owner: Seq<char>,
    name: Seq<char>,
) -> Option<u32>
    decreases records.len(),
{
    if records.len() == 0 {
        None
    } else if records[0].0@ == owner && records[0].1@ == name {
        if records[0].2 == 0 {
            None
        } else {
            Some(records[0].2)
        }
    } else {
        property_line(records.skip(1), owner, name)
    }
}

fn find_property_line(ir: &IrFile, owner: &TypeName, name: &str) -> (line: Option<u32>)
    ensures
        line == property_line(ir.prop_decl_lines@, owner@, name@),
{
    let mut index: usize = 0;
    assert(ir.prop_decl_lines@.skip(0) =~= ir.prop_decl_lines@);
    while index < ir.prop_decl_lines.len()
        invariant
            index <= ir.prop_decl_lines@.len(),
            property_line(ir.prop_decl_lines@.skip(index as int), owner@, name@) == property_line(
                ir.prop_decl_lines@,
                owner@,
                name@,
            ),
        decreases ir.prop_decl_lines@.len() - index,
    {
        assert(ir.prop_decl_lines@.skip(index as int).skip(1) =~= ir.prop_decl_lines@.skip(
            index as int + 1,
        ));
        let record = &ir.prop_decl_lines[index];
        if record.0 == *owner && same_text(record.1.as_str(), name) {
            return if record.2 == 0 {
                None
            } else {
                Some(record.2)
            };
        }
        index += 1;
    }
    None
}

/// The representations recorded while the first `count` fields are initialized: the argument for a
/// value class is the boxed value.
pub open spec fn boxed_arguments(
    ir: IrFile,
    fields: Seq<(String, Ty)>,
    ids: Seq<FieldIds>,
    count: nat,
) -> Map<ExprId, TyView>
    decreases count,
{
    if count == 0 {
        types_view(ir.physical_types@)
    } else {
        let before = boxed_arguments(ir, fields, ids, (count - 1) as nat);
        match ids[count - 1].argument {
            Some(argument) if ir.terminal(fields[count - 1].1@) is Some => before.insert(
                argument,
                fields[count - 1].1@,
            ),
            _ => before,
        }
    }
}

/// The lines recorded for defaults while the first `count` fields are initialized: a default is
/// attributed to the line of its property.
pub open spec fn default_lines(
    ir: IrFile,
    class: ClassId,
    fields: Seq<(String, Ty)>,
    ids: Seq<FieldIds>,
    count: nat,
) -> Map<ExprId, u32>
    decreases count,
{
    if count == 0 {
        ir.expr_source_lines@
    } else {
        let before = default_lines(ir, class, fields, ids, (count - 1) as nat);
        match (
            ids[count - 1].default,
            property_line(
                ir.prop_decl_lines@,
                ir.classes@[class as int].name@,
                fields[count - 1].0@,
            ),
        ) {
            (Some((value, _)), Some(line)) => before.insert(value, line),
            _ => before,
        }
    }
}

/// The lines recorded for stores of defaults while the first `count` fields are initialized: such a
/// store is attributed to where the class begins.
pub open spec fn store_lines(
    ir: IrFile,
    class: ClassId,
    fields: Seq<(String, Ty)>,
    ids: Seq<FieldIds>,
    count: nat,
) -> Map<ExprId, u32>
    decreases count,
{
    if count == 0 {
        ir.expr_lines@
    } else {
        let before = store_lines(ir, class, fields, ids, (count - 1) as nat);
        let start_line = ir.classes@[class as int].decl_start_line;
        match (
            ids[count - 1].default,
            property_line(
                ir.prop_decl_lines@,
                ir.classes@[class as int].name@,
                fields[count - 1].0@,
            ),
        ) {
            (Some((_, store)), Some(_)) if start_line != 0 => before.insert(store, start_line),
            _ => before,
        }
    }
}

/// Whether `after` records what the initialization of the first `count` fields by `ids` records.
pub open spec fn fields_recorded(
    before: IrFile,
    after: IrFile,
    class: ClassId,
    fields: Seq<(String, Ty)>,
    ids: Seq<FieldIds>,
    count: nat,
) -> bool {
    &&& types_view(after.physical_types@) == boxed_arguments(before, fields, ids, count)
    &&& after.expr_source_lines@ == default_lines(before, class, fields, ids, count)
    &&& after.expr_lines@ == store_lines(before, class, fields, ids, count)
}

/// Store the default of a property. The default is attributed to the line of the property and the
/// store to where the class begins.
fn store_field_default(
    ir: &mut IrFile,
    class_id: ClassId,
    this: ExprId,
    field: usize,
    field_name: &str,
    default: ExprId,
) -> (store: ExprId)
    requires
        class_id < old(ir).classes@.len(),
        grounded(old(ir).exprs@, this),
        tree(old(ir).exprs@, this) == value_tree(0),
        grounded(old(ir).exprs@, default),
    ensures
        *final(ir) == (IrFile {
            exprs: final(ir).exprs,
            expr_lines: final(ir).expr_lines,
            expr_source_lines: final(ir).expr_source_lines,
            ..*old(ir)
        }),
        grows(old(ir).exprs@, final(ir).exprs@),
        old(ir).exprs@.len() <= store,
        grounded(final(ir).exprs@, store),
        stores_value(final(ir).exprs@, store, default),
        tree(final(ir).exprs@, store) == field_store(
            class_id,
            field as int,
            tree(old(ir).exprs@, default),
        ),
        match property_line(
            old(ir).prop_decl_lines@,
            old(ir).classes@[class_id as int].name@,
            field_name@,
        ) {
            Some(line) => {
                &&& final(ir).expr_source_lines@ == old(ir).expr_source_lines@.insert(
                    default,
                    line,
                )
                &&& final(ir).expr_lines@ == if old(ir).classes@[class_id as int].decl_start_line != 0 {
                    old(ir).expr_lines@.insert(
                        store,
                        old(ir).classes@[class_id as int].decl_start_line,
                    )
                } else {
                    old(ir).expr_lines@
                }
            },
            None => final(ir).expr_source_lines@ == old(ir).expr_source_lines@ && final(ir).expr_lines@ == old(ir).expr_lines@,
        },
{
    let store: ExprId = plant_store(&mut ir.exprs, this, class_id, field as u32, default);
    if let Some(line) = find_property_line(ir, &ir.classes[class_id].name, field_name) {
        ir.expr_source_lines.insert(default, line);
        let start_line: u32 = ir.classes[class_id].decl_start_line;
        if start_line != 0 {
            ir.expr_lines.insert(store, start_line);
        }
    }
    store
}

proof fn lemma_framed_same(
    current: IrFile,
    start: IrFile,
    class: ClassId,
    field: int,
    frame: DefaultFrame,
)
    requires
        current.classes == start.classes,
        current.class_ctor_defaults == start.class_ctor_defaults,
        current.checked_properties == start.checked_properties,
        grows(start.exprs@, current.exprs@),
        default_fits(start, class, field, frame),
    ensures
        default_in_scope(current, class, field) == default_in_scope(start, class, field),
        framed_default(current, class, field, frame) == framed_default(start, class, field, frame),
        default_fits(current, class, field, frame),
{
    assert(default_in_scope(current, class, field) == default_in_scope(start, class, field));
}

/// What the deserialization constructor is generated from.
pub struct ConstructorSource<'a> {
    pub class_id: ClassId,
    pub serializer_id: ClassId,
    /// The name and the type of each field.
    pub named_fields: &'a [(String, Ty)],
    pub elements: &'a SerialElements,
    /// The static that holds the descriptor of a generic class.
    pub cached_descriptor: Option<usize>,
}

impl<'a> ConstructorSource<'a> {
    /// Whether everything that the constructor needs is there and can be numbered.
    pub open spec fn well_formed(&self, ir: IrFile) -> bool {
        let class = ir.classes@[self.class_id as int];
        &&& self.class_id < ir.classes@.len()
        &&& self.serializer_id < ir.classes@.len()
        &&& ir.classes@[self.serializer_id as int].is_object || self.cached_descriptor is Some
        &&& self.named_fields@.len() == class.fields@.len()
        &&& self.named_fields@.len() <= u32::MAX
        &&& word_count(self.elements@.len()) + self.elements@.len() + 2 <= u32::MAX
        &&& forall|e: int|
            0 <= e < self.elements@.len() ==> #[trigger] self.elements@[e]
                < self.named_fields@.len()
        &&& defaults_recorded(ir, class)
        &&& forall|field: int|
            0 <= field < self.named_fields@.len() ==> #[trigger] default_fits(
                ir,
                self.class_id,
                field,
                constructor_frame(self.elements@),
            )
    }

    fn optional(&self, ir: &IrFile) -> (optional: Vec<bool>)
        requires
            self.class_id < ir.classes@.len(),
            defaults_recorded(*ir, ir.classes@[self.class_id as int]),
        ensures
            optional@ == optional_elements(*ir, self.class_id, self.elements@),
    {
        let fields = self.elements.fields();
        let mut optional: Vec<bool> = Vec::new();
        let mut index: usize = 0;
        while index < fields.len()
            invariant
                index <= fields@.len(),
                fields@ == self.elements@,
                self.class_id < ir.classes@.len(),
                defaults_recorded(*ir, ir.classes@[self.class_id as int]),
                optional@.len() == index,
                forall|e: int|
                    0 <= e < index ==> #[trigger] optional@[e] == optional_elements(
                        *ir,
                        self.class_id,
                        self.elements@,
                    )[e],
            decreases fields@.len() - index,
        {
            optional.push(checked_default(ir, self.class_id, fields[index]).is_some());
            index += 1;
        }
        assert(optional@ =~= optional_elements(*ir, self.class_id, self.elements@));
        optional
    }

    /// The expression of the default that is applied to a field.
    fn plant_default(
        &self,
        ir: &mut IrFile,
        field: usize,
        element: Option<usize>,
        optional: &Vec<bool>,
    ) -> (default: Option<ExprId>)
        requires
            self.well_formed(*old(ir)),
            field < self.named_fields@.len(),
            optional@ == optional_elements(*old(ir), self.class_id, self.elements@),
            match element {
                Some(e) => first_place(self.elements@, field) == Some(e as nat) && e
                    < self.elements@.len(),
                None => first_place(self.elements@, field) is None,
            },
        ensures
            *final(ir) == (IrFile { exprs: final(ir).exprs, ..*old(ir) }),
            grows(old(ir).exprs@, final(ir).exprs@),
            match (
                default,
                applied_default(*old(ir), self.class_id, self.elements@, field as int),
            ) {
                (Some(default), Some(shown)) => old(ir).exprs@.len() <= default && grounded(
                    final(ir).exprs@,
                    default,
                ) && tree(final(ir).exprs@, default) == shown,
                (None, None) => true,
                _ => false,
            },
    {
        let applies = match element {
            Some(e) => optional[e],
            None => !ir.classes[self.class_id].fields[field].lateinit,
        };
        if !applies {
            return None;
        }
        let count: usize = self.elements.fields().len();
        let frame = DefaultFrame {
            first_free_local: (count / 32 + 1 + count + 2) as u32,
            object: 0,
            receiver: Some(0),
            property_line: None,
            read_line: None,
        };
        assert(frame == constructor_frame(self.elements@));
        assert(default_fits(*ir, self.class_id, field as int, frame));
        match default_in_frame(ir, self.class_id, field, frame) {
            Some(default) => Some(default),
            None => {
                let mut data: Vec<TypeName> = Vec::new();
                data.push(ir.classes[self.class_id].name.clone());
                assert(views(data@) =~= seq![ir.classes@[self.class_id as int].name@]);
                let types: Vec<Ty> = Vec::new();
                assert(views(types@) =~= Seq::<TyView>::empty());
                Some(plant_residual(&mut ir.exprs, "deserialization-default", data, types))
            },
        }
    }
}

impl<'a> ConstructorSource<'a> {
    /// The statement of a field from the parts that were planted for it.
    fn join(
        &self,
        ir: &mut IrFile,
        element: Option<usize>,
        supplied: Option<ExprId>,
        store: Option<ExprId>,
    ) -> (statement: Option<ExprId>)
        requires
            supplied is Some == element is Some,
            supplied matches Some(id) ==> grounded(old(ir).exprs@, id),
            store matches Some(id) ==> grounded(old(ir).exprs@, id),
            element matches Some(e) ==> e / 32 < u32::MAX,
        ensures
            *final(ir) == (IrFile { exprs: final(ir).exprs, ..*old(ir) }),
            grows(old(ir).exprs@, final(ir).exprs@),
            match (element, store) {
                (Some(e), Some(store)) => statement matches Some(id) && grounded(
                    final(ir).exprs@,
                    id,
                ) && tree(final(ir).exprs@, id) == if_else_tree(
                    element_absent(e as nat),
                    block_tree(seq![tree(old(ir).exprs@, store)]),
                    block_tree(seq![tree(old(ir).exprs@, supplied->0)]),
                ) && ({
                    let branches = final(ir).exprs@[id as int].operands();
                    &&& id < final(ir).exprs@.len()
                    &&& branches.len() == 3
                    &&& branches[1] < final(ir).exprs@.len()
                    &&& final(ir).exprs@[branches[1] as int].operands() == seq![store]
                    &&& branches[2] < final(ir).exprs@.len()
                    &&& final(ir).exprs@[branches[2] as int].operands() == seq![supplied->0]
                }),
                (Some(e), None) => statement == supplied && *final(ir) == *old(ir),
                (None, _) => statement == store && *final(ir) == *old(ir),
            },
    {
        match (element, store) {
            (Some(e), Some(store)) => {
                let supplied: ExprId = supplied.unwrap();
                let seen: ExprId = plant_value(&mut ir.exprs, (e / 32) as u32 + 1);
                let bit: ExprId = plant_const(&mut ir.exprs, IrConst::Int(element_bit_of(e)));
                let masked: ExprId = plant_binary(&mut ir.exprs, IrBinOp::BitAnd, seen, bit);
                let zero: ExprId = plant_const(&mut ir.exprs, IrConst::Int(0));
                let absent: ExprId = plant_binary(&mut ir.exprs, IrBinOp::Eq, masked, zero);
                let defaulted: ExprId = plant_block1(&mut ir.exprs, store);
                let given: ExprId = plant_block1(&mut ir.exprs, supplied);
                Some(plant_if_else(&mut ir.exprs, absent, defaulted, given))
            },
            (Some(_), None) => supplied,
            (None, _) => store,
        }
    }

    /// Initialize one field.
    fn plant_field_statement(
        &self,
        ir: &mut IrFile,
        this: ExprId,
        field: usize,
        optional: &Vec<bool>,
    ) -> (out: (FieldIds, Option<ExprId>))
        requires
            self.well_formed(*old(ir)),
            field < self.named_fields@.len(),
            optional@ == optional_elements(*old(ir), self.class_id, self.elements@),
            grounded(old(ir).exprs@, this),
            tree(old(ir).exprs@, this) == value_tree(0),
        ensures
            *final(ir) == (IrFile {
                exprs: final(ir).exprs,
                physical_types: final(ir).physical_types,
                expr_lines: final(ir).expr_lines,
                expr_source_lines: final(ir).expr_source_lines,
                ..*old(ir)
            }),
            grows(old(ir).exprs@, final(ir).exprs@),
            initialize(
                final(ir).exprs@,
                *old(ir),
                self.class_id,
                self.elements@,
                field as int,
                out.0,
            ),
            match (
                out.1,
                field_statement(*old(ir), self.class_id, self.elements@, field as int),
            ) {
                (Some(id), Some(shown)) => grounded(final(ir).exprs@, id) && tree(
                    final(ir).exprs@,
                    id,
                ) == shown,
                (None, None) => true,
                _ => false,
            },
            placed(final(ir).exprs@, out.1, out.0),
            types_view(final(ir).physical_types@) == match out.0.argument {
                Some(argument) if old(ir).terminal(
                    self.named_fields@[field as int].1@,
                ) is Some => types_view(old(ir).physical_types@).insert(
                    argument,
                    self.named_fields@[field as int].1@,
                ),
                _ => types_view(old(ir).physical_types@),
            },
            match (
                out.0.default,
                property_line(
                    old(ir).prop_decl_lines@,
                    old(ir).classes@[self.class_id as int].name@,
                    self.named_fields@[field as int].0@,
                ),
            ) {
                (Some((value, store)), Some(line)) => final(ir).expr_source_lines@ == old(ir).expr_source_lines@.insert(value, line) && final(ir).expr_lines@ == if old(ir).classes@[self.class_id as int].decl_start_line != 0 {
                    old(ir).expr_lines@.insert(
                        store,
                        old(ir).classes@[self.class_id as int].decl_start_line,
                    )
                } else {
                    old(ir).expr_lines@
                },
                _ => final(ir).expr_source_lines@ == old(ir).expr_source_lines@ && final(ir).expr_lines@ == old(ir).expr_lines@,
            },
    {
        let ghost start = *ir;
        let count: usize = self.elements.fields().len();
        let words: u32 = (count / 32 + 1) as u32;
        let element = position_of(self.elements.fields(), field);
        let mut argument: Option<ExprId> = None;
        let supplied: Option<ExprId> = match element {
            Some(e) => {
                let read: ExprId = plant_value(&mut ir.exprs, e as u32 + 1 + words);
                argument = Some(read);
                let ty: &Ty = &self.named_fields[field].1;
                proof {
                    lemma_terminal_same(*ir, start, ty@);
                }
                if value_class_underlying(ir, ty).is_some() {
                    let ghost physical = ir.physical_types@;
                    ir.physical_types.insert(read, ty.clone());
                    assert(types_view(ir.physical_types@) =~= types_view(physical).insert(
                        read,
                        ty@,
                    ));
                }
                Some(plant_store(&mut ir.exprs, this, self.class_id, field as u32, read))
            },
            None => None,
        };
        let ghost stored = *ir;
        proof {
            assert forall|f: int| 0 <= f < self.named_fields@.len() implies #[trigger] default_fits(
                stored,
                self.class_id,
                f,
                constructor_frame(self.elements@),
            ) by {
                lemma_framed_same(
                    stored,
                    start,
                    self.class_id,
                    f,
                    constructor_frame(self.elements@),
                );
            }
            lemma_framed_same(
                stored,
                start,
                self.class_id,
                field as int,
                constructor_frame(self.elements@),
            );
            assert(optional_elements(stored, self.class_id, self.elements@)
                =~= optional_elements(start, self.class_id, self.elements@)) by {
                assert forall|e: int| 0 <= e < self.elements@.len() implies (default_in_scope(
                    stored,
                    self.class_id,
                    self.elements@[e] as int,
                ) is Some) == (default_in_scope(
                    start,
                    self.class_id,
                    self.elements@[e] as int,
                ) is Some) by {
                    lemma_framed_same(
                        stored,
                        start,
                        self.class_id,
                        self.elements@[e] as int,
                        constructor_frame(self.elements@),
                    );
                }
            }
            assert(defaults_recorded(stored, stored.classes@[self.class_id as int]));
            assert(self.well_formed(stored));
        }
        let default = self.plant_default(ir, field, element, optional);
        assert(applied_default(stored, self.class_id, self.elements@, field as int)
            == applied_default(start, self.class_id, self.elements@, field as int));
        let store: Option<ExprId> = match default {
            Some(value) => Some(
                store_field_default(
                    ir,
                    self.class_id,
                    this,
                    field,
                    self.named_fields[field].0.as_str(),
                    value,
                ),
            ),
            None => None,
        };
        let statement = self.join(ir, element, supplied, store);
        let ids = FieldIds {
            argument,
            default: match (default, store) {
                (Some(value), Some(store)) => Some((value, store)),
                _ => None,
            },
        };
        (ids, statement)
    }
}

proof fn lemma_recorded_settled(
    ir: IrFile,
    class: ClassId,
    fields: Seq<(String, Ty)>,
    earlier: Seq<FieldIds>,
    later: Seq<FieldIds>,
    count: nat,
)
    requires
        count <= earlier.len() <= later.len(),
        forall|k: int| 0 <= k < earlier.len() ==> later[k] == earlier[k],
    ensures
        boxed_arguments(ir, fields, later, count) == boxed_arguments(ir, fields, earlier, count),
        default_lines(ir, class, fields, later, count) == default_lines(
            ir,
            class,
            fields,
            earlier,
            count,
        ),
        store_lines(ir, class, fields, later, count) == store_lines(
            ir,
            class,
            fields,
            earlier,
            count,
        ),
    decreases count,
{
    if count > 0 {
        lemma_recorded_settled(ir, class, fields, earlier, later, (count - 1) as nat);
    }
}

impl<'a> ConstructorSource<'a> {
    /// What has changed in a file while fields are initialized.
    spec fn initializes(&self, start: IrFile, current: IrFile) -> bool {
        &&& current == (IrFile {
            exprs: current.exprs,
            physical_types: current.physical_types,
            expr_lines: current.expr_lines,
            expr_source_lines: current.expr_source_lines,
            ..start
        })
        &&& grows(start.exprs@, current.exprs@)
    }

    proof fn lemma_initializing_keeps(&self, start: IrFile, current: IrFile)
        requires
            self.well_formed(start),
            self.initializes(start, current),
        ensures
            self.well_formed(current),
            optional_elements(current, self.class_id, self.elements@) == optional_elements(
                start,
                self.class_id,
                self.elements@,
            ),
            forall|f: int|
                0 <= f < self.named_fields@.len() ==> #[trigger] applied_default(
                    current,
                    self.class_id,
                    self.elements@,
                    f,
                ) == applied_default(start, self.class_id, self.elements@, f),
            forall|f: int|
                0 <= f < self.named_fields@.len() ==> #[trigger] field_statement(
                    current,
                    self.class_id,
                    self.elements@,
                    f,
                ) == field_statement(start, self.class_id, self.elements@, f),
    {
        let frame = constructor_frame(self.elements@);
        assert forall|f: int| 0 <= f < self.named_fields@.len() implies #[trigger] default_fits(
            current,
            self.class_id,
            f,
            frame,
        ) by {
            lemma_framed_same(current, start, self.class_id, f, frame);
        }
        assert(optional_elements(current, self.class_id, self.elements@) =~= optional_elements(
            start,
            self.class_id,
            self.elements@,
        )) by {
            assert forall|e: int| 0 <= e < self.elements@.len() implies (default_in_scope(
                current,
                self.class_id,
                self.elements@[e] as int,
            ) is Some) == (default_in_scope(
                start,
                self.class_id,
                self.elements@[e] as int,
            ) is Some) by {
                lemma_framed_same(
                    current,
                    start,
                    self.class_id,
                    self.elements@[e] as int,
                    frame,
                );
            }
        }
        assert forall|f: int| 0 <= f < self.named_fields@.len() implies #[trigger] applied_default(
            current,
            self.class_id,
            self.elements@,
            f,
        ) == applied_default(start, self.class_id, self.elements@, f) by {
            lemma_framed_same(current, start, self.class_id, f, frame);
        }
        assert(defaults_recorded(current, current.classes@[self.class_id as int]));
    }

    fn plant_fields(&self, ir: &mut IrFile, this: ExprId, optional: &Vec<bool>) -> (out: (
        Vec<FieldIds>,
        Vec<ExprId>,
    ))
        requires
            self.well_formed(*old(ir)),
            optional@ == optional_elements(*old(ir), self.class_id, self.elements@),
            grounded(old(ir).exprs@, this),
            tree(old(ir).exprs@, this) == value_tree(0),
        ensures
            self.initializes(*old(ir), *final(ir)),
            out.0@.len() == self.named_fields@.len(),
            forall|f: int|
                0 <= f < self.named_fields@.len() ==> initialize(
                    final(ir).exprs@,
                    *old(ir),
                    self.class_id,
                    self.elements@,
                    f,
                    #[trigger] out.0@[f],
                ),
            fields_recorded(
                *old(ir),
                *final(ir),
                self.class_id,
                self.named_fields@,
                out.0@,
                self.named_fields@.len(),
            ),
            all_grounded(final(ir).exprs@, out.1@),
            trees(final(ir).exprs@, out.1@) == field_statements(
                *old(ir),
                self.class_id,
                self.elements@,
                self.named_fields@.len(),
            ),
            self.stands_in(*old(ir), final(ir).exprs@, out.1@, out.0@),
    {
        let ghost start = *ir;
        let mut ids: Vec<FieldIds> = Vec::new();
        let mut stmts: Vec<ExprId> = Vec::new();
        let mut field: usize = 0;
        assert(trees(ir.exprs@, stmts@) =~= Seq::<IrTree>::empty());
        while field < self.named_fields.len()
            invariant
                field <= self.named_fields@.len(),
                start == *old(ir),
                self.well_formed(start),
                optional@ == optional_elements(start, self.class_id, self.elements@),
                self.initializes(start, *ir),
                grounded(start.exprs@, this),
                tree(start.exprs@, this) == value_tree(0),
                ids@.len() == field,
                forall|f: int|
                    0 <= f < field ==> initialize(
                        ir.exprs@,
                        start,
                        self.class_id,
                        self.elements@,
                        f,
                        #[trigger] ids@[f],
                    ),
                fields_recorded(
                    start,
                    *ir,
                    self.class_id,
                    self.named_fields@,
                    ids@,
                    field as nat,
                ),
                all_grounded(ir.exprs@, stmts@),
                trees(ir.exprs@, stmts@) == field_statements(
                    start,
                    self.class_id,
                    self.elements@,
                    field as nat,
                ),
                self.stands_in(start, ir.exprs@, stmts@, ids@),
            decreases self.named_fields@.len() - field,
        {
            let ghost current = *ir;
            let ghost earlier = ids@;
            let ghost listed = stmts@;
            proof {
                self.lemma_initializing_keeps(start, current);
                lemma_terminal_same(current, start, self.named_fields@[field as int].1@);
                assert(applied_default(current, self.class_id, self.elements@, field as int)
                    == applied_default(start, self.class_id, self.elements@, field as int));
                assert(field_statement(current, self.class_id, self.elements@, field as int)
                    == field_statement(start, self.class_id, self.elements@, field as int));
            }
            let (planted, statement) = self.plant_field_statement(ir, this, field, optional);
            ids.push(planted);
            proof {
                lemma_recorded_settled(
                    start,
                    self.class_id,
                    self.named_fields@,
                    earlier,
                    ids@,
                    field as nat,
                );
                assert(grows(start.exprs@, ir.exprs@));
                assert forall|f: int| 0 <= f < field + 1 implies initialize(
                    ir.exprs@,
                    start,
                    self.class_id,
                    self.elements@,
                    f,
                    #[trigger] ids@[f],
                ) by {
                    if f < field {
                        assert(initialize(
                            current.exprs@,
                            start,
                            self.class_id,
                            self.elements@,
                            f,
                            earlier[f],
                        ));
                    }
                }
                assert(fields_recorded(
                    start,
                    *ir,
                    self.class_id,
                    self.named_fields@,
                    ids@,
                    (field + 1) as nat,
                ));
            }
            match statement {
                Some(id) => {
                    proof {
                        lemma_listed(current.exprs@, ir.exprs@, stmts@, id);
                    }
                    stmts.push(id);
                },
                None => {
                    proof {
                        lemma_trees_kept(current.exprs@, ir.exprs@, stmts@);
                    }
                },
            }
            proof {
                assert(listed.len() == trees(current.exprs@, listed).len());
                assert forall|f: int| 0 <= f < ids@.len() implies placed(
                    ir.exprs@,
                    statement_for(start, self.class_id, self.elements@, stmts@, f),
                    #[trigger] ids@[f],
                ) by {
                    if f < field {
                        assert(ids@[f] == earlier[f]);
                        lemma_statement_count(
                            start,
                            self.class_id,
                            self.elements@,
                            f,
                            field as nat,
                        );
                        lemma_placed_kept(
                            current.exprs@,
                            ir.exprs@,
                            statement_for(start, self.class_id, self.elements@, listed, f),
                            earlier[f],
                        );
                    }
                }
            }
            field += 1;
        }
        (ids, stmts)
    }

    /// The types of the parameters: a word for each group of elements, the elements and the marker.
    pub open spec fn parameter_types(&self) -> Seq<TyView> {
        Seq::new(word_count(self.elements@.len()), |w: int| TyView::Int) + self.element_types()
            + seq![class_type("kotlinx/serialization/internal/SerializationConstructorMarker"@)]
    }

    /// The types of the elements.
    pub open spec fn element_types(&self) -> Seq<TyView> {
        Seq::new(
            self.elements@.len(),
            |e: int| self.named_fields@[self.elements@[e] as int].1@,
        )
    }

    /// The parameters with their names for Kotlin callers.
    pub open spec fn named_parameters(&self) -> Seq<(Seq<char>, TyView)> {
        Seq::new(
            word_count(self.elements@.len()),
            |w: int| ("seen"@ + decimal(w as nat), TyView::Int),
        ) + Seq::new(
            self.elements@.len(),
            |e: int| self.named_fields@[self.elements@[e] as int]@,
        ) + seq![
            (
                "serializationConstructorMarker"@,
                TyView::Nullable(
                    Box::new(
                        class_type(
                            "kotlinx/serialization/internal/SerializationConstructorMarker"@,
                        ),
                    ),
                ),
            ),
        ]
    }

    /// Whether an element is of a value class.
    pub open spec fn boxes(&self, ir: IrFile) -> bool {
        exists|e: int|
            0 <= e < self.elements@.len() && ir.terminal(#[trigger] self.element_types()[e]) is Some
    }

    fn types_of_parameters(&self) -> (types: Vec<Ty>)
        requires
            forall|e: int|
                0 <= e < self.elements@.len() ==> #[trigger] self.elements@[e]
                    < self.named_fields@.len(),
        ensures
            views(types@) == self.parameter_types(),
    {
        let fields = self.elements.fields();
        let words: usize = fields.len() / 32 + 1;
        let mut types: Vec<Ty> = Vec::new();
        while types.len() < words
            invariant
                types@.len() <= words,
                forall|w: int| 0 <= w < types@.len() ==> (#[trigger] types@[w])@ == TyView::Int,
            decreases words - types@.len(),
        {
            types.push(Ty::Int);
        }
        let ghost head = views(types@);
        assert(head =~= Seq::new(word_count(self.elements@.len()), |w: int| TyView::Int));
        let mut index: usize = 0;
        assert(head + self.element_types().take(0) =~= head);
        while index < fields.len()
            invariant
                index <= fields@.len(),
                fields@ == self.elements@,
                forall|e: int|
                    0 <= e < self.elements@.len() ==> #[trigger] self.elements@[e]
                        < self.named_fields@.len(),
                views(types@) == head + self.element_types().take(index as int),
            decreases fields@.len() - index,
        {
            assert(self.elements@[index as int] < self.named_fields@.len());
            types.push(self.named_fields[fields[index]].1.clone());
            assert(self.element_types().take(index as int + 1) =~= self.element_types().take(
                index as int,
            ).push(self.element_types()[index as int]));
            assert(head + self.element_types().take(index as int + 1) =~= (head
                + self.element_types().take(index as int)).push(
                self.element_types()[index as int],
            ));
            index += 1;
        }
        assert(self.element_types().take(index as int) =~= self.element_types());
        types.push(class_ty("kotlinx/serialization/internal/SerializationConstructorMarker"));
        assert(views(types@) =~= self.parameter_types());
        types
    }

    fn names_of_parameters(&self) -> (names: Vec<(String, Ty)>)
        requires
            forall|e: int|
                0 <= e < self.elements@.len() ==> #[trigger] self.elements@[e]
                    < self.named_fields@.len(),
        ensures
            views(names@) == self.named_parameters(),
    {
        let count: usize = self.elements.fields().len();
        let words: usize = count / 32 + 1;
        let mut names: Vec<(String, Ty)> = Vec::new();
        let ghost head = Seq::new(
            word_count(self.elements@.len()),
            |w: int| ("seen"@ + decimal(w as nat), TyView::Int),
        );
        while names.len() < words
            invariant
                names@.len() <= words,
                words == word_count(self.elements@.len()),
                head == Seq::new(
                    word_count(self.elements@.len()),
                    |w: int| ("seen"@ + decimal(w as nat), TyView::Int),
                ),
                forall|w: int| 0 <= w < names@.len() ==> (#[trigger] names@[w])@ == head[w],
            decreases words - names@.len(),
        {
            let mut name = "seen".to_owned();
            name.append(decimal_text(names.len() as u64).as_str());
            names.push((name, Ty::Int));
        }
        assert(views(names@) =~= head);
        let mut fields = self.elements.select(self.named_fields);
        let ghost middle = views(fields@);
        names.append(&mut fields);
        assert(views(names@) =~= head + middle);
        names.push(
            (
                "serializationConstructorMarker".to_owned(),
                Ty::nullable(
                    class_ty("kotlinx/serialization/internal/SerializationConstructorMarker"),
                ),
            ),
        );
        assert(views(names@) =~= self.named_parameters());
        names
    }

    fn has_value_field(&self, ir: &IrFile) -> (yes: bool)
        requires
            forall|e: int|
                0 <= e < self.elements@.len() ==> #[trigger] self.elements@[e]
                    < self.named_fields@.len(),
        ensures
            yes == self.boxes(*ir),
    {
        let fields = self.elements.fields();
        let mut index: usize = 0;
        while index < fields.len()
            invariant
                index <= fields@.len(),
                fields@ == self.elements@,
                forall|e: int|
                    0 <= e < self.elements@.len() ==> #[trigger] self.elements@[e]
                        < self.named_fields@.len(),
                forall|e: int|
                    0 <= e < index ==> ir.terminal(#[trigger] self.element_types()[e]) is None,
            decreases fields@.len() - index,
        {
            assert(self.elements@[index as int] < self.named_fields@.len());
            let ty: &Ty = &self.named_fields[fields[index]].1;
            assert(ty@ == self.element_types()[index as int]);
            if value_class_underlying(ir, ty).is_some() {
                return true;
            }
            index += 1;
        }
        false
    }

    /// Whether `constructor` is the deserialization constructor, as far as its declaration goes.
    pub open spec fn declared(&self, ir: IrFile, constructor: IrSecondaryCtor) -> bool {
        let class = ir.classes@[self.class_id as int];
        &&& constructor.source_order == u32::MAX
        &&& constructor.prefix_params@.len() == 0
        &&& constructor.vararg_index is None
        &&& views(constructor.params@) == self.parameter_types()
        &&& views(constructor.named_params@) == self.named_parameters()
        &&& constructor.metadata_visibility == Some(Visibility::Internal)
        &&& constructor.generated_debug == (IrGeneratedDeclarationDebug::DeclarationLine {
            line: class.decl_start_line,
        })
        &&& constructor.defaults@.len() == 0
        &&& constructor.delegate_args@.len() == 0
        &&& constructor.delegate matches CtorDelegateTarget::Super {
            owner,
            target_params,
            to_primary,
        } && owner@ == class.superclass@ && target_params@.len() == 0 && to_primary
        &&& constructor.synthetic
        &&& constructor.vc_params == self.boxes(ir)
    }

    /// What the constructor runs: the check that every required element was seen, before the
    /// constructor of the superclass, and then the initialization of every field in declaration
    /// order.
    pub open spec fn runs(
        &self,
        before: IrFile,
        exprs: Seq<IrExpr>,
        constructor: IrSecondaryCtor,
    ) -> bool {
        &&& constructor.delegate_prelude@.len() == 1
        &&& grounded(exprs, constructor.delegate_prelude@[0])
        &&& tree(exprs, constructor.delegate_prelude@[0]) == missing_check(
            required_words(optional_elements(before, self.class_id, self.elements@)),
            reported_descriptor(before, self.serializer_id, self.cached_descriptor),
        )
        &&& constructor.body matches Some(body) && grounded(exprs, body) && tree(exprs, body)
            == block_tree(
            field_statements(
                before,
                self.class_id,
                self.elements@,
                self.named_fields@.len(),
            ),
        )
    }

    /// Whether the expressions `ids` stand in the statements `statements`, each at its field.
    pub open spec fn stands_in(
        &self,
        before: IrFile,
        exprs: Seq<IrExpr>,
        statements: Seq<ExprId>,
        ids: Seq<FieldIds>,
    ) -> bool {
        forall|f: int|
            0 <= f < ids.len() ==> placed(
                exprs,
                statement_for(before, self.class_id, self.elements@, statements, f),
                #[trigger] ids[f],
            )
    }

    /// What is recorded of the expressions `ids` that initialize the fields.
    pub open spec fn recorded(&self, before: IrFile, after: IrFile, ids: Seq<FieldIds>) -> bool {
        &&& ids.len() == self.named_fields@.len()
        &&& forall|f: int|
            0 <= f < ids.len() ==> initialize(
                after.exprs@,
                before,
                self.class_id,
                self.elements@,
                f,
                #[trigger] ids[f],
            )
        &&& fields_recorded(
            before,
            after,
            self.class_id,
            self.named_fields@,
            ids,
            self.named_fields@.len(),
        )
    }

    /// Add the constructor to its class. What is recorded per expression is recorded of the very
    /// expressions in its body.
    pub fn add_deserialization_constructor(self, ir: &mut IrFile)
        requires
            self.well_formed(*old(ir)),
        ensures
            grows(old(ir).exprs@, final(ir).exprs@),
            final(ir).classes@.len() == old(ir).classes@.len(),
            forall|k: int|
                0 <= k < old(ir).classes@.len() && k != self.class_id ==> #[trigger] final(ir).classes@[k] == old(ir).classes@[k],
            final(ir).classes@[self.class_id as int] == (IrClass {
                secondary_ctors: final(ir).classes@[self.class_id as int].secondary_ctors,
                ..old(ir).classes@[self.class_id as int]
            }),
            final(ir).classes@[self.class_id as int].secondary_ctors@.len() == old(ir).classes@[self.class_id as int].secondary_ctors@.len() + 1,
            final(ir).classes@[self.class_id as int].secondary_ctors@.drop_last() == old(ir).classes@[self.class_id as int].secondary_ctors@,
            self.declared(
                *old(ir),
                final(ir).classes@[self.class_id as int].secondary_ctors@.last(),
            ),
            self.runs(
                *old(ir),
                final(ir).exprs@,
                final(ir).classes@[self.class_id as int].secondary_ctors@.last(),
            ),
            final(ir).generated_constructors@ == old(ir).generated_constructors@.push(
                GeneratedConstructor {
                    class: self.class_id,
                    role: IrSecondaryConstructorRole::SerializationDeserialization,
                    ordinal: old(ir).classes@[self.class_id as int].secondary_ctors@.len() as usize,
                },
            ),
            exists|ids: Seq<FieldIds>| #[trigger]
                self.recorded(*old(ir), *final(ir), ids) && self.stands_in(
                    *old(ir),
                    final(ir).exprs@,
                    final(ir).exprs@[final(ir).classes@[self.class_id as int].secondary_ctors@.last().body->0 as int].operands(),
                    ids,
                ),
            *final(ir) == (IrFile {
                exprs: final(ir).exprs,
                classes: final(ir).classes,
                generated_constructors: final(ir).generated_constructors,
                physical_types: final(ir).physical_types,
                expr_lines: final(ir).expr_lines,
                expr_source_lines: final(ir).expr_source_lines,
                ..*old(ir)
            }),
    {
        let ghost start = *ir;
        let params = self.types_of_parameters();
        let named_params = self.names_of_parameters();
        let vc_params = self.has_value_field(ir);
        let optional = self.optional(ir);
        let masks = required_masks(optional.as_slice());
        let check: ExprId = plant_missing_check(
            ir,
            self.serializer_id,
            self.cached_descriptor,
            &masks,
        );
        let mut delegate_prelude: Vec<ExprId> = Vec::new();
        delegate_prelude.push(check);
        let this: ExprId = plant_value(&mut ir.exprs, 0);
        let ghost checked = *ir;
        proof {
            assert(self.initializes(start, checked));
            self.lemma_initializing_keeps(start, checked);
        }
        let (ids, stmts) = self.plant_fields(ir, this, &optional);
        let ghost planted = *ir;
        let ghost listed = stmts@;
        let body: ExprId = plant_block(&mut ir.exprs, stmts);
        proof {
            self.lemma_standing_same(checked, start, planted.exprs@, ir.exprs@, listed, ids@);
            self.lemma_statements_same(checked, start, self.named_fields@.len());
            self.lemma_recorded_same(checked, start, planted, ir.exprs@, ids@);
        }
        let constructor = IrSecondaryCtor {
            source_order: u32::MAX,
            prefix_params: Vec::new(),
            vararg_index: None,
            params,
            named_params,
            metadata_visibility: Some(Visibility::Internal),
            generated_debug: IrGeneratedDeclarationDebug::declaration_line(
                ir.classes[self.class_id].decl_start_line,
            ),
            defaults: Vec::new(),
            delegate_prelude,
            delegate_args: Vec::new(),
            delegate: CtorDelegateTarget::Super {
                owner: ir.classes[self.class_id].superclass.clone(),
                target_params: Vec::new(),
                to_primary: true,
            },
            body: Some(body),
            synthetic: true,
            vc_params,
        };
        let ordinal: usize = ir.classes[self.class_id].secondary_ctors.len();
        ir.classes[self.class_id].secondary_ctors.push(constructor);
        assert(ir.classes@[self.class_id as int].secondary_ctors@.drop_last()
            =~= start.classes@[self.class_id as int].secondary_ctors@);
        ir.generated_constructors.push(
            GeneratedConstructor {
                class: self.class_id,
                role: IrSecondaryConstructorRole::SerializationDeserialization,
                ordinal,
            },
        );
        assert(self.recorded(start, *ir, ids@));
    }

    proof fn lemma_standing_same(
        &self,
        checked: IrFile,
        start: IrFile,
        before: Seq<IrExpr>,
        after: Seq<IrExpr>,
        statements: Seq<ExprId>,
        ids: Seq<FieldIds>,
    )
        requires
            self.well_formed(start),
            self.initializes(start, checked),
            ids.len() == self.named_fields@.len(),
            grows(before, after),
            self.stands_in(checked, before, statements, ids),
        ensures
            self.stands_in(start, after, statements, ids),
    {
        self.lemma_initializing_keeps(start, checked);
        assert forall|f: int| 0 <= f < ids.len() implies placed(
            after,
            statement_for(start, self.class_id, self.elements@, statements, f),
            #[trigger] ids[f],
        ) by {
            self.lemma_statements_same(checked, start, f as nat);
            assert(field_statement(checked, self.class_id, self.elements@, f) == field_statement(
                start,
                self.class_id,
                self.elements@,
                f,
            ));
            let statement = statement_for(checked, self.class_id, self.elements@, statements, f);
            assert(placed(before, statement, ids[f]));
            lemma_placed_kept(before, after, statement, ids[f]);
        }
    }

    proof fn lemma_statements_same(&self, current: IrFile, start: IrFile, count: nat)
        requires
            self.well_formed(start),
            self.initializes(start, current),
            count <= self.named_fields@.len(),
        ensures
            field_statements(current, self.class_id, self.elements@, count) == field_statements(
                start,
                self.class_id,
                self.elements@,
                count,
            ),
        decreases count,
    {
        if count > 0 {
            self.lemma_statements_same(current, start, (count - 1) as nat);
            self.lemma_initializing_keeps(start, current);
            assert(field_statement(current, self.class_id, self.elements@, count - 1)
                == field_statement(start, self.class_id, self.elements@, count - 1));
        }
    }

    proof fn lemma_recorded_same(
        &self,
        checked: IrFile,
        start: IrFile,
        planted: IrFile,
        exprs: Seq<IrExpr>,
        ids: Seq<FieldIds>,
    )
        requires
            self.well_formed(start),
            checked == (IrFile { exprs: checked.exprs, ..start }),
            grows(start.exprs@, checked.exprs@),
            self.recorded(checked, planted, ids),
            grows(planted.exprs@, exprs),
        ensures
            forall|f: int|
                0 <= f < ids.len() ==> initialize(
                    exprs,
                    start,
                    self.class_id,
                    self.elements@,
                    f,
                    #[trigger] ids[f],
                ),
            fields_recorded(
                start,
                planted,
                self.class_id,
                self.named_fields@,
                ids,
                self.named_fields@.len(),
            ),
    {
        self.lemma_initializing_keeps(start, checked);
        assert forall|f: int| 0 <= f < ids.len() implies initialize(
            exprs,
            start,
            self.class_id,
            self.elements@,
            f,
            #[trigger] ids[f],
        ) by {
            assert(initialize(
                planted.exprs@,
                checked,
                self.class_id,
                self.elements@,
                f,
                ids[f],
            ));
            assert(applied_default(checked, self.class_id, self.elements@, f) == applied_default(
                start,
                self.class_id,
                self.elements@,
                f,
            ));
        }
        lemma_records_same(
            checked,
            start,
            self.class_id,
            self.named_fields@,
            ids,
            self.named_fields@.len(),
        );
    }
}

proof fn lemma_records_same(
    checked: IrFile,
    start: IrFile,
    class: ClassId,
    fields: Seq<(String, Ty)>,
    ids: Seq<FieldIds>,
    count: nat,
)
    requires
        checked == (IrFile { exprs: checked.exprs, ..start }),
    ensures
        boxed_arguments(checked, fields, ids, count) == boxed_arguments(start, fields, ids, count),
        default_lines(checked, class, fields, ids, count) == default_lines(
            start,
            class,
            fields,
            ids,
            count,
        ),
        store_lines(checked, class, fields, ids, count) == store_lines(
            start,
            class,
            fields,
            ids,
            count,
        ),
    decreases count,
{
    if count > 0 {
        lemma_records_same(checked, start, class, fields, ids, (count - 1) as nat);
        lemma_terminal_same(checked, start, fields[count - 1].1@);
    }
}

} // verus!
