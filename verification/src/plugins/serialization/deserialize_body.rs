//! The body of a serializer's `deserialize`.

use vstd::prelude::*;

use crate::ir::expr::{
    CalleeView, ClassId, ExprId, FunId, IrBinOp, IrConst, IrConstView, IrExpr, IrLabel,
};
use crate::ir::file::{
    body_set, generated_ordinal, lemma_terminal_same, GeneratedConstructor, IrFile,
    IrSecondaryConstructorRole,
};
use crate::ir::tree::{
    all_grounded, binary_tree, block_tree, call_tree, cast_tree, const_tree, dispatch_tree,
    external_new_tree, field_tree, grounded, grows, if_else_tree, int_tree, leaf, lemma_listed,
    lemma_trees_kept,
    local_instance_tree, null_tree, plant, plant_binary, plant_block, plant_block1, plant_block2,
    plant_call0, plant_call1, plant_call2, plant_call4, plant_cast, plant_const, plant_dispatch,
    plant_field, plant_if_else, plant_local_instance, plant_new, plant_return, plant_set,
    plant_throw, plant_value, plant_variable, plant_while, return_tree, set_tree, throw_tree, tree,
    trees, value_tree, variable_tree, while_tree, IrTree,
};
use crate::kt_string::{text_units, KtString};
use crate::model::copy_all;
use crate::plugins::context::PluginContext;
use crate::plugins::serialization::annotations::{
    field_serializer, field_serializer_of, is_contextual, property_is_contextual,
};
use crate::plugins::serialization::child_serializer_cache::{
    cache_read, cache_type, cached_strategy, is_cached, load_cache_statement, slot_value,
    ChildSerializerCachePlan,
};
use crate::plugins::serialization::deserialization_constructor::{element_bit, element_bit_of};
use crate::plugins::serialization::element_serializer::{
    element_plan, element_serializer_expr_in, element_serializer_plan_in, element_tree,
    lemma_plan_ignores_expressions, objects_named, unsupported_element,
    unsupported_element_serializer,
};
use crate::plugins::serialization::support::{
    build_field_serializer_instance, class_ty, class_type, contextual_for,
    contextual_serializer_for, decode_element_method, element_decoder, interface_member,
    named_serializer, primitive_of, virtual_iface,
};
use crate::plugins::serialization::type_parameter_serializers::TypeParameterSerializers;
use crate::plugins::serialization::value_class_types::{
    inline_prim_methods, value_class_underlying,
};
use crate::text::views;
use crate::types::{Ty, TyView};

verus! {

broadcast use {
    crate::text::group_views,
    crate::types::group_ty_views,
    crate::ir::tree::group_growth,
};

/// The locals of `deserialize`, in the order in which they are numbered: the descriptor, the flag
/// of the loop, the index of an element, the words that say which elements were seen, the values of
/// the elements, the decoder of the structure and the cache.
#[derive(Clone, Copy, Debug, PartialEq, Eq, Structural)]
pub struct DecodeLocals {
    pub descriptor: u32,
    pub flag: u32,
    pub index: u32,
    pub first_seen: u32,
    pub first_field: u32,
    pub composite: u32,
    pub cache: u32,
}

/// How many words say which of `count` elements were seen. There is one more where the last is
/// full.
pub open spec fn word_count(count: nat) -> nat {
    count / 32 + 1
}

/// Whether every local of a function with `params` parameters and `count` elements has a number.
pub open spec fn locals_fit(params: nat, count: nat) -> bool {
    params + count + word_count(count) + 6 <= u32::MAX
}

impl DecodeLocals {
    /// The locals of a function with `params` parameters and `count` elements.
    pub open spec fn numbered(params: nat, count: nat) -> DecodeLocals {
        let base = params + 1;
        let words = word_count(count);
        DecodeLocals {
            descriptor: base as u32,
            flag: (base + 1) as u32,
            index: (base + 2) as u32,
            first_seen: (base + 3) as u32,
            first_field: (base + 3 + words) as u32,
            composite: (base + 3 + words + count) as u32,
            cache: (base + 4 + words + count) as u32,
        }
    }

    pub fn new(params: usize, count: usize) -> (locals: DecodeLocals)
        requires
            locals_fit(params as nat, count as nat),
        ensures
            locals == DecodeLocals::numbered(params as nat, count as nat),
    {
        let base: u32 = params as u32 + 1;
        let words: u32 = (count / 32 + 1) as u32;
        DecodeLocals {
            descriptor: base,
            flag: base + 1,
            index: base + 2,
            first_seen: base + 3,
            first_field: base + 3 + words,
            composite: base + 3 + words + count as u32,
            cache: base + 4 + words + count as u32,
        }
    }

    /// The word that says whether element `k` was seen.
    pub open spec fn seen(self, k: int) -> u32 {
        (self.first_seen + k / 32) as u32
    }

    /// The value of element `k`.
    pub open spec fn field(self, k: int) -> u32 {
        (self.first_field + k) as u32
    }
}

/// The reader of the elements of a structure.
pub open spec fn decoder_member(name: Seq<char>, descriptor: Seq<char>) -> CalleeView {
    interface_member("kotlinx/serialization/encoding/CompositeDecoder"@, name, descriptor)
}

/// Narrow a serializer to the interface that an element call declares.
pub fn narrowed(exprs: &mut Vec<IrExpr>, serializer: ExprId, interface: &str) -> (id: ExprId)
    requires
        grounded(old(exprs)@, serializer),
    ensures
        grows(old(exprs)@, final(exprs)@),
        grounded(final(exprs)@, id),
        tree(final(exprs)@, id) == cast_tree(
            tree(old(exprs)@, serializer),
            class_type(interface@),
        ),
{
    plant_cast(exprs, serializer, class_ty(interface))
}

/// What the block that reads one element is generated from. The same block serves the loop over
/// indices and the sequential path.
pub struct ElementDecode<'a> {
    pub serialized_class: ClassId,
    pub fields: &'a [(String, Ty)],
    pub type_parameter_serializers: TypeParameterSerializers<'a>,
    pub locals: DecodeLocals,
    /// The cache of the serialized class, where it has one.
    pub cache: &'a Option<ChildSerializerCachePlan>,
}

impl<'a> ElementDecode<'a> {
    /// Whether everything can be numbered and the cache is that of these elements.
    pub open spec fn well_formed(&self) -> bool {
        &&& self.type_parameter_serializers@.fits()
        &&& self.locals.first_field + self.fields@.len() <= u32::MAX
        &&& self.locals.first_seen + word_count(self.fields@.len()) <= u32::MAX
        &&& *self.cache matches Some(plan) ==> plan.cached@.len() == self.fields@.len()
    }

    /// Element `k` as a serializer reads it. The serializer merges into what was read before, so it
    /// is handed the local of the element.
    pub open spec fn through(&self, k: int, serializer: IrTree) -> IrTree {
        let ty = self.fields@[k].1@;
        cast_tree(
            call_tree(
                decoder_member(
                    if ty.is_nullable() {
                        "decodeNullableSerializableElement"@
                    } else {
                        "decodeSerializableElement"@
                    },
                    "(Lkotlinx/serialization/descriptors/SerialDescriptor;ILkotlinx/serialization/DeserializationStrategy;Ljava/lang/Object;)Ljava/lang/Object;"@,
                ),
                value_tree(self.locals.composite),
                seq![
                    value_tree(self.locals.descriptor),
                    int_tree(k as i32),
                    cast_tree(
                        serializer,
                        class_type("kotlinx/serialization/DeserializationStrategy"@),
                    ),
                    value_tree(self.locals.field(k)),
                ],
            ),
            ty,
        )
    }

    /// Element `k` as it is read. What the property says of its serializer comes before what its
    /// type says.
    pub open spec fn decoded(&self, ir: IrFile, ctx: PluginContext, k: int) -> IrTree {
        let name = self.fields@[k].0@;
        let ty = self.fields@[k].1@;
        match contextual_for(is_contextual(ctx, self.serialized_class, name), ty) {
            Some(serializer) => self.through(k, serializer),
            None => match field_serializer(ctx, self.serialized_class, name) {
                Some(serializer) => self.through(k, named_serializer(ir, serializer)),
                None => match element_decoder(ty) {
                    Some((member, descriptor)) if !ty.is_nullable() => call_tree(
                        decoder_member(member, descriptor),
                        value_tree(self.locals.composite),
                        seq![value_tree(self.locals.descriptor), int_tree(k as i32)],
                    ),
                    _ => self.through(
                        k,
                        if is_cached(*self.cache, k) {
                            cast_tree(
                                slot_value(self.locals.cache, k as usize),
                                class_type("kotlinx/serialization/DeserializationStrategy"@),
                            )
                        } else {
                            match element_tree(ir, ctx, ty, self.type_parameter_serializers@) {
                                Some(serializer) => serializer,
                                None => unsupported_element(ty),
                            }
                        },
                    ),
                },
            },
        }
    }

    /// The block for element `k`: it reads the value and marks the element as seen.
    pub open spec fn block_for(&self, ir: IrFile, ctx: PluginContext, k: int) -> IrTree {
        block_tree(
            seq![
                set_tree(self.locals.field(k), self.decoded(ir, ctx, k)),
                set_tree(
                    self.locals.seen(k),
                    binary_tree(
                        IrBinOp::BitOr,
                        value_tree(self.locals.seen(k)),
                        int_tree(element_bit(k as nat)),
                    ),
                ),
            ],
        )
    }

    /// The blocks for all elements, in order.
    pub open spec fn blocks(&self, ir: IrFile, ctx: PluginContext) -> Seq<IrTree> {
        Seq::new(self.fields@.len(), |k: int| self.block_for(ir, ctx, k))
    }

    fn decode_serializable(
        &self,
        exprs: &mut Vec<IrExpr>,
        k: usize,
        descriptor: ExprId,
        index: ExprId,
        composite: ExprId,
        serializer: ExprId,
    ) -> (id: ExprId)
        requires
            self.well_formed(),
            k < self.fields@.len(),
            grounded(old(exprs)@, descriptor),
            grounded(old(exprs)@, index),
            grounded(old(exprs)@, composite),
            grounded(old(exprs)@, serializer),
            tree(old(exprs)@, descriptor) == value_tree(self.locals.descriptor),
            tree(old(exprs)@, index) == int_tree(k as i32),
            tree(old(exprs)@, composite) == value_tree(self.locals.composite),
        ensures
            grows(old(exprs)@, final(exprs)@),
            grounded(final(exprs)@, id),
            tree(final(exprs)@, id) == self.through(k as int, tree(old(exprs)@, serializer)),
    {
        let strategy: ExprId = narrowed(
            exprs,
            serializer,
            "kotlinx/serialization/DeserializationStrategy",
        );
        let before: ExprId = plant_value(exprs, self.locals.first_field + k as u32);
        let ty: &Ty = &self.fields[k].1;
        let method = if ty.is_nullable() {
            "decodeNullableSerializableElement"
        } else {
            "decodeSerializableElement"
        };
        let raw: ExprId = plant_call4(
            exprs,
            virtual_iface(
                "kotlinx/serialization/encoding/CompositeDecoder",
                method,
                "(Lkotlinx/serialization/descriptors/SerialDescriptor;ILkotlinx/serialization/DeserializationStrategy;Ljava/lang/Object;)Ljava/lang/Object;",
            ),
            composite,
            descriptor,
            index,
            strategy,
            before,
        );
        plant_cast(exprs, raw, ty.clone())
    }

    fn plant_decoded(&self, ir: &mut IrFile, ctx: &PluginContext, k: usize) -> (id: ExprId)
        requires
            self.well_formed(),
            objects_named(*old(ir), *ctx),
            k < self.fields@.len(),
        ensures
            *final(ir) == (IrFile { exprs: final(ir).exprs, ..*old(ir) }),
            grows(old(ir).exprs@, final(ir).exprs@),
            grounded(final(ir).exprs@, id),
            tree(final(ir).exprs@, id) == self.decoded(*old(ir), *ctx, k as int),
    {
        let ghost start = *ir;
        let name: &str = self.fields[k].0.as_str();
        let ty: &Ty = &self.fields[k].1;
        let descriptor: ExprId = plant_value(&mut ir.exprs, self.locals.descriptor);
        let index: ExprId = plant_const(&mut ir.exprs, IrConst::Int(k as i32));
        let composite: ExprId = plant_value(&mut ir.exprs, self.locals.composite);
        let contextual = property_is_contextual(ctx, self.serialized_class, name);
        if let Some(serializer) = contextual_serializer_for(&mut ir.exprs, contextual, ty) {
            return self.decode_serializable(
                &mut ir.exprs,
                k,
                descriptor,
                index,
                composite,
                serializer,
            );
        }
        if let Some(named) = field_serializer_of(ctx, self.serialized_class, name) {
            let serializer: ExprId = build_field_serializer_instance(ir, &named);
            return self.decode_serializable(
                &mut ir.exprs,
                k,
                descriptor,
                index,
                composite,
                serializer,
            );
        }
        if !ty.is_nullable() {
            if let Some((member, member_descriptor)) = decode_element_method(ty) {
                let callee = virtual_iface(
                    "kotlinx/serialization/encoding/CompositeDecoder",
                    member.as_str(),
                    member_descriptor.as_str(),
                );
                return plant_call2(&mut ir.exprs, callee, composite, descriptor, index);
            }
        }
        let serializer: ExprId = match cached_strategy(
            &mut ir.exprs,
            self.cache,
            self.locals.cache,
            k,
            self.fields.len(),
            "kotlinx/serialization/DeserializationStrategy",
        ) {
            Some(slot) => slot,
            None => {
                proof {
                    lemma_plan_ignores_expressions(
                        *ir,
                        start,
                        *ctx,
                        ty@,
                        self.type_parameter_serializers@,
                    );
                }
                match element_serializer_expr_in(ir, ctx, ty, self.type_parameter_serializers) {
                    Some(serializer) => serializer,
                    None => unsupported_element_serializer(&mut ir.exprs, ty),
                }
            },
        };
        self.decode_serializable(&mut ir.exprs, k, descriptor, index, composite, serializer)
    }

    /// The block that reads element `k` and marks it as seen.
    pub fn block(&self, ir: &mut IrFile, ctx: &PluginContext, k: usize) -> (id: ExprId)
        requires
            self.well_formed(),
            objects_named(*old(ir), *ctx),
            k < self.fields@.len(),
        ensures
            *final(ir) == (IrFile { exprs: final(ir).exprs, ..*old(ir) }),
            grows(old(ir).exprs@, final(ir).exprs@),
            grounded(final(ir).exprs@, id),
            tree(final(ir).exprs@, id) == self.block_for(*old(ir), *ctx, k as int),
    {
        let decoded: ExprId = self.plant_decoded(ir, ctx, k);
        let set: ExprId = plant_set(
            &mut ir.exprs,
            self.locals.first_field + k as u32,
            decoded,
        );
        let word: u32 = self.locals.first_seen + (k / 32) as u32;
        assert(word == self.locals.seen(k as int));
        let seen: ExprId = plant_value(&mut ir.exprs, word);
        let bit: ExprId = plant_const(&mut ir.exprs, IrConst::Int(element_bit_of(k)));
        let marked: ExprId = plant_binary(&mut ir.exprs, IrBinOp::BitOr, seen, bit);
        let mark: ExprId = plant_set(&mut ir.exprs, word, marked);
        plant_block2(&mut ir.exprs, set, mark)
    }

    /// The blocks for all elements, in order.
    fn plant_blocks(&self, ir: &mut IrFile, ctx: &PluginContext) -> (ids: Vec<ExprId>)
        requires
            self.well_formed(),
            objects_named(*old(ir), *ctx),
        ensures
            *final(ir) == (IrFile { exprs: final(ir).exprs, ..*old(ir) }),
            grows(old(ir).exprs@, final(ir).exprs@),
            all_grounded(final(ir).exprs@, ids@),
            trees(final(ir).exprs@, ids@) == self.blocks(*old(ir), *ctx),
    {
        let ghost start = *ir;
        let mut ids: Vec<ExprId> = Vec::new();
        let mut index: usize = 0;
        while index < self.fields.len()
            invariant
                index <= self.fields@.len(),
                start == *old(ir),
                self.well_formed(),
                objects_named(start, *ctx),
                *ir == (IrFile { exprs: ir.exprs, ..start }),
                grows(start.exprs@, ir.exprs@),
                ids@.len() == index,
                forall|k: int|
                    0 <= k < index ==> grounded(ir.exprs@, #[trigger] ids@[k]) && tree(
                        ir.exprs@,
                        ids@[k],
                    ) == self.block_for(start, *ctx, k),
            decreases self.fields@.len() - index,
        {
            let ghost current = *ir;
            proof {
                self.lemma_block_ignores_expressions(current, start, *ctx, index as int);
            }
            let id: ExprId = self.block(ir, ctx, index);
            assert(grows(current.exprs@, ir.exprs@));
            ids.push(id);
            index += 1;
        }
        assert(trees(ir.exprs@, ids@) =~= self.blocks(start, *ctx));
        ids
    }

    proof fn lemma_block_ignores_expressions(
        &self,
        left: IrFile,
        right: IrFile,
        ctx: PluginContext,
        k: int,
    )
        requires
            left.classes == right.classes,
            left.functions == right.functions,
        ensures
            self.block_for(left, ctx, k) == self.block_for(right, ctx, k),
    {
        lemma_plan_ignores_expressions(
            left,
            right,
            ctx,
            self.fields@[k].1@,
            self.type_parameter_serializers@,
        );
        assert(self.decoded(left, ctx, k) == self.decoded(right, ctx, k));
    }
}

/// What the body of `deserialize` is generated from.
pub struct DeserializeBody<'a> {
    pub function: FunId,
    pub serializer_class: ClassId,
    pub serialized_class: ClassId,
    pub fields: &'a [(String, Ty)],
    /// The serializers of the type parameters of the class, which the serializer holds.
    pub type_parameter_serializers: TypeParameterSerializers<'a>,
    /// The cache of the serialized class, where it has one.
    pub cache: Option<ChildSerializerCachePlan>,
}

/// `decoder.beginStructure(descriptor)`.
pub open spec fn begin_decoding(descriptor: IrTree) -> IrTree {
    call_tree(
        interface_member(
            "kotlinx/serialization/encoding/Decoder"@,
            "beginStructure"@,
            "(Lkotlinx/serialization/descriptors/SerialDescriptor;)Lkotlinx/serialization/encoding/CompositeDecoder;"@,
        ),
        value_tree(1),
        seq![descriptor],
    )
}

/// A local without a value to start with.
pub open spec fn declared_tree(index: u32, ty: TyView) -> IrTree {
    leaf(IrLabel::Variable { index, ty, initialized: false, named: false })
}

/// A construction through the constructor with the given parameters.
pub open spec fn construction(
    internal: Seq<char>,
    ctor_params: Option<Seq<TyView>>,
    args: Seq<IrTree>,
) -> IrTree {
    IrTree { label: IrLabel::New { internal, ctor_params, ctor_desc: None }, operands: args }
}

impl<'a> DeserializeBody<'a> {
    /// The name of the serialized class.
    pub open spec fn class_name(&self, ir: IrFile) -> Seq<char> {
        ir.classes@[self.serialized_class as int].name@
    }

    /// The descriptor that the serializer holds.
    pub open spec fn own_descriptor(&self) -> IrTree {
        field_tree(value_tree(0), self.serializer_class, 0)
    }

    /// Whether the class is a value class over a primitive: it is read as that primitive.
    pub open spec fn reads_inline(&self, ir: IrFile) -> bool {
        ir.classes@[self.serialized_class as int].is_value && self.fields@.len() > 0
            && primitive_of(self.fields@[0].1@) is Some
    }

    /// Whether element `k` can be read.
    pub open spec fn decodes(&self, ir: IrFile, ctx: PluginContext, k: int) -> bool {
        let name = self.fields@[k].0@;
        let ty = self.fields@[k].1@;
        ||| is_contextual(ctx, self.serialized_class, name)
        ||| field_serializer(ctx, self.serialized_class, name) is Some
        ||| !ty.is_nullable() && element_decoder(ty) is Some
        ||| element_plan(ir, ctx, ty, self.type_parameter_serializers@) is Some
    }

    /// Whether every element can be read.
    pub open spec fn decodable(&self, ir: IrFile, ctx: PluginContext) -> bool {
        forall|k: int| 0 <= k < self.fields@.len() ==> #[trigger] self.decodes(ir, ctx, k)
    }

    /// Whether the body reads the elements and constructs an object.
    pub open spec fn builds(&self, ir: IrFile, ctx: PluginContext) -> bool {
        !self.reads_inline(ir) && !ir.classes@[self.serialized_class as int].is_object
            && self.decodable(ir, ctx)
    }

    /// The position of the deserialization constructor.
    pub open spec fn constructor(&self, ir: IrFile) -> Option<usize> {
        generated_ordinal(
            ir.generated_constructors@,
            self.serialized_class,
            IrSecondaryConstructorRole::SerializationDeserialization,
        )
    }

    /// The parameters of the deserialization constructor.
    pub open spec fn constructor_params(&self, ir: IrFile) -> Seq<TyView> {
        views(
            ir.classes@[self.serialized_class as int].secondary_ctors@[self.constructor(
                ir,
            )->0 as int].params@,
        )
    }

    /// Whether the class has its deserialization constructor, with one or two marker parameters
    /// behind those for the words and the elements.
    pub open spec fn has_constructor(&self, ir: IrFile) -> bool {
        let class = ir.classes@[self.serialized_class as int];
        let count = self.fields@.len();
        self.constructor(ir) matches Some(ordinal) && ordinal < class.secondary_ctors@.len() && 1
            <= class.secondary_ctors@[ordinal as int].params@.len() - word_count(count) - count
            <= 2
    }

    /// Whether everything that the body needs is there and can be numbered.
    pub open spec fn well_formed(&self, ir: IrFile, ctx: PluginContext) -> bool {
        &&& self.function < ir.functions@.len()
        &&& self.serialized_class < ir.classes@.len()
        &&& self.type_parameter_serializers@.fits()
        &&& locals_fit(
            ir.functions@[self.function as int].params@.len(),
            self.fields@.len(),
        )
        &&& self.cache matches Some(plan) ==> plan.cached@.len() == self.fields@.len()
        &&& self.builds(ir, ctx) ==> self.has_constructor(ir)
    }

    /// The locals of the body.
    pub open spec fn locals(&self, ir: IrFile) -> DecodeLocals {
        DecodeLocals::numbered(
            ir.functions@[self.function as int].params@.len(),
            self.fields@.len(),
        )
    }

    /// What the blocks for the elements are generated from.
    pub open spec fn element_decode(&self, ir: IrFile) -> ElementDecode<'_> {
        ElementDecode {
            serialized_class: self.serialized_class,
            fields: self.fields,
            type_parameter_serializers: self.type_parameter_serializers,
            locals: self.locals(ir),
            cache: &self.cache,
        }
    }

    /// The body for a value class over a primitive.
    pub open spec fn inline_body(&self, ir: IrFile) -> IrTree {
        let (name, descriptor) = primitive_of(self.fields@[0].1@)->0;
        block_tree(
            seq![
                return_tree(
                    construction(
                        self.class_name(ir),
                        None,
                        seq![
                            call_tree(
                                interface_member(
                                    "kotlinx/serialization/encoding/Decoder"@,
                                    "decode"@ + name,
                                    "()"@ + descriptor,
                                ),
                                call_tree(
                                    interface_member(
                                        "kotlinx/serialization/encoding/Decoder"@,
                                        "decodeInline"@,
                                        "(Lkotlinx/serialization/descriptors/SerialDescriptor;)Lkotlinx/serialization/encoding/Decoder;"@,
                                    ),
                                    value_tree(1),
                                    seq![self.own_descriptor()],
                                ),
                                seq![],
                            ),
                        ],
                    ),
                ),
            ],
        )
    }

    /// The body for an object.
    pub open spec fn object_body(&self) -> IrTree {
        block_tree(seq![return_tree(local_instance_tree(self.serialized_class))])
    }

    /// The body where an element cannot be read: it throws. Without a body the serializer would be
    /// abstract, and fail before anything is read.
    pub open spec fn throwing_body(&self) -> IrTree {
        block_tree(
            seq![
                throw_tree(
                    external_new_tree(
                        "kotlinx/serialization/SerializationException"@,
                        "(Ljava/lang/String;)V"@,
                        seq![
                            const_tree(
                                IrConstView::String(
                                    text_units(
                                        "no serializer is available for a deserialized field type"@,
                                    ),
                                ),
                            ),
                        ],
                    ),
                ),
            ],
        )
    }

    /// The declarations of the words that say which elements were seen.
    pub open spec fn seen_declarations(&self, locals: DecodeLocals, words: nat) -> Seq<IrTree> {
        Seq::new(
            words,
            |w: int|
                variable_tree(
                    (locals.first_seen + w) as u32,
                    class_type("kotlin/Int"@),
                    int_tree(0),
                ),
        )
    }

    /// The declarations of the values of the elements. A default belongs to the constructor, and is
    /// not evaluated before anything is read.
    pub open spec fn field_declarations(&self, locals: DecodeLocals, count: nat) -> Seq<IrTree> {
        Seq::new(
            count,
            |k: int|
                variable_tree(
                    locals.field(k),
                    self.fields@[k].1@,
                    const_tree(IrConstView::zero_of(self.fields@[k].1@)),
                ),
        )
    }

    /// The declarations at the start of the body.
    pub open spec fn declarations(&self, locals: DecodeLocals) -> Seq<IrTree> {
        seq![
            variable_tree(
                locals.descriptor,
                class_type("kotlinx/serialization/descriptors/SerialDescriptor"@),
                self.own_descriptor(),
            ),
            variable_tree(
                locals.flag,
                TyView::Boolean,
                const_tree(IrConstView::Boolean(true)),
            ),
            declared_tree(locals.index, class_type("kotlin/Int"@)),
        ] + self.seen_declarations(locals, word_count(self.fields@.len()))
            + self.field_declarations(locals, self.fields@.len())
    }

    /// The statements that open the structure.
    pub open spec fn opening(&self, ir: IrFile, locals: DecodeLocals) -> Seq<IrTree> {
        let begin = variable_tree(
            locals.composite,
            class_type("kotlinx/serialization/encoding/CompositeDecoder"@),
            begin_decoding(value_tree(locals.descriptor)),
        );
        match self.cache {
            Some(plan) => seq![
                begin,
                variable_tree(
                    locals.cache,
                    cache_type(),
                    cache_read(self.class_name(ir), plan.accessor),
                ),
            ],
            None => seq![begin],
        }
    }

    /// The conditions of the dispatch: the end of the structure, and each element.
    pub open spec fn index_conditions(&self, locals: DecodeLocals, count: nat) -> Seq<IrTree> {
        seq![index_is(locals, (-1) as i32)] + Seq::new(count, |k: int| index_is(locals, k as i32))
    }

    /// The loop that asks for the index of each element. The end of the structure clears the flag,
    /// and an index that names no element is an error.
    pub open spec fn index_loop(&self, ir: IrFile, ctx: PluginContext) -> IrTree {
        let locals = self.locals(ir);
        while_tree(
            value_tree(locals.flag),
            block_tree(
                seq![
                    set_tree(
                        locals.index,
                        call_tree(
                            decoder_member(
                                "decodeElementIndex"@,
                                "(Lkotlinx/serialization/descriptors/SerialDescriptor;)I"@,
                            ),
                            value_tree(locals.composite),
                            seq![value_tree(locals.descriptor)],
                        ),
                    ),
                    dispatch_tree(
                        self.index_conditions(locals, self.fields@.len()),
                        seq![
                            block_tree(
                                seq![
                                    set_tree(
                                        locals.flag,
                                        const_tree(IrConstView::Boolean(false)),
                                    ),
                                ],
                            ),
                        ] + self.element_decode(ir).blocks(ir, ctx),
                        unknown_index(locals),
                    ),
                ],
            ),
        )
    }

    /// The reading of the elements: one after the other where the decoder promises that they come
    /// in order, and by their indices otherwise.
    pub open spec fn reading(&self, ir: IrFile, ctx: PluginContext) -> IrTree {
        let locals = self.locals(ir);
        if_else_tree(
            call_tree(
                decoder_member("decodeSequentially"@, "()Z"@),
                value_tree(locals.composite),
                seq![],
            ),
            block_tree(self.element_decode(ir).blocks(ir, ctx)),
            block_tree(seq![self.index_loop(ir, ctx)]),
        )
    }

    /// `decoder.endStructure(descriptor)`.
    pub open spec fn closing(&self, locals: DecodeLocals) -> IrTree {
        call_tree(
            decoder_member(
                "endStructure"@,
                "(Lkotlinx/serialization/descriptors/SerialDescriptor;)V"@,
            ),
            value_tree(locals.composite),
            seq![value_tree(locals.descriptor)],
        )
    }

    /// The arguments of the deserialization constructor: the words, the elements and `null` for
    /// each marker.
    pub open spec fn arguments(&self, ir: IrFile) -> Seq<IrTree> {
        let locals = self.locals(ir);
        let count = self.fields@.len();
        let words = word_count(count);
        Seq::new(
            self.constructor_params(ir).len(),
            |k: int|
                if k < words {
                    value_tree((locals.first_seen + k) as u32)
                } else if k < words + count {
                    value_tree(locals.field(k - words))
                } else {
                    null_tree()
                },
        )
    }

    /// The construction of the object. The constructor is what reports a missing element and
    /// supplies a default.
    pub open spec fn constructing(&self, ir: IrFile) -> IrTree {
        construction(
            self.class_name(ir),
            Some(self.constructor_params(ir)),
            self.arguments(ir),
        )
    }

    /// The body that reads the elements and constructs an object.
    pub open spec fn decoding_body(&self, ir: IrFile, ctx: PluginContext) -> IrTree {
        let locals = self.locals(ir);
        block_tree(
            self.declarations(locals) + self.opening(ir, locals) + seq![
                self.reading(ir, ctx),
                self.closing(locals),
                return_tree(self.constructing(ir)),
            ],
        )
    }

    /// The body of `deserialize`.
    pub open spec fn body(&self, ir: IrFile, ctx: PluginContext) -> IrTree {
        if self.reads_inline(ir) {
            self.inline_body(ir)
        } else if ir.classes@[self.serialized_class as int].is_object {
            self.object_body()
        } else if !self.decodable(ir, ctx) {
            self.throwing_body()
        } else {
            self.decoding_body(ir, ctx)
        }
    }
}

/// `index == value`.
pub open spec fn index_is(locals: DecodeLocals, value: i32) -> IrTree {
    binary_tree(IrBinOp::Eq, value_tree(locals.index), int_tree(value))
}

/// What happens on an index that names no element.
pub open spec fn unknown_index(locals: DecodeLocals) -> IrTree {
    block_tree(
        seq![
            throw_tree(
                external_new_tree(
                    "kotlinx/serialization/UnknownFieldException"@,
                    "(I)V"@,
                    seq![value_tree(locals.index)],
                ),
            ),
        ],
    )
}

fn plant_index_is(exprs: &mut Vec<IrExpr>, locals: DecodeLocals, value: i32) -> (id: ExprId)
    ensures
        grows(old(exprs)@, final(exprs)@),
        grounded(final(exprs)@, id),
        tree(final(exprs)@, id) == index_is(locals, value),
{
    let index: ExprId = plant_value(exprs, locals.index);
    let constant: ExprId = plant_const(exprs, IrConst::Int(value));
    plant_binary(exprs, IrBinOp::Eq, index, constant)
}

fn plant_new1(exprs: &mut Vec<IrExpr>, internal: &str, descriptor: &str, arg: ExprId) -> (id: ExprId)
    requires
        grounded(old(exprs)@, arg),
    ensures
        grows(old(exprs)@, final(exprs)@),
        grounded(final(exprs)@, id),
        tree(final(exprs)@, id) == external_new_tree(
            internal@,
            descriptor@,
            seq![tree(old(exprs)@, arg)],
        ),
{
    let ghost before = exprs@;
    let mut args: Vec<ExprId> = Vec::new();
    args.push(arg);
    assert(trees(before, args@) =~= seq![tree(before, arg)]);
    plant_new(exprs, internal, descriptor, args)
}

impl<'a> DeserializeBody<'a> {
    fn plant_own_descriptor(&self, exprs: &mut Vec<IrExpr>) -> (id: ExprId)
        ensures
            grows(old(exprs)@, final(exprs)@),
            grounded(final(exprs)@, id),
            tree(final(exprs)@, id) == self.own_descriptor(),
    {
        let this: ExprId = plant_value(exprs, 0);
        plant_field(exprs, this, self.serializer_class, 0)
    }

    fn plant_inline(&self, ir: &mut IrFile) -> (id: ExprId)
        requires
            self.serialized_class < old(ir).classes@.len(),
            self.reads_inline(*old(ir)),
        ensures
            *final(ir) == (IrFile { exprs: final(ir).exprs, ..*old(ir) }),
            grows(old(ir).exprs@, final(ir).exprs@),
            grounded(final(ir).exprs@, id),
            tree(final(ir).exprs@, id) == self.inline_body(*old(ir)),
    {
        let ghost start = *ir;
        let descriptor: ExprId = self.plant_own_descriptor(&mut ir.exprs);
        let decoder: ExprId = plant_value(&mut ir.exprs, 1);
        let inline: ExprId = plant_call1(
            &mut ir.exprs,
            virtual_iface(
                "kotlinx/serialization/encoding/Decoder",
                "decodeInline",
                "(Lkotlinx/serialization/descriptors/SerialDescriptor;)Lkotlinx/serialization/encoding/Decoder;",
            ),
            decoder,
            descriptor,
        );
        let value: ExprId = match inline_prim_methods(&self.fields[0].1) {
            Some(methods) => plant_call0(
                &mut ir.exprs,
                virtual_iface(
                    "kotlinx/serialization/encoding/Decoder",
                    methods.decode_name.as_str(),
                    methods.decode_descriptor.as_str(),
                ),
                inline,
            ),
            None => inline,
        };
        let mut args: Vec<ExprId> = Vec::new();
        args.push(value);
        let ghost ids = args@;
        let ghost before = ir.exprs@;
        let internal = ir.classes[self.serialized_class].name.clone();
        let object: ExprId = plant(
            &mut ir.exprs,
            IrExpr::New { internal, args, ctor_params: None, ctor_desc: None },
        );
        assert(trees(before, ids) =~= seq![tree(before, value)]);
        let returned: ExprId = plant_return(&mut ir.exprs, object);
        plant_block1(&mut ir.exprs, returned)
    }

    fn plant_object(&self, exprs: &mut Vec<IrExpr>) -> (id: ExprId)
        ensures
            grows(old(exprs)@, final(exprs)@),
            grounded(final(exprs)@, id),
            tree(final(exprs)@, id) == self.object_body(),
    {
        let instance: ExprId = plant_local_instance(exprs, self.serialized_class);
        let returned: ExprId = plant_return(exprs, instance);
        plant_block1(exprs, returned)
    }

    fn plant_throwing(&self, exprs: &mut Vec<IrExpr>) -> (id: ExprId)
        ensures
            grows(old(exprs)@, final(exprs)@),
            grounded(final(exprs)@, id),
            tree(final(exprs)@, id) == self.throwing_body(),
    {
        let message: ExprId = plant_const(
            exprs,
            IrConst::String(
                KtString::from("no serializer is available for a deserialized field type"),
            ),
        );
        let exception: ExprId = plant_new1(
            exprs,
            "kotlinx/serialization/SerializationException",
            "(Ljava/lang/String;)V",
            message,
        );
        let thrown: ExprId = plant_throw(exprs, exception);
        plant_block1(exprs, thrown)
    }

    fn is_decodable(&self, ir: &IrFile, ctx: &PluginContext) -> (yes: bool)
        requires
            objects_named(*ir, *ctx),
            self.type_parameter_serializers@.fits(),
        ensures
            yes == self.decodable(*ir, *ctx),
    {
        let mut index: usize = 0;
        while index < self.fields.len()
            invariant
                index <= self.fields@.len(),
                objects_named(*ir, *ctx),
                self.type_parameter_serializers@.fits(),
                forall|k: int| 0 <= k < index ==> #[trigger] self.decodes(*ir, *ctx, k),
            decreases self.fields@.len() - index,
        {
            let name: &str = self.fields[index].0.as_str();
            let ty: &Ty = &self.fields[index].1;
            let readable = property_is_contextual(ctx, self.serialized_class, name)
                || field_serializer_of(ctx, self.serialized_class, name).is_some()
                || !ty.is_nullable() && decode_element_method(ty).is_some()
                || element_serializer_plan_in(
                ir,
                ctx,
                ty,
                self.type_parameter_serializers,
            ).is_some();
            if !readable {
                assert(!self.decodes(*ir, *ctx, index as int));
                return false;
            }
            index += 1;
        }
        true
    }

    fn plant_declarations(&self, exprs: &mut Vec<IrExpr>, locals: DecodeLocals) -> (ids: Vec<ExprId>)
        requires
            locals.first_field + self.fields@.len() <= u32::MAX,
            locals.first_seen + word_count(self.fields@.len()) <= u32::MAX,
        ensures
            grows(old(exprs)@, final(exprs)@),
            all_grounded(final(exprs)@, ids@),
            trees(final(exprs)@, ids@) == self.declarations(locals),
    {
        let ghost start = exprs@;
        let mut ids: Vec<ExprId> = Vec::new();
        let own: ExprId = self.plant_own_descriptor(exprs);
        let descriptor: ExprId = plant_variable(
            exprs,
            locals.descriptor,
            class_ty("kotlinx/serialization/descriptors/SerialDescriptor"),
            own,
        );
        ids.push(descriptor);
        let truth: ExprId = plant_const(exprs, IrConst::Boolean(true));
        let flag: ExprId = plant_variable(exprs, locals.flag, Ty::Boolean, truth);
        ids.push(flag);
        let ghost middle = exprs@;
        let index: ExprId = plant(
            exprs,
            IrExpr::Variable {
                index: locals.index,
                ty: class_ty("kotlin/Int"),
                init: None,
                named: false,
            },
        );
        assert(trees(middle, Seq::<ExprId>::empty()) =~= Seq::<IrTree>::empty());
        ids.push(index);
        let ghost head = trees(exprs@, ids@);
        assert(head =~= self.declarations(locals).take(3));
        let words: usize = self.fields.len() / 32 + 1;
        let mut word: usize = 0;
        assert(head + self.seen_declarations(locals, 0) =~= head);
        while word < words
            invariant
                word <= words,
                words == word_count(self.fields@.len()),
                locals.first_seen + words <= u32::MAX,
                grows(start, exprs@),
                all_grounded(exprs@, ids@),
                trees(exprs@, ids@) == head + self.seen_declarations(locals, word as nat),
            decreases words - word,
        {
            let ghost before = exprs@;
            let zero: ExprId = plant_const(exprs, IrConst::Int(0));
            let seen: ExprId = plant_variable(
                exprs,
                locals.first_seen + word as u32,
                class_ty("kotlin/Int"),
                zero,
            );
            proof {
                assert(grows(before, exprs@));
                lemma_listed(before, exprs@, ids@, seen);
                assert(head + self.seen_declarations(locals, (word + 1) as nat) =~= (head
                    + self.seen_declarations(locals, word as nat)).push(tree(exprs@, seen)));
            }
            ids.push(seen);
            word += 1;
        }
        let ghost upper = head + self.seen_declarations(locals, words as nat);
        let mut field: usize = 0;
        assert(upper + self.field_declarations(locals, 0) =~= upper);
        while field < self.fields.len()
            invariant
                field <= self.fields@.len(),
                locals.first_field + self.fields@.len() <= u32::MAX,
                grows(start, exprs@),
                all_grounded(exprs@, ids@),
                trees(exprs@, ids@) == upper + self.field_declarations(locals, field as nat),
            decreases self.fields@.len() - field,
        {
            let ghost before = exprs@;
            let zero: ExprId = plant_const(
                exprs,
                IrConst::zero_for_value_type(&self.fields[field].1),
            );
            let value: ExprId = plant_variable(
                exprs,
                locals.first_field + field as u32,
                self.fields[field].1.clone(),
                zero,
            );
            proof {
                assert(grows(before, exprs@));
                lemma_listed(before, exprs@, ids@, value);
                assert(upper + self.field_declarations(locals, (field + 1) as nat) =~= (upper
                    + self.field_declarations(locals, field as nat)).push(tree(exprs@, value)));
            }
            ids.push(value);
            field += 1;
        }
        assert(trees(exprs@, ids@) =~= self.declarations(locals));
        ids
    }
}

impl<'a> DeserializeBody<'a> {
    fn plant_opening(&self, ir: &mut IrFile, locals: DecodeLocals, stmts: &mut Vec<ExprId>)
        requires
            self.serialized_class < old(ir).classes@.len(),
            all_grounded(old(ir).exprs@, old(stmts)@),
        ensures
            *final(ir) == (IrFile { exprs: final(ir).exprs, ..*old(ir) }),
            grows(old(ir).exprs@, final(ir).exprs@),
            all_grounded(final(ir).exprs@, final(stmts)@),
            trees(final(ir).exprs@, final(stmts)@) == trees(old(ir).exprs@, old(stmts)@)
                + self.opening(*old(ir), locals),
    {
        let ghost start = *ir;
        let ghost shown = trees(start.exprs@, stmts@);
        let descriptor: ExprId = plant_value(&mut ir.exprs, locals.descriptor);
        let decoder: ExprId = plant_value(&mut ir.exprs, 1);
        let begin: ExprId = plant_call1(
            &mut ir.exprs,
            virtual_iface(
                "kotlinx/serialization/encoding/Decoder",
                "beginStructure",
                "(Lkotlinx/serialization/descriptors/SerialDescriptor;)Lkotlinx/serialization/encoding/CompositeDecoder;",
            ),
            decoder,
            descriptor,
        );
        let composite: ExprId = plant_variable(
            &mut ir.exprs,
            locals.composite,
            class_ty("kotlinx/serialization/encoding/CompositeDecoder"),
            begin,
        );
        proof {
            assert(grows(start.exprs@, ir.exprs@));
            lemma_listed(start.exprs@, ir.exprs@, stmts@, composite);
        }
        stmts.push(composite);
        match &self.cache {
            Some(plan) => {
                let ghost before = ir.exprs@;
                let load: ExprId = load_cache_statement(
                    &mut ir.exprs,
                    plan,
                    locals.cache,
                    &ir.classes[self.serialized_class].name,
                );
                proof {
                    lemma_listed(before, ir.exprs@, stmts@, load);
                }
                stmts.push(load);
            },
            None => {},
        }
        assert(trees(ir.exprs@, stmts@) =~= shown + self.opening(start, locals));
    }

    fn plant_index_loop(&self, ir: &mut IrFile, ctx: &PluginContext, elements: &ElementDecode<'_>) -> (id:
        ExprId)
        requires
            elements.well_formed(),
            objects_named(*old(ir), *ctx),
            *elements == self.element_decode(*old(ir)),
        ensures
            *final(ir) == (IrFile { exprs: final(ir).exprs, ..*old(ir) }),
            grows(old(ir).exprs@, final(ir).exprs@),
            grounded(final(ir).exprs@, id),
            tree(final(ir).exprs@, id) == self.index_loop(*old(ir), *ctx),
    {
        let ghost start = *ir;
        let locals = elements.locals;
        let descriptor: ExprId = plant_value(&mut ir.exprs, locals.descriptor);
        let composite: ExprId = plant_value(&mut ir.exprs, locals.composite);
        let asked: ExprId = plant_call1(
            &mut ir.exprs,
            virtual_iface(
                "kotlinx/serialization/encoding/CompositeDecoder",
                "decodeElementIndex",
                "(Lkotlinx/serialization/descriptors/SerialDescriptor;)I",
            ),
            composite,
            descriptor,
        );
        let set: ExprId = plant_set(&mut ir.exprs, locals.index, asked);
        let done: ExprId = plant_index_is(&mut ir.exprs, locals, -1);
        let stop: ExprId = plant_const(&mut ir.exprs, IrConst::Boolean(false));
        let clear: ExprId = plant_set(&mut ir.exprs, locals.flag, stop);
        let cleared: ExprId = plant_block1(&mut ir.exprs, clear);
        let ghost asking = ir.exprs@;
        let mut conditions: Vec<ExprId> = Vec::new();
        conditions.push(done);
        let mut results: Vec<ExprId> = Vec::new();
        results.push(cleared);
        let ghost end = block_tree(
            seq![set_tree(locals.flag, const_tree(IrConstView::Boolean(false)))],
        );
        let ghost blocks = elements.blocks(start, *ctx);
        assert(trees(ir.exprs@, conditions@) =~= self.index_conditions(locals, 0));
        assert(trees(ir.exprs@, results@) =~= seq![end] + blocks.take(0));
        let mut index: usize = 0;
        while index < self.fields.len()
            invariant
                index <= self.fields@.len(),
                elements.well_formed(),
                elements.fields@ == self.fields@,
                elements.locals == locals,
                objects_named(start, *ctx),
                *ir == (IrFile { exprs: ir.exprs, ..start }),
                grows(asking, ir.exprs@),
                blocks == elements.blocks(start, *ctx),
                conditions@.len() == index + 1,
                results@.len() == index + 1,
                all_grounded(ir.exprs@, conditions@),
                all_grounded(ir.exprs@, results@),
                trees(ir.exprs@, conditions@) == self.index_conditions(locals, index as nat),
                trees(ir.exprs@, results@) == seq![end] + blocks.take(index as int),
            decreases self.fields@.len() - index,
        {
            let ghost before = ir.exprs@;
            let condition: ExprId = plant_index_is(&mut ir.exprs, locals, index as i32);
            let ghost current = *ir;
            proof {
                lemma_listed(before, current.exprs@, conditions@, condition);
                lemma_trees_kept(before, current.exprs@, results@);
                elements.lemma_block_ignores_expressions(current, start, *ctx, index as int);
                assert(self.index_conditions(locals, (index + 1) as nat) =~= self.index_conditions(
                    locals,
                    index as nat,
                ).push(index_is(locals, index as i32)));
            }
            conditions.push(condition);
            let block: ExprId = elements.block(ir, ctx, index);
            proof {
                lemma_trees_kept(current.exprs@, ir.exprs@, conditions@);
                lemma_listed(current.exprs@, ir.exprs@, results@, block);
                assert(seq![end] + blocks.take(index as int + 1) =~= (seq![end] + blocks.take(
                    index as int,
                )).push(blocks[index as int]));
                assert(grows(asking, ir.exprs@));
            }
            results.push(block);
            index += 1;
        }
        assert(blocks.take(index as int) =~= blocks);
        let ghost dispatching = ir.exprs@;
        let unknown: ExprId = plant_value(&mut ir.exprs, locals.index);
        let exception: ExprId = plant_new1(
            &mut ir.exprs,
            "kotlinx/serialization/UnknownFieldException",
            "(I)V",
            unknown,
        );
        let thrown: ExprId = plant_throw(&mut ir.exprs, exception);
        let raised: ExprId = plant_block1(&mut ir.exprs, thrown);
        proof {
            assert(grows(dispatching, ir.exprs@));
            lemma_trees_kept(dispatching, ir.exprs@, conditions@);
            lemma_trees_kept(dispatching, ir.exprs@, results@);
        }
        let dispatch: ExprId = plant_dispatch(&mut ir.exprs, &conditions, &results, raised);
        let body: ExprId = plant_block2(&mut ir.exprs, set, dispatch);
        let condition: ExprId = plant_value(&mut ir.exprs, locals.flag);
        plant_while(&mut ir.exprs, condition, body)
    }

    fn plant_reading(&self, ir: &mut IrFile, ctx: &PluginContext, elements: &ElementDecode<'_>) -> (id:
        ExprId)
        requires
            elements.well_formed(),
            objects_named(*old(ir), *ctx),
            *elements == self.element_decode(*old(ir)),
        ensures
            *final(ir) == (IrFile { exprs: final(ir).exprs, ..*old(ir) }),
            grows(old(ir).exprs@, final(ir).exprs@),
            grounded(final(ir).exprs@, id),
            tree(final(ir).exprs@, id) == self.reading(*old(ir), *ctx),
    {
        let ghost start = *ir;
        let driven_loop: ExprId = self.plant_index_loop(ir, ctx, elements);
        let composite: ExprId = plant_value(&mut ir.exprs, elements.locals.composite);
        let sequential: ExprId = plant_call0(
            &mut ir.exprs,
            virtual_iface(
                "kotlinx/serialization/encoding/CompositeDecoder",
                "decodeSequentially",
                "()Z",
            ),
            composite,
        );
        let ghost current = *ir;
        let in_order = elements.plant_blocks(ir, ctx);
        assert(elements.blocks(current, *ctx) =~= elements.blocks(start, *ctx)) by {
            assert forall|k: int| 0 <= k < elements.fields@.len() implies elements.block_for(
                current,
                *ctx,
                k,
            ) == elements.block_for(start, *ctx, k) by {
                elements.lemma_block_ignores_expressions(current, start, *ctx, k);
            }
        }
        let fast: ExprId = plant_block(&mut ir.exprs, in_order);
        let driven: ExprId = plant_block1(&mut ir.exprs, driven_loop);
        plant_if_else(&mut ir.exprs, sequential, fast, driven)
    }

    /// Whether the argument for element `k` is a boxed value class of the constructor while its
    /// local holds the underlying value.
    pub open spec fn boxes(&self, ir: IrFile, k: int) -> bool {
        ir.terminal(self.constructor_params(ir)[word_count(self.fields@.len()) + k]) is Some
    }

    /// The declared types recorded for the first `count` of the arguments `args`.
    pub open spec fn logical_types(
        &self,
        ir: IrFile,
        args: Seq<ExprId>,
        count: nat,
    ) -> Map<ExprId, TyView>
        decreases count,
    {
        if count == 0 {
            types_view(ir.logical_types@)
        } else {
            let before = self.logical_types(ir, args, (count - 1) as nat);
            let place = word_count(self.fields@.len()) + count - 1;
            if self.boxes(ir, count - 1) {
                before.insert(args[place], self.constructor_params(ir)[place])
            } else {
                before
            }
        }
    }

    /// The representations recorded for the first `count` of the arguments `args`.
    pub open spec fn physical_types(
        &self,
        ir: IrFile,
        args: Seq<ExprId>,
        count: nat,
    ) -> Map<ExprId, TyView>
        decreases count,
    {
        if count == 0 {
            types_view(ir.physical_types@)
        } else {
            let before = self.physical_types(ir, args, (count - 1) as nat);
            let place = word_count(self.fields@.len()) + count - 1;
            if self.boxes(ir, count - 1) {
                before.insert(args[place], self.fields@[count - 1].1@)
            } else {
                before
            }
        }
    }

    /// What is recorded of the call of the constructor that `body` returns: which constructor it
    /// calls, and how the arguments for boxed value classes are represented.
    pub open spec fn call_recorded(&self, before: IrFile, after: IrFile, body: ExprId) -> bool {
        let call = after.generated_constructor_calls@.last().0;
        let args = after.exprs@[call as int].operands();
        &&& after.generated_constructor_calls@ == before.generated_constructor_calls@.push(
            (
                call,
                GeneratedConstructor {
                    class: self.serialized_class,
                    role: IrSecondaryConstructorRole::SerializationDeserialization,
                    ordinal: self.constructor(before)->0,
                },
            ),
        )
        &&& before.exprs@.len() <= call < after.exprs@.len()
        &&& forall|k: int| 0 <= k < args.len() ==> before.exprs@.len() <= #[trigger] args[k]
        &&& returned_by(after.exprs@, body) == Some(call)
        &&& grounded(after.exprs@, call)
        &&& tree(after.exprs@, call) == self.constructing(before)
        &&& types_view(after.logical_types@) == self.logical_types(
            before,
            args,
            self.fields@.len(),
        )
        &&& types_view(after.physical_types@) == self.physical_types(
            before,
            args,
            self.fields@.len(),
        )
    }

    fn plant_arguments(&self, ir: &mut IrFile, locals: DecodeLocals, params: &Vec<Ty>) -> (args: Vec<
        ExprId,
    >)
        requires
            locals == self.locals(*old(ir)),
            locals.first_field + self.fields@.len() <= u32::MAX,
            locals.first_seen + word_count(self.fields@.len()) <= u32::MAX,
            self.has_constructor(*old(ir)),
            views(params@) == self.constructor_params(*old(ir)),
        ensures
            *final(ir) == (IrFile {
                exprs: final(ir).exprs,
                logical_types: final(ir).logical_types,
                physical_types: final(ir).physical_types,
                ..*old(ir)
            }),
            grows(old(ir).exprs@, final(ir).exprs@),
            forall|k: int| 0 <= k < args@.len() ==> old(ir).exprs@.len() <= #[trigger] args@[k],
            all_grounded(final(ir).exprs@, args@),
            trees(final(ir).exprs@, args@) == self.arguments(*old(ir)),
            types_view(final(ir).logical_types@) == self.logical_types(
                *old(ir),
                args@,
                self.fields@.len(),
            ),
            types_view(final(ir).physical_types@) == self.physical_types(
                *old(ir),
                args@,
                self.fields@.len(),
            ),
    {
        let ghost start = *ir;
        let ghost shown = self.arguments(start);
        let words: usize = self.fields.len() / 32 + 1;
        let total: usize = params.len();
        assert(total == self.constructor_params(start).len());
        let mut args: Vec<ExprId> = Vec::new();
        let mut word: usize = 0;
        assert(trees(ir.exprs@, args@) =~= shown.take(0));
        while word < words
            invariant
                word <= words,
                words == word_count(self.fields@.len()),
                words + self.fields@.len() <= total,
                shown == self.arguments(start),
                shown.len() == total,
                locals == self.locals(start),
                locals.first_seen + words <= u32::MAX,
                *ir == (IrFile { exprs: ir.exprs, ..start }),
                grows(start.exprs@, ir.exprs@),
                args@.len() == word,
                forall|k: int| 0 <= k < args@.len() ==> start.exprs@.len() <= #[trigger] args@[k],
                all_grounded(ir.exprs@, args@),
                trees(ir.exprs@, args@) == shown.take(word as int),
            decreases words - word,
        {
            let ghost before = ir.exprs@;
            let arg: ExprId = plant_value(&mut ir.exprs, locals.first_seen + word as u32);
            proof {
                lemma_listed(before, ir.exprs@, args@, arg);
                assert(shown.take(word as int + 1) =~= shown.take(word as int).push(
                    shown[word as int],
                ));
            }
            args.push(arg);
            word += 1;
        }
        let mut field: usize = 0;
        while field < self.fields.len()
            invariant
                field <= self.fields@.len(),
                words == word_count(self.fields@.len()),
                words + self.fields@.len() <= total,
                total == params@.len(),
                views(params@) == self.constructor_params(start),
                shown == self.arguments(start),
                shown.len() == total,
                locals == self.locals(start),
                locals.first_field + self.fields@.len() <= u32::MAX,
                *ir == (IrFile {
                    exprs: ir.exprs,
                    logical_types: ir.logical_types,
                    physical_types: ir.physical_types,
                    ..start
                }),
                grows(start.exprs@, ir.exprs@),
                args@.len() == words + field,
                forall|k: int| 0 <= k < args@.len() ==> start.exprs@.len() <= #[trigger] args@[k],
                all_grounded(ir.exprs@, args@),
                trees(ir.exprs@, args@) == shown.take(words + field),
                types_view(ir.logical_types@) == self.logical_types(start, args@, field as nat),
                types_view(ir.physical_types@) == self.physical_types(start, args@, field as nat),
            decreases self.fields@.len() - field,
        {
            let ghost before = ir.exprs@;
            let ghost earlier = args@;
            let arg: ExprId = plant_value(&mut ir.exprs, locals.first_field + field as u32);
            proof {
                lemma_listed(before, ir.exprs@, args@, arg);
                assert(shown.take(words + field + 1) =~= shown.take(words + field).push(
                    shown[words + field],
                ));
            }
            args.push(arg);
            proof {
                self.lemma_types_settled(start, earlier, args@, field as nat);
            }
            let parameter: &Ty = &params[words + field];
            assert(parameter@ == self.constructor_params(start)[words + field]);
            assert(ir.terminal(parameter@) == start.terminal(parameter@)) by {
                lemma_terminal_same(*ir, start, parameter@);
            }
            if value_class_underlying(ir, parameter).is_some() {
                let ghost logical = ir.logical_types@;
                let ghost physical = ir.physical_types@;
                ir.logical_types.insert(arg, parameter.clone());
                ir.physical_types.insert(arg, self.fields[field].1.clone());
                assert(types_view(ir.logical_types@) =~= types_view(logical).insert(
                    arg,
                    parameter@,
                ));
                assert(types_view(ir.physical_types@) =~= types_view(physical).insert(
                    arg,
                    self.fields@[field as int].1@,
                ));
            }
            field += 1;
        }
        while args.len() < total
            invariant
                words + self.fields@.len() <= args@.len() <= total,
                words == word_count(self.fields@.len()),
                shown == self.arguments(start),
                shown.len() == total,
                *ir == (IrFile {
                    exprs: ir.exprs,
                    logical_types: ir.logical_types,
                    physical_types: ir.physical_types,
                    ..start
                }),
                grows(start.exprs@, ir.exprs@),
                forall|k: int| 0 <= k < args@.len() ==> start.exprs@.len() <= #[trigger] args@[k],
                all_grounded(ir.exprs@, args@),
                trees(ir.exprs@, args@) == shown.take(args@.len() as int),
                types_view(ir.logical_types@) == self.logical_types(
                    start,
                    args@,
                    self.fields@.len(),
                ),
                types_view(ir.physical_types@) == self.physical_types(
                    start,
                    args@,
                    self.fields@.len(),
                ),
            decreases total - args@.len(),
        {
            let ghost before = ir.exprs@;
            let ghost earlier = args@;
            let arg: ExprId = plant_const(&mut ir.exprs, IrConst::Null);
            proof {
                lemma_listed(before, ir.exprs@, args@, arg);
                assert(shown.take(args@.len() as int + 1) =~= shown.take(args@.len() as int).push(
                    shown[args@.len() as int],
                ));
            }
            args.push(arg);
            proof {
                self.lemma_types_settled(start, earlier, args@, self.fields@.len());
            }
        }
        assert(shown.take(total as int) =~= shown);
        args
    }

    proof fn lemma_types_settled(
        &self,
        ir: IrFile,
        earlier: Seq<ExprId>,
        later: Seq<ExprId>,
        count: nat,
    )
        requires
            word_count(self.fields@.len()) + count <= earlier.len(),
            earlier.len() <= later.len(),
            forall|k: int| 0 <= k < earlier.len() ==> later[k] == earlier[k],
        ensures
            self.logical_types(ir, later, count) == self.logical_types(ir, earlier, count),
            self.physical_types(ir, later, count) == self.physical_types(ir, earlier, count),
        decreases count,
    {
        if count > 0 {
            self.lemma_types_settled(ir, earlier, later, (count - 1) as nat);
        }
    }

    fn plant_decoding(&self, ir: &mut IrFile, ctx: &PluginContext) -> (body: ExprId)
        requires
            self.well_formed(*old(ir), *ctx),
            objects_named(*old(ir), *ctx),
            self.builds(*old(ir), *ctx),
        ensures
            *final(ir) == (IrFile {
                exprs: final(ir).exprs,
                logical_types: final(ir).logical_types,
                physical_types: final(ir).physical_types,
                generated_constructor_calls: final(ir).generated_constructor_calls,
                ..*old(ir)
            }),
            grows(old(ir).exprs@, final(ir).exprs@),
            grounded(final(ir).exprs@, body),
            tree(final(ir).exprs@, body) == self.decoding_body(*old(ir), *ctx),
            self.call_recorded(*old(ir), *final(ir), body),
    {
        let ghost start = *ir;
        let locals = DecodeLocals::new(
            ir.functions[self.function].params.len(),
            self.fields.len(),
        );
        let elements = ElementDecode {
            serialized_class: self.serialized_class,
            fields: self.fields,
            type_parameter_serializers: self.type_parameter_serializers,
            locals,
            cache: &self.cache,
        };
        let ordinal: usize = match ir.generated_secondary_constructor(
            self.serialized_class,
            IrSecondaryConstructorRole::SerializationDeserialization,
        ) {
            Some(ordinal) => ordinal,
            None => 0,
        };
        let params = copy_all(&ir.classes[self.serialized_class].secondary_ctors[ordinal].params);
        let mut stmts = self.plant_declarations(&mut ir.exprs, locals);
        self.plant_opening(ir, locals, &mut stmts);
        let ghost opened = *ir;
        let ghost shown = trees(opened.exprs@, stmts@);
        let reading: ExprId = self.plant_reading(ir, ctx, &elements);
        assert(self.reading(opened, *ctx) == self.reading(start, *ctx)) by {
            assert(elements.blocks(opened, *ctx) =~= elements.blocks(start, *ctx)) by {
                assert forall|k: int| 0 <= k < elements.fields@.len() implies elements.block_for(
                    opened,
                    *ctx,
                    k,
                ) == elements.block_for(start, *ctx, k) by {
                    elements.lemma_block_ignores_expressions(opened, start, *ctx, k);
                }
            }
        }
        proof {
            lemma_listed(opened.exprs@, ir.exprs@, stmts@, reading);
        }
        stmts.push(reading);
        let ghost read = ir.exprs@;
        let descriptor: ExprId = plant_value(&mut ir.exprs, locals.descriptor);
        let composite: ExprId = plant_value(&mut ir.exprs, locals.composite);
        let closing: ExprId = plant_call1(
            &mut ir.exprs,
            virtual_iface(
                "kotlinx/serialization/encoding/CompositeDecoder",
                "endStructure",
                "(Lkotlinx/serialization/descriptors/SerialDescriptor;)V",
            ),
            composite,
            descriptor,
        );
        proof {
            assert(grows(read, ir.exprs@));
            lemma_listed(read, ir.exprs@, stmts@, closing);
        }
        stmts.push(closing);
        let ghost closed = *ir;
        let args = self.plant_arguments(ir, locals, &params);
        proof {
            self.lemma_arguments_same(closed, start);
        }
        let ghost given = args@;
        let ghost before = ir.exprs@;
        let internal = ir.classes[self.serialized_class].name.clone();
        let object: ExprId = plant(
            &mut ir.exprs,
            IrExpr::New { internal, args, ctor_params: Some(params), ctor_desc: None },
        );
        let ghost built = ir.exprs@;
        assert(tree(ir.exprs@, object) == self.constructing(start));
        ir.generated_constructor_calls.push(
            (
                object,
                GeneratedConstructor {
                    class: self.serialized_class,
                    role: IrSecondaryConstructorRole::SerializationDeserialization,
                    ordinal,
                },
            ),
        );
        let returned: ExprId = plant_return(&mut ir.exprs, object);
        proof {
            assert(grows(closed.exprs@, before));
            assert(grows(before, ir.exprs@));
            assert(grows(closed.exprs@, ir.exprs@));
            lemma_listed(closed.exprs@, ir.exprs@, stmts@, returned);
        }
        stmts.push(returned);
        assert(trees(ir.exprs@, stmts@) =~= self.declarations(locals) + self.opening(start, locals)
            + seq![
            self.reading(start, *ctx),
            self.closing(locals),
            return_tree(self.constructing(start)),
        ]);
        let body: ExprId = plant_block(&mut ir.exprs, stmts);
        assert(ir.exprs@[object as int] == built[object as int]);
        assert(ir.exprs@[returned as int].operands() == seq![object]);
        body
    }

    proof fn lemma_arguments_same(&self, left: IrFile, right: IrFile)
        requires
            left == (IrFile { exprs: left.exprs, ..right }),
        ensures
            self.arguments(left) == self.arguments(right),
            self.constructor_params(left) == self.constructor_params(right),
            forall|args: Seq<ExprId>, count: nat|
                self.logical_types(left, args, count) == self.logical_types(right, args, count),
            forall|args: Seq<ExprId>, count: nat|
                self.physical_types(left, args, count) == self.physical_types(right, args, count),
    {
        assert(self.arguments(left) =~= self.arguments(right));
        assert forall|args: Seq<ExprId>, count: nat| self.logical_types(left, args, count)
            == self.logical_types(right, args, count) by {
            self.lemma_types_same(left, right, args, count);
        }
        assert forall|args: Seq<ExprId>, count: nat| self.physical_types(left, args, count)
            == self.physical_types(right, args, count) by {
            self.lemma_types_same(left, right, args, count);
        }
    }

    proof fn lemma_types_same(&self, left: IrFile, right: IrFile, args: Seq<ExprId>, count: nat)
        requires
            left == (IrFile { exprs: left.exprs, ..right }),
        ensures
            self.logical_types(left, args, count) == self.logical_types(right, args, count),
            self.physical_types(left, args, count) == self.physical_types(right, args, count),
        decreases count,
    {
        if count > 0 {
            self.lemma_types_same(left, right, args, (count - 1) as nat);
            let place = word_count(self.fields@.len()) + count - 1;
            lemma_terminal_same(left, right, self.constructor_params(right)[place]);
        }
    }

    /// Generate `deserialize`.
    pub fn generate(self, ir: &mut IrFile, ctx: &PluginContext)
        requires
            self.well_formed(*old(ir), *ctx),
            objects_named(*old(ir), *ctx),
        ensures
            *final(ir) == (IrFile {
                exprs: final(ir).exprs,
                functions: final(ir).functions,
                logical_types: final(ir).logical_types,
                physical_types: final(ir).physical_types,
                generated_constructor_calls: final(ir).generated_constructor_calls,
                ..*old(ir)
            }),
            grows(old(ir).exprs@, final(ir).exprs@),
            body_set(*old(ir), *final(ir), self.function, self.body(*old(ir), *ctx)),
            if self.builds(*old(ir), *ctx) {
                self.call_recorded(
                    *old(ir),
                    *final(ir),
                    final(ir).functions@[self.function as int].body->0,
                )
            } else {
                &&& final(ir).logical_types == old(ir).logical_types
                &&& final(ir).physical_types == old(ir).physical_types
                &&& final(ir).generated_constructor_calls == old(ir).generated_constructor_calls
            },
    {
        let inline = ir.classes[self.serialized_class].is_value && self.fields.len() > 0
            && inline_prim_methods(&self.fields[0].1).is_some();
        let body: ExprId = if inline {
            self.plant_inline(ir)
        } else if ir.classes[self.serialized_class].is_object {
            self.plant_object(&mut ir.exprs)
        } else if !self.is_decodable(ir, ctx) {
            self.plant_throwing(&mut ir.exprs)
        } else {
            self.plant_decoding(ir, ctx)
        };
        ir.set_body(self.function, body);
    }
}

/// The expression that the last statement of a body returns.
pub open spec fn returned_by(exprs: Seq<IrExpr>, body: ExprId) -> Option<ExprId> {
    let statements = exprs[body as int].operands();
    if statements.len() > 0 && exprs[statements.last() as int].operands().len() == 1 {
        Some(exprs[statements.last() as int].operands()[0])
    } else {
        None
    }
}

/// The models of recorded types.
pub open spec fn types_view(types: Map<ExprId, Ty>) -> Map<ExprId, TyView> {
    types.map_values(|ty: Ty| ty@)
}

} // verus!
