//! The body of a serializer's `serialize`, and the write helper of the serialized class.

use vstd::prelude::*;

use crate::ir::expr::{
    Callee, CalleeView, ClassId, ExprId, FunId, IrBinOp, IrConst, IrConstView, IrExpr, IrLabel,
};
use crate::ir::file::{body_set, IrFile, IrFunction};
use crate::ir::tree::{
    all_grounded, binary_tree, block_tree, call_tree, const_tree, field_tree, grounded, grows,
    if_tree, int_tree, leaf, plain_call_tree, plant, plant_binary, plant_block, plant_block1,
    plant_call0, plant_call1, plant_call2, plant_call3, plant_call4, plant_const, plant_field,
    plant_if, plant_plain_call, plant_residual, plant_value, plant_variable, residual_tree, tree,
    trees, value_tree, variable_tree, IrTree,
};
use crate::libraries::InlineKind;
use crate::names::{getter_name, property_getter_name, TypeName};
use crate::plugins::context::{descriptor_for, PluginContext};
use crate::plugins::serialization::annotations::{
    field_serializer, field_serializer_of, is_contextual, property_is_contextual,
};
use crate::plugins::serialization::constructed_standard_serializers::{
    constructed_standard_serializer, standard_serializer,
};
use crate::plugins::serialization::element_serializer::{
    element_serializer_expr, element_tree, lemma_plan_ignores_expressions, objects_named,
};
use crate::plugins::serialization::support::{
    build_field_serializer_instance, class_member, class_ty, class_type, contextual_for,
    contextual_serializer_for, element_encoder, encode_element_method, interface_member,
    named_serializer, virtual_class, virtual_iface,
};
use crate::plugins::serialization::type_parameter_serializers::ScopeView;
use crate::text::{concat, followed, option_view, views};
use crate::types::{Ty, TyView};

verus! {

broadcast use {
    crate::text::group_views,
    crate::types::group_ty_views,
    crate::ir::tree::group_growth,
};

/// What the body of `serialize` is generated from.
pub struct SerializeBody<'a> {
    pub function: FunId,
    pub serializer_class: ClassId,
    pub serialized_class: ClassId,
    pub fields: &'a [(String, Ty)],
    /// The constant that each field starts with, where it has one.
    pub field_defaults: &'a [Option<IrConst>],
    /// The generated serializer of each field whose type is a serializable class of this file.
    pub nested_serializers: &'a [Option<ClassId>],
    /// The field that holds the serializer of each element whose type is a type parameter.
    pub type_parameter_serializer_fields: &'a [Option<u32>],
    /// The write helper of the serialized class.
    pub write_self: Option<FunId>,
    pub write_self_name: String,
}

/// The writer of the elements of a structure.
pub open spec fn encoder_member(name: Seq<char>, descriptor: Seq<char>) -> CalleeView {
    interface_member("kotlinx/serialization/encoding/CompositeEncoder"@, name, descriptor)
}

/// How the value of an element is written.
pub enum WrittenAs {
    /// By a member of the encoder for its primitive type.
    Primitive(Seq<char>, Seq<char>),
    /// By a serializer.
    Through(IrTree),
    /// In no way.
    Unsupported,
}

impl<'a> SerializeBody<'a> {
    /// Whether the facts about fields are complete and name what is there.
    pub open spec fn well_formed(&self, ir: IrFile) -> bool {
        &&& self.function < ir.functions@.len()
        &&& self.serializer_class < ir.classes@.len()
        &&& self.serialized_class < ir.classes@.len()
        &&& self.nested_serializers@.len() == self.fields@.len()
        &&& self.type_parameter_serializer_fields@.len() == self.fields@.len()
        &&& self.write_self matches Some(write_self) ==> write_self < ir.functions@.len()
    }

    /// Whether the elements are written by the write helper. The helper of a generic class would
    /// need the serializers of its type parameters, so such a class writes them in `serialize`.
    pub open spec fn delegates(&self, ir: IrFile) -> bool {
        self.write_self is Some && ir.classes@[self.serializer_class as int].type_params@.len() == 0
    }

    /// The descriptor that the serializer holds.
    pub open spec fn own_descriptor(&self) -> IrTree {
        field_tree(value_tree(0), self.serializer_class, 0)
    }

    /// The descriptor, where the elements are written.
    pub open spec fn descriptor(&self, delegate: bool) -> IrTree {
        if delegate {
            value_tree(2)
        } else {
            self.own_descriptor()
        }
    }

    /// The encoder, where the elements are written.
    pub open spec fn encoder(&self, delegate: bool) -> IrTree {
        value_tree(if delegate { 1 } else { 3 })
    }

    /// The value of property `k`. The write helper is a member of the class and reads the field;
    /// the serializer has to use the getter.
    pub open spec fn property(
        &self,
        ir: IrFile,
        ctx: PluginContext,
        delegate: bool,
        k: int,
    ) -> Option<IrTree> {
        if delegate {
            Some(field_tree(value_tree(0), self.serialized_class, k as u32))
        } else {
            match descriptor_for(ctx.descriptors@, self.fields@[k].1@) {
                Some(descriptor) => Some(
                    call_tree(
                        class_member(
                            ir.classes@[self.serialized_class as int].name@,
                            getter_name(self.fields@[k].0@),
                            "()"@ + descriptor,
                        ),
                        value_tree(2),
                        seq![],
                    ),
                ),
                None => None,
            }
        }
    }

    /// How the value of element `k` is written. What the property says of its serializer comes
    /// before what its type says.
    pub open spec fn written_as(&self, ir: IrFile, ctx: PluginContext, k: int) -> WrittenAs {
        let name = self.fields@[k].0@;
        let ty = self.fields@[k].1@;
        match contextual_for(is_contextual(ctx, self.serialized_class, name), ty) {
            Some(serializer) => WrittenAs::Through(serializer),
            None => match self.type_parameter_serializer_fields@[k] {
                Some(field) => WrittenAs::Through(
                    field_tree(value_tree(0), self.serializer_class, field),
                ),
                None => match field_serializer(ctx, self.serialized_class, name) {
                    Some(serializer) => WrittenAs::Through(named_serializer(ir, serializer)),
                    None => {
                        let structured = self.nested_serializers@[k] is Some || ty.is_nullable()
                            || match ty.non_null().obj_internal() {
                            Some(classifier) => standard_serializer(classifier) is Some,
                            None => false,
                        };
                        match (element_encoder(ty), element_tree(ir, ctx, ty, ScopeView::none())) {
                            (Some((member, descriptor)), _) if !structured => {
                                WrittenAs::Primitive(member, descriptor)
                            },
                            (_, Some(serializer)) => WrittenAs::Through(serializer),
                            (_, None) => WrittenAs::Unsupported,
                        }
                    },
                },
            },
        }
    }

    /// The statement that writes element `k`.
    pub open spec fn write(
        &self,
        ir: IrFile,
        ctx: PluginContext,
        delegate: bool,
        k: int,
    ) -> Option<IrTree> {
        let descriptor = self.descriptor(delegate);
        let encoder = self.encoder(delegate);
        match self.property(ir, ctx, delegate, k) {
            None => None,
            Some(value) => match self.written_as(ir, ctx, k) {
                WrittenAs::Unsupported => None,
                WrittenAs::Primitive(member, member_descriptor) => Some(
                    call_tree(
                        encoder_member(member, member_descriptor),
                        encoder,
                        seq![descriptor, int_tree(k as i32), value],
                    ),
                ),
                WrittenAs::Through(serializer) => Some(
                    call_tree(
                        encoder_member(
                            if self.fields@[k].1@.is_nullable() {
                                "encodeNullableSerializableElement"@
                            } else {
                                "encodeSerializableElement"@
                            },
                            "(Lkotlinx/serialization/descriptors/SerialDescriptor;ILkotlinx/serialization/SerializationStrategy;Ljava/lang/Object;)V"@,
                        ),
                        encoder,
                        seq![descriptor, int_tree(k as i32), serializer, value],
                    ),
                ),
            },
        }
    }

    /// The constant that element `k` starts with.
    pub open spec fn default_of(&self, k: int) -> Option<IrConstView> {
        if k < self.field_defaults@.len() {
            option_view(self.field_defaults@[k])
        } else {
            None
        }
    }

    /// The statement for element `k`: an element that still has the value it starts with is written
    /// only where the encoder asks for it.
    pub open spec fn element(
        &self,
        ir: IrFile,
        ctx: PluginContext,
        delegate: bool,
        k: int,
    ) -> Option<IrTree> {
        match self.write(ir, ctx, delegate, k) {
            None => None,
            Some(write) => match self.default_of(k) {
                None => Some(write),
                Some(default) => Some(
                    if_tree(
                        binary_tree(
                            IrBinOp::Or,
                            call_tree(
                                encoder_member(
                                    "shouldEncodeElementDefault"@,
                                    "(Lkotlinx/serialization/descriptors/SerialDescriptor;I)Z"@,
                                ),
                                self.encoder(delegate),
                                seq![self.descriptor(delegate), int_tree(k as i32)],
                            ),
                            binary_tree(
                                IrBinOp::Ne,
                                self.property(ir, ctx, delegate, k)->0,
                                const_tree(default),
                            ),
                        ),
                        write,
                    ),
                ),
            },
        }
    }

    /// Whether every element can be written.
    pub open spec fn supported(&self, ir: IrFile, ctx: PluginContext) -> bool {
        forall|k: int|
            0 <= k < self.fields@.len() ==> #[trigger] self.element(
                ir,
                ctx,
                self.delegates(ir),
                k,
            ) is Some
    }

    /// The statements for all elements, in order.
    pub open spec fn elements(&self, ir: IrFile, ctx: PluginContext) -> Seq<IrTree> {
        Seq::new(
            self.fields@.len(),
            |k: int| self.element(ir, ctx, self.delegates(ir), k)->0,
        )
    }

    /// The write helper: the elements, and a return.
    pub open spec fn helper_body(&self, ir: IrFile, ctx: PluginContext) -> IrTree {
        block_tree(self.elements(ir, ctx).push(leaf(IrLabel::Return { has_value: false })))
    }

    /// The descriptor of the write helper.
    pub open spec fn helper_descriptor(&self, ir: IrFile) -> Seq<char> {
        "(L"@ + ir.classes@[self.serialized_class as int].name@
            + ";Lkotlinx/serialization/encoding/CompositeEncoder;Lkotlinx/serialization/descriptors/SerialDescriptor;)V"@
    }

    /// `serialize` of a class with a write helper: it opens the structure, has the helper write the
    /// elements and closes the structure.
    pub open spec fn delegating_body(&self, ir: IrFile) -> IrTree {
        block_tree(
            seq![
                variable_tree(
                    3,
                    class_type("kotlinx/serialization/descriptors/SerialDescriptor"@),
                    self.own_descriptor(),
                ),
                variable_tree(
                    4,
                    class_type("kotlinx/serialization/encoding/CompositeEncoder"@),
                    begin_structure(value_tree(3)),
                ),
                plain_call_tree(
                    CalleeView::Static {
                        owner: ir.classes@[self.serialized_class as int].name@,
                        name: self.write_self_name@,
                        descriptor: self.helper_descriptor(ir),
                        inline: InlineKind::NotInline,
                    },
                    seq![value_tree(2), value_tree(4), value_tree(3)],
                ),
                end_structure(value_tree(4), value_tree(3)),
            ],
        )
    }

    /// `serialize` of a generic class: it writes the elements between opening and closing the
    /// structure.
    pub open spec fn inlined_body(&self, ir: IrFile, ctx: PluginContext) -> IrTree {
        block_tree(
            seq![
                variable_tree(
                    3,
                    class_type("kotlinx/serialization/encoding/CompositeEncoder"@),
                    begin_structure(self.own_descriptor()),
                ),
            ] + self.elements(ir, ctx) + seq![
                end_structure(value_tree(3), self.own_descriptor()),
            ],
        )
    }

    /// What stands for `serialize` where an element cannot be written: a planned operation that
    /// nothing realizes, so that the file is declined rather than an element dropped.
    pub open spec fn residual_body(&self, ir: IrFile) -> IrTree {
        block_tree(
            seq![
                residual_tree(
                    "serialize-body"@,
                    seq![ir.classes@[self.serialized_class as int].name@],
                    seq![],
                ),
            ],
        )
    }
}

/// `encoder.beginStructure(descriptor)`.
pub open spec fn begin_structure(descriptor: IrTree) -> IrTree {
    call_tree(
        interface_member(
            "kotlinx/serialization/encoding/Encoder"@,
            "beginStructure"@,
            "(Lkotlinx/serialization/descriptors/SerialDescriptor;)Lkotlinx/serialization/encoding/CompositeEncoder;"@,
        ),
        value_tree(1),
        seq![descriptor],
    )
}

/// `encoder.endStructure(descriptor)`.
pub open spec fn end_structure(encoder: IrTree, descriptor: IrTree) -> IrTree {
    call_tree(
        encoder_member(
            "endStructure"@,
            "(Lkotlinx/serialization/descriptors/SerialDescriptor;)V"@,
        ),
        encoder,
        seq![descriptor],
    )
}

fn plant_begin(exprs: &mut Vec<IrExpr>, encoder: ExprId, descriptor: ExprId) -> (id: ExprId)
    requires
        grounded(old(exprs)@, encoder),
        grounded(old(exprs)@, descriptor),
        tree(old(exprs)@, encoder) == value_tree(1),
    ensures
        grows(old(exprs)@, final(exprs)@),
        grounded(final(exprs)@, id),
        tree(final(exprs)@, id) == begin_structure(tree(old(exprs)@, descriptor)),
{
    plant_call1(
        exprs,
        virtual_iface(
            "kotlinx/serialization/encoding/Encoder",
            "beginStructure",
            "(Lkotlinx/serialization/descriptors/SerialDescriptor;)Lkotlinx/serialization/encoding/CompositeEncoder;",
        ),
        encoder,
        descriptor,
    )
}

fn plant_end(exprs: &mut Vec<IrExpr>, encoder: ExprId, descriptor: ExprId) -> (id: ExprId)
    requires
        grounded(old(exprs)@, encoder),
        grounded(old(exprs)@, descriptor),
    ensures
        grows(old(exprs)@, final(exprs)@),
        grounded(final(exprs)@, id),
        tree(final(exprs)@, id) == end_structure(
            tree(old(exprs)@, encoder),
            tree(old(exprs)@, descriptor),
        ),
{
    plant_call1(
        exprs,
        virtual_iface(
            "kotlinx/serialization/encoding/CompositeEncoder",
            "endStructure",
            "(Lkotlinx/serialization/descriptors/SerialDescriptor;)V",
        ),
        encoder,
        descriptor,
    )
}

/// The lines recorded for a generated `serialize`: its opening statement is attributed to where
/// the class begins, and its end to the line of the class header.
pub open spec fn lines_recorded(
    before: IrFile,
    after: IrFile,
    serialized_class: ClassId,
    function: FunId,
    opening: ExprId,
) -> bool {
    let class = before.classes@[serialized_class as int];
    &&& after.expr_lines@ == if class.decl_start_line != 0 {
        before.expr_lines@.insert(opening, class.decl_start_line)
    } else {
        before.expr_lines@
    }
    &&& after.fn_close_lines@ == if class.decl_line != 0 {
        before.fn_close_lines@.insert(function, class.decl_line)
    } else {
        before.fn_close_lines@
    }
}

fn record_serialize_lines(
    ir: &mut IrFile,
    serialized_class: ClassId,
    function: FunId,
    opening: ExprId,
)
    requires
        serialized_class < old(ir).classes@.len(),
    ensures
        lines_recorded(*old(ir), *final(ir), serialized_class, function, opening),
        *final(ir) == (IrFile {
            expr_lines: final(ir).expr_lines,
            fn_close_lines: final(ir).fn_close_lines,
            ..*old(ir)
        }),
{
    let start_line: u32 = ir.classes[serialized_class].decl_start_line;
    let header_line: u32 = ir.classes[serialized_class].decl_line;
    if start_line != 0 {
        ir.expr_lines.insert(opening, start_line);
    }
    if header_line != 0 {
        ir.fn_close_lines.insert(function, header_line);
    }
}

enum Written {
    Primitive(String, String),
    Through(ExprId),
    Unsupported,
}

impl<'a> SerializeBody<'a> {
    fn plant_own_descriptor(&self, exprs: &mut Vec<IrExpr>) -> (id: ExprId)
        ensures
            grows(old(exprs)@, final(exprs)@),
            grounded(final(exprs)@, id),
            tree(final(exprs)@, id) == self.own_descriptor(),
    {
        let this: ExprId = plant_value(exprs, 0);
        plant_field(exprs, this, self.serializer_class, 0)
    }

    fn plant_descriptor(&self, exprs: &mut Vec<IrExpr>, delegate: bool) -> (id: ExprId)
        ensures
            grows(old(exprs)@, final(exprs)@),
            grounded(final(exprs)@, id),
            tree(final(exprs)@, id) == self.descriptor(delegate),
    {
        if delegate {
            plant_value(exprs, 2)
        } else {
            self.plant_own_descriptor(exprs)
        }
    }

    fn read_property(&self, ir: &mut IrFile, ctx: &PluginContext, delegate: bool, k: usize) -> (id:
        Option<ExprId>)
        requires
            self.well_formed(*old(ir)),
            k < self.fields@.len(),
        ensures
            *final(ir) == (IrFile { exprs: final(ir).exprs, ..*old(ir) }),
            grows(old(ir).exprs@, final(ir).exprs@),
            match (id, self.property(*old(ir), *ctx, delegate, k as int)) {
                (Some(id), Some(shown)) => grounded(final(ir).exprs@, id) && tree(
                    final(ir).exprs@,
                    id,
                ) == shown,
                (None, None) => true,
                _ => false,
            },
    {
        let slot: u32 = if delegate {
            0
        } else {
            2
        };
        let receiver: ExprId = plant_value(&mut ir.exprs, slot);
        if delegate {
            return Some(plant_field(&mut ir.exprs, receiver, self.serialized_class, k as u32));
        }
        match ctx.ty_descriptor(&self.fields[k].1) {
            None => None,
            Some(descriptor) => {
                let callee = virtual_class(
                    &ir.classes[self.serialized_class].name,
                    property_getter_name(self.fields[k].0.as_str()).as_str(),
                    followed("()", descriptor).as_str(),
                );
                Some(plant_call0(&mut ir.exprs, callee, receiver))
            },
        }
    }

    fn select_writer(&self, ir: &mut IrFile, ctx: &PluginContext, k: usize) -> (written: Written)
        requires
            self.well_formed(*old(ir)),
            objects_named(*old(ir), *ctx),
            k < self.fields@.len(),
        ensures
            *final(ir) == (IrFile { exprs: final(ir).exprs, ..*old(ir) }),
            grows(old(ir).exprs@, final(ir).exprs@),
            match (written, self.written_as(*old(ir), *ctx, k as int)) {
                (Written::Primitive(member, descriptor), WrittenAs::Primitive(name, shape)) => {
                    member@ == name && descriptor@ == shape
                },
                (Written::Through(id), WrittenAs::Through(shown)) => grounded(
                    final(ir).exprs@,
                    id,
                ) && tree(final(ir).exprs@, id) == shown,
                (Written::Unsupported, WrittenAs::Unsupported) => true,
                _ => false,
            },
    {
        let name: &str = self.fields[k].0.as_str();
        let ty: &Ty = &self.fields[k].1;
        let contextual = property_is_contextual(ctx, self.serialized_class, name);
        if let Some(serializer) = contextual_serializer_for(&mut ir.exprs, contextual, ty) {
            return Written::Through(serializer);
        }
        if let Some(field) = self.type_parameter_serializer_fields[k] {
            let this: ExprId = plant_value(&mut ir.exprs, 0);
            return Written::Through(
                plant_field(&mut ir.exprs, this, self.serializer_class, field),
            );
        }
        if let Some(serializer) = field_serializer_of(ctx, self.serialized_class, name) {
            return Written::Through(build_field_serializer_instance(ir, &serializer));
        }
        let standard = match ty.non_null().obj_internal() {
            Some(classifier) => constructed_standard_serializer(classifier).is_some(),
            None => false,
        };
        if !(self.nested_serializers[k].is_some() || standard || ty.is_nullable()) {
            if let Some((member, descriptor)) = encode_element_method(ty) {
                return Written::Primitive(member, descriptor);
            }
        }
        proof {
            lemma_plan_ignores_expressions(*ir, *old(ir), *ctx, ty@, ScopeView::none());
        }
        match element_serializer_expr(ir, ctx, ty) {
            Some(serializer) => Written::Through(serializer),
            None => Written::Unsupported,
        }
    }

    fn plant_write(&self, ir: &mut IrFile, ctx: &PluginContext, delegate: bool, k: usize) -> (id:
        Option<ExprId>)
        requires
            self.well_formed(*old(ir)),
            objects_named(*old(ir), *ctx),
            k < self.fields@.len(),
        ensures
            *final(ir) == (IrFile { exprs: final(ir).exprs, ..*old(ir) }),
            grows(old(ir).exprs@, final(ir).exprs@),
            match (id, self.write(*old(ir), *ctx, delegate, k as int)) {
                (Some(id), Some(shown)) => grounded(final(ir).exprs@, id) && tree(
                    final(ir).exprs@,
                    id,
                ) == shown,
                (None, None) => true,
                _ => false,
            },
    {
        let ghost start = *ir;
        let descriptor: ExprId = self.plant_descriptor(&mut ir.exprs, delegate);
        let index: ExprId = plant_const(&mut ir.exprs, IrConst::Int(k as i32));
        let value: ExprId = match self.read_property(ir, ctx, delegate, k) {
            Some(value) => value,
            None => {
                return None;
            },
        };
        let slot: u32 = if delegate {
            1
        } else {
            3
        };
        let encoder: ExprId = plant_value(&mut ir.exprs, slot);
        let ghost current = *ir;
        proof {
            lemma_plan_ignores_expressions(
                current,
                start,
                *ctx,
                self.fields@[k as int].1@,
                ScopeView::none(),
            );
        }
        assert(self.written_as(current, *ctx, k as int) == self.written_as(
            start,
            *ctx,
            k as int,
        ));
        match self.select_writer(ir, ctx, k) {
            Written::Unsupported => None,
            Written::Primitive(member, member_descriptor) => {
                let callee = virtual_iface(
                    "kotlinx/serialization/encoding/CompositeEncoder",
                    member.as_str(),
                    member_descriptor.as_str(),
                );
                Some(plant_call3(&mut ir.exprs, callee, encoder, descriptor, index, value))
            },
            Written::Through(serializer) => {
                let method = if self.fields[k].1.is_nullable() {
                    "encodeNullableSerializableElement"
                } else {
                    "encodeSerializableElement"
                };
                let callee = virtual_iface(
                    "kotlinx/serialization/encoding/CompositeEncoder",
                    method,
                    "(Lkotlinx/serialization/descriptors/SerialDescriptor;ILkotlinx/serialization/SerializationStrategy;Ljava/lang/Object;)V",
                );
                Some(
                    plant_call4(
                        &mut ir.exprs,
                        callee,
                        encoder,
                        descriptor,
                        index,
                        serializer,
                        value,
                    ),
                )
            },
        }
    }

    fn plant_element(&self, ir: &mut IrFile, ctx: &PluginContext, delegate: bool, k: usize) -> (id:
        Option<ExprId>)
        requires
            self.well_formed(*old(ir)),
            objects_named(*old(ir), *ctx),
            k < self.fields@.len(),
        ensures
            *final(ir) == (IrFile { exprs: final(ir).exprs, ..*old(ir) }),
            grows(old(ir).exprs@, final(ir).exprs@),
            match (id, self.element(*old(ir), *ctx, delegate, k as int)) {
                (Some(id), Some(shown)) => grounded(final(ir).exprs@, id) && tree(
                    final(ir).exprs@,
                    id,
                ) == shown,
                (None, None) => true,
                _ => false,
            },
    {
        let ghost start = *ir;
        let write: ExprId = match self.plant_write(ir, ctx, delegate, k) {
            Some(write) => write,
            None => {
                return None;
            },
        };
        if k >= self.field_defaults.len() {
            return Some(write);
        }
        match &self.field_defaults[k] {
            None => Some(write),
            Some(default) => {
                let descriptor: ExprId = self.plant_descriptor(&mut ir.exprs, delegate);
                let index: ExprId = plant_const(&mut ir.exprs, IrConst::Int(k as i32));
                let slot: u32 = if delegate {
                    1
                } else {
                    3
                };
                let encoder: ExprId = plant_value(&mut ir.exprs, slot);
                let asked: ExprId = plant_call2(
                    &mut ir.exprs,
                    virtual_iface(
                        "kotlinx/serialization/encoding/CompositeEncoder",
                        "shouldEncodeElementDefault",
                        "(Lkotlinx/serialization/descriptors/SerialDescriptor;I)Z",
                    ),
                    encoder,
                    descriptor,
                    index,
                );
                let ghost current = *ir;
                assert(self.property(current, *ctx, delegate, k as int) == self.property(
                    start,
                    *ctx,
                    delegate,
                    k as int,
                ));
                match self.read_property(ir, ctx, delegate, k) {
                    None => None,
                    Some(value) => {
                        let constant: ExprId = plant_const(&mut ir.exprs, default.clone());
                        let changed: ExprId = plant_binary(
                            &mut ir.exprs,
                            IrBinOp::Ne,
                            value,
                            constant,
                        );
                        let condition: ExprId = plant_binary(
                            &mut ir.exprs,
                            IrBinOp::Or,
                            asked,
                            changed,
                        );
                        Some(plant_if(&mut ir.exprs, condition, write))
                    },
                }
            },
        }
    }

    fn plant_elements(&self, ir: &mut IrFile, ctx: &PluginContext, delegate: bool) -> (ids: Option<
        Vec<ExprId>,
    >)
        requires
            self.well_formed(*old(ir)),
            objects_named(*old(ir), *ctx),
            delegate == self.delegates(*old(ir)),
        ensures
            *final(ir) == (IrFile { exprs: final(ir).exprs, ..*old(ir) }),
            grows(old(ir).exprs@, final(ir).exprs@),
            match ids {
                Some(ids) => self.supported(*old(ir), *ctx) && all_grounded(
                    final(ir).exprs@,
                    ids@,
                ) && trees(final(ir).exprs@, ids@) == self.elements(*old(ir), *ctx),
                None => !self.supported(*old(ir), *ctx),
            },
    {
        let ghost start = *ir;
        let mut ids: Vec<ExprId> = Vec::new();
        let mut index: usize = 0;
        while index < self.fields.len()
            invariant
                index <= self.fields@.len(),
                start == *old(ir),
                self.well_formed(start),
                objects_named(start, *ctx),
                delegate == self.delegates(start),
                *ir == (IrFile { exprs: ir.exprs, ..start }),
                grows(start.exprs@, ir.exprs@),
                ids@.len() == index,
                forall|k: int|
                    0 <= k < index ==> #[trigger] self.element(start, *ctx, delegate, k) is Some,
                forall|k: int|
                    0 <= k < index ==> grounded(ir.exprs@, #[trigger] ids@[k]) && tree(
                        ir.exprs@,
                        ids@[k],
                    ) == self.element(start, *ctx, delegate, k)->0,
            decreases self.fields@.len() - index,
        {
            let ghost current = *ir;
            proof {
                lemma_plan_ignores_expressions(
                    current,
                    start,
                    *ctx,
                    self.fields@[index as int].1@,
                    ScopeView::none(),
                );
                assert(self.written_as(current, *ctx, index as int) == self.written_as(
                    start,
                    *ctx,
                    index as int,
                ));
                assert(self.property(current, *ctx, delegate, index as int) == self.property(
                    start,
                    *ctx,
                    delegate,
                    index as int,
                ));
                assert(self.element(current, *ctx, delegate, index as int) == self.element(
                    start,
                    *ctx,
                    delegate,
                    index as int,
                ));
            }
            match self.plant_element(ir, ctx, delegate, index) {
                Some(id) => {
                    assert(grows(current.exprs@, ir.exprs@));
                    ids.push(id);
                },
                None => {
                    assert(self.element(start, *ctx, delegate, index as int) is None);
                    return None;
                },
            }
            index += 1;
        }
        assert(trees(ir.exprs@, ids@) =~= self.elements(start, *ctx));
        Some(ids)
    }
}

impl<'a> SerializeBody<'a> {
    fn finish_residual(&self, ir: &mut IrFile)
        requires
            self.well_formed(*old(ir)),
        ensures
            *final(ir) == (IrFile {
                exprs: final(ir).exprs,
                functions: final(ir).functions,
                ..*old(ir)
            }),
            grows(old(ir).exprs@, final(ir).exprs@),
            body_set(*old(ir), *final(ir), self.function, self.residual_body(*old(ir))),
    {
        let mut data: Vec<TypeName> = Vec::new();
        data.push(ir.classes[self.serialized_class].name.clone());
        assert(views(data@) =~= seq![ir.classes@[self.serialized_class as int].name@]);
        let types: Vec<Ty> = Vec::new();
        assert(views(types@) =~= Seq::<TyView>::empty());
        let unsupported: ExprId = plant_residual(&mut ir.exprs, "serialize-body", data, types);
        let body: ExprId = plant_block1(&mut ir.exprs, unsupported);
        ir.set_body(self.function, body);
    }

    fn finish_helper(&self, ir: &mut IrFile, write_self: FunId, elements: Vec<ExprId>)
        requires
            write_self < old(ir).functions@.len(),
            all_grounded(old(ir).exprs@, elements@),
        ensures
            *final(ir) == (IrFile {
                exprs: final(ir).exprs,
                functions: final(ir).functions,
                ..*old(ir)
            }),
            grows(old(ir).exprs@, final(ir).exprs@),
            body_set(
                *old(ir),
                *final(ir),
                write_self,
                block_tree(
                    trees(old(ir).exprs@, elements@).push(
                        leaf(IrLabel::Return { has_value: false }),
                    ),
                ),
            ),
    {
        let ghost start = ir.exprs@;
        let ghost shown = trees(start, elements@);
        let ghost given = elements@;
        let mut stmts = elements;
        let returned: ExprId = plant(&mut ir.exprs, IrExpr::Return(None));
        assert(trees(start, Seq::<ExprId>::empty()) =~= Seq::<IrTree>::empty());
        stmts.push(returned);
        assert forall|k: int| 0 <= k < stmts@.len() implies grounded(
            ir.exprs@,
            #[trigger] stmts@[k],
        ) by {
            if k < given.len() {
                assert(grounded(start, given[k]));
            }
        }
        assert(trees(ir.exprs@, stmts@) =~= shown.push(leaf(IrLabel::Return { has_value: false })))
            by {
            assert forall|k: int| 0 <= k < given.len() implies tree(ir.exprs@, stmts@[k])
                == shown[k] by {
                assert(grounded(start, given[k]));
            }
        }
        let body: ExprId = plant_block(&mut ir.exprs, stmts);
        ir.set_body(write_self, body);
    }

    fn finish_delegating(&self, ir: &mut IrFile)
        requires
            self.well_formed(*old(ir)),
        ensures
            *final(ir) == (IrFile {
                exprs: final(ir).exprs,
                functions: final(ir).functions,
                expr_lines: final(ir).expr_lines,
                fn_close_lines: final(ir).fn_close_lines,
                ..*old(ir)
            }),
            grows(old(ir).exprs@, final(ir).exprs@),
            body_set(*old(ir), *final(ir), self.function, self.delegating_body(*old(ir))),
            old(ir).exprs@.len() <= opening_of(*final(ir), self.function),
            lines_recorded(
                *old(ir),
                *final(ir),
                self.serialized_class,
                self.function,
                opening_of(*final(ir), self.function),
            ),
    {
        let ghost start = *ir;
        let own: ExprId = self.plant_own_descriptor(&mut ir.exprs);
        let descriptor: ExprId = plant_variable(
            &mut ir.exprs,
            3,
            class_ty("kotlinx/serialization/descriptors/SerialDescriptor"),
            own,
        );
        let encoder: ExprId = plant_value(&mut ir.exprs, 1);
        let opened: ExprId = plant_value(&mut ir.exprs, 3);
        let begin: ExprId = plant_begin(&mut ir.exprs, encoder, opened);
        let composite: ExprId = plant_variable(
            &mut ir.exprs,
            4,
            class_ty("kotlinx/serialization/encoding/CompositeEncoder"),
            begin,
        );
        let value: ExprId = plant_value(&mut ir.exprs, 2);
        let output: ExprId = plant_value(&mut ir.exprs, 4);
        let handed: ExprId = plant_value(&mut ir.exprs, 3);
        let owner = ir.classes[self.serialized_class].name.clone();
        let callee = Callee::Static {
            descriptor: concat(
                "(L",
                owner.text(),
                ";Lkotlinx/serialization/encoding/CompositeEncoder;Lkotlinx/serialization/descriptors/SerialDescriptor;)V",
            ),
            owner,
            name: self.write_self_name.clone(),
            inline: InlineKind::NotInline,
        };
        let mut args: Vec<ExprId> = Vec::new();
        args.push(value);
        args.push(output);
        args.push(handed);
        assert(trees(ir.exprs@, args@) =~= seq![value_tree(2), value_tree(4), value_tree(3)]);
        let write: ExprId = plant_plain_call(&mut ir.exprs, callee, args);
        let closed: ExprId = plant_value(&mut ir.exprs, 4);
        let closing: ExprId = plant_value(&mut ir.exprs, 3);
        let end: ExprId = plant_end(&mut ir.exprs, closed, closing);
        record_serialize_lines(ir, self.serialized_class, self.function, descriptor);
        let mut stmts: Vec<ExprId> = Vec::new();
        stmts.push(descriptor);
        stmts.push(composite);
        stmts.push(write);
        stmts.push(end);
        let ghost shown = trees(ir.exprs@, stmts@);
        assert(block_tree(shown).operands =~= self.delegating_body(start).operands);
        let body: ExprId = plant_block(&mut ir.exprs, stmts);
        ir.set_body(self.function, body);
        assert(tree(ir.exprs@, body) == self.delegating_body(start));
    }
}

impl<'a> SerializeBody<'a> {
    fn finish_inlined(&self, ir: &mut IrFile, elements: Vec<ExprId>)
        requires
            self.well_formed(*old(ir)),
            all_grounded(old(ir).exprs@, elements@),
        ensures
            *final(ir) == (IrFile {
                exprs: final(ir).exprs,
                functions: final(ir).functions,
                expr_lines: final(ir).expr_lines,
                fn_close_lines: final(ir).fn_close_lines,
                ..*old(ir)
            }),
            grows(old(ir).exprs@, final(ir).exprs@),
            body_set(
                *old(ir),
                *final(ir),
                self.function,
                block_tree(
                    seq![
                        variable_tree(
                            3,
                            class_type("kotlinx/serialization/encoding/CompositeEncoder"@),
                            begin_structure(self.own_descriptor()),
                        ),
                    ] + trees(old(ir).exprs@, elements@) + seq![
                        end_structure(value_tree(3), self.own_descriptor()),
                    ],
                ),
            ),
            old(ir).exprs@.len() <= opening_of(*final(ir), self.function),
            lines_recorded(
                *old(ir),
                *final(ir),
                self.serialized_class,
                self.function,
                opening_of(*final(ir), self.function),
            ),
    {
        let ghost start = *ir;
        let ghost written = trees(start.exprs@, elements@);
        let encoder: ExprId = plant_value(&mut ir.exprs, 1);
        let opened: ExprId = self.plant_own_descriptor(&mut ir.exprs);
        let begin: ExprId = plant_begin(&mut ir.exprs, encoder, opened);
        let composite: ExprId = plant_variable(
            &mut ir.exprs,
            3,
            class_ty("kotlinx/serialization/encoding/CompositeEncoder"),
            begin,
        );
        let closing: ExprId = self.plant_own_descriptor(&mut ir.exprs);
        let closed: ExprId = plant_value(&mut ir.exprs, 3);
        let end: ExprId = plant_end(&mut ir.exprs, closed, closing);
        let mut stmts: Vec<ExprId> = Vec::new();
        stmts.push(composite);
        let ghost given = elements@;
        let mut rest = elements;
        stmts.append(&mut rest);
        stmts.push(end);
        assert(stmts@ =~= seq![composite] + given + seq![end]);
        let ghost grown = ir.exprs@;
        assert(grows(start.exprs@, grown));
        assert forall|k: int| 0 <= k < stmts@.len() implies grounded(
            grown,
            #[trigger] stmts@[k],
        ) by {
            if 0 < k && k <= given.len() {
                assert(stmts@[k] == given[k - 1]);
                assert(grounded(start.exprs@, given[k - 1]));
            }
        }
        let ghost shown = seq![
            variable_tree(
                3,
                class_type("kotlinx/serialization/encoding/CompositeEncoder"@),
                begin_structure(self.own_descriptor()),
            ),
        ] + written + seq![end_structure(value_tree(3), self.own_descriptor())];
        assert(trees(grown, stmts@) =~= shown) by {
            assert forall|k: int| 0 < k <= given.len() implies tree(grown, stmts@[k])
                == written[k - 1] by {
                assert(stmts@[k] == given[k - 1]);
                assert(grounded(start.exprs@, given[k - 1]));
            }
        }
        record_serialize_lines(ir, self.serialized_class, self.function, composite);
        let body: ExprId = plant_block(&mut ir.exprs, stmts);
        ir.set_body(self.function, body);
    }

    /// Generate `serialize`, and the write helper where the class has one. Where an element cannot
    /// be written, the file is left to be declined.
    pub fn generate(self, ir: &mut IrFile, ctx: &PluginContext)
        requires
            self.well_formed(*old(ir)),
            objects_named(*old(ir), *ctx),
        ensures
            grows(old(ir).exprs@, final(ir).exprs@),
            *final(ir) == (IrFile {
                exprs: final(ir).exprs,
                functions: final(ir).functions,
                expr_lines: final(ir).expr_lines,
                fn_close_lines: final(ir).fn_close_lines,
                ..*old(ir)
            }),
            self.generated(*old(ir), *final(ir), *ctx),
    {
        let ghost start = *ir;
        let delegate = self.write_self.is_some()
            && ir.classes[self.serializer_class].type_params.len() == 0;
        match self.plant_elements(ir, ctx, delegate) {
            None => {
                self.finish_residual(ir);
            },
            Some(elements) => {
                match self.write_self {
                    Some(write_self) if delegate => {
                        self.finish_helper(ir, write_self, elements);
                        let ghost helped = *ir;
                        self.finish_delegating(ir);
                        proof {
                            self.lemma_helped(start, helped, *ir, *ctx, write_self);
                        }
                    },
                    _ => {
                        self.finish_inlined(ir, elements);
                    },
                }
            },
        }
    }

    /// What `generate` leaves behind.
    pub open spec fn generated(&self, before: IrFile, after: IrFile, ctx: PluginContext) -> bool {
        if !self.supported(before, ctx) {
            &&& body_set(before, after, self.function, self.residual_body(before))
            &&& after.expr_lines == before.expr_lines
            &&& after.fn_close_lines == before.fn_close_lines
        } else if self.delegates(before) {
            let helper = self.write_self->0;
            &&& after.functions@[self.function as int].body matches Some(body) && grounded(
                after.exprs@,
                body,
            ) && tree(after.exprs@, body) == self.delegating_body(before)
            &&& helper != self.function ==> (after.functions@[helper as int].body matches Some(body)
                && grounded(after.exprs@, body) && tree(after.exprs@, body) == self.helper_body(
                before,
                ctx,
            ))
            &&& after.functions@.len() == before.functions@.len()
            &&& forall|k: int|
                0 <= k < before.functions@.len() ==> (#[trigger] after.functions@[k])
                    == (IrFunction { body: after.functions@[k].body, ..before.functions@[k] })
            &&& forall|k: int|
                0 <= k < before.functions@.len() && k != self.function && k != helper
                    ==> #[trigger] after.functions@[k] == before.functions@[k]
            &&& before.exprs@.len() <= opening_of(after, self.function)
            &&& lines_recorded(
                before,
                after,
                self.serialized_class,
                self.function,
                opening_of(after, self.function),
            )
        } else {
            &&& body_set(before, after, self.function, self.inlined_body(before, ctx))
            &&& before.exprs@.len() <= opening_of(after, self.function)
            &&& lines_recorded(
                before,
                after,
                self.serialized_class,
                self.function,
                opening_of(after, self.function),
            )
        }
    }

    proof fn lemma_helped(
        &self,
        start: IrFile,
        helped: IrFile,
        after: IrFile,
        ctx: PluginContext,
        write_self: FunId,
    )
        requires
            self.well_formed(start),
            self.write_self == Some(write_self),
            grows(helped.exprs@, after.exprs@),
            helped.classes == start.classes,
            helped.functions@.len() == start.functions@.len(),
            helped.functions@[write_self as int].body matches Some(body) && grounded(
                helped.exprs@,
                body,
            ) && tree(helped.exprs@, body) == self.helper_body(start, ctx),
            helped.functions@ == start.functions@.update(
                write_self as int,
                IrFunction {
                    body: helped.functions@[write_self as int].body,
                    ..start.functions@[write_self as int]
                },
            ),
            body_set(helped, after, self.function, self.delegating_body(helped)),
        ensures
            self.delegating_body(helped) == self.delegating_body(start),
            write_self != self.function ==> (after.functions@[write_self as int].body matches Some(
                body,
            ) && grounded(after.exprs@, body) && tree(after.exprs@, body) == self.helper_body(
                start,
                ctx,
            )),
            after.functions@.len() == start.functions@.len(),
            forall|k: int|
                0 <= k < start.functions@.len() ==> (#[trigger] after.functions@[k])
                    == (IrFunction { body: after.functions@[k].body, ..start.functions@[k] }),
            forall|k: int|
                0 <= k < start.functions@.len() && k != self.function && k != write_self
                    ==> #[trigger] after.functions@[k] == start.functions@[k],
    {
    }
}

/// The first statement of the body of a function.
pub open spec fn opening_of(ir: IrFile, function: FunId) -> ExprId {
    ir.exprs@[ir.functions@[function as int].body->0 as int].operands()[0]
}

} // verus!
