//! The cache of the element serializers of a class: which elements have a slot in it, how it is
//! built and how it is read.
//!
//! A serializable class keeps the serializers of its elements that have to be constructed, those of
//! standard types and of enums, in a static array of lazy values. It is built when every class has
//! its generated serializer: a slot may hold one over that of a sibling class.

use vstd::prelude::*;

use crate::ir::expr::{
    Callee, CalleeView, ClassId, ExprId, FunId, IrConst, IrExpr, IrIntrinsic, IrLabel,
};
use crate::ir::file::{
    body_set, IrClass, IrFile, IrFunction, IrFunctionView, IrStatic, IrStaticView,
};
use crate::ir::tree::{
    all_grounded, array_tree, block_tree, call_tree, cast_tree, field_tree, grounded, grows,
    int_tree, leaf, null_tree, plain_call_tree, plant, plant_array, plant_block1, plant_block2,
    plant_call0, plant_call1, plant_cast, plant_const, plant_field, plant_plain_call,
    plant_residual, plant_return, plant_value, plant_variable, residual_tree, return_tree, tree,
    trees, value_tree, variable_tree, IrTree,
};
use crate::libraries::Visibility;
use crate::names::TypeName;
use crate::plugins::context::PluginContext;
use crate::plugins::serialization::annotations::{
    field_serializer, field_serializer_of, is_contextual, property_is_contextual,
};
use crate::plugins::serialization::constructed_standard_serializers::{
    constructed_standard_serializer, standard_serializer,
};
use crate::plugins::serialization::element_serializer::{
    any_enum, element_plan, element_serializer_expr, element_tree, enum_class,
    lemma_plan_ignores_expressions, objects_named, some_class,
};
use crate::plugins::serialization::generated_classifier::{kserializer_of, serializer_type};
use crate::plugins::serialization::support::{
    build_field_serializer_instance, class_ty, class_type, contextual_for,
    contextual_serializer_for, interface_member, named_serializer, nullable_serializer,
    static_callee, static_member, virtual_iface, wrap_nullable_serializer,
};
use crate::plugins::serialization::type_parameter_serializers::ScopeView;
use crate::text::views;
use crate::types::{Ty, TyView};

verus! {

broadcast use {
    crate::text::group_views,
    crate::types::group_ty_views,
    crate::ir::tree::group_growth,
};

/// The type of a slot: a lazy serializer, or nothing where the element needs none.
pub open spec fn slot_type() -> TyView {
    TyView::Nullable(
        Box::new(
            TyView::Obj("kotlin/Lazy"@, seq![serializer_type(class_type("kotlin/Any"@))]),
        ),
    )
}

pub fn lazy_cache_element_ty() -> (ty: Ty)
    ensures
        ty@ == slot_type(),
{
    let mut arguments: Vec<Ty> = Vec::new();
    arguments.push(kserializer_of(class_ty("kotlin/Any")));
    assert(views(arguments@) =~= seq![serializer_type(class_type("kotlin/Any"@))]);
    Ty::nullable(Ty::obj_args("kotlin/Lazy", arguments.as_slice()))
}

/// The type of the cache.
pub open spec fn cache_type() -> TyView {
    TyView::Obj("kotlin/Array"@, seq![slot_type()])
}

pub fn lazy_cache_ty() -> (ty: Ty)
    ensures
        ty@ == cache_type(),
{
    let mut arguments: Vec<Ty> = Vec::new();
    arguments.push(lazy_cache_element_ty());
    assert(views(arguments@) =~= seq![slot_type()]);
    Ty::obj_args("kotlin/Array", arguments.as_slice())
}

/// What the cache of one class is, told by what built it. Everything that reads the cache goes by
/// this: a slot that is believed in and was never written would be read as `null`.
#[derive(Debug)]
pub struct ChildSerializerCachePlan {
    /// The position of the static that holds the cache.
    pub static_index: usize,
    /// The function through which the generated serializer reaches the cache.
    pub accessor: FunId,
    /// For each element, whether the cache has a slot for it.
    pub cached: Vec<bool>,
}

impl ChildSerializerCachePlan {
    /// Whether element `k` of `elements` has a slot.
    pub fn caches(&self, k: usize, elements: usize) -> (yes: bool)
        requires
            self.cached@.len() == elements,
            k < elements,
        ensures
            yes == self.cached@[k as int],
    {
        self.cached[k]
    }
}

/// The cache of the class `serialized`, as its accessor returns it.
pub open spec fn cache_read(serialized: Seq<char>, accessor: FunId) -> IrTree {
    plain_call_tree(CalleeView::ClassStatic { owner: serialized, function: accessor }, seq![])
}

/// The statement that loads the cache of the class `serialized` into `local`.
pub fn load_cache_statement(
    exprs: &mut Vec<IrExpr>,
    plan: &ChildSerializerCachePlan,
    local: u32,
    serialized: &TypeName,
) -> (id: ExprId)
    ensures
        grows(old(exprs)@, final(exprs)@),
        grounded(final(exprs)@, id),
        tree(final(exprs)@, id) == variable_tree(
            local,
            cache_type(),
            cache_read(serialized@, plan.accessor),
        ),
{
    let args: Vec<ExprId> = Vec::new();
    assert(trees(exprs@, args@) =~= Seq::<IrTree>::empty());
    let read: ExprId = plant_plain_call(
        exprs,
        Callee::ClassStatic { owner: serialized.clone(), function: plan.accessor },
        args,
    );
    plant_variable(exprs, local, lazy_cache_ty(), read)
}

/// `cache[k].value`, where the cache is in `local`.
pub open spec fn slot_value(local: u32, k: usize) -> IrTree {
    call_tree(
        interface_member("kotlin/Lazy"@, "getValue"@, "()Ljava/lang/Object;"@),
        call_tree(
            CalleeView::Intrinsic { operation: IrIntrinsic::ArrayGet, ret: slot_type() },
            value_tree(local),
            seq![int_tree(k as i32)],
        ),
        seq![],
    )
}

fn read_cached_slot(exprs: &mut Vec<IrExpr>, local: u32, k: usize) -> (id: ExprId)
    ensures
        grows(old(exprs)@, final(exprs)@),
        grounded(final(exprs)@, id),
        tree(final(exprs)@, id) == slot_value(local, k),
{
    let cache: ExprId = plant_value(exprs, local);
    let index: ExprId = plant_const(exprs, IrConst::Int(k as i32));
    let slot: ExprId = plant_call1(
        exprs,
        Callee::Intrinsic { operation: IrIntrinsic::ArrayGet, ret: lazy_cache_element_ty() },
        cache,
        index,
    );
    plant_call0(exprs, virtual_iface("kotlin/Lazy", "getValue", "()Ljava/lang/Object;"), slot)
}

/// Whether element `k` is read from a cache.
pub open spec fn is_cached(plan: Option<ChildSerializerCachePlan>, k: int) -> bool {
    plan matches Some(plan) && plan.cached@[k]
}

/// The cached serializer of an element as the list of child serializers shows it: that of a
/// nullable property is wrapped.
pub open spec fn shown_slot(local: u32, k: usize, ty: TyView) -> IrTree {
    if ty.is_nullable() {
        nullable_serializer(slot_value(local, k))
    } else {
        slot_value(local, k)
    }
}

/// The serializer of element `k`, taken out of the cache for the list of child serializers; none
/// where it has no slot.
pub fn cached_element(
    exprs: &mut Vec<IrExpr>,
    plan: &Option<ChildSerializerCachePlan>,
    local: u32,
    k: usize,
    elements: usize,
    ty: &Ty,
) -> (id: Option<ExprId>)
    requires
        plan matches Some(plan) ==> plan.cached@.len() == elements,
        k < elements,
    ensures
        grows(old(exprs)@, final(exprs)@),
        match id {
            Some(id) => is_cached(*plan, k as int) && grounded(final(exprs)@, id) && tree(
                final(exprs)@,
                id,
            ) == shown_slot(local, k, ty@),
            None => !is_cached(*plan, k as int) && final(exprs)@ == old(exprs)@,
        },
{
    match plan {
        None => None,
        Some(plan) => {
            if !plan.caches(k, elements) {
                return None;
            }
            let cached: ExprId = read_cached_slot(exprs, local, k);
            if ty.is_nullable() {
                Some(wrap_nullable_serializer(exprs, cached))
            } else {
                Some(cached)
            }
        },
    }
}

/// The serializer of element `k`, taken out of the cache and narrowed to the strategy that a call
/// takes; none where it has no slot.
pub fn cached_strategy(
    exprs: &mut Vec<IrExpr>,
    plan: &Option<ChildSerializerCachePlan>,
    local: u32,
    k: usize,
    elements: usize,
    strategy_interface: &str,
) -> (id: Option<ExprId>)
    requires
        plan matches Some(plan) ==> plan.cached@.len() == elements,
        k < elements,
    ensures
        grows(old(exprs)@, final(exprs)@),
        match id {
            Some(id) => is_cached(*plan, k as int) && grounded(final(exprs)@, id) && tree(
                final(exprs)@,
                id,
            ) == cast_tree(slot_value(local, k), class_type(strategy_interface@)),
            None => !is_cached(*plan, k as int) && final(exprs)@ == old(exprs)@,
        },
{
    match plan {
        None => None,
        Some(plan) => {
            if !plan.caches(k, elements) {
                return None;
            }
            let cached: ExprId = read_cached_slot(exprs, local, k);
            Some(plant_cast(exprs, cached, class_ty(strategy_interface)))
        },
    }
}

/// Whether a property has a slot: its serializer has to be constructed, and neither the property
/// nor the file says where else it comes from.
pub open spec fn needs_slot(
    ir: IrFile,
    ctx: PluginContext,
    class: ClassId,
    name: Seq<char>,
    ty: TyView,
) -> bool {
    !is_contextual(ctx, class, name) && field_serializer(ctx, class, name) is None
        && match ty.kotlin_class_internal() {
        Some(classifier) => standard_serializer(classifier) is Some || some_class(
            ir.classes@,
            classifier,
            |class: IrClass| enum_class(class),
        ),
        None => false,
    }
}

fn property_needs_slot(
    ir: &IrFile,
    ctx: &PluginContext,
    class: ClassId,
    name: &str,
    ty: &Ty,
) -> (yes: bool)
    ensures
        yes == needs_slot(*ir, *ctx, class, name@, ty@),
{
    if property_is_contextual(ctx, class, name) || field_serializer_of(ctx, class, name).is_some() {
        return false;
    }
    match ty.kotlin_class_internal() {
        Some(classifier) => constructed_standard_serializer(&classifier).is_some() || any_enum(
            ir,
            &classifier,
        ),
        None => false,
    }
}

/// For each property, whether it has a slot.
pub open spec fn slots(
    ir: IrFile,
    ctx: PluginContext,
    class: ClassId,
    fields: Seq<(String, Ty)>,
) -> Seq<bool> {
    Seq::new(
        fields.len(),
        |k: int| needs_slot(ir, ctx, class, fields[k].0@, fields[k].1@),
    )
}

fn slot_flags(ir: &IrFile, ctx: &PluginContext, class: ClassId, fields: &[(String, Ty)]) -> (flags:
    Vec<bool>)
    ensures
        flags@ == slots(*ir, *ctx, class, fields@),
{
    let mut flags: Vec<bool> = Vec::new();
    let mut index: usize = 0;
    while index < fields.len()
        invariant
            index <= fields@.len(),
            flags@.len() == index,
            forall|k: int|
                0 <= k < index ==> (#[trigger] flags@[k]) == slots(*ir, *ctx, class, fields@)[k],
        decreases fields@.len() - index,
    {
        flags.push(
            property_needs_slot(ir, ctx, class, fields[index].0.as_str(), &fields[index].1),
        );
        index += 1;
    }
    assert(flags@ =~= slots(*ir, *ctx, class, fields@));
    flags
}

/// Whether some flag is set.
pub open spec fn any_set(flags: Seq<bool>) -> bool {
    exists|k: int| 0 <= k < flags.len() && #[trigger] flags[k]
}

fn holds_true(flags: &Vec<bool>) -> (yes: bool)
    ensures
        yes == any_set(flags@),
{
    let mut index: usize = 0;
    while index < flags.len()
        invariant
            index <= flags@.len(),
            forall|k: int| 0 <= k < index ==> !#[trigger] flags@[k],
        decreases flags@.len() - index,
    {
        if flags[index] {
            assert(flags@[index as int]);
            return true;
        }
        index += 1;
    }
    false
}

/// Whether a property that needs a slot has no serializer to put into it.
pub open spec fn underivable(ir: IrFile, ctx: PluginContext, slot: bool, ty: TyView) -> bool {
    slot && element_plan(ir, ctx, ty, ScopeView::none()) is None
}

/// Whether some property that needs a slot has no serializer to put into it.
pub open spec fn some_underivable(
    ir: IrFile,
    ctx: PluginContext,
    slots: Seq<bool>,
    fields: Seq<(String, Ty)>,
) -> bool {
    exists|k: int| 0 <= k < fields.len() && underivable(ir, ctx, slots[k], (#[trigger] fields[k]).1@)
}

/// A serializer kept for later.
pub open spec fn kept(serializer: IrTree) -> IrTree {
    plain_call_tree(
        static_member(
            "kotlin/LazyKt"@,
            "lazyOf"@,
            "(Ljava/lang/Object;)Lkotlin/Lazy;"@,
        ),
        seq![serializer],
    )
}

/// The contents of the cache: a kept serializer for each property with a slot, and nothing for any
/// other.
pub open spec fn cache_elements(
    ir: IrFile,
    ctx: PluginContext,
    slots: Seq<bool>,
    fields: Seq<(String, Ty)>,
) -> Seq<IrTree> {
    Seq::new(
        fields.len(),
        |k: int|
            if slots[k] {
                kept(element_tree(ir, ctx, fields[k].1@, ScopeView::none())->0)
            } else {
                null_tree()
            },
    )
}

/// The static that holds the cache, started with `init`.
pub open spec fn cache_static(serialized: Seq<char>, init: ExprId) -> IrStaticView {
    IrStaticView {
        name: "$childSerializers"@,
        ty: cache_type(),
        init,
        is_var: false,
        is_const: false,
        owner: Some(serialized),
        visibility: Visibility::Private,
        custom_accessor: true,
        line: 0,
        source_order: u32::MAX,
    }
}

/// The body of the accessor of the cache.
pub open spec fn cache_accessor_body(serialized: Seq<char>) -> IrTree {
    block_tree(
        seq![
            return_tree(
                leaf(
                    IrLabel::ExternalStaticField {
                        owner: serialized,
                        name: "$childSerializers"@,
                        descriptor: "[Lkotlin/Lazy;"@,
                    },
                ),
            ),
        ],
    )
}

fn push_cache_static(statics: &mut Vec<IrStatic>, serialized: &TypeName, init: ExprId)
    ensures
        final(statics)@.len() == old(statics)@.len() + 1,
        final(statics)@.drop_last() == old(statics)@,
        final(statics)@.last()@ == cache_static(serialized@, init),
{
    statics.push(
        IrStatic {
            name: "$childSerializers".to_owned(),
            ty: lazy_cache_ty(),
            init,
            is_var: false,
            is_const: false,
            owner: Some(serialized.clone()),
            visibility: Visibility::Private,
            custom_accessor: true,
            line: 0,
            source_order: u32::MAX,
        },
    );
    assert(statics@.drop_last() =~= old(statics)@);
}

fn keep(exprs: &mut Vec<IrExpr>, serializer: ExprId) -> (id: ExprId)
    requires
        grounded(old(exprs)@, serializer),
    ensures
        grows(old(exprs)@, final(exprs)@),
        grounded(final(exprs)@, id),
        tree(final(exprs)@, id) == kept(tree(old(exprs)@, serializer)),
{
    let ghost before = exprs@;
    let mut args: Vec<ExprId> = Vec::new();
    args.push(serializer);
    assert(trees(before, args@) =~= seq![tree(before, serializer)]);
    plant_plain_call(
        exprs,
        static_callee("kotlin/LazyKt", "lazyOf", "(Ljava/lang/Object;)Lkotlin/Lazy;"),
        args,
    )
}

fn build_slots(
    ir: &mut IrFile,
    ctx: &PluginContext,
    flags: &Vec<bool>,
    fields: &[(String, Ty)],
) -> (elements: Option<Vec<ExprId>>)
    requires
        objects_named(*old(ir), *ctx),
        flags@.len() == fields@.len(),
    ensures
        *final(ir) == (IrFile { exprs: final(ir).exprs, ..*old(ir) }),
        grows(old(ir).exprs@, final(ir).exprs@),
        match elements {
            Some(elements) => !some_underivable(*old(ir), *ctx, flags@, fields@) && all_grounded(
                final(ir).exprs@,
                elements@,
            ) && trees(final(ir).exprs@, elements@) == cache_elements(
                *old(ir),
                *ctx,
                flags@,
                fields@,
            ),
            None => some_underivable(*old(ir), *ctx, flags@, fields@),
        },
{
    let ghost start = *ir;
    let ghost shown = cache_elements(start, *ctx, flags@, fields@);
    let mut elements: Vec<ExprId> = Vec::new();
    let mut index: usize = 0;
    while index < fields.len()
        invariant
            index <= fields@.len(),
            start == *old(ir),
            objects_named(start, *ctx),
            flags@.len() == fields@.len(),
            shown == cache_elements(start, *ctx, flags@, fields@),
            *ir == (IrFile { exprs: ir.exprs, ..start }),
            grows(start.exprs@, ir.exprs@),
            elements@.len() == index,
            forall|k: int|
                0 <= k < index ==> !underivable(
                    start,
                    *ctx,
                    flags@[k],
                    (#[trigger] fields@[k]).1@,
                ),
            forall|k: int|
                0 <= k < index ==> grounded(ir.exprs@, #[trigger] elements@[k]) && tree(
                    ir.exprs@,
                    elements@[k],
                ) == shown[k],
        decreases fields@.len() - index,
    {
        let ghost before = ir.exprs@;
        let ghost current = *ir;
        proof {
            lemma_plan_ignores_expressions(
                current,
                start,
                *ctx,
                fields@[index as int].1@,
                ScopeView::none(),
            );
        }
        let element: ExprId = if flags[index] {
            match element_serializer_expr(ir, ctx, &fields[index].1) {
                Some(serializer) => keep(&mut ir.exprs, serializer),
                None => {
                    assert(underivable(
                        start,
                        *ctx,
                        flags@[index as int],
                        fields@[index as int].1@,
                    ));
                    return None;
                },
            }
        } else {
            plant_const(&mut ir.exprs, IrConst::Null)
        };
        assert(grows(before, ir.exprs@));
        elements.push(element);
        index += 1;
    }
    assert(trees(ir.exprs@, elements@) =~= shown);
    Some(elements)
}

/// What is recorded where the cache of a class is built.
pub open spec fn cache_built(
    before: IrFile,
    after: IrFile,
    ctx: PluginContext,
    class: ClassId,
    serialized: Seq<char>,
    fields: Seq<(String, Ty)>,
    plan: ChildSerializerCachePlan,
) -> bool {
    let flags = slots(before, ctx, class, fields);
    let accessor = after.functions@.last();
    &&& plan.cached@ == flags
    &&& plan.static_index == before.statics@.len()
    &&& plan.accessor == before.functions@.len()
    &&& after.statics@.len() == before.statics@.len() + 1
    &&& after.statics@.drop_last() == before.statics@
    &&& after.statics@.last()@ == cache_static(serialized, after.statics@.last().init)
    &&& grounded(after.exprs@, after.statics@.last().init)
    &&& tree(after.exprs@, after.statics@.last().init) == array_tree(
        cache_type(),
        cache_elements(before, ctx, flags, fields),
    )
    &&& after.functions@.len() == before.functions@.len() + 1
    &&& after.functions@.drop_last() == before.functions@
    &&& accessor@ == (IrFunctionView {
        name: "access$get$childSerializers$cp"@,
        params: seq![],
        ret: cache_type(),
        body: accessor.body,
        is_static: true,
        dispatch_receiver: None,
        param_checks: seq![],
    })
    &&& accessor.body matches Some(body) && grounded(after.exprs@, body) && tree(
        after.exprs@,
        body,
    ) == cache_accessor_body(serialized)
    &&& after.synthetic_methods@ == before.synthetic_methods@.insert(plan.accessor)
    &&& after.classes@.len() == before.classes@.len()
    &&& forall|k: int|
        0 <= k < before.classes@.len() && k != class ==> (#[trigger] after.classes@[k])
            == before.classes@[k]
    &&& after.classes@[class as int] == (IrClass {
        methods: after.classes@[class as int].methods,
        ..before.classes@[class as int]
    })
    &&& after.classes@[class as int].methods@ == before.classes@[class as int].methods@.push(
        plan.accessor,
    )
    &&& after == (IrFile {
        exprs: after.exprs,
        statics: after.statics,
        functions: after.functions,
        synthetic_methods: after.synthetic_methods,
        classes: after.classes,
        ..before
    })
}

/// Build the cache of a class, where one of its properties needs a slot. Where a property needs a
/// slot and has no serializer, the cache is started with a planned operation that nothing realizes:
/// the file is then declined, and no other way of serializing the property decides anything.
pub fn add_child_serializer_cache(
    ir: &mut IrFile,
    ctx: &PluginContext,
    class_id: ClassId,
    serialized: &TypeName,
    fields: &[(String, Ty)],
) -> (plan: Option<ChildSerializerCachePlan>)
    requires
        objects_named(*old(ir), *ctx),
        class_id < old(ir).classes@.len(),
    ensures
        grows(old(ir).exprs@, final(ir).exprs@),
        plan is Some == (any_set(slots(*old(ir), *ctx, class_id, fields@)) && !some_underivable(
            *old(ir),
            *ctx,
            slots(*old(ir), *ctx, class_id, fields@),
            fields@,
        )),
        plan matches Some(plan) ==> cache_built(
            *old(ir),
            *final(ir),
            *ctx,
            class_id,
            serialized@,
            fields@,
            plan,
        ),
        !any_set(slots(*old(ir), *ctx, class_id, fields@)) ==> *final(ir) == *old(ir),
        any_set(slots(*old(ir), *ctx, class_id, fields@)) && some_underivable(
            *old(ir),
            *ctx,
            slots(*old(ir), *ctx, class_id, fields@),
            fields@,
        ) ==> {
            &&& final(ir).statics@.len() == old(ir).statics@.len() + 1
            &&& final(ir).statics@.drop_last() == old(ir).statics@
            &&& final(ir).statics@.last()@ == cache_static(
                serialized@,
                final(ir).statics@.last().init,
            )
            &&& grounded(final(ir).exprs@, final(ir).statics@.last().init)
            &&& tree(final(ir).exprs@, final(ir).statics@.last().init) == residual_tree(
                "child-serializer-cache"@,
                seq![serialized@],
                seq![],
            )
            &&& *final(ir) == (IrFile {
                exprs: final(ir).exprs,
                statics: final(ir).statics,
                ..*old(ir)
            })
        },
{
    let ghost start = *ir;
    let cached = slot_flags(ir, ctx, class_id, fields);
    if !holds_true(&cached) {
        return None;
    }
    match build_slots(ir, ctx, &cached, fields) {
        None => {
            let mut data: Vec<TypeName> = Vec::new();
            data.push(serialized.clone());
            assert(views(data@) =~= seq![serialized@]);
            let types: Vec<Ty> = Vec::new();
            assert(views(types@) =~= Seq::<TyView>::empty());
            let unsupported: ExprId = plant_residual(
                &mut ir.exprs,
                "child-serializer-cache",
                data,
                types,
            );
            push_cache_static(&mut ir.statics, serialized, unsupported);
            None
        },
        Some(elements) => {
            let array: ExprId = plant_array(&mut ir.exprs, lazy_cache_ty(), elements);
            let static_index: usize = ir.statics.len();
            push_cache_static(&mut ir.statics, serialized, array);
            let ghost before = ir.exprs@;
            let read: ExprId = plant(
                &mut ir.exprs,
                IrExpr::ExternalStaticField {
                    owner: serialized.clone(),
                    name: "$childSerializers".to_owned(),
                    descriptor: "[Lkotlin/Lazy;".to_owned(),
                },
            );
            assert(trees(before, Seq::<ExprId>::empty()) =~= Seq::<IrTree>::empty());
            let returned: ExprId = plant_return(&mut ir.exprs, read);
            let body: ExprId = plant_block1(&mut ir.exprs, returned);
            let function = IrFunction {
                name: "access$get$childSerializers$cp".to_owned(),
                params: Vec::new(),
                ret: lazy_cache_ty(),
                body: Some(body),
                is_static: true,
                dispatch_receiver: None,
                param_checks: Vec::new(),
            };
            assert(function@.params =~= seq![]);
            assert(function@.param_checks =~= seq![]);
            let accessor: FunId = ir.add_fun(function);
            assert(ir.functions@.drop_last() =~= start.functions@);
            ir.synthetic_methods.insert(accessor);
            ir.classes[class_id].methods.push(accessor);
            Some(ChildSerializerCachePlan { static_index, accessor, cached })
        },
    }
}

/// What the body of `childSerializers()` is generated from.
pub struct ChildSerializersBody<'a> {
    pub function: FunId,
    /// The generated serializer, which holds the serializers of type parameters.
    pub serializer_class: ClassId,
    pub serialized_class: ClassId,
    /// The class that declares the properties.
    pub declaring_class: ClassId,
    pub fields: &'a [(String, Ty)],
    /// The types of the elements as their serializers see them.
    pub serializer_field_types: &'a [Ty],
    /// The field that holds the serializer of each element whose type is a type parameter.
    pub type_parameter_serializer_fields: &'a [Option<u32>],
    /// The cache of the serialized class, where it has one.
    pub plan: Option<ChildSerializerCachePlan>,
}

impl<'a> ChildSerializersBody<'a> {
    /// Whether the facts about elements are complete and name what is there.
    pub open spec fn well_formed(&self, ir: IrFile) -> bool {
        &&& self.function < ir.functions@.len()
        &&& self.serialized_class < ir.classes@.len()
        &&& self.fields@.len() == self.serializer_field_types@.len()
        &&& self.type_parameter_serializer_fields@.len() == self.serializer_field_types@.len()
        &&& self.plan matches Some(plan) ==> plan.cached@.len()
            == self.serializer_field_types@.len()
        &&& ir.functions@[self.function as int].params@.len() < u32::MAX
    }

    /// The local that holds the cache: the first one behind the receiver and the parameters.
    pub open spec fn local(&self, ir: IrFile) -> u32 {
        (ir.functions@[self.function as int].params@.len() + 1) as u32
    }

    /// The serializer of element `k`: the one in its slot, or the one its property or its type
    /// gives, and nothing where there is none.
    pub open spec fn child(&self, ir: IrFile, ctx: PluginContext, k: int) -> IrTree {
        let name = self.fields@[k].0@;
        let ty = self.serializer_field_types@[k]@;
        if is_cached(self.plan, k) {
            shown_slot(self.local(ir), k as usize, ty)
        } else {
            match contextual_for(is_contextual(ctx, self.declaring_class, name), ty) {
                Some(serializer) => serializer,
                None => match self.type_parameter_serializer_fields@[k] {
                    Some(field) => field_tree(value_tree(0), self.serializer_class, field),
                    None => match field_serializer(ctx, self.declaring_class, name) {
                        Some(serializer) => if ty.is_nullable() {
                            nullable_serializer(named_serializer(ir, serializer))
                        } else {
                            named_serializer(ir, serializer)
                        },
                        None => match element_tree(ir, ctx, ty, ScopeView::none()) {
                            Some(serializer) => serializer,
                            None => null_tree(),
                        },
                    },
                },
            }
        }
    }

    /// The serializers of all elements, in order.
    pub open spec fn children(&self, ir: IrFile, ctx: PluginContext) -> Seq<IrTree> {
        Seq::new(self.serializer_field_types@.len(), |k: int| self.child(ir, ctx, k))
    }

    /// The body: it loads the cache, where there is one, and returns the serializers.
    pub open spec fn body(&self, ir: IrFile, ctx: PluginContext) -> IrTree {
        let returned = return_tree(
            array_tree(
                TyView::Obj(
                    "kotlin/Array"@,
                    seq![class_type("kotlinx/serialization/KSerializer"@)],
                ),
                self.children(ir, ctx),
            ),
        );
        match self.plan {
            Some(plan) => block_tree(
                seq![
                    variable_tree(
                        self.local(ir),
                        cache_type(),
                        cache_read(
                            ir.classes@[self.serialized_class as int].name@,
                            plan.accessor,
                        ),
                    ),
                    returned,
                ],
            ),
            None => block_tree(seq![returned]),
        }
    }

    fn plant_child(&self, ir: &mut IrFile, ctx: &PluginContext, local: u32, k: usize) -> (id: ExprId)
        requires
            self.well_formed(*old(ir)),
            objects_named(*old(ir), *ctx),
            local == self.local(*old(ir)),
            k < self.serializer_field_types@.len(),
        ensures
            *final(ir) == (IrFile { exprs: final(ir).exprs, ..*old(ir) }),
            grows(old(ir).exprs@, final(ir).exprs@),
            grounded(final(ir).exprs@, id),
            tree(final(ir).exprs@, id) == self.child(*old(ir), *ctx, k as int),
    {
        let name: &str = self.fields[k].0.as_str();
        let ty: &Ty = &self.serializer_field_types[k];
        let count: usize = self.serializer_field_types.len();
        if let Some(cached) = cached_element(&mut ir.exprs, &self.plan, local, k, count, ty) {
            return cached;
        }
        let contextual = property_is_contextual(ctx, self.declaring_class, name);
        if let Some(serializer) = contextual_serializer_for(&mut ir.exprs, contextual, ty) {
            return serializer;
        }
        if let Some(field) = self.type_parameter_serializer_fields[k] {
            let this: ExprId = plant_value(&mut ir.exprs, 0);
            return plant_field(&mut ir.exprs, this, self.serializer_class, field);
        }
        if let Some(serializer) = field_serializer_of(ctx, self.declaring_class, name) {
            let base: ExprId = build_field_serializer_instance(ir, &serializer);
            return if ty.is_nullable() {
                wrap_nullable_serializer(&mut ir.exprs, base)
            } else {
                base
            };
        }
        proof {
            lemma_plan_ignores_expressions(*ir, *old(ir), *ctx, ty@, ScopeView::none());
        }
        match element_serializer_expr(ir, ctx, ty) {
            Some(serializer) => serializer,
            None => plant_const(&mut ir.exprs, IrConst::Null),
        }
    }

    /// Generate `childSerializers()`. Each cached serializer is read from the cache rather than
    /// built anew.
    pub fn generate(self, ir: &mut IrFile, ctx: &PluginContext)
        requires
            self.well_formed(*old(ir)),
            objects_named(*old(ir), *ctx),
        ensures
            *final(ir) == (IrFile {
                exprs: final(ir).exprs,
                functions: final(ir).functions,
                ..*old(ir)
            }),
            grows(old(ir).exprs@, final(ir).exprs@),
            body_set(*old(ir), *final(ir), self.function, self.body(*old(ir), *ctx)),
    {
        let ghost start = *ir;
        let local: u32 = ir.functions[self.function].params.len() as u32 + 1;
        let mut elements: Vec<ExprId> = Vec::new();
        let mut index: usize = 0;
        while index < self.serializer_field_types.len()
            invariant
                index <= self.serializer_field_types@.len(),
                start == *old(ir),
                self.well_formed(start),
                objects_named(start, *ctx),
                local == self.local(start),
                *ir == (IrFile { exprs: ir.exprs, ..start }),
                grows(start.exprs@, ir.exprs@),
                elements@.len() == index,
                forall|k: int|
                    0 <= k < index ==> grounded(ir.exprs@, #[trigger] elements@[k]) && tree(
                        ir.exprs@,
                        elements@[k],
                    ) == self.child(start, *ctx, k),
            decreases self.serializer_field_types@.len() - index,
        {
            let ghost current = *ir;
            proof {
                lemma_plan_ignores_expressions(
                    current,
                    start,
                    *ctx,
                    self.serializer_field_types@[index as int]@,
                    ScopeView::none(),
                );
                assert(self.child(current, *ctx, index as int) == self.child(
                    start,
                    *ctx,
                    index as int,
                ));
            }
            let element: ExprId = self.plant_child(ir, ctx, local, index);
            assert(grows(current.exprs@, ir.exprs@));
            elements.push(element);
            index += 1;
        }
        assert(trees(ir.exprs@, elements@) =~= self.children(start, *ctx));
        let mut arguments: Vec<Ty> = Vec::new();
        arguments.push(class_ty("kotlinx/serialization/KSerializer"));
        assert(views(arguments@) =~= seq![class_type("kotlinx/serialization/KSerializer"@)]);
        let array: ExprId = plant_array(
            &mut ir.exprs,
            Ty::obj_args("kotlin/Array", arguments.as_slice()),
            elements,
        );
        let returned: ExprId = plant_return(&mut ir.exprs, array);
        let body: ExprId = match &self.plan {
            Some(plan) => {
                let load: ExprId = load_cache_statement(
                    &mut ir.exprs,
                    plan,
                    local,
                    &ir.classes[self.serialized_class].name,
                );
                plant_block2(&mut ir.exprs, load, returned)
            },
            None => plant_block1(&mut ir.exprs, returned),
        };
        assert(tree(ir.exprs@, body) == self.body(start, *ctx));
        ir.set_body(self.function, body);
    }
}

} // verus!
