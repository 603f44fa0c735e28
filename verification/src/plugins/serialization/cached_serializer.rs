//! Serializers that a declaration builds for itself once and keeps: those of enums and objects.

use vstd::prelude::*;

use crate::ir::expr::{
    Callee, CalleeView, ClassId, ExprId, FunId, IrConst, IrConstView, IrExpr, IrLabel,
};
use crate::ir::file::{IrClass, IrFile, IrFunction, IrFunctionView, IrStatic, IrStaticView};
use crate::ir::tree::{
    adds, array_tree, block_tree, call_tree, cast_tree, const_tree, external_new_tree, grounded,
    grows, instance_tree, leaf, plain_call_tree, plant, plant_array, plant_block1, plant_call0,
    plant_cast, plant_const, plant_instance, plant_new, plant_plain_call, plant_residual,
    plant_return, plant_value, residual_tree, return_tree, tree, trees, value_tree, IrTree,
};
use crate::libraries::Visibility;
use crate::names::{qualified, TypeName};
use crate::plugins::context::PluginContext;
use crate::plugins::serialization::annotations::{
    class_serial_name, custom_serializer, custom_serializer_of, has_serial_name, serial_name,
    serializable_fq,
};
use crate::plugins::serialization::generated_classifier::{kserializer_of, serializer_type};
use crate::plugins::serialization::support::{class_ty, class_type, static_callee, static_member};
use crate::text::views;
use crate::types::{Ty, TyView};

verus! {

broadcast use {
    crate::text::group_views,
    crate::types::group_ty_views,
    crate::ir::tree::group_growth,
};

/// The annotations of an object that its serializer is constructed with. Annotations that are
/// serial information cannot be built yet, so a planned operation that nothing realizes stands for
/// them.
pub open spec fn object_annotations(object: Seq<char>, serial_info_unsupported: bool) -> IrTree {
    if serial_info_unsupported {
        residual_tree("object-serial-info-annotations"@, seq![object], seq![])
    } else {
        array_tree(TyView::Obj("kotlin/Array"@, seq![class_type("kotlin/Annotation"@)]), seq![])
    }
}

/// The serializer of an object over its `INSTANCE`.
pub open spec fn object_serializer_tree(
    object: Seq<char>,
    name: IrTree,
    serial_info_unsupported: bool,
) -> IrTree {
    external_new_tree(
        "kotlinx/serialization/internal/ObjectSerializer"@,
        "(Ljava/lang/String;Ljava/lang/Object;[Ljava/lang/annotation/Annotation;)V"@,
        seq![name, instance_tree(object), object_annotations(object, serial_info_unsupported)],
    )
}

pub fn object_serializer(
    exprs: &mut Vec<IrExpr>,
    object: &TypeName,
    name: ExprId,
    serial_info_unsupported: bool,
) -> (id: ExprId)
    requires
        grounded(old(exprs)@, name),
    ensures
        grows(old(exprs)@, final(exprs)@),
        grounded(final(exprs)@, id),
        tree(final(exprs)@, id) == object_serializer_tree(
            object@,
            tree(old(exprs)@, name),
            serial_info_unsupported,
        ),
        adds(old(exprs)@, final(exprs)@, id, 3),
        final(exprs)@[id as int].operands() == seq![
            name,
            old(exprs)@.len() as usize,
            (old(exprs)@.len() + 1) as usize,
        ],
{
    let ghost start = exprs@;
    let instance: ExprId = plant_instance(exprs, object);
    let annotations: ExprId = if serial_info_unsupported {
        let mut data: Vec<TypeName> = Vec::new();
        data.push(object.clone());
        assert(views(data@) =~= seq![object@]);
        let types: Vec<Ty> = Vec::new();
        assert(views(types@) =~= Seq::<TyView>::empty());
        plant_residual(exprs, "object-serial-info-annotations", data, types)
    } else {
        let mut arguments: Vec<Ty> = Vec::new();
        arguments.push(class_ty("kotlin/Annotation"));
        assert(views(arguments@) =~= seq![class_type("kotlin/Annotation"@)]);
        let elements: Vec<ExprId> = Vec::new();
        assert(trees(exprs@, elements@) =~= Seq::<IrTree>::empty());
        plant_array(exprs, Ty::obj_args("kotlin/Array", arguments.as_slice()), elements)
    };
    let ghost before = exprs@;
    let mut args: Vec<ExprId> = Vec::new();
    args.push(name);
    args.push(instance);
    args.push(annotations);
    assert(trees(before, args@) =~= seq![
        tree(start, name),
        instance_tree(object@),
        object_annotations(object@, serial_info_unsupported),
    ]);
    plant_new(
        exprs,
        "kotlinx/serialization/internal/ObjectSerializer",
        "(Ljava/lang/String;Ljava/lang/Object;[Ljava/lang/annotation/Annotation;)V",
        args,
    )
}

/// The position of the first object called `name`.
pub open spec fn object_named(classes: Seq<IrClass>, name: Seq<char>) -> Option<ClassId>
    decreases classes.len(),
{
    if classes.len() == 0 {
        None
    } else {
        match object_named(classes.drop_last(), name) {
            Some(class) => Some(class),
            None => if classes.last().name@ == name && classes.last().is_object {
                Some((classes.len() - 1) as usize)
            } else {
                None
            },
        }
    }
}

pub proof fn lemma_object_named_stays(classes: Seq<IrClass>, seen: int, name: Seq<char>)
    requires
        0 <= seen <= classes.len(),
        object_named(classes.take(seen), name) is Some,
    ensures
        object_named(classes, name) == object_named(classes.take(seen), name),
    decreases classes.len() - seen,
{
    if seen < classes.len() {
        assert(classes.take(seen + 1).drop_last() =~= classes.take(seen));
        lemma_object_named_stays(classes, seen + 1, name);
    } else {
        assert(classes.take(seen) =~= classes);
    }
}

/// The position of the first object called `name`.
pub fn object_position(ir: &IrFile, name: &TypeName) -> (found: Option<ClassId>)
    ensures
        found == object_named(ir.classes@, name@),
        found matches Some(class) ==> class < ir.classes@.len()
            && ir.classes@[class as int].is_object && ir.classes@[class as int].name@ == name@,
{
    let mut index: usize = 0;
    while index < ir.classes.len()
        invariant
            index <= ir.classes@.len(),
            object_named(ir.classes@.take(index as int), name@) is None,
        decreases ir.classes@.len() - index,
    {
        assert(ir.classes@.take(index as int + 1).drop_last() =~= ir.classes@.take(index as int));
        if ir.classes[index].is_object && ir.classes[index].name == *name {
            proof {
                lemma_object_named_stays(ir.classes@, index as int + 1, name@);
            }
            return Some(index);
        }
        index += 1;
    }
    assert(ir.classes@.take(index as int) =~= ir.classes@);
    None
}

/// The serializable object called `classifier` of this file whose serializer is a generated one: an
/// object whose annotation names a serializer uses that one.
pub open spec fn local_object(ir: IrFile, ctx: PluginContext, classifier: Seq<char>) -> Option<
    ClassId,
> {
    match object_named(ir.classes@, classifier) {
        Some(class) if ctx.annotated(class, "kotlinx/serialization/Serializable"@)
            && custom_serializer(ctx, class) is None => Some(class),
        _ => None,
    }
}

pub fn local_serializable_object(ir: &IrFile, ctx: &PluginContext, classifier: &TypeName) -> (found:
    Option<ClassId>)
    ensures
        found == local_object(*ir, *ctx, classifier@),
        found matches Some(class) ==> class < ir.classes@.len() && ir.classes@[class as int].is_object,
{
    match object_position(ir, classifier) {
        Some(class) => if ctx.has_annotation(class, serializable_fq()) && custom_serializer_of(
            ctx,
            class,
        ).is_none() {
            Some(class)
        } else {
            None
        },
        None => None,
    }
}

/// The lines of functions once `function` was put on the line `line`, where that is known.
pub open spec fn lined(lines: Map<FunId, u32>, function: FunId, line: u32) -> Map<FunId, u32> {
    if line != 0 {
        lines.insert(function, line)
    } else {
        lines
    }
}

/// Whether the class `class` has the further methods `methods` at the end, and the classes are
/// otherwise as they were.
pub open spec fn methods_added(
    before: Seq<IrClass>,
    after: Seq<IrClass>,
    class: ClassId,
    methods: Seq<FunId>,
) -> bool {
    &&& after.len() == before.len()
    &&& forall|k: int|
        0 <= k < before.len() && k != class ==> (#[trigger] after[k]) == before[k]
    &&& after[class as int] == (IrClass {
        methods: after[class as int].methods,
        ..before[class as int]
    })
    &&& after[class as int].methods@ == before[class as int].methods@ + methods
}

/// The raw type of a serializer.
pub open spec fn raw_serializer() -> TyView {
    TyView::Obj("kotlinx/serialization/KSerializer"@, seq![])
}

/// The declared type of the delegate, with its arguments.
pub open spec fn delegate_type() -> TyView {
    TyView::Obj(
        "kotlin/Lazy"@,
        seq![
            TyView::Obj(
                "kotlinx/serialization/KSerializer"@,
                seq![class_type("kotlin/Any"@)],
            ),
        ],
    )
}

fn delegate_ty() -> (ty: Ty)
    ensures
        ty@ == delegate_type(),
{
    let mut any: Vec<Ty> = Vec::new();
    any.push(class_ty("kotlin/Any"));
    assert(views(any@) =~= seq![class_type("kotlin/Any"@)]);
    let mut serializer: Vec<Ty> = Vec::new();
    serializer.push(Ty::obj_args("kotlinx/serialization/KSerializer", any.as_slice()));
    assert(views(serializer@) =~= seq![
        TyView::Obj("kotlinx/serialization/KSerializer"@, seq![class_type("kotlin/Any"@)]),
    ]);
    Ty::obj_args("kotlin/Lazy", serializer.as_slice())
}

/// A generated function without parameters.
pub open spec fn helper(
    name: Seq<char>,
    ret: TyView,
    body: Option<ExprId>,
    receiver: Option<Seq<char>>,
) -> IrFunctionView {
    IrFunctionView {
        name,
        params: seq![],
        ret,
        body,
        is_static: receiver is None,
        dispatch_receiver: receiver,
        param_checks: seq![],
    }
}

fn generated_function(name: &str, ret: Ty, body: ExprId, receiver: Option<TypeName>) -> (function:
    IrFunction)
    ensures
        function@ == helper(
            name@,
            ret@,
            Some(body),
            match receiver {
                Some(owner) => Some(owner@),
                None => None,
            },
        ),
        function.body == Some(body),
{
    let is_static = receiver.is_none();
    let function = IrFunction {
        name: name.to_owned(),
        params: Vec::new(),
        ret,
        body: Some(body),
        is_static,
        dispatch_receiver: receiver,
        param_checks: Vec::new(),
    };
    assert(function@.params =~= Seq::<TyView>::empty());
    assert(function@.param_checks =~= Seq::<Option<Seq<char>>>::empty());
    function
}

/// The static that keeps the delegate, started with `init`.
pub open spec fn delegate_static(owner: Seq<char>, init: ExprId, line: u32) -> IrStaticView {
    IrStaticView {
        name: "$cachedSerializer$delegate"@,
        ty: delegate_type(),
        init,
        is_var: false,
        is_const: false,
        owner: Some(owner),
        visibility: Visibility::Private,
        custom_accessor: true,
        line,
        source_order: u32::MAX,
    }
}

/// `lazy(PUBLICATION, ::initializer)`: the serializer is built on first use.
pub open spec fn published_lazily(initializer: FunId) -> IrTree {
    plain_call_tree(
        static_member(
            "kotlin/LazyKt"@,
            "lazy"@,
            "(Lkotlin/LazyThreadSafetyMode;Lkotlin/jvm/functions/Function0;)Lkotlin/Lazy;"@,
        ),
        seq![
            leaf(
                IrLabel::EnumEntry {
                    classifier: "kotlin/LazyThreadSafetyMode"@,
                    name: "PUBLICATION"@,
                },
            ),
            leaf(
                IrLabel::Lambda {
                    impl_fn: initializer,
                    arity: 0,
                    captures: 0,
                    has_inline_body: false,
                },
            ),
        ],
    )
}

/// Whether `function` is the initializer of a delegate and returns `serializer`.
pub open spec fn initializes_delegate(
    exprs: Seq<IrExpr>,
    function: IrFunction,
    serializer: IrTree,
) -> bool {
    &&& function@ == helper("_init_$_anonymous_"@, raw_serializer(), function.body, None)
    &&& function.body matches Some(body) && grounded(exprs, body) && tree(exprs, body)
        == block_tree(seq![return_tree(serializer)])
}

/// Whether `kept` is the delegate of a class that starts with what `initializer` returns.
pub open spec fn keeps_delegate(
    exprs: Seq<IrExpr>,
    kept: IrStatic,
    owner: Seq<char>,
    initializer: FunId,
    line: u32,
) -> bool {
    &&& kept@ == delegate_static(owner, kept.init, line)
    &&& grounded(exprs, kept.init)
    &&& tree(exprs, kept.init) == published_lazily(initializer)
}

fn plant_lazily(exprs: &mut Vec<IrExpr>, initializer: FunId) -> (id: ExprId)
    ensures
        grows(old(exprs)@, final(exprs)@),
        grounded(final(exprs)@, id),
        tree(final(exprs)@, id) == published_lazily(initializer),
{
    let ghost none = Seq::<ExprId>::empty();
    let ghost nothing = Seq::<IrTree>::empty();
    assert(trees(exprs@, none) =~= nothing);
    let lambda = IrExpr::Lambda {
        impl_fn: initializer,
        arity: 0,
        captures: Vec::new(),
        inline_body: None,
    };
    assert(lambda.operands() =~= none);
    let block: ExprId = plant(exprs, lambda);
    assert(trees(exprs@, none) =~= nothing);
    let mode: ExprId = plant(
        exprs,
        IrExpr::EnumEntry {
            classifier: qualified("kotlin/LazyThreadSafetyMode"),
            name: "PUBLICATION".to_owned(),
        },
    );
    let ghost before = exprs@;
    let mut args: Vec<ExprId> = Vec::new();
    args.push(mode);
    args.push(block);
    assert(trees(before, args@) =~= seq![
        leaf(
            IrLabel::EnumEntry {
                classifier: "kotlin/LazyThreadSafetyMode"@,
                name: "PUBLICATION"@,
            },
        ),
        leaf(
            IrLabel::Lambda {
                impl_fn: initializer,
                arity: 0,
                captures: 0,
                has_inline_body: false,
            },
        ),
    ]);
    plant_plain_call(
        exprs,
        static_callee(
            "kotlin/LazyKt",
            "lazy",
            "(Lkotlin/LazyThreadSafetyMode;Lkotlin/jvm/functions/Function0;)Lkotlin/Lazy;",
        ),
        args,
    )
}

/// Give the class a static that keeps the lazily built `serializer`, and the private function that
/// builds it. Both stand on the line on which the declaration begins.
pub fn add_cached_serializer_delegate(
    ir: &mut IrFile,
    class_id: ClassId,
    class_fq: &TypeName,
    serializer: ExprId,
)
    requires
        class_id < old(ir).classes@.len(),
        grounded(old(ir).exprs@, serializer),
    ensures
        grows(old(ir).exprs@, final(ir).exprs@),
        final(ir).functions@.len() == old(ir).functions@.len() + 1,
        final(ir).functions@.drop_last() == old(ir).functions@,
        initializes_delegate(
            final(ir).exprs@,
            final(ir).functions@.last(),
            tree(old(ir).exprs@, serializer),
        ),
        final(ir).private_methods@ == old(ir).private_methods@.insert(
            old(ir).functions@.len() as usize,
        ),
        final(ir).synthetic_methods@ == old(ir).synthetic_methods@.insert(
            old(ir).functions@.len() as usize,
        ),
        methods_added(
            old(ir).classes@,
            final(ir).classes@,
            class_id,
            seq![old(ir).functions@.len() as usize],
        ),
        final(ir).fn_decl_lines@ == lined(
            old(ir).fn_decl_lines@,
            old(ir).functions@.len() as usize,
            old(ir).classes@[class_id as int].decl_start_line,
        ),
        final(ir).fn_sig_lines@ == lined(
            old(ir).fn_sig_lines@,
            old(ir).functions@.len() as usize,
            old(ir).classes@[class_id as int].decl_start_line,
        ),
        final(ir).statics@.len() == old(ir).statics@.len() + 1,
        final(ir).statics@.drop_last() == old(ir).statics@,
        keeps_delegate(
            final(ir).exprs@,
            final(ir).statics@.last(),
            class_fq@,
            old(ir).functions@.len() as usize,
            old(ir).classes@[class_id as int].decl_start_line,
        ),
        *final(ir) == (IrFile {
            exprs: final(ir).exprs,
            functions: final(ir).functions,
            private_methods: final(ir).private_methods,
            synthetic_methods: final(ir).synthetic_methods,
            classes: final(ir).classes,
            fn_decl_lines: final(ir).fn_decl_lines,
            fn_sig_lines: final(ir).fn_sig_lines,
            statics: final(ir).statics,
            ..*old(ir)
        }),
{
    let ghost start = *ir;
    let owner_line: u32 = ir.classes[class_id].decl_start_line;
    let returned: ExprId = plant_return(&mut ir.exprs, serializer);
    let body: ExprId = plant_block1(&mut ir.exprs, returned);
    let ghost built = ir.exprs@;
    let function = generated_function(
        "_init_$_anonymous_",
        Ty::obj("kotlinx/serialization/KSerializer"),
        body,
        None,
    );
    let anonymous: FunId = ir.add_fun(function);
    assert(ir.functions@.drop_last() =~= start.functions@);
    ir.private_methods.insert(anonymous);
    ir.synthetic_methods.insert(anonymous);
    ir.classes[class_id].methods.push(anonymous);
    assert(ir.classes@[class_id as int].methods@
        =~= start.classes@[class_id as int].methods@ + seq![anonymous]);
    if owner_line != 0 {
        ir.fn_decl_lines.insert(anonymous, owner_line);
        ir.fn_sig_lines.insert(anonymous, owner_line);
    }
    let init: ExprId = plant_lazily(&mut ir.exprs, anonymous);
    assert(grows(built, ir.exprs@));
    ir.statics.push(
        IrStatic {
            name: "$cachedSerializer$delegate".to_owned(),
            ty: delegate_ty(),
            init,
            is_var: false,
            is_const: false,
            owner: Some(class_fq.clone()),
            visibility: Visibility::Private,
            custom_accessor: true,
            line: owner_line,
            source_order: u32::MAX,
        },
    );
    assert(ir.statics@.drop_last() =~= start.statics@);
}

/// `(KSerializer) $cachedSerializer$delegate.value`, returned.
pub open spec fn cached_read(object: Seq<char>) -> IrTree {
    block_tree(
        seq![
            return_tree(
                cast_tree(
                    call_tree(
                        CalleeView::Virtual {
                            owner: "kotlin/Lazy"@,
                            name: "getValue"@,
                            descriptor: ""@,
                            params: Some((seq![], class_type("kotlin/Any"@))),
                            interface: true,
                        },
                        leaf(
                            IrLabel::ExternalStaticField {
                                owner: object,
                                name: "$cachedSerializer$delegate"@,
                                descriptor: "Lkotlin/Lazy;"@,
                            },
                        ),
                        seq![],
                    ),
                    raw_serializer(),
                ),
            ),
        ],
    )
}

fn plant_cached_read(exprs: &mut Vec<IrExpr>, object: &TypeName) -> (id: ExprId)
    ensures
        grows(old(exprs)@, final(exprs)@),
        grounded(final(exprs)@, id),
        tree(final(exprs)@, id) == cached_read(object@),
{
    assert(trees(exprs@, Seq::<ExprId>::empty()) =~= Seq::<IrTree>::empty());
    let read: ExprId = plant(
        exprs,
        IrExpr::ExternalStaticField {
            owner: object.clone(),
            name: "$cachedSerializer$delegate".to_owned(),
            descriptor: "Lkotlin/Lazy;".to_owned(),
        },
    );
    let inputs: Vec<Ty> = Vec::new();
    assert(views(inputs@) =~= Seq::<TyView>::empty());
    let get_value: ExprId = plant_call0(
        exprs,
        Callee::Virtual {
            owner: qualified("kotlin/Lazy"),
            name: "getValue".to_owned(),
            descriptor: "".to_owned(),
            params: Some((inputs, class_ty("kotlin/Any"))),
            interface: true,
        },
        read,
    );
    let cast: ExprId = plant_cast(exprs, get_value, Ty::obj("kotlinx/serialization/KSerializer"));
    let returned: ExprId = plant_return(exprs, cast);
    plant_block1(exprs, returned)
}

/// A call of the method at `index` of the class, on `this`, returned.
pub open spec fn method_result(class: ClassId, index: usize) -> IrTree {
    block_tree(
        seq![
            return_tree(
                IrTree {
                    label: IrLabel::MethodCall { class, index },
                    operands: seq![value_tree(0)],
                },
            ),
        ],
    )
}

fn plant_method_result(exprs: &mut Vec<IrExpr>, class: ClassId, index: usize) -> (id: ExprId)
    ensures
        grows(old(exprs)@, final(exprs)@),
        grounded(final(exprs)@, id),
        tree(final(exprs)@, id) == method_result(class, index),
{
    let this: ExprId = plant_value(exprs, 0);
    let ghost before = exprs@;
    let call = IrExpr::MethodCall { class, index, receiver: this, args: Vec::new() };
    assert(call.operands() =~= seq![this]);
    assert(trees(before, seq![this]) =~= seq![value_tree(0)]);
    let delegate: ExprId = plant(exprs, call);
    let returned: ExprId = plant_return(exprs, delegate);
    plant_block1(exprs, returned)
}

/// The accessor of the serializer of an object: the one that the frontend declared, or the function
/// that follows the cached read.
pub open spec fn accessor_of(before: IrFile, declared: Option<FunId>) -> FunId {
    match declared {
        Some(accessor) => accessor,
        None => (before.functions@.len() + 1) as usize,
    }
}

/// How many functions are added before the initializer of the delegate.
pub open spec fn added_before_initializer(declared: Option<FunId>) -> nat {
    if declared is Some {
        1
    } else {
        2
    }
}

/// The functions of an object that has its serializer.
pub open spec fn object_functions(
    before: IrFile,
    after: IrFile,
    class: ClassId,
    object: Seq<char>,
    declared: Option<FunId>,
) -> bool {
    let cached = before.functions@.len();
    let accessor = accessor_of(before, declared) as int;
    let initializer = cached + added_before_initializer(declared);
    let index = before.classes@[class as int].methods@.len() + added_before_initializer(declared)
        - 1;
    &&& after.functions@.len() == initializer + 1
    &&& forall|k: int|
        0 <= k < cached && k != accessor ==> #[trigger] after.functions@[k] == before.functions@[k]
    &&& after.functions@[cached as int]@ == helper(
        "get$cachedSerializer"@,
        raw_serializer(),
        after.functions@[cached as int].body,
        Some(object),
    )
    &&& after.functions@[cached as int].body matches Some(body) && grounded(after.exprs@, body)
        && tree(after.exprs@, body) == cached_read(object)
    &&& after.functions@[accessor].body matches Some(body) && grounded(after.exprs@, body) && tree(
        after.exprs@,
        body,
    ) == method_result(class, index as usize)
    &&& match declared {
        Some(_) => after.functions@[accessor] == (IrFunction {
            body: after.functions@[accessor].body,
            ..before.functions@[accessor]
        }),
        None => after.functions@[accessor]@ == helper(
            "serializer"@,
            serializer_type(class_type(object)),
            after.functions@[accessor].body,
            Some(object),
        ),
    }
    &&& initializes_delegate(
        after.exprs@,
        after.functions@[initializer as int],
        cast_tree(
            object_serializer_tree(
                object,
                const_tree(IrConstView::String(serial_name(before.classes@[class as int]))),
                false,
            ),
            class_type("kotlinx/serialization/KSerializer"@),
        ),
    )
}

/// What is recorded of the functions of an object that has its serializer.
pub open spec fn object_recorded(
    before: IrFile,
    after: IrFile,
    class: ClassId,
    declared: Option<FunId>,
) -> bool {
    let line = before.classes@[class as int].decl_start_line;
    let cached = before.functions@.len() as usize;
    let accessor = accessor_of(before, declared);
    let initializer = (before.functions@.len() + added_before_initializer(declared)) as usize;
    &&& after.private_methods@ == before.private_methods@.insert(cached).insert(initializer)
    &&& after.synthetic_methods@ == before.synthetic_methods@.insert(cached).insert(initializer)
    &&& after.fn_decl_lines@ == lined(
        lined(lined(before.fn_decl_lines@, cached, line), accessor, line),
        initializer,
        line,
    )
    &&& after.fn_sig_lines@ == lined(
        lined(lined(before.fn_sig_lines@, cached, line), accessor, line),
        initializer,
        line,
    )
    &&& after.fn_source_order@ == before.fn_source_order@.remove(accessor)
    &&& methods_added(
        before.classes@,
        after.classes@,
        class,
        if declared is Some {
            seq![cached, initializer]
        } else {
            seq![accessor, cached, initializer]
        },
    )
}

/// Give a serializable object its serializer: a private function reads the delegate, and the
/// accessor returns what that function returns. `declared` is the accessor that the frontend
/// declared; where there is none, one is added. Nothing of it has a position in the source.
#[verifier::spinoff_prover]
pub fn add_object_serializer(
    ir: &mut IrFile,
    class_id: ClassId,
    class_fq: &TypeName,
    declared: Option<FunId>,
)
    requires
        class_id < old(ir).classes@.len(),
        has_serial_name(old(ir).classes@[class_id as int]),
        declared matches Some(accessor) ==> accessor < old(ir).functions@.len(),
    ensures
        grows(old(ir).exprs@, final(ir).exprs@),
        object_functions(*old(ir), *final(ir), class_id, class_fq@, declared),
        object_recorded(*old(ir), *final(ir), class_id, declared),
        final(ir).statics@.len() == old(ir).statics@.len() + 1,
        final(ir).statics@.drop_last() == old(ir).statics@,
        keeps_delegate(
            final(ir).exprs@,
            final(ir).statics@.last(),
            class_fq@,
            (old(ir).functions@.len() + added_before_initializer(declared)) as usize,
            old(ir).classes@[class_id as int].decl_start_line,
        ),
        final(ir).synthetic_statics@ == old(ir).synthetic_statics@.insert(
            old(ir).statics@.len() as usize,
        ),
        *final(ir) == (IrFile {
            exprs: final(ir).exprs,
            functions: final(ir).functions,
            private_methods: final(ir).private_methods,
            synthetic_methods: final(ir).synthetic_methods,
            synthetic_statics: final(ir).synthetic_statics,
            classes: final(ir).classes,
            fn_decl_lines: final(ir).fn_decl_lines,
            fn_sig_lines: final(ir).fn_sig_lines,
            fn_source_order: final(ir).fn_source_order,
            statics: final(ir).statics,
            ..*old(ir)
        }),
{
    let ghost start = *ir;
    let owner_line: u32 = ir.classes[class_id].decl_start_line;
    let cached_body: ExprId = plant_cached_read(&mut ir.exprs, class_fq);
    let ghost read = ir.exprs@;
    let cached: FunId = ir.add_fun(
        generated_function(
            "get$cachedSerializer",
            Ty::obj("kotlinx/serialization/KSerializer"),
            cached_body,
            Some(class_fq.clone()),
        ),
    );
    ir.private_methods.insert(cached);
    ir.synthetic_methods.insert(cached);
    if owner_line != 0 {
        ir.fn_decl_lines.insert(cached, owner_line);
        ir.fn_sig_lines.insert(cached, owner_line);
    }
    let accessor: FunId = match declared {
        Some(accessor) => accessor,
        None => {
            let accessor: FunId = ir.add_fun(
                generated_function(
                    "serializer",
                    kserializer_of(class_ty(class_fq.text())),
                    cached_body,
                    Some(class_fq.clone()),
                ),
            );
            ir.classes[class_id].methods.push(accessor);
            accessor
        },
    };
    if owner_line != 0 {
        ir.fn_decl_lines.insert(accessor, owner_line);
        ir.fn_sig_lines.insert(accessor, owner_line);
    }
    ir.fn_source_order.remove(&accessor);
    let cached_index: usize = ir.classes[class_id].methods.len();
    ir.classes[class_id].methods.push(cached);
    let body: ExprId = plant_method_result(&mut ir.exprs, class_id, cached_index);
    assert(grows(read, ir.exprs@));
    ir.set_body(accessor, body);
    let ghost delegated = *ir;
    let serial_name = class_serial_name(ir, class_id);
    let name: ExprId = plant_const(&mut ir.exprs, IrConst::String(serial_name));
    let built: ExprId = object_serializer(&mut ir.exprs, class_fq, name, false);
    let serializer: ExprId = plant_cast(
        &mut ir.exprs,
        built,
        class_ty("kotlinx/serialization/KSerializer"),
    );
    assert(grows(delegated.exprs@, ir.exprs@));
    let ghost before = *ir;
    add_cached_serializer_delegate(ir, class_id, class_fq, serializer);
    assert(grows(delegated.exprs@, ir.exprs@));
    assert(grows(read, ir.exprs@));
    assert(forall|k: int|
        0 <= k < before.functions@.len() ==> #[trigger] ir.functions@[k]
            == ir.functions@.drop_last()[k]);
    proof {
        let added = if declared is Some {
            seq![cached, before.functions@.len() as usize]
        } else {
            seq![accessor, cached, before.functions@.len() as usize]
        };
        assert(ir.classes@[class_id as int].methods@
            =~= start.classes@[class_id as int].methods@ + added);
    }
    let delegate: usize = ir.statics.len() - 1;
    ir.synthetic_statics.insert(delegate);
}

} // verus!
