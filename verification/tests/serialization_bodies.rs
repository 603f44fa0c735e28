//! The bodies that the serialization plugin generates.

use krusty::ast::ExprId as SourceExprId;
use krusty::ir::expr::{ClassId, FunId, IrConst, IrExpr};
use krusty::ir::file::{
    CheckedProperty, IrClass, IrCtorArg, IrField, IrFile, IrFunction, IrProperty,
};
use krusty::jvm::ir_emit::jvm_can_emit;
use krusty::kt_string::KtString;
use krusty::libraries::{GenericReturnPolicy, GenericSig, InlineKind};
use krusty::names::qualified;
use krusty::plugins::context::{ClassAnnotation, PluginContext};
use krusty::plugins::frontend::FrontendSelectedCall;
use krusty::plugins::serialization::cached_serializer::{
    add_cached_serializer_delegate, object_position,
};
use krusty::plugins::serialization::child_serializer_cache::{
    cached_element, cached_strategy, ChildSerializerCachePlan,
};
use krusty::plugins::serialization::constructed_standard_serializers::constructed_standard_serializer;
use krusty::plugins::serialization::descriptor_element::{plan, specialize};
use krusty::plugins::serialization::deserialization_constructor::{
    add_cached_descriptor, element_bit_of, ConstructorSource,
};
use krusty::plugins::serialization::deserialize_body::{DecodeLocals, DeserializeBody};
use krusty::plugins::serialization::element_serializer::{
    always_available_builtin_serializer, builtin_serializers, child_cache_element_plan,
    element_serializer_expr, element_serializer_plan, element_serializer_plan_in,
    readable_type_argument, runtime_dependent_serializers, ElementSerializerPlan,
};
use krusty::plugins::serialization::property_default::{
    checked_default, default_in_frame, DefaultFrame,
};
use krusty::plugins::serialization::serial_elements::{SerialElements, SerializedProperties};
use krusty::plugins::serialization::serialize_body::SerializeBody;
use krusty::plugins::serialization::type_parameter_serializers::{
    identities, TypeParameterSerializers,
};
use krusty::plugins::serialization::value_class_types::inline_prim_methods;
use krusty::types::Ty;

fn any() -> Ty {
    Ty::nullable(Ty::obj("kotlin/Any"))
}

fn list(element: Ty) -> Ty {
    Ty::obj_args("kotlin/collections/List", &[element])
}

fn function(name: &str, params: Vec<Ty>, ret: Ty) -> IrFunction {
    IrFunction {
        name: name.to_string(),
        params,
        ret,
        body: None,
        is_static: false,
        dispatch_receiver: None,
        param_checks: vec![],
    }
}

// Serializers of elements.

#[test]
fn a_builtin_type_has_its_own_serializer() {
    let ir = IrFile::default();
    let ctx = PluginContext::default();
    assert!(matches!(
        element_serializer_plan(&ir, &ctx, &Ty::Int),
        Some(ElementSerializerPlan::Builtin(name))
            if name == qualified("kotlinx/serialization/internal/IntSerializer")
    ));
    assert!(matches!(
        element_serializer_plan(&ir, &ctx, &Ty::nullable(Ty::String)),
        Some(ElementSerializerPlan::Builtin(name))
            if name == qualified("kotlinx/serialization/internal/StringSerializer")
    ));
    assert!(element_serializer_plan(&ir, &ctx, &Ty::obj("demo/Unknown")).is_none());
    assert_eq!(
        always_available_builtin_serializer(&Ty::Long),
        Some(qualified("kotlinx/serialization/internal/LongSerializer"))
    );
    assert_eq!(
        always_available_builtin_serializer(&Ty::obj("kotlin/uuid/Uuid")),
        None
    );
    let dependent = runtime_dependent_serializers();
    for classifier in ["kotlin/uuid/Uuid", "kotlin/time/Instant"] {
        let found = builtin_serializers(&qualified(classifier)).unwrap();
        assert!(found.requires_runtime_declaration);
        assert!(dependent.contains(&found.serializer));
    }
    assert!(builtin_serializers(&qualified("demo/Unknown")).is_none());
}

#[test]
fn a_collection_is_constructed_over_its_elements() {
    let ir = IrFile::default();
    let ctx = PluginContext::default();
    match element_serializer_plan(&ir, &ctx, &list(Ty::Int)) {
        Some(ElementSerializerPlan::ConstructedStandard {
            serializer,
            arguments,
        }) => {
            assert_eq!(
                serializer,
                qualified("kotlinx/serialization/internal/ArrayListSerializer")
            );
            assert!(matches!(
                arguments.as_slice(),
                [ElementSerializerPlan::Builtin(_)]
            ));
        }
        _ => panic!("a list has a standard serializer"),
    }
    assert!(matches!(
        element_serializer_plan(&ir, &ctx, &list(Ty::nullable(Ty::Int))),
        Some(ElementSerializerPlan::ConstructedStandard { arguments, .. })
            if matches!(arguments.as_slice(), [ElementSerializerPlan::Nullable(_)])
    ));
    assert!(element_serializer_plan(&ir, &ctx, &list(Ty::obj("demo/Unknown"))).is_none());
    for (classifier, serializer) in [
        ("kotlin/collections/Set", "LinkedHashSetSerializer"),
        ("kotlin/collections/MutableMap", "LinkedHashMapSerializer"),
        ("kotlin/Pair", "PairSerializer"),
        ("kotlin/Triple", "TripleSerializer"),
        ("kotlin/collections/Map.Entry", "MapEntrySerializer"),
    ] {
        assert_eq!(
            constructed_standard_serializer(&qualified(classifier)),
            Some(qualified(&format!(
                "kotlinx/serialization/internal/{serializer}"
            )))
        );
    }
    assert_eq!(
        constructed_standard_serializer(&qualified("demo/List")),
        None
    );
}

#[test]
fn a_type_parameter_is_serialized_in_its_scope_only() {
    let ir = IrFile::default();
    let ctx = PluginContext::default();
    let names = vec!["A".to_string(), "B".to_string()];
    let scope = TypeParameterSerializers::new(4, &names);
    assert_eq!(scope.field("A"), Some(1));
    assert_eq!(scope.field("B"), Some(2));
    assert_eq!(scope.field("C"), None);
    assert_eq!(scope.serializer_class(), 4);
    let formal = Ty::ty_param("B", any());
    assert!(matches!(
        element_serializer_plan_in(&ir, &ctx, &formal, scope),
        Some(ElementSerializerPlan::TypeParameter {
            serializer_class: 4,
            field: 2
        })
    ));
    assert!(element_serializer_plan(&ir, &ctx, &formal).is_none());
    assert_eq!(TypeParameterSerializers::none().field("A"), None);
}

#[test]
fn a_serializer_class_is_constructed_over_what_its_arguments_read_as() {
    let mut ir = IrFile::default();
    let mut serialized = IrClass::named("demo/Box");
    serialized.type_params = vec!["T".to_string()];
    let serialized_id = ir.add_class(serialized);
    let mut serializer = IrClass::named("demo/BoxSerializer");
    serializer.type_params = vec!["T".to_string()];
    let mut parameter = field_argument(0, false);
    parameter.ty = Ty::obj_args(
        "kotlinx/serialization/KSerializer",
        &[Ty::ty_param("T", any())],
    );
    serializer.ctor_args = vec![parameter];
    let serializer_id = ir.add_class(serializer);
    let mut ctx = PluginContext::default();
    ctx.class_annotations.push(ClassAnnotation {
        class: serialized_id,
        annotation: qualified("kotlinx/serialization/Serializable"),
        class_literal: Some(qualified("demo/BoxSerializer")),
    });
    let plan = |argument: Ty| {
        element_serializer_plan(&ir, &ctx, &Ty::obj_args("demo/Box", &[argument]))
    };
    let out = |inner: Ty| Ty::OutProjection(Box::new(inner));
    // An argument is read before it is planned for, so a projection in a projection is seen through.
    for argument in [Ty::Int, out(Ty::Int), out(out(Ty::Int))] {
        match plan(argument) {
            Some(ElementSerializerPlan::LocalConstructed {
                serializer,
                arguments,
            }) => {
                assert_eq!(serializer, serializer_id);
                assert!(matches!(
                    arguments.as_slice(),
                    [ElementSerializerPlan::Builtin(_)]
                ));
            }
            other => panic!("{other:?}"),
        }
    }
    assert!(plan(out(out(out(Ty::Int)))).is_none());
    assert!(plan(Ty::InProjection(Box::new(Ty::Int))).is_none());
    assert!(plan(out(Ty::InProjection(Box::new(Ty::Int)))).is_none());
    // Elsewhere an argument is read once.
    assert!(element_serializer_plan(&ir, &ctx, &list(out(Ty::Int))).is_some());
    assert!(element_serializer_plan(&ir, &ctx, &list(out(out(Ty::Int)))).is_none());
}

#[test]
fn a_cached_slot_needs_a_serializer() {
    let ir = IrFile::default();
    let ctx = PluginContext::default();
    assert!(matches!(
        child_cache_element_plan(&ir, &ctx, &Ty::Int),
        Ok(None)
    ));
    assert!(matches!(
        child_cache_element_plan(&ir, &ctx, &list(Ty::Int)),
        Ok(Some(ElementSerializerPlan::ConstructedStandard { .. }))
    ));
    assert!(child_cache_element_plan(&ir, &ctx, &list(Ty::obj("demo/Unknown"))).is_err());
}

#[test]
fn a_projection_is_read_as_what_it_yields() {
    let out = Ty::OutProjection(Box::new(Ty::Int));
    assert_eq!(readable_type_argument(&out), Some(&Ty::Int));
    assert_eq!(readable_type_argument(&Ty::Int), Some(&Ty::Int));
}

#[test]
fn a_cached_element_is_read_from_the_cache() {
    let plan = Some(ChildSerializerCachePlan {
        static_index: 0,
        accessor: 0,
        cached: vec![true, false],
    });
    let mut exprs: Vec<IrExpr> = vec![];
    assert!(cached_element(&mut exprs, &plan, 5, 1, 2, &list(Ty::Int)).is_none());
    assert!(exprs.is_empty());
    assert!(cached_element(&mut exprs, &plan, 5, 0, 2, &list(Ty::Int)).is_some());
    assert!(!exprs.is_empty());
    let mut exprs: Vec<IrExpr> = vec![];
    let strategy = cached_strategy(
        &mut exprs,
        &plan,
        5,
        0,
        2,
        "kotlinx/serialization/DeserializationStrategy",
    )
    .unwrap();
    assert!(matches!(
        &exprs[strategy],
        IrExpr::TypeOp { type_operand, .. }
            if *type_operand == Ty::obj("kotlinx/serialization/DeserializationStrategy")
    ));
    assert!(cached_strategy(&mut vec![], &None, 5, 0, 2, "demo/Strategy").is_none());
}

#[test]
fn a_primitive_is_read_and_written_inline() {
    let methods = inline_prim_methods(&Ty::Int).unwrap();
    assert_eq!(methods.encode_name, "encodeInt");
    assert_eq!(methods.encode_descriptor, "(I)V");
    assert_eq!(methods.decode_name, "decodeInt");
    assert_eq!(methods.decode_descriptor, "()I");
    assert!(inline_prim_methods(&Ty::obj("demo/Unknown")).is_none());
}

// Elements.

fn field_argument(field: u32, has_default: bool) -> IrCtorArg {
    IrCtorArg {
        ty: Ty::Int,
        declared_ty: None,
        is_field: true,
        field_index: Some(field),
        has_default,
    }
}

/// A class with the fields `a` and `b`, of which `b` defaults to 7 and `c`, in the body, to 9.
fn sample() -> (IrFile, ClassId) {
    let mut ir = IrFile::default();
    let default = ir.add_expr(IrExpr::Const(IrConst::Int(7)));
    let initializer = ir.add_expr(IrExpr::Const(IrConst::Int(9)));
    let mut class = IrClass::named("demo/Sample");
    class.has_primary_ctor = true;
    class.fields = ["a", "b", "c"]
        .iter()
        .map(|name| IrField::new(name.to_string(), Ty::Int))
        .collect();
    class.ctor_param_count = 2;
    class.ctor_args = vec![field_argument(0, false), field_argument(1, true)];
    let name = class.name.clone();
    let class_id = ir.add_class(class);
    ir.class_ctor_defaults
        .push((name, vec![None, Some(default)]));
    ir.checked_properties.push(CheckedProperty {
        initializer: Some(initializer),
        member: Some((class_id, 2)),
    });
    (ir, class_id)
}

#[test]
fn a_transient_field_is_no_element() {
    let (mut ir, class_id) = sample();
    assert_eq!(SerialElements::of(&ir, class_id).fields(), &[0, 1, 2]);
    ir.classes[class_id].properties.push(IrProperty {
        ty: Ty::Int,
        annotations: vec![qualified("kotlinx/serialization/Transient")],
        backing_field: Some(1),
    });
    let elements = SerialElements::of(&ir, class_id);
    assert_eq!(elements.fields(), &[0, 2]);
    assert_eq!(
        elements.select(&[Ty::Byte, Ty::Short, Ty::Long]),
        vec![Ty::Byte, Ty::Long]
    );
    let properties = SerializedProperties::of(&ir, class_id);
    assert_eq!(properties.fields[1], ("b".to_string(), Ty::Int));
    assert_eq!(properties.serializer_types.len(), 3);
}

#[test]
fn a_default_is_the_one_that_the_constructor_runs() {
    let (ir, class_id) = sample();
    assert_eq!(checked_default(&ir, class_id, 0), None);
    assert_eq!(checked_default(&ir, class_id, 1), Some(0));
    assert_eq!(checked_default(&ir, class_id, 2), Some(1));
    assert_eq!(checked_default(&ir, class_id, 3), None);
}

#[test]
fn a_default_is_copied_into_a_frame() {
    let (mut ir, class_id) = sample();
    let frame = || DefaultFrame {
        first_free_local: 4,
        object: 1,
        receiver: None,
        property_line: None,
        read_line: None,
    };
    let copy = default_in_frame(&mut ir, class_id, 1, frame()).unwrap();
    assert!(copy > 1);
    assert!(matches!(ir.expr(copy), IrExpr::Const(IrConst::Int(7))));
    assert!(default_in_frame(&mut ir, class_id, 0, frame()).is_none());
    let parameter = ir.add_expr(IrExpr::GetValue(1));
    ir.class_ctor_defaults[0].1[1] = Some(parameter);
    let copy = default_in_frame(&mut ir, class_id, 1, frame()).unwrap();
    assert!(matches!(
        ir.expr(copy),
        IrExpr::GetField { class, index: 0, .. } if *class == class_id
    ));
}

#[test]
fn a_copied_default_is_attributed_to_its_property() {
    let (mut ir, class_id) = sample();
    let parameter = ir.add_expr(IrExpr::GetValue(1));
    let constant = ir.add_expr(IrExpr::Const(IrConst::Int(5)));
    let default = ir.add_expr(IrExpr::Vararg {
        array_type: Ty::obj("kotlin/IntArray"),
        elements: vec![parameter, constant],
        spreads: vec![false, false],
    });
    ir.class_ctor_defaults[0].1[1] = Some(default);
    let mut attributed = |property_line: Option<u32>, read_line: Option<u32>| {
        let frame = DefaultFrame {
            first_free_local: 4,
            object: 1,
            receiver: None,
            property_line,
            read_line,
        };
        let copy = default_in_frame(&mut ir, class_id, 1, frame).unwrap();
        let elements = match ir.expr(copy) {
            IrExpr::Vararg { elements, .. } => elements.clone(),
            other => panic!("{other:?}"),
        };
        let line = |id: usize| ir.expr_source_lines.get(&id).copied();
        assert_eq!(line(default), None);
        (line(copy), line(elements[0]), line(elements[1]))
    };
    assert_eq!(attributed(None, None), (None, None, None));
    assert_eq!(attributed(Some(8), None), (Some(8), None, Some(8)));
    assert_eq!(attributed(Some(8), Some(3)), (Some(8), Some(3), Some(8)));
}

#[test]
fn a_default_that_shares_a_part_shares_its_copy() {
    let (mut ir, class_id) = sample();
    let shared = ir.add_expr(IrExpr::Const(IrConst::Int(5)));
    let default = ir.add_expr(IrExpr::Vararg {
        array_type: Ty::obj("kotlin/IntArray"),
        elements: vec![shared, shared],
        spreads: vec![false, false],
    });
    ir.class_ctor_defaults[0].1[1] = Some(default);
    let before = ir.exprs.len();
    let copy = default_in_frame(
        &mut ir,
        class_id,
        1,
        DefaultFrame {
            first_free_local: 4,
            object: 1,
            receiver: None,
            property_line: None,
            read_line: None,
        },
    )
    .unwrap();
    assert!(copy >= before);
    match ir.expr(copy) {
        IrExpr::Vararg { elements, .. } => {
            assert!(elements[0] >= before);
            assert_eq!(elements[0], elements[1]);
        }
        other => panic!("{other:?}"),
    }
    assert!(matches!(
        ir.expr(default),
        IrExpr::Vararg { elements, .. } if *elements == vec![shared, shared]
    ));
}

#[test]
fn bits_repeat_in_every_word() {
    assert_eq!(element_bit_of(0), 1);
    assert_eq!(element_bit_of(31), i32::MIN);
    assert_eq!(element_bit_of(32), 1);
    assert_eq!(element_bit_of(34), 4);
}

#[test]
fn the_locals_of_a_decoder_do_not_overlap() {
    let locals = DecodeLocals::new(1, 33);
    assert_eq!(locals.descriptor, 2);
    assert_eq!(locals.flag, 3);
    assert_eq!(locals.index, 4);
    assert_eq!(locals.first_seen, 5);
    assert_eq!(locals.first_field, 7);
    assert_eq!(locals.composite, 40);
    assert_eq!(locals.cache, 41);
}

// Bodies.

fn with_constructor() -> (IrFile, ClassId, ClassId, FunId) {
    let (mut ir, class_id) = sample();
    let mut serializer = IrClass::named("demo/Sample.$serializer");
    serializer.is_object = true;
    let serializer_id = ir.add_class(serializer);
    let fields = named_fields();
    let elements = SerialElements::of(&ir, class_id);
    ConstructorSource {
        class_id,
        serializer_id,
        named_fields: &fields,
        elements: &elements,
        cached_descriptor: None,
    }
    .add_deserialization_constructor(&mut ir);
    let function = ir.add_fun(function("deserialize", vec![any()], any()));
    (ir, class_id, serializer_id, function)
}

fn named_fields() -> Vec<(String, Ty)> {
    ["a", "b", "c"]
        .iter()
        .map(|name| (name.to_string(), Ty::Int))
        .collect()
}

#[test]
fn a_deserialization_constructor_takes_the_words_and_the_elements() {
    let (ir, class_id, ..) = with_constructor();
    let constructors = &ir.classes[class_id].secondary_ctors;
    assert_eq!(constructors.len(), 1);
    assert!(constructors[0].synthetic);
    assert_eq!(constructors[0].params.len(), 1 + 3 + 1);
    assert_eq!(constructors[0].params[0], Ty::Int);
    assert!(constructors[0].body.is_some());
    assert_eq!(ir.generated_constructors.len(), 1);
    assert_eq!(ir.generated_constructors[0].class, class_id);
    assert!(jvm_can_emit(&ir));
}

fn deserialize(
    ir: &mut IrFile,
    function: FunId,
    serializer_class: ClassId,
    serialized_class: ClassId,
    fields: &[(String, Ty)],
) {
    DeserializeBody {
        function,
        serializer_class,
        serialized_class,
        fields,
        type_parameter_serializers: TypeParameterSerializers::none(),
        cache: None,
    }
    .generate(ir, &PluginContext::default());
}

#[test]
fn a_decoder_calls_the_generated_constructor() {
    let (mut ir, class_id, serializer_id, function) = with_constructor();
    deserialize(&mut ir, function, serializer_id, class_id, &named_fields());
    assert!(ir.functions[function].body.is_some());
    assert_eq!(ir.generated_constructor_calls.len(), 1);
    let call = ir.generated_constructor_calls[0].0;
    assert!(matches!(
        ir.expr(call),
        IrExpr::New { internal, args, .. }
            if *internal == qualified("demo/Sample") && args.len() == 1 + 3 + 1
    ));
    let body = ir.functions[function].body.unwrap();
    let last = match ir.expr(body) {
        IrExpr::Block { stmts, .. } => *stmts.last().unwrap(),
        other => panic!("{other:?}"),
    };
    assert!(matches!(ir.expr(last), IrExpr::Return(Some(returned)) if *returned == call));
    assert!(jvm_can_emit(&ir));
}

#[test]
fn an_undecodable_element_builds_nothing() {
    let (mut ir, class_id, serializer_id, function) = with_constructor();
    let mut fields = named_fields();
    fields[0].1 = Ty::obj("demo/Unknown");
    deserialize(&mut ir, function, serializer_id, class_id, &fields);
    assert!(ir.functions[function].body.is_some());
    assert!(ir.generated_constructor_calls.is_empty());
}

#[test]
fn an_inline_class_is_read_from_its_primitive() {
    let mut ir = IrFile::default();
    let mut class = IrClass::named("demo/Inline");
    class.is_value = true;
    class.fields = vec![IrField::new("value".to_string(), Ty::Int)];
    let class_id = ir.add_class(class);
    let mut serializer = IrClass::named("demo/Inline.$serializer");
    serializer.is_object = true;
    let serializer_id = ir.add_class(serializer);
    let function = ir.add_fun(function("deserialize", vec![any()], any()));
    deserialize(
        &mut ir,
        function,
        serializer_id,
        class_id,
        &[("value".to_string(), Ty::Int)],
    );
    assert!(ir.functions[function].body.is_some());
    assert!(ir.generated_constructor_calls.is_empty());
    assert!(jvm_can_emit(&ir));
}

fn serialize(ctx: &PluginContext, through_helper: bool) -> (IrFile, FunId, Option<FunId>) {
    let (mut ir, class_id, serializer_id, _) = with_constructor();
    let member = ir.add_fun(function("serialize", vec![any(), any()], Ty::Unit));
    let write_self = if through_helper {
        Some(ir.add_fun(function("write$Self", vec![any(), any(), any()], Ty::Unit)))
    } else {
        None
    };
    let fields = named_fields();
    SerializeBody {
        function: member,
        serializer_class: serializer_id,
        serialized_class: class_id,
        fields: &fields,
        field_defaults: &[None, Some(IrConst::Int(7)), None],
        nested_serializers: &[None, None, None],
        type_parameter_serializer_fields: &[None, None, None],
        write_self,
        write_self_name: "write$Self".to_string(),
    }
    .generate(&mut ir, ctx);
    (ir, member, write_self)
}

#[test]
fn a_serializer_writes_each_element() {
    let (ir, member, helper) = serialize(&PluginContext::default(), true);
    assert!(ir.functions[member].body.is_some());
    let body = ir.functions[helper.unwrap()].body.unwrap();
    let IrExpr::Block { stmts, .. } = ir.expr(body) else {
        panic!("the helper is a block")
    };
    assert_eq!(stmts.len(), 4);
    assert!(matches!(ir.expr(stmts[0]), IrExpr::Call { .. }));
    assert!(matches!(ir.expr(stmts[1]), IrExpr::When { .. }));
    assert!(matches!(ir.expr(stmts[2]), IrExpr::Call { .. }));
    assert!(matches!(ir.expr(stmts[3]), IrExpr::Return(None)));
    assert!(jvm_can_emit(&ir));
}

#[test]
fn a_serializer_without_a_helper_reads_through_getters() {
    let mut ctx = PluginContext::default();
    assert!(!jvm_can_emit(&serialize(&ctx, false).0));
    ctx.descriptors.push((Ty::Int, "I".to_string()));
    assert!(jvm_can_emit(&serialize(&ctx, false).0));
}

#[test]
fn the_serializers_of_type_parameters_are_given_out_in_order() {
    let mut ir = IrFile::default();
    let mut class = IrClass::named("demo/Box");
    class.type_params = vec!["T".to_string()];
    let class_id = ir.add_class(class);
    ir.class_signatures
        .push((qualified("demo/Box"), vec!["demo.Box.T".to_string()]));
    let names = identities(&ir, class_id);
    assert_eq!(names, vec!["demo.Box.T".to_string()]);
    let plain = ir.add_class(IrClass::named("demo/Plain"));
    assert!(identities(&ir, plain).is_empty());
    let member = ir.add_fun(function("typeParametersSerializers", vec![], any()));
    TypeParameterSerializers::new(class_id, &names).install_member_body(&mut ir, member);
    let body = ir.functions[member].body.unwrap();
    let IrExpr::Block { stmts, .. } = ir.expr(body) else {
        panic!("a body is a block")
    };
    let IrExpr::Return(Some(array)) = ir.expr(stmts[0]) else {
        panic!("the body returns")
    };
    assert!(matches!(
        ir.expr(*array),
        IrExpr::Vararg { elements, .. } if elements.len() == 1
    ));
}

#[test]
fn a_cached_descriptor_names_its_elements() {
    let mut ir = IrFile::default();
    let index = add_cached_descriptor(
        &mut ir,
        &qualified("demo/Sample"),
        &KtString::from("demo.Sample"),
        &[(KtString::from("a"), false), (KtString::from("b"), true)],
    );
    assert_eq!(index, 0);
    assert_eq!(ir.statics[0].name, "$cachedDescriptor");
    assert_eq!(ir.statics[0].owner, Some(qualified("demo/Sample")));
    assert!(ir.exprs.iter().any(
        |expr| matches!(expr, IrExpr::Const(IrConst::String(text)) if *text == KtString::from("b"))
    ));
}

#[test]
fn an_object_keeps_a_lazy_serializer() {
    let mut ir = IrFile::default();
    let mut object = IrClass::named("demo/Single");
    object.is_object = true;
    let class_id = ir.add_class(object);
    assert_eq!(
        object_position(&ir, &qualified("demo/Single")),
        Some(class_id)
    );
    assert_eq!(object_position(&ir, &qualified("demo/Other")), None);
    let serializer = element_serializer_expr(&mut ir, &PluginContext::default(), &Ty::Int).unwrap();
    add_cached_serializer_delegate(&mut ir, class_id, &qualified("demo/Single"), serializer);
    assert_eq!(ir.functions.len(), 1);
    assert!(ir.private_methods.contains(&0));
    assert!(ir.synthetic_methods.contains(&0));
    assert!(ir.functions[0].body.is_some());
    assert_eq!(ir.classes[class_id].methods, vec![0]);
}

// Elements of descriptors.

fn element_call(optional: Option<SourceExprId>) -> FrontendSelectedCall {
    let builder = Ty::obj("kotlinx/serialization/descriptors/ClassSerialDescriptorBuilder");
    FrontendSelectedCall {
        owner: qualified("kotlinx/serialization/descriptors/SerialDescriptorsKt"),
        name: "element".to_string(),
        inline: InlineKind::MustInline,
        generic_sig: Some(GenericSig {
            formals: vec!["T".to_string()],
            formal_bounds: vec![],
            receiver: Some(builder.clone()),
            params: vec![],
            ret: Ty::Unit,
            return_policy: GenericReturnPolicy::Exact,
        }),
        params: vec![Ty::String, list(any()), Ty::Boolean],
        explicit_receiver: None,
        implicit_receiver: Some(builder),
        argument_slots: vec![Some(SourceExprId(3)), None, optional],
        type_arguments: vec![Some(Ty::Int)],
    }
}

#[test]
fn an_element_of_a_descriptor_is_planned() {
    let planned = plan(&element_call(None)).unwrap();
    assert_eq!(planned.operation, "descriptorElementDefaultBoth");
    assert!(planned.implicit_receiver);
    assert_eq!(planned.types, vec![Ty::Int]);
    assert_eq!(planned.operands, vec![(SourceExprId(3), Ty::String)]);
    let optional = plan(&element_call(Some(SourceExprId(4)))).unwrap();
    assert_eq!(optional.operation, "descriptorElementDefaultAnnotations");
    assert_eq!(optional.operands.len(), 2);
    let mut elsewhere = element_call(None);
    elsewhere.owner = qualified("demo/DescriptorsKt");
    assert!(plan(&elsewhere).is_none());
    let mut open = element_call(None);
    open.type_arguments = vec![None];
    assert!(plan(&open).is_none());
}

fn planned_element(ty: Ty) -> (IrFile, usize, Vec<usize>) {
    let mut ir = IrFile::default();
    let builder = ir.add_expr(IrExpr::GetValue(0));
    let name = ir.add_expr(IrExpr::Const(IrConst::String(KtString::from("x"))));
    let index = ir.add_expr(IrExpr::PluginPlaceholder {
        plugin: "serialization",
        kind: "descriptorElementDefaultBoth",
        exprs: vec![builder, name],
        data: vec![],
        types: vec![ty],
    });
    (ir, index, vec![builder, name])
}

#[test]
fn a_planned_element_is_realized_where_it_has_a_serializer() {
    let ctx = PluginContext::default();
    let (mut ir, index, operands) = planned_element(Ty::Int);
    assert!(specialize(
        &mut ir,
        &ctx,
        index,
        "descriptorElementDefaultBoth",
        &operands,
        &[Ty::Int]
    ));
    assert!(!matches!(ir.expr(index), IrExpr::PluginPlaceholder { .. }));
    assert!(jvm_can_emit(&ir));
    let unknown = Ty::obj("demo/Unknown");
    let (mut ir, index, operands) = planned_element(unknown.clone());
    assert!(specialize(
        &mut ir,
        &ctx,
        index,
        "descriptorElementDefaultBoth",
        &operands,
        &[unknown]
    ));
    assert!(!jvm_can_emit(&ir));
    let (mut ir, index, operands) = planned_element(Ty::Int);
    assert!(!specialize(
        &mut ir,
        &ctx,
        index,
        "anotherOperation",
        &operands,
        &[Ty::Int]
    ));
}
