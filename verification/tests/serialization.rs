//! The serialization plugin.

use krusty::declarations::{
    AnnotationValue, ClassifierDeclarationFacts, ClassifierDeclarationKind, ResolvedAnnotation,
};
use krusty::ir::annotations::{
    AnnoValue, AnnotationRetention, AppliedAnnotation, DeclarationAnnotations, FieldAnnotations,
    RetainedAnnotation,
};
use krusty::ir::expr::{Callee, ClassId, IrConst, IrExpr};
use krusty::ir::file::{IrClass, IrEnumEntry, IrField, IrFile, IrFunction};
use krusty::ir::generated::{
    IrGeneratedDeclarationDebug, IrGeneratedFunctionMetadataScope, IrGeneratedMemberPublication,
};
use krusty::jvm::ir_emit::jvm_can_emit;
use krusty::kt_string::KtString;
use krusty::libraries::{
    GenericReturnPolicy, GenericSig, MemberRealization, TypeKind, Visibility,
};
use krusty::names::{qualified, TypeName};
use krusty::plugins::context::PluginContext;
use krusty::plugins::frontend::{
    FrontendCallable, FrontendCallableOwner, FrontendClassCheckContext, FrontendClassContext,
    FrontendPluginDiagnostic, FrontendPropertyFacts, GeneratedClassifierFact,
    GeneratedClassifierKind, GeneratedClassifierPurpose, PluginExpressionDeclaration, Span,
    TypeParameters, TypeVariance,
};
use krusty::plugins::serialization::annotations::{
    serial_name_fq, serializable_fq, transient_fq, write_self_annotations,
};
use krusty::plugins::serialization::child_serializer_cache::add_child_serializer_cache;
use krusty::plugins::serialization::deserialization_constructor::required_masks;
use krusty::plugins::serialization::element_serializer::{
    emit_element_serializer, ElementSerializerPlan,
};
use krusty::plugins::serialization::enum_serializer::factory_call;
use krusty::plugins::serialization::external_serializer::{
    generated_external_serializer, ExternalSerializer,
};
use krusty::plugins::serialization::generated_classifier::{
    generated_serializer_classifier_fact, kserializer_of, SerializationPlugin,
};
use krusty::plugins::serialization::generated_members::{
    add_serializer_members, write_self_publication, GeneratedSerializerMembers,
};
use krusty::plugins::serialization::plugin_release::PluginRelease;
use krusty::plugins::serialization::runtime_abi::SerializationAbi;
use krusty::plugins::serialization::serialize_body::SerializeBody;
use krusty::plugins::serialization::support::class_ty;
use krusty::plugins::serialization::transient_initializer::{
    missing_initializers, transient_missing_initializer,
};
use krusty::plugins::serialization::value_class_types::value_class_underlying;
use krusty::types::Ty;

const KSERIALIZER_FQ: &str = "kotlinx/serialization/KSerializer";
const GENERATED_SERIALIZER_FQ: &str = "kotlinx/serialization/internal/GeneratedSerializer";
const SERIALIZER_OBJECT_NAME: &str = "$serializer";

#[test]
fn write_self_has_exact_jvm_static_annotation() {
    let annotations = write_self_annotations();
    let applications = annotations
        .retained
        .iter()
        .map(|retained| &retained.annotation)
        .collect::<Vec<_>>();
    assert_eq!(applications.len(), 1);
    assert_eq!(applications[0].internal, qualified("kotlin/jvm/JvmStatic"));
    assert!(applications[0].values.is_empty());
}

fn holder(element: &Ty) -> (IrFile, ClassId, Vec<(String, Ty)>) {
    let mut ir = IrFile::default();
    let mut holder = IrClass::named("demo/Holder");
    holder.fields = vec![IrField::new("tags".to_string(), element.clone())];
    holder.ctor_param_count = 1;
    let class_id = ir.add_class(holder);
    (ir, class_id, vec![("tags".to_string(), element.clone())])
}

/// A cached slot whose serializer cannot be constructed refuses the file. `List<demo/Unknown>` needs
/// a cache, and `Unknown` has no serializer, so the plugin publishes an unsupported residual.
#[test]
fn an_underivable_cached_slot_refuses_the_file() {
    let element = Ty::obj_args("kotlin/collections/List", &[class_ty("demo/Unknown")]);
    let (mut ir, class_id, fields) = holder(&element);
    let serialized = ir.classes[class_id].name.clone();

    add_child_serializer_cache(
        &mut ir,
        &PluginContext::default(),
        class_id,
        &serialized,
        &fields,
    );

    let cache = ir
        .statics
        .iter()
        .find(|s| s.name == "$childSerializers")
        .expect("the refusal is published as the cache's own initializer");
    assert!(
        matches!(
            ir.expr(cache.init),
            IrExpr::PluginPlaceholder {
                plugin: "serialization",
                ..
            }
        ),
        "an underivable required slot publishes an unsupported residual, not a null"
    );
    assert!(
        !jvm_can_emit(&ir),
        "and that residual must make the file undecidable rather than emit a broken cache"
    );
}

/// Every cached slot derives, so the cache is built and the file emits.
#[test]
fn a_derivable_cached_slot_builds_the_cache() {
    let element = Ty::obj_args("kotlin/collections/List", &[Ty::String]);
    let (mut ir, class_id, fields) = holder(&element);
    let serialized = ir.classes[class_id].name.clone();

    add_child_serializer_cache(
        &mut ir,
        &PluginContext::default(),
        class_id,
        &serialized,
        &fields,
    );

    let cache = ir
        .statics
        .iter()
        .find(|s| s.name == "$childSerializers")
        .expect("a `List<String>` element serializer derives, so the cache is built");
    assert!(
        !matches!(ir.expr(cache.init), IrExpr::PluginPlaceholder { .. }),
        "a derivable slot publishes a real initializer"
    );
    assert!(
        ir.classes[class_id]
            .methods
            .iter()
            .any(|&m| ir.functions[m].name == "access$get$childSerializers$cp"),
        "and the accessor the `$serializer` reads it through"
    );
    assert!(jvm_can_emit(&ir));
}

#[test]
fn required_masks_cover_exact_word_boundaries() {
    assert_eq!(required_masks(&[false; 31]), [0x7fff_ffff]);
    assert_eq!(required_masks(&[false; 32]), [-1, 0]);
    assert_eq!(required_masks(&[false; 33]), [-1, 1]);
    assert_eq!(required_masks(&[false, true, false]), [5]);
}

#[test]
fn external_object_serial_info_remains_an_exact_residual() {
    let object = qualified("fixtures/Singleton");
    let mut ir = IrFile::default();
    let expression = emit_element_serializer(
        &mut ir,
        ElementSerializerPlan::Object {
            object: object.clone(),
            serial_name: KtString::from("fixtures.Singleton"),
            serial_info_unsupported: true,
        },
    );

    assert_eq!(expression, 3);
    assert_eq!(ir.exprs.len(), 4);
    assert!(matches!(
        ir.expr(2),
        IrExpr::PluginPlaceholder {
            plugin: "serialization",
            kind: "object-serial-info-annotations",
            exprs,
            data,
            types,
        } if exprs.is_empty() && data.as_slice() == [object] && types.is_empty()
    ));
}

fn retained_serial_name(internal: &str) -> FieldAnnotations {
    FieldAnnotations {
        field: "ENTRY".to_string(),
        annotations: DeclarationAnnotations {
            retained: vec![RetainedAnnotation {
                retention: AnnotationRetention::Runtime,
                annotation: AppliedAnnotation {
                    internal: qualified(internal),
                    values: vec![
                        (
                            "other".to_string(),
                            AnnoValue::Const(IrConst::String(KtString::from("ignored"))),
                        ),
                        (
                            "value".to_string(),
                            AnnoValue::Const(IrConst::String(KtString::from("wire"))),
                        ),
                    ],
                },
            }],
        },
    }
}

fn entry() -> IrEnumEntry {
    IrEnumEntry {
        name: "ENTRY".to_string(),
        args: vec![],
        decl_line: 0,
        subclass: None,
    }
}

#[test]
fn serial_name_selection_uses_the_resolved_annotation_and_named_argument() {
    let mut ir = IrFile::default();
    let mut class = IrClass::named("Status");
    class.enum_entries = vec![entry()];
    class.field_annotations = vec![retained_serial_name("example/SerialName")];
    let class = ir.add_class(class);

    let name_expr = ir.add_expr(IrExpr::Const(IrConst::Null));
    let enums = ir.add_expr(IrExpr::Const(IrConst::Null));
    let simple = factory_call(&mut ir, class, name_expr, enums);
    let IrExpr::Call {
        callee: Callee::Static {
            name: callee_name, ..
        },
        ..
    } = ir.expr(simple)
    else {
        panic!("enum serializer factory must be a static call")
    };
    assert_eq!(callee_name, "createSimpleEnumSerializer");

    ir.classes[class].field_annotations = vec![retained_serial_name(serial_name_fq())];
    let annotated = factory_call(&mut ir, class, name_expr, enums);
    let IrExpr::Call {
        callee: Callee::Static {
            name: callee_name, ..
        },
        args,
        ..
    } = ir.expr(annotated)
    else {
        panic!("enum serializer factory must be a static call")
    };
    assert_eq!(callee_name, "createAnnotatedEnumSerializer");
    let IrExpr::Vararg { elements, .. } = ir.expr(args[2]) else {
        panic!("annotated enum names must be an array")
    };
    assert!(matches!(
        ir.expr(elements[0]),
        IrExpr::Const(IrConst::String(value)) if *value == KtString::from("wire")
    ));
}

fn facts(kind: ClassifierDeclarationKind) -> ClassifierDeclarationFacts {
    ClassifierDeclarationFacts {
        kind,
        is_abstract: false,
        own_type_parameter_count: 0,
        companion: Some(("Companion".to_string(), qualified("dep/Kind$Companion"))),
        qualified_name: Some("dep.Kind".to_string()),
        source: false,
    }
}

#[test]
fn each_kind_reaches_the_serializer_its_compilation_generated() {
    let companion = ExternalSerializer::Companion {
        field: "Companion".to_string(),
        companion: qualified("dep/Kind$Companion"),
        type_parameters: 0,
    };
    assert_eq!(
        generated_external_serializer(&facts(ClassifierDeclarationKind::Enum), &[]),
        Some(companion.clone())
    );
    assert_eq!(
        generated_external_serializer(
            &ClassifierDeclarationFacts {
                is_abstract: true,
                ..facts(ClassifierDeclarationKind::Class)
            },
            &[]
        ),
        Some(companion)
    );
    assert_eq!(
        generated_external_serializer(
            &ClassifierDeclarationFacts {
                own_type_parameter_count: 2,
                ..facts(ClassifierDeclarationKind::Class)
            },
            &[]
        ),
        Some(ExternalSerializer::Companion {
            field: "Companion".to_string(),
            companion: qualified("dep/Kind$Companion"),
            type_parameters: 2,
        })
    );
    assert_eq!(
        generated_external_serializer(&facts(ClassifierDeclarationKind::Class), &[]),
        None
    );
    assert_eq!(
        generated_external_serializer(&facts(ClassifierDeclarationKind::Object), &[]),
        Some(ExternalSerializer::Object {
            serial_name: KtString::from("dep.Kind"),
            serial_info_unsupported: false,
        })
    );
}

#[test]
fn an_object_is_named_by_its_serial_name() {
    let named = ResolvedAnnotation {
        annotation: qualified(serial_name_fq()),
        arguments: vec![(
            "value".to_owned(),
            AnnotationValue::String(KtString::from("custom")),
        )],
    };
    assert_eq!(
        generated_external_serializer(&facts(ClassifierDeclarationKind::Object), &[named]),
        Some(ExternalSerializer::Object {
            serial_name: KtString::from("custom"),
            serial_info_unsupported: false,
        })
    );
}

/// A dependency whose metadata records no companion has no generated `serializer(..)` to call.
#[test]
fn a_dependency_without_a_recorded_companion_is_not_guessed() {
    let declaration = ClassifierDeclarationFacts {
        companion: None,
        ..facts(ClassifierDeclarationKind::Enum)
    };
    assert_eq!(generated_external_serializer(&declaration, &[]), None);
    let source = ClassifierDeclarationFacts {
        source: true,
        ..declaration
    };
    assert_eq!(generated_external_serializer(&source, &[]), None);
}

/// An object without a qualified name or a readable serial name has nothing to be built with.
#[test]
fn an_unnamed_object_is_not_guessed() {
    let declaration = ClassifierDeclarationFacts {
        qualified_name: None,
        ..facts(ClassifierDeclarationKind::Object)
    };
    assert_eq!(generated_external_serializer(&declaration, &[]), None);
    let unreadable = ResolvedAnnotation {
        annotation: qualified(serial_name_fq()),
        arguments: vec![],
    };
    assert_eq!(
        generated_external_serializer(&facts(ClassifierDeclarationKind::Object), &[unreadable]),
        None
    );
}

fn any_nullable() -> Ty {
    Ty::nullable(Ty::obj("kotlin/Any"))
}

#[test]
fn contributes_serializer_as_a_companion_member() {
    let annotation = [qualified(serializable_fq())];
    let classifier = qualified("demo/Box");
    let parameters = TypeParameters::new(
        vec!["T".to_string()],
        vec![any_nullable()],
        vec![TypeVariance::Invariant],
    );
    let mut members = vec![];
    SerializationPlugin::default().generate_frontend_declarations(
        &FrontendClassContext {
            classifier: classifier.clone(),
            companion: None,
            kind: TypeKind::Class,
            is_sealed: false,
            type_parameters: &parameters,
            annotations: &annotation,
            annotation_class_arguments: &[],
        },
        &mut members,
    );

    let parameter = Ty::obj_args(KSERIALIZER_FQ, &[Ty::ty_param("T", any_nullable())]);
    let result = Ty::obj_args_name(
        &qualified(KSERIALIZER_FQ),
        &[Ty::obj_args_name(
            &classifier,
            &[Ty::ty_param("T", any_nullable())],
        )],
    );
    let expected = vec![FrontendCallable {
        owner: FrontendCallableOwner::Companion,
        name: "serializer".to_string(),
        params: vec![parameter.clone()],
        param_names: vec!["typeSerial0".to_string()],
        ret: result.clone(),
        generic_sig: Some(GenericSig {
            formals: vec!["T".to_string()],
            formal_bounds: vec![vec![any_nullable()]],
            receiver: None,
            params: vec![parameter],
            ret: result,
            return_policy: GenericReturnPolicy::Exact,
        }),
        plugin_expression: Some(PluginExpressionDeclaration {
            plugin: "serialization",
            operation: "serializer",
        }),
    }];
    assert_eq!(format!("{:?}", members), format!("{:?}", expected));
}

#[test]
fn contributes_object_serializer_as_an_object_member() {
    let annotation = [qualified(serializable_fq())];
    let parameters = TypeParameters::default();
    let mut members = vec![];
    SerializationPlugin::default().generate_frontend_declarations(
        &FrontendClassContext {
            classifier: qualified("demo/Singleton"),
            companion: None,
            kind: TypeKind::Object,
            is_sealed: false,
            type_parameters: &parameters,
            annotations: &annotation,
            annotation_class_arguments: &[],
        },
        &mut members,
    );

    assert_eq!(members.len(), 1);
    assert_eq!(members[0].owner, FrontendCallableOwner::Classifier);
}

#[test]
fn publishes_the_exact_generated_serializer_classifier_fact() {
    let annotation = [qualified(serializable_fq())];
    let classifier = qualified("demo/Box");
    let parameters = TypeParameters::default();
    let context = FrontendClassContext {
        classifier: classifier.clone(),
        companion: None,
        kind: TypeKind::Class,
        is_sealed: false,
        type_parameters: &parameters,
        annotations: &annotation,
        annotation_class_arguments: &[],
    };

    assert_eq!(
        generated_serializer_classifier_fact(&context),
        Some(GeneratedClassifierFact {
            classifier: classifier.nested_child(SERIALIZER_OBJECT_NAME),
            lexical_owner: classifier,
            purpose: GeneratedClassifierPurpose::SerializationSerializer,
            source_name: SERIALIZER_OBJECT_NAME.into(),
            visibility: Visibility::Public,
            kind: GeneratedClassifierKind::Class,
            is_abstract: false,
            is_final: true,
            captures_outer: false,
            compiler_generated: true,
        })
    );
}

#[test]
fn rejects_non_generating_serializable_forms() {
    let annotation = [qualified(serializable_fq())];
    let custom = [(0, qualified("demo/OwnSerializer"))];
    let parameters = TypeParameters::default();
    for (kind, is_sealed, arguments) in [
        (TypeKind::Class, false, custom.as_slice()),
        (TypeKind::Enum, false, &[][..]),
        (TypeKind::Class, true, &[][..]),
    ] {
        let context = FrontendClassContext {
            classifier: qualified("demo/NotGenerated"),
            companion: None,
            kind,
            is_sealed,
            type_parameters: &parameters,
            annotations: &annotation,
            annotation_class_arguments: arguments,
        };
        assert_eq!(
            generated_serializer_classifier_fact(&context),
            None,
            "{kind:?}, sealed={is_sealed}, arguments={arguments:?}"
        );
    }
}

fn serializer_members() -> GeneratedSerializerMembers {
    GeneratedSerializerMembers {
        descriptor: 0,
        serialize: 1,
        deserialize: 2,
        child_serializers: 3,
        type_parameter_serializers: 4,
    }
}

fn metadata_shape(
    publication: &IrGeneratedMemberPublication,
) -> Vec<(usize, String, Visibility, Vec<String>)> {
    publication
        .functions
        .iter()
        .filter_map(|member| {
            member.metadata.as_ref().map(|metadata| {
                (
                    member.function,
                    metadata.source_name.clone(),
                    metadata.visibility,
                    member.parameter_names.clone(),
                )
            })
        })
        .collect()
}

#[test]
fn serializer_publication_states_exact_generic_and_non_generic_surfaces() {
    let non_generic = serializer_members().publication(false, 17, 23);
    assert_eq!(
        non_generic.metadata_scope,
        IrGeneratedFunctionMetadataScope::Exclusive
    );
    assert_eq!(
        metadata_shape(&non_generic),
        vec![
            (
                3,
                "childSerializers".to_string(),
                Visibility::Public,
                vec![]
            ),
            (
                2,
                "deserialize".to_string(),
                Visibility::Public,
                vec!["decoder".to_string()],
            ),
            (
                1,
                "serialize".to_string(),
                Visibility::Public,
                vec!["encoder".to_string(), "value".to_string()],
            ),
        ]
    );
    assert_eq!(
        non_generic
            .functions
            .iter()
            .map(|member| (member.function, member.metadata.is_some(), member.debug))
            .collect::<Vec<_>>(),
        vec![
            (3, true, IrGeneratedDeclarationDebug::declaration_line(17)),
            (2, true, IrGeneratedDeclarationDebug::declaration_line(17)),
            (
                1,
                true,
                IrGeneratedDeclarationDebug::declaration_line_with_fallthrough(17, 23),
            ),
            (0, false, IrGeneratedDeclarationDebug::LocalsOnly),
            (4, false, IrGeneratedDeclarationDebug::declaration_line(17)),
        ]
    );

    let generic = serializer_members().publication(true, 19, 29);
    assert_eq!(
        metadata_shape(&generic),
        vec![
            (
                3,
                "childSerializers".to_string(),
                Visibility::Public,
                vec![]
            ),
            (
                2,
                "deserialize".to_string(),
                Visibility::Public,
                vec!["decoder".to_string()],
            ),
            (
                1,
                "serialize".to_string(),
                Visibility::Public,
                vec!["encoder".to_string(), "value".to_string()],
            ),
            (
                4,
                "typeParametersSerializers".to_string(),
                Visibility::Public,
                vec![],
            ),
        ]
    );
    assert_eq!(generic.functions.len(), 5);
    assert_eq!(generic.functions[4].function, 0);
    assert!(generic.functions[4].metadata.is_none());
    assert_eq!(
        generic.functions[4].debug,
        IrGeneratedDeclarationDebug::LocalsOnly
    );
}

#[test]
fn write_self_publication_is_additive_internal_and_uses_canonical_names() {
    let publication = write_self_publication(7, 23);
    assert_eq!(
        publication.metadata_scope,
        IrGeneratedFunctionMetadataScope::Additive
    );
    assert_eq!(publication.functions.len(), 1);
    let member = &publication.functions[0];
    assert_eq!(member.function, 7);
    assert_eq!(member.parameter_names, ["self", "output", "serialDesc"]);
    let metadata = member.metadata.as_ref().expect("writeSelf metadata");
    assert_eq!(metadata.source_name, "write$Self");
    assert_eq!(metadata.visibility, Visibility::Internal);
    assert_eq!(
        member.debug,
        IrGeneratedDeclarationDebug::declaration_line(23)
    );
}

#[test]
fn default_member_dispatch_stays_semantic_until_backend_realization() {
    let mut ir = IrFile::default();
    let owner = qualified("demo/Plain$$serializer");
    let members = add_serializer_members(&mut ir, &owner, &class_ty("demo/Plain"), 0, 0, false);
    let function = members.type_parameter_serializers;
    assert!(ir.open_methods.contains(&function));
    assert!(ir.bridge_methods.contains(&function));
    let body = ir.functions[function]
        .body
        .expect("generated default delegation body");
    let IrExpr::Block { stmts, value: None } = ir.expr(body) else {
        panic!("default delegation is not a statement block");
    };
    let Some(IrExpr::Return(Some(call))) = stmts.first().map(|statement| ir.expr(*statement))
    else {
        panic!("default delegation does not return its call");
    };
    let IrExpr::Call {
        callee:
            Callee::Super {
                owner: super_owner,
                dispatch_owner,
                params,
                ret,
                interface,
                realization,
                descriptor,
                ..
            },
        dispatch_receiver: Some(_),
        args,
    } = ir.expr(*call)
    else {
        panic!("default delegation is not a semantic super-member call");
    };
    assert_eq!(*super_owner, qualified(GENERATED_SERIALIZER_FQ));
    assert_eq!(*dispatch_owner, owner);
    assert!(params.is_empty());
    assert_eq!(
        *ret,
        Ty::obj_args(
            "kotlin/Array",
            &[kserializer_of(Ty::star_projection(Ty::nullable(class_ty(
                "kotlin/Any"
            ))))],
        )
    );
    assert!(*interface);
    assert_eq!(*realization, MemberRealization::Dispatch);
    assert!(descriptor.is_empty());
    assert!(args.is_empty());
    assert!(!ir.exprs.iter().any(|expression| matches!(
        expression,
        IrExpr::Call {
            callee: Callee::Special { .. },
            ..
        }
    )));
}

#[test]
fn generic_type_parameter_serializers_is_final_and_not_a_bridge() {
    let mut ir = IrFile::default();
    let members = add_serializer_members(
        &mut ir,
        &qualified("demo/Box$$serializer"),
        &Ty::obj_args("demo/Box", &[Ty::ty_param("T", Ty::obj("kotlin/Any"))]),
        0,
        0,
        true,
    );
    assert!(!ir
        .open_methods
        .contains(&members.type_parameter_serializers));
    assert!(!ir
        .bridge_methods
        .contains(&members.type_parameter_serializers));
}

#[test]
fn parses_the_leading_version() {
    assert_eq!(
        PluginRelease::parse("2.4.10-release-377"),
        Some(PluginRelease::new(2, 4, 10))
    );
    assert_eq!(
        PluginRelease::parse("2.4.20"),
        Some(PluginRelease::new(2, 4, 20))
    );
    assert_eq!(
        PluginRelease::parse("2.5"),
        Some(PluginRelease::new(2, 5, 0))
    );
    assert_eq!(PluginRelease::parse("dev"), None);
    assert!(PluginRelease::new(2, 4, 10) < PluginRelease::v2_4_20());
}

#[test]
fn detected_from_classpath_runtime() {
    assert_eq!(
        SerializationAbi::from_core_version("1.5.0"),
        SerializationAbi::V1_0
    );
    assert_eq!(
        SerializationAbi::from_core_version("1.6.0"),
        SerializationAbi::V1_6Plus
    );
    assert_eq!(
        SerializationAbi::from_core_version("1.8.1"),
        SerializationAbi::V1_6Plus
    );

    let cp = vec![
        "/x/kotlin-stdlib.jar".to_string(),
        "/x/kotlinx-serialization-core-jvm-1.8.1.jar".to_string(),
    ];
    assert_eq!(
        SerializationAbi::from_classpath(&cp),
        Some(SerializationAbi::V1_6Plus)
    );

    let old = vec!["/x/kotlinx-serialization-core-1.5.0.jar".to_string()];
    assert_eq!(
        SerializationAbi::from_classpath(&old),
        Some(SerializationAbi::V1_0)
    );

    assert_eq!(
        SerializationAbi::from_classpath(&["/x/kotlin-stdlib.jar".to_string()]),
        None
    );

    let many = vec![
        "/x/kotlinx-serialization-json-jvm-1.5.0.jar".to_string(),
        "/x/kotlinx-serialization-protobuf-jvm-1.5.0.jar".to_string(),
        "/x/kotlinx-serialization-core-jvm-1.8.1.jar".to_string(),
    ];
    assert_eq!(
        SerializationAbi::from_classpath(&many),
        Some(SerializationAbi::V1_6Plus)
    );

    let snap = vec!["/x/kotlinx-serialization-core-jvm-1.8.1-SNAPSHOT.jar".to_string()];
    assert_eq!(
        SerializationAbi::from_classpath(&snap),
        Some(SerializationAbi::V1_6Plus)
    );
}

#[test]
fn an_unsupported_field_preserves_a_residual_instead_of_becoming_a_no_op() {
    let mut ir = IrFile::default();
    let mut serialized = IrClass::named("demo/Foo");
    let unsupported = Ty::obj("demo/Unsupported");
    serialized.fields = vec![IrField::new("value".to_owned(), unsupported.clone())];
    let serialized_class = ir.add_class(serialized);
    let serializer_class = ir.add_class(IrClass::named("demo/Foo$$serializer"));
    let write_self = ir.add_fun(IrFunction {
        name: "write$Self".to_owned(),
        params: vec![],
        ret: Ty::Unit,
        body: None,
        is_static: true,
        dispatch_receiver: None,
        param_checks: vec![],
    });
    let serialize = ir.add_fun(IrFunction {
        name: "serialize".to_owned(),
        params: vec![],
        ret: Ty::Unit,
        body: None,
        is_static: false,
        dispatch_receiver: Some(qualified("demo/Foo$$serializer")),
        param_checks: vec![],
    });
    let fields = [("value".to_owned(), unsupported)];

    SerializeBody {
        function: serialize,
        serializer_class,
        serialized_class,
        fields: &fields,
        field_defaults: &[None],
        nested_serializers: &[None],
        type_parameter_serializer_fields: &[None],
        write_self: Some(write_self),
        write_self_name: "write$Self".to_owned(),
    }
    .generate(&mut ir, &PluginContext::default());

    let body = ir.functions[serialize].body.expect("serialize body");
    let IrExpr::Block { stmts, value: None } = ir.expr(body) else {
        panic!("serialize must retain a residual block")
    };
    assert_eq!(stmts.len(), 1);
    assert!(matches!(
        ir.expr(stmts[0]),
        IrExpr::PluginPlaceholder {
            plugin: "serialization",
            kind: "serialize-body",
            exprs,
            data,
            ..
        } if exprs.is_empty() && data == &[qualified("demo/Foo")]
    ));
    assert!(!jvm_can_emit(&ir));
}

fn property(
    annotations: &[&str],
    has_initializer: bool,
    is_lateinit: bool,
) -> FrontendPropertyFacts {
    FrontendPropertyFacts {
        annotations: annotations.iter().map(|name| qualified(name)).collect(),
        has_backing_field: true,
        has_initializer,
        is_lateinit,
        declaration_span: Span::new(10, 20),
    }
}

fn reported(
    kind: TypeKind,
    class_arguments: &[(u32, TypeName)],
    properties: &[FrontendPropertyFacts],
) -> Vec<FrontendPluginDiagnostic> {
    let annotations = [qualified(serializable_fq())];
    missing_initializers(
        &FrontendClassCheckContext {
            kind,
            annotations: &annotations,
            annotation_class_arguments: class_arguments,
            properties,
        },
        None,
    )
}

#[test]
fn only_a_transient_property_without_a_value_is_rejected() {
    let properties = [
        property(&[transient_fq()], false, false),
        property(&[transient_fq()], true, false),
        property(&[transient_fq()], false, true),
        property(&["demo/Transient"], false, false),
    ];
    assert_eq!(
        reported(TypeKind::Class, &[], &properties),
        vec![FrontendPluginDiagnostic {
            span: Span::new(10, 20),
            message: transient_missing_initializer(None),
        }]
    );
}

#[test]
fn the_wording_follows_the_plugin_release() {
    let earlier =
        "this property is marked as @Transient and therefore must have an initializing expression";
    let full_stop = format!("{earlier}.");
    assert_eq!(
        transient_missing_initializer(PluginRelease::parse("2.4.10-release-377")),
        earlier
    );
    assert_eq!(
        transient_missing_initializer(PluginRelease::parse("2.4.20")),
        full_stop
    );
    assert_eq!(transient_missing_initializer(None), full_stop);
}

#[test]
fn a_class_the_plugin_does_not_build_from_its_properties_is_not_checked() {
    let properties = [property(&[transient_fq()], false, false)];
    assert!(reported(TypeKind::Object, &[], &properties).is_empty());
    assert!(reported(TypeKind::Enum, &[], &properties).is_empty());
    assert!(reported(
        TypeKind::Class,
        &[(0, qualified("demo/CustomSerializer"))],
        &properties
    )
    .is_empty());
}

#[test]
fn cyclic_facts_do_not_select_an_arbitrary_underlying() {
    let first = qualified("fixture/First");
    let second = qualified("fixture/Second");
    let mut ir = IrFile::default();
    ir.insert_external_value_class_name(&first, Ty::obj_name(&second));
    ir.insert_external_value_class_name(&second, Ty::obj_name(&first));

    assert_eq!(value_class_underlying(&ir, &Ty::obj_name(&first)), None);
}
