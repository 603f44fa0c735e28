//! Annotations that the plugin reads, and annotations that it puts on what it generates.

use vstd::prelude::*;

use crate::ir::annotations::{
    applied, AnnoValue, AnnoValueView, AnnotationRetention, AppliedAnnotation,
    AppliedAnnotationView, DeclarationAnnotations, RetainedAnnotation,
};
use crate::ir::expr::{ClassId, IrConst, IrConstView};
use crate::ir::file::{IrClass, IrFile};
use crate::kt_string::{text_units, KtString};
use crate::names::{qualified, TypeName};
use crate::plugins::context::{property_type, PluginContext};
use crate::text::{option_view, views};

verus! {

broadcast use crate::text::group_views;

pub fn serial_name_fq() -> (name: &'static str)
    ensures
        name@ == "kotlinx/serialization/SerialName"@,
{
    "kotlinx/serialization/SerialName"
}

pub fn serializable_fq() -> (name: &'static str)
    ensures
        name@ == "kotlinx/serialization/Serializable"@,
{
    "kotlinx/serialization/Serializable"
}

pub fn transient_fq() -> (name: &'static str)
    ensures
        name@ == "kotlinx/serialization/Transient"@,
{
    "kotlinx/serialization/Transient"
}

/// The write helper of a class is a static member for Kotlin callers too.
pub fn write_self_annotations() -> (annotations: DeclarationAnnotations)
    ensures
        annotations@ == seq![
            (
                AnnotationRetention::Runtime,
                AppliedAnnotationView {
                    internal: "kotlin/jvm/JvmStatic"@,
                    values: Seq::<(Seq<char>, AnnoValueView)>::empty(),
                },
            ),
        ],
{
    let mut retained: Vec<RetainedAnnotation> = Vec::new();
    let annotation = AppliedAnnotation {
        internal: qualified("kotlin/jvm/JvmStatic"),
        values: Vec::new(),
    };
    assert(annotation@.values =~= Seq::<(Seq<char>, AnnoValueView)>::empty());
    retained.push(RetainedAnnotation { retention: AnnotationRetention::Runtime, annotation });
    DeclarationAnnotations::new(retained)
}

/// The serializer that the annotation of a class names.
pub open spec fn custom_serializer(ctx: PluginContext, class: ClassId) -> Option<Seq<char>> {
    ctx.class_literal(class, "kotlinx/serialization/Serializable"@)
}

pub fn custom_serializer_of(ctx: &PluginContext, class: ClassId) -> (serializer: Option<TypeName>)
    ensures
        option_view(serializer) == custom_serializer(*ctx, class),
{
    ctx.class_annotation_class_literal(class, serializable_fq())
}

/// The serializer that the annotation of a property names.
pub open spec fn field_serializer(
    ctx: PluginContext,
    class: ClassId,
    property: Seq<char>,
) -> Option<Seq<char>> {
    ctx.property_literal(class, property, "kotlinx/serialization/Serializable"@)
}

pub fn field_serializer_of(ctx: &PluginContext, class: ClassId, property: &str) -> (serializer:
    Option<TypeName>)
    ensures
        option_view(serializer) == field_serializer(*ctx, class, property@),
{
    ctx.property_annotation_class_literal(class, property, serializable_fq())
}

/// The serial name that the annotation of a property gives.
pub fn serial_name_of(ctx: &PluginContext, class: ClassId, property: &str) -> (name: Option<
    KtString,
>)
    ensures
        option_view(name) == ctx.property_text(
            class,
            property@,
            "kotlinx/serialization/SerialName"@,
        ),
{
    ctx.property_annotation_const_string(class, property, serial_name_fq())
}

/// The string that a class-level serial name gives.
pub open spec fn serial_name_override(class: IrClass) -> Option<Seq<u16>> {
    match applied(class.applied_annotations@, "kotlinx/serialization/SerialName"@) {
        Some(application) => match application.values[0].1 {
            AnnoValueView::Const(IrConstView::String(name)) => Some(name),
            _ => None,
        },
        None => None,
    }
}

/// Whether the name under which a class is written is known: an annotation that gives it gives a
/// string, and without one the qualified name is recorded.
pub open spec fn has_serial_name(class: IrClass) -> bool {
    match applied(class.applied_annotations@, "kotlinx/serialization/SerialName"@) {
        Some(application) => application.values.len() > 0 && application.values[0].1
            matches AnnoValueView::Const(IrConstView::String(_)),
        None => class.source_name is Some,
    }
}

/// The name under which a class is written.
pub open spec fn serial_name(class: IrClass) -> Seq<u16> {
    match serial_name_override(class) {
        Some(name) => name,
        None => class.source_name->0@,
    }
}

/// The name under which a class is written: the one its annotation gives, or the qualified source
/// name that common lowering recorded. The latter is not read off the internal name, in which `$`
/// may be part of a source identifier.
pub fn class_serial_name(ir: &IrFile, class: ClassId) -> (name: KtString)
    requires
        class < ir.classes@.len(),
        has_serial_name(ir.classes@[class as int]),
    ensures
        name@ == serial_name(ir.classes@[class as int]),
{
    match class_serial_name_override(ir, class) {
        Some(name) => name,
        None => match &ir.classes[class].source_name {
            Some(name) => name.clone(),
            None => KtString::from(""),
        },
    }
}

fn class_serial_name_override(ir: &IrFile, class: ClassId) -> (name: Option<KtString>)
    requires
        class < ir.classes@.len(),
        has_serial_name(ir.classes@[class as int]),
    ensures
        option_view(name) == serial_name_override(ir.classes@[class as int]),
{
    match ir.classes[class].applied_annotations.application(serial_name_fq()) {
        Some(application) => {
            assert(application@.values[0].1 == application.values@[0].1@);
            match &application.values[0].1 {
                AnnoValue::Const(IrConst::String(name)) => Some(name.clone()),
                _ => None,
            }
        },
        None => None,
    }
}

/// Whether an annotation of the class is serial information.
pub open spec fn has_serial_info(ctx: PluginContext, class: IrClass) -> bool {
    exists|k: int|
        0 <= k < class.applied_annotations@.len() && views(ctx.serial_info@).contains(
            (#[trigger] class.applied_annotations@[k]).1.internal,
        )
}

pub fn class_has_serial_info(ctx: &PluginContext, ir: &IrFile, class: ClassId) -> (yes: bool)
    requires
        class < ir.classes@.len(),
    ensures
        yes == has_serial_info(*ctx, ir.classes@[class as int]),
{
    let annotations = &ir.classes[class].applied_annotations;
    let mut index: usize = 0;
    while index < annotations.retained.len()
        invariant
            index <= annotations.retained@.len(),
            annotations@.len() == annotations.retained@.len(),
            class < ir.classes@.len(),
            *annotations == ir.classes@[class as int].applied_annotations,
            forall|k: int|
                0 <= k < index ==> !views(ctx.serial_info@).contains(
                    (#[trigger] annotations@[k]).1.internal,
                ),
        decreases annotations.retained@.len() - index,
    {
        assert(annotations@[index as int].1.internal
            == annotations.retained@[index as int].annotation.internal@);
        if crate::model::holds(&ctx.serial_info, &annotations.retained[index].annotation.internal) {
            return true;
        }
        index += 1;
    }
    false
}

/// Whether a property is serialized by what the serializers module holds for its type: the
/// property says so, or the file says so of its type.
pub open spec fn is_contextual(ctx: PluginContext, class: ClassId, property: Seq<char>) -> bool {
    ||| ctx.property_annotated(class, property, "kotlinx/serialization/Contextual"@)
    ||| match property_type(ctx.property_types@, class, property) {
        Some(canonical) => ctx.file_mentions_type(
            "kotlinx/serialization/UseContextualSerialization"@,
            canonical,
        ),
        None => false,
    }
}

pub fn property_is_contextual(ctx: &PluginContext, class: ClassId, property: &str) -> (yes: bool)
    ensures
        yes == is_contextual(*ctx, class, property@),
{
    if ctx.property_has_annotation(class, property, "kotlinx/serialization/Contextual") {
        return true;
    }
    match ctx.property_canonical_type(class, property) {
        Some(canonical) => ctx.file_annotation_mentions_canonical_type(
            "kotlinx/serialization/UseContextualSerialization",
            canonical,
        ),
        None => false,
    }
}

/// Whether the file says of a type that it is serialized by what the serializers module holds for
/// it. The elements of a collection are of a type that no property may have.
pub open spec fn contextual_type(ctx: PluginContext, internal: Seq<char>) -> bool {
    ctx.file_mentions_type("kotlinx/serialization/UseContextualSerialization"@, internal)
}

pub fn type_is_contextual(ctx: &PluginContext, internal: &TypeName) -> (yes: bool)
    ensures
        yes == contextual_type(*ctx, internal@),
{
    ctx.file_annotation_mentions_canonical_type(
        "kotlinx/serialization/UseContextualSerialization",
        internal,
    )
}

/// A generated serializer is hidden from source code and stays callable by generated code.
pub fn generated_serializer_annotations() -> (annotations: DeclarationAnnotations)
    ensures
        annotations@ == seq![
            (
                AnnotationRetention::Runtime,
                AppliedAnnotationView {
                    internal: "kotlin/Deprecated"@,
                    values: seq![
                        (
                            "message"@,
                            AnnoValueView::Const(
                                IrConstView::String(
                                    text_units(
                                        "This synthesized declaration should not be used directly"@,
                                    ),
                                ),
                            ),
                        ),
                        (
                            "level"@,
                            AnnoValueView::Enum("kotlin/DeprecationLevel"@, "HIDDEN"@),
                        ),
                    ],
                },
            ),
        ],
{
    let mut values: Vec<(String, AnnoValue)> = Vec::new();
    values.push(
        (
            "message".to_owned(),
            AnnoValue::Const(
                IrConst::String(
                    KtString::from("This synthesized declaration should not be used directly"),
                ),
            ),
        ),
    );
    values.push(
        (
            "level".to_owned(),
            AnnoValue::Enum(qualified("kotlin/DeprecationLevel"), "HIDDEN".to_owned()),
        ),
    );
    let annotation = AppliedAnnotation { internal: qualified("kotlin/Deprecated"), values };
    assert(annotation@.values =~= seq![
        (
            "message"@,
            AnnoValueView::Const(
                IrConstView::String(
                    text_units("This synthesized declaration should not be used directly"@),
                ),
            ),
        ),
        ("level"@, AnnoValueView::Enum("kotlin/DeprecationLevel"@, "HIDDEN"@)),
    ]);
    let mut retained: Vec<RetainedAnnotation> = Vec::new();
    retained.push(RetainedAnnotation { retention: AnnotationRetention::Runtime, annotation });
    DeclarationAnnotations::new(retained)
}

} // verus!
