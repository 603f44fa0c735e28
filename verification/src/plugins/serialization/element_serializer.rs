//! The choice of the serializer of an element type, and its construction.

use vstd::prelude::*;

use crate::ir::expr::{ClassId, ExprId, IrConst, IrConstView, IrExpr, IrLabel};
use crate::ir::file::{class_named, IrClass, IrCtorArg, IrFile, IrFunction};
use crate::ir::tree::{
    adds, cast_tree, const_tree, depicts, field_tree, grounded, grows, instance_tree,
    lemma_depicts_its_tree, lemma_more_nodes, lemma_total_nodes, local_instance_tree, nodes,
    null_tree, plant, plant_cast, plant_const, plant_field, plant_instance, plant_local_instance,
    plant_residual, plant_value, residual_tree, total_nodes, tree, trees, value_tree, IrTree,
};
use crate::kt_string::KtString;
use crate::names::{nested_name, qualified, TypeName};
use crate::plugins::context::{serializer_for, PluginContext};
use crate::plugins::serialization::annotations::{
    class_has_serial_info, class_serial_name, contextual_type, custom_serializer,
    custom_serializer_of, has_serial_info, has_serial_name, serial_name, type_is_contextual,
};
use crate::plugins::serialization::cached_serializer::{
    local_object, local_serializable_object, object_serializer, object_serializer_tree,
};
use crate::plugins::serialization::constructed_standard_serializers::{
    constructed_standard_serializer, standard_serializer,
};
use crate::plugins::serialization::external_serializer::{
    ExternalSerializer, ExternalSerializerView,
};
use crate::plugins::serialization::support::{
    accessor_call, accessor_companion, accessor_on_class, accessor_on_companion,
    build_contextual_serializer, build_polymorphic_serializer, call_external_companion_serializer,
    class_ty, class_type, contextual_serializer, external_accessor_call,
    generated_serializer_accessor, nullable_serializer, polymorphic_serializer, serializer_of_name,
    wrap_nullable_serializer,
};
use crate::plugins::serialization::type_parameter_serializers::{
    ScopeView, TypeParameterSerializers,
};
use crate::text::{concat, option_view, repeat, repeated, same_text, views};
use crate::types::{Ty, TyView};

verus! {

broadcast use {
    crate::text::group_views,
    crate::types::group_ty_views,
    crate::ir::tree::group_growth,
};

/// The serializer of a builtin type, and whether only some runtimes have it.
pub open spec fn builtin_serializer(classifier: Seq<char>) -> Option<(Seq<char>, bool)> {
    if classifier == "kotlin/String"@ {
        Some(("kotlinx/serialization/internal/StringSerializer"@, false))
    } else if classifier == "kotlin/Int"@ {
        Some(("kotlinx/serialization/internal/IntSerializer"@, false))
    } else if classifier == "kotlin/Long"@ {
        Some(("kotlinx/serialization/internal/LongSerializer"@, false))
    } else if classifier == "kotlin/Boolean"@ {
        Some(("kotlinx/serialization/internal/BooleanSerializer"@, false))
    } else if classifier == "kotlin/Double"@ {
        Some(("kotlinx/serialization/internal/DoubleSerializer"@, false))
    } else if classifier == "kotlin/Float"@ {
        Some(("kotlinx/serialization/internal/FloatSerializer"@, false))
    } else if classifier == "kotlin/Char"@ {
        Some(("kotlinx/serialization/internal/CharSerializer"@, false))
    } else if classifier == "kotlin/Byte"@ {
        Some(("kotlinx/serialization/internal/ByteSerializer"@, false))
    } else if classifier == "kotlin/Short"@ {
        Some(("kotlinx/serialization/internal/ShortSerializer"@, false))
    } else if classifier == "kotlin/uuid/Uuid"@ {
        Some(("kotlinx/serialization/internal/UuidSerializer"@, true))
    } else if classifier == "kotlin/time/Instant"@ {
        Some(("kotlinx/serialization/internal/InstantSerializer"@, true))
    } else {
        None
    }
}

/// The serializer of a builtin type.
pub struct BuiltinSerializer {
    pub serializer: TypeName,
    /// Whether only some runtimes have it.
    pub requires_runtime_declaration: bool,
}

impl View for BuiltinSerializer {
    type V = (Seq<char>, bool);

    open spec fn view(&self) -> (Seq<char>, bool) {
        (self.serializer@, self.requires_runtime_declaration)
    }
}

fn builtin(serializer: &str, requires_runtime_declaration: bool) -> (out: Option<
    BuiltinSerializer,
>)
    ensures
        option_view(out) == Some((serializer@, requires_runtime_declaration)),
{
    Some(
        BuiltinSerializer {
            serializer: qualified(serializer),
            requires_runtime_declaration,
        },
    )
}

/// The serializer of a builtin type, by its classifier.
pub fn builtin_serializers(classifier: &TypeName) -> (found: Option<BuiltinSerializer>)
    ensures
        option_view(found) == builtin_serializer(classifier@),
{
    if classifier.matches("kotlin/String") {
        builtin("kotlinx/serialization/internal/StringSerializer", false)
    } else if classifier.matches("kotlin/Int") {
        builtin("kotlinx/serialization/internal/IntSerializer", false)
    } else if classifier.matches("kotlin/Long") {
        builtin("kotlinx/serialization/internal/LongSerializer", false)
    } else if classifier.matches("kotlin/Boolean") {
        builtin("kotlinx/serialization/internal/BooleanSerializer", false)
    } else if classifier.matches("kotlin/Double") {
        builtin("kotlinx/serialization/internal/DoubleSerializer", false)
    } else if classifier.matches("kotlin/Float") {
        builtin("kotlinx/serialization/internal/FloatSerializer", false)
    } else if classifier.matches("kotlin/Char") {
        builtin("kotlinx/serialization/internal/CharSerializer", false)
    } else if classifier.matches("kotlin/Byte") {
        builtin("kotlinx/serialization/internal/ByteSerializer", false)
    } else if classifier.matches("kotlin/Short") {
        builtin("kotlinx/serialization/internal/ShortSerializer", false)
    } else if classifier.matches("kotlin/uuid/Uuid") {
        builtin("kotlinx/serialization/internal/UuidSerializer", true)
    } else if classifier.matches("kotlin/time/Instant") {
        builtin("kotlinx/serialization/internal/InstantSerializer", true)
    } else {
        None
    }
}

/// The serializers of builtin types that only some runtimes have.
pub fn runtime_dependent_serializers() -> (serializers: Vec<TypeName>)
    ensures
        views(serializers@) == seq![
            "kotlinx/serialization/internal/UuidSerializer"@,
            "kotlinx/serialization/internal/InstantSerializer"@,
        ],
{
    let mut serializers: Vec<TypeName> = Vec::new();
    serializers.push(qualified("kotlinx/serialization/internal/UuidSerializer"));
    serializers.push(qualified("kotlinx/serialization/internal/InstantSerializer"));
    assert(views(serializers@) =~= seq![
        "kotlinx/serialization/internal/UuidSerializer"@,
        "kotlinx/serialization/internal/InstantSerializer"@,
    ]);
    serializers
}

/// The listed serializers are those that some builtin type has and not every runtime has.
pub proof fn runtime_dependent_serializers_are_the_marked_ones(serializer: Seq<char>)
    ensures
        seq![
            "kotlinx/serialization/internal/UuidSerializer"@,
            "kotlinx/serialization/internal/InstantSerializer"@,
        ].contains(serializer) <==> exists|classifier: Seq<char>|
            #[trigger] builtin_serializer(classifier) == Some((serializer, true)),
{
    let listed = seq![
        "kotlinx/serialization/internal/UuidSerializer"@,
        "kotlinx/serialization/internal/InstantSerializer"@,
    ];
    reveal_strlit("kotlin/uuid/Uuid");
    reveal_strlit("kotlin/time/Instant");
    reveal_strlit("kotlin/String");
    reveal_strlit("kotlin/Int");
    reveal_strlit("kotlin/Long");
    reveal_strlit("kotlin/Boolean");
    reveal_strlit("kotlin/Double");
    reveal_strlit("kotlin/Float");
    reveal_strlit("kotlin/Char");
    reveal_strlit("kotlin/Byte");
    reveal_strlit("kotlin/Short");
    assert("kotlin/uuid/Uuid"@.len() == 16);
    assert("kotlin/time/Instant"@.len() == 19);
    assert(listed[0] == "kotlinx/serialization/internal/UuidSerializer"@);
    assert(listed[1] == "kotlinx/serialization/internal/InstantSerializer"@);
    if listed.contains(serializer) {
        if serializer == listed[0] {
            assert(builtin_serializer("kotlin/uuid/Uuid"@) == Some((serializer, true)));
        } else {
            assert(builtin_serializer("kotlin/time/Instant"@) == Some((serializer, true)));
        }
    }
}

/// The classifier of a builtin type that has a serializer.
pub open spec fn builtin_key(ty: TyView) -> Option<Seq<char>> {
    match ty.kotlin_class_internal() {
        Some(classifier) if builtin_serializer(classifier) is Some => Some(classifier),
        _ => None,
    }
}

pub fn builtin_element_key(ty: &Ty) -> (key: Option<TypeName>)
    ensures
        option_view(key) == builtin_key(ty@),
{
    match ty.kotlin_class_internal() {
        Some(classifier) => if builtin_serializers(&classifier).is_some() {
            Some(classifier)
        } else {
            None
        },
        None => None,
    }
}

fn builtin_element_serializer(ty: &Ty) -> (found: Option<BuiltinSerializer>)
    ensures
        option_view(found) == match ty@.kotlin_class_internal() {
            Some(classifier) => builtin_serializer(classifier),
            None => None,
        },
{
    match ty.kotlin_class_internal() {
        Some(classifier) => builtin_serializers(&classifier),
        None => None,
    }
}

/// The serializer of a builtin type that every runtime has.
pub open spec fn everywhere_available(ty: TyView) -> Option<Seq<char>> {
    match ty.kotlin_class_internal() {
        Some(classifier) => match builtin_serializer(classifier) {
            Some((serializer, false)) => Some(serializer),
            _ => None,
        },
        None => None,
    }
}

pub fn always_available_builtin_serializer(ty: &Ty) -> (serializer: Option<TypeName>)
    ensures
        option_view(serializer) == everywhere_available(ty@),
{
    match builtin_element_serializer(ty) {
        Some(found) => if found.requires_runtime_declaration {
            None
        } else {
            Some(found.serializer)
        },
        None => None,
    }
}

/// How the serializer of an element is come by.
#[allow(inconsistent_fields)]
#[derive(Debug)]
pub enum ElementSerializerPlan {
    /// The serializer that a class of this file hands out.
    Generated {
        classifier: TypeName,
        arguments: Vec<ElementSerializerPlan>,
    },
    /// A standard serializer, constructed from the serializers of the type arguments.
    ConstructedStandard {
        serializer: TypeName,
        arguments: Vec<ElementSerializerPlan>,
    },
    Nullable(Box<ElementSerializerPlan>),
    /// A serializer class of the user's in this file, constructed with one serializer for each type
    /// parameter of the class it serves.
    LocalConstructed {
        serializer: ClassId,
        arguments: Vec<ElementSerializerPlan>,
    },
    Contextual(TypeName),
    Polymorphic(TypeName),
    /// The serializer of an object, constructed over its `INSTANCE`.
    Object {
        object: TypeName,
        serial_name: KtString,
        serial_info_unsupported: bool,
    },
    LocalSingleton(ClassId),
    ExternalSingleton(TypeName),
    /// The serializer of a type parameter, which the generic serializer holds in `field`.
    TypeParameter {
        serializer_class: ClassId,
        field: u32,
    },
    /// The serializer that the companion of a classifier of another file hands out.
    ExternalCompanion {
        classifier: TypeName,
        field: String,
        companion: TypeName,
        arguments: Vec<ElementSerializerPlan>,
    },
    Builtin(TypeName),
}

/// The model of a plan.
#[allow(inconsistent_fields)]
pub enum PlanView {
    Generated { classifier: Seq<char>, arguments: Seq<PlanView> },
    ConstructedStandard { serializer: Seq<char>, arguments: Seq<PlanView> },
    Nullable(Box<PlanView>),
    LocalConstructed { class: ClassId, arguments: Seq<PlanView> },
    Contextual(Seq<char>),
    Polymorphic(Seq<char>),
    Object { object: Seq<char>, serial_name: Seq<u16>, serial_info_unsupported: bool },
    LocalSingleton(ClassId),
    ExternalSingleton(Seq<char>),
    TypeParameter { serializer_class: ClassId, field: u32 },
    ExternalCompanion {
        classifier: Seq<char>,
        field: Seq<char>,
        companion: Seq<char>,
        arguments: Seq<PlanView>,
    },
    Builtin(Seq<char>),
}

/// The models of several plans.
pub open spec fn plan_views(plans: Seq<ElementSerializerPlan>) -> Seq<PlanView>
    decreases plans,
{
    Seq::new(
        plans.len(),
        |k: int|
            if 0 <= k < plans.len() {
                plan_view(plans[k])
            } else {
                PlanView::LocalSingleton(0)
            },
    )
}

/// The model of a plan.
pub open spec fn plan_view(plan: ElementSerializerPlan) -> PlanView
    decreases plan,
{
    match plan {
        ElementSerializerPlan::Generated { classifier, arguments } => PlanView::Generated {
            classifier: classifier@,
            arguments: plan_views(arguments@),
        },
        ElementSerializerPlan::ConstructedStandard { serializer, arguments } => {
            PlanView::ConstructedStandard {
                serializer: serializer@,
                arguments: plan_views(arguments@),
            }
        },
        ElementSerializerPlan::Nullable(inner) => PlanView::Nullable(Box::new(plan_view(*inner))),
        ElementSerializerPlan::LocalConstructed { serializer, arguments } => {
            PlanView::LocalConstructed { class: serializer, arguments: plan_views(arguments@) }
        },
        ElementSerializerPlan::Contextual(classifier) => PlanView::Contextual(classifier@),
        ElementSerializerPlan::Polymorphic(classifier) => PlanView::Polymorphic(classifier@),
        ElementSerializerPlan::Object { object, serial_name, serial_info_unsupported } => {
            PlanView::Object { object: object@, serial_name: serial_name@, serial_info_unsupported }
        },
        ElementSerializerPlan::LocalSingleton(class) => PlanView::LocalSingleton(class),
        ElementSerializerPlan::ExternalSingleton(serializer) => PlanView::ExternalSingleton(
            serializer@,
        ),
        ElementSerializerPlan::TypeParameter { serializer_class, field } => {
            PlanView::TypeParameter { serializer_class, field }
        },
        ElementSerializerPlan::ExternalCompanion { classifier, field, companion, arguments } => {
            PlanView::ExternalCompanion {
                classifier: classifier@,
                field: field@,
                companion: companion@,
                arguments: plan_views(arguments@),
            }
        },
        ElementSerializerPlan::Builtin(serializer) => PlanView::Builtin(serializer@),
    }
}

impl View for ElementSerializerPlan {
    type V = PlanView;

    open spec fn view(&self) -> PlanView {
        plan_view(*self)
    }
}


/// The type that can be read where `argument` stands: what is projected out, and nothing for an
/// `in` projection.
pub open spec fn readable(argument: TyView) -> Option<TyView> {
    match argument {
        TyView::OutProjection(inner) | TyView::StarProjection(inner) => Some(*inner),
        TyView::InProjection(_) => None,
        _ => Some(argument),
    }
}

pub fn readable_type_argument(argument: &Ty) -> (read: Option<&Ty>)
    ensures
        readable(argument@) == match read {
            Some(ty) => Some(ty@),
            None => None,
        },
        read matches Some(ty) ==> *ty == *argument || decreases_to!(argument => ty),
{
    match argument {
        Ty::OutProjection(inner) => Some(&**inner),
        Ty::StarProjection(inner) => Some(&**inner),
        Ty::InProjection(_) => None,
        _ => Some(argument),
    }
}

/// Whether a class called `name` has the given trait.
pub open spec fn some_class(
    classes: Seq<IrClass>,
    name: Seq<char>,
    holds: spec_fn(IrClass) -> bool,
) -> bool {
    exists|k: int|
        0 <= k < classes.len() && (#[trigger] classes[k]).name@ == name && holds(classes[k])
}

/// Whether the class is sealed.
pub open spec fn sealed_class(class: IrClass) -> bool {
    class.is_sealed
}

/// Whether the class is an enum.
pub open spec fn enum_class(class: IrClass) -> bool {
    class.enum_entries@.len() > 0
}

/// Whether one of `methods` is called `serializer`.
pub open spec fn hands_out(methods: Seq<usize>, functions: Seq<IrFunction>) -> bool {
    exists|k: int|
        0 <= k < methods.len() && (#[trigger] methods[k]) < functions.len()
            && functions[methods[k] as int].name@ == "serializer"@
}

/// Whether values of the class are serialized by their run-time class: those of an interface, and
/// those of an abstract class that is serializable and not sealed.
pub open spec fn open_class(class: IrClass, functions: Seq<IrFunction>) -> bool {
    class.is_interface || class.is_abstract && !class.is_sealed && (class.companion_class is Some
        || hands_out(class.methods@, functions))
}

fn any_sealed(ir: &IrFile, name: &TypeName) -> (found: bool)
    ensures
        found == some_class(ir.classes@, name@, |class: IrClass| sealed_class(class)),
{
    let mut index: usize = 0;
    while index < ir.classes.len()
        invariant
            index <= ir.classes@.len(),
            forall|k: int|
                0 <= k < index ==> !((#[trigger] ir.classes@[k]).name@ == name@ && sealed_class(
                    ir.classes@[k],
                )),
        decreases ir.classes@.len() - index,
    {
        if ir.classes[index].is_sealed && ir.classes[index].name == *name {
            return true;
        }
        index += 1;
    }
    false
}

pub fn any_enum(ir: &IrFile, name: &TypeName) -> (found: bool)
    ensures
        found == some_class(ir.classes@, name@, |class: IrClass| enum_class(class)),
{
    let mut index: usize = 0;
    while index < ir.classes.len()
        invariant
            index <= ir.classes@.len(),
            forall|k: int|
                0 <= k < index ==> !((#[trigger] ir.classes@[k]).name@ == name@ && enum_class(
                    ir.classes@[k],
                )),
        decreases ir.classes@.len() - index,
    {
        if ir.classes[index].enum_entries.len() > 0 && ir.classes[index].name == *name {
            return true;
        }
        index += 1;
    }
    false
}

fn class_hands_out(class: &IrClass, functions: &Vec<IrFunction>) -> (found: bool)
    ensures
        found == hands_out(class.methods@, functions@),
{
    let mut index: usize = 0;
    while index < class.methods.len()
        invariant
            index <= class.methods@.len(),
            forall|k: int|
                0 <= k < index ==> !((#[trigger] class.methods@[k]) < functions@.len()
                    && functions@[class.methods@[k] as int].name@ == "serializer"@),
        decreases class.methods@.len() - index,
    {
        let method: usize = class.methods[index];
        if method < functions.len() && same_text(functions[method].name.as_str(), "serializer") {
            assert(class.methods@[index as int] == method);
            return true;
        }
        index += 1;
    }
    false
}

fn any_open(ir: &IrFile, name: &TypeName) -> (found: bool)
    ensures
        found == some_class(ir.classes@, name@, |class: IrClass| open_class(class, ir.functions@)),
{
    let mut index: usize = 0;
    while index < ir.classes.len()
        invariant
            index <= ir.classes@.len(),
            forall|k: int|
                0 <= k < index ==> !((#[trigger] ir.classes@[k]).name@ == name@ && open_class(
                    ir.classes@[k],
                    ir.functions@,
                )),
        decreases ir.classes@.len() - index,
    {
        let class = &ir.classes[index];
        if class.name == *name && (class.is_interface || class.is_abstract && !class.is_sealed && (
        class.companion_class.is_some() || class_hands_out(class, &ir.functions))) {
            return true;
        }
        index += 1;
    }
    false
}

/// Whether the name of every serializable object of the file is known.
pub open spec fn objects_named(ir: IrFile, ctx: PluginContext) -> bool {
    forall|k: int|
        0 <= k < ir.classes@.len() && (#[trigger] ir.classes@[k]).is_object && ctx.annotated(
            k as usize,
            "kotlinx/serialization/Serializable"@,
        ) ==> has_serial_name(ir.classes@[k])
}

/// The plan for a class of this file whose serializer is not a class of its own: a sealed class or
/// an enum that hands out its serializer, a type the file declares contextual, and an object.
pub open spec fn declared_plan(ir: IrFile, ctx: PluginContext, name: Seq<char>) -> Option<
    PlanView,
> {
    let accessible = accessor_on_class(ir.classes@, ir.functions@, name, 0)
        || accessor_on_companion(ir.classes@, ir.functions@, name, 0);
    if some_class(ir.classes@, name, |class: IrClass| sealed_class(class)) && accessible {
        Some(PlanView::Generated { classifier: name, arguments: seq![] })
    } else if contextual_type(ctx, name) {
        Some(PlanView::Contextual(name))
    } else {
        match local_object(ir, ctx, name) {
            Some(object) => Some(
                PlanView::Object {
                    object: name,
                    serial_name: serial_name(ir.classes@[object as int]),
                    serial_info_unsupported: has_serial_info(ctx, ir.classes@[object as int]),
                },
            ),
            None => if some_class(ir.classes@, name, |class: IrClass| enum_class(class))
                && accessible {
                Some(PlanView::Generated { classifier: name, arguments: seq![] })
            } else {
                None
            },
        }
    }
}

fn select_declared(ir: &IrFile, ctx: &PluginContext, name: &TypeName) -> (plan: Option<
    ElementSerializerPlan,
>)
    requires
        objects_named(*ir, *ctx),
    ensures
        option_view(plan) == declared_plan(*ir, *ctx, name@),
{
    let accessible = generated_serializer_accessor(ir, name, 0);
    if any_sealed(ir, name) && accessible {
        let arguments: Vec<ElementSerializerPlan> = Vec::new();
        assert(plan_views(arguments@) =~= seq![]);
        return Some(ElementSerializerPlan::Generated { classifier: name.clone(), arguments });
    }
    if type_is_contextual(ctx, name) {
        return Some(ElementSerializerPlan::Contextual(name.clone()));
    }
    if let Some(object) = local_serializable_object(ir, ctx, name) {
        assert(ir.classes@[object as int].is_object);
        return Some(
            ElementSerializerPlan::Object {
                object: name.clone(),
                serial_name: class_serial_name(ir, object),
                serial_info_unsupported: class_has_serial_info(ctx, ir, object),
            },
        );
    }
    if any_enum(ir, name) && accessible {
        let arguments: Vec<ElementSerializerPlan> = Vec::new();
        assert(plan_views(arguments@) =~= seq![]);
        return Some(ElementSerializerPlan::Generated { classifier: name.clone(), arguments });
    }
    None
}

/// The type parameter whose serializer a constructor parameter takes.
pub open spec fn parameter_identity(parameter: IrCtorArg) -> Option<Seq<char>> {
    let declared = match parameter.declared_ty {
        Some(ty) => ty@.non_null(),
        None => parameter.ty@.non_null(),
    };
    match declared {
        TyView::Obj(classifier, arguments) => if classifier
            == "kotlinx/serialization/KSerializer"@ && arguments.len() == 1 {
            arguments[0].ty_param_name()
        } else {
            None
        },
        _ => None,
    }
}

/// Whether the constructor takes the serializers of distinct type parameters, and nothing else.
pub open spec fn takes_serializers(parameters: Seq<IrCtorArg>) -> bool {
    &&& forall|k: int|
        0 <= k < parameters.len() ==> parameter_identity(#[trigger] parameters[k]) is Some
    &&& forall|i: int, j: int|
        0 <= i < j < parameters.len() ==> parameter_identity(#[trigger] parameters[i])
            != parameter_identity(#[trigger] parameters[j])
}

/// Whether a serializer class is constructed with one serializer for each of `count` type
/// arguments.
pub open spec fn constructed_over(class: IrClass, count: nat) -> bool {
    &&& class.constructor_prefix_count == 0
    &&& class.captured_type_params@.len() == 0
    &&& count > 0
    &&& class.type_params@.len() == count
    &&& class.ctor_args@.len() == count
    &&& takes_serializers(class.ctor_args@)
}

fn identity_of(parameter: &IrCtorArg) -> (identity: Option<&str>)
    ensures
        parameter_identity(*parameter) == match identity {
            Some(name) => Some(name@),
            None => None,
        },
{
    let declared: &Ty = match &parameter.declared_ty {
        Some(ty) => ty.non_null(),
        None => parameter.ty.non_null(),
    };
    match declared {
        Ty::Obj(classifier, arguments) => {
            assert(declared@->Obj_1 == views(arguments@));
            if classifier.matches("kotlinx/serialization/KSerializer") && arguments.len() == 1 {
                arguments[0].ty_param_name()
            } else {
                None
            }
        },
        _ => None,
    }
}

fn constructor_takes_serializers(parameters: &Vec<IrCtorArg>) -> (yes: bool)
    ensures
        yes == takes_serializers(parameters@),
{
    let mut seen: Vec<&str> = Vec::new();
    let mut index: usize = 0;
    while index < parameters.len()
        invariant
            index <= parameters@.len(),
            seen@.len() == index,
            forall|k: int|
                0 <= k < index ==> parameter_identity(#[trigger] parameters@[k]) == Some(
                    seen@[k]@,
                ),
            forall|i: int, j: int|
                0 <= i < j < index ==> parameter_identity(#[trigger] parameters@[i])
                    != parameter_identity(#[trigger] parameters@[j]),
        decreases parameters@.len() - index,
    {
        let identity: &str = match identity_of(&parameters[index]) {
            Some(name) => name,
            None => {
                return false;
            },
        };
        let mut earlier: usize = 0;
        while earlier < index
            invariant
                earlier <= index,
                index < parameters@.len(),
                seen@.len() == index,
                parameter_identity(parameters@[index as int]) == Some(identity@),
                forall|k: int|
                    0 <= k < index ==> parameter_identity(#[trigger] parameters@[k]) == Some(
                        seen@[k]@,
                    ),
                forall|k: int| 0 <= k < earlier ==> seen@[k]@ != identity@,
            decreases index - earlier,
        {
            if same_text(seen[earlier], identity) {
                assert(parameter_identity(parameters@[earlier as int]) == parameter_identity(
                    parameters@[index as int],
                ));
                return false;
            }
            earlier += 1;
        }
        seen.push(identity);
        index += 1;
    }
    true
}

/// Whether every one of several arguments can be read.
pub open spec fn all_readable(arguments: Seq<TyView>) -> bool {
    forall|k: int| 0 <= k < arguments.len() ==> readable(#[trigger] arguments[k]) is Some
}

fn are_readable(arguments: &Vec<Ty>) -> (yes: bool)
    ensures
        yes == all_readable(views(arguments@)),
{
    let mut index: usize = 0;
    while index < arguments.len()
        invariant
            index <= arguments@.len(),
            forall|k: int| 0 <= k < index ==> readable(#[trigger] views(arguments@)[k]) is Some,
        decreases arguments@.len() - index,
    {
        if readable_type_argument(&arguments[index]).is_none() {
            assert(readable(views(arguments@)[index as int]) is None);
            return false;
        }
        index += 1;
    }
    true
}

/// The number of type parameters of the class `name` of this file.
pub open spec fn parameter_count(ir: IrFile, name: Seq<char>) -> nat {
    match class_named(ir.classes@, name) {
        Some(class) => ir.classes@[class as int].type_params@.len(),
        None => 0,
    }
}

/// What a class of this file says of its own serializer.
pub enum CustomPlan {
    /// It names none that this file can construct.
    Open,
    /// It names one that cannot be constructed for these arguments.
    Underivable,
    /// It names an object.
    Singleton(ClassId),
    /// It names a class that is constructed with the serializers of the arguments.
    Constructed(ClassId),
}

/// How the serializer that the class `name` of this file names is come by.
pub open spec fn custom_plan(
    ir: IrFile,
    ctx: PluginContext,
    name: Seq<char>,
    arguments: Seq<TyView>,
) -> CustomPlan {
    match class_named(ir.classes@, name) {
        None => CustomPlan::Open,
        Some(class) => match custom_serializer(ctx, class) {
            None => CustomPlan::Open,
            Some(custom) => match crate::plugins::serialization::cached_serializer::object_named(
                ir.classes@,
                custom,
            ) {
                Some(serializer) => CustomPlan::Singleton(serializer),
                None => match class_named(ir.classes@, custom) {
                    None => CustomPlan::Open,
                    Some(serializer) => if !all_readable(arguments) {
                        CustomPlan::Underivable
                    } else if constructed_over(
                        ir.classes@[serializer as int],
                        arguments.len(),
                    ) {
                        CustomPlan::Constructed(serializer)
                    } else {
                        CustomPlan::Open
                    },
                },
            },
        },
    }
}

enum CustomSelection {
    Open,
    Underivable,
    Singleton(ClassId),
    Constructed(ClassId),
}

impl View for CustomSelection {
    type V = CustomPlan;

    closed spec fn view(&self) -> CustomPlan {
        match *self {
            CustomSelection::Open => CustomPlan::Open,
            CustomSelection::Underivable => CustomPlan::Underivable,
            CustomSelection::Singleton(class) => CustomPlan::Singleton(class),
            CustomSelection::Constructed(class) => CustomPlan::Constructed(class),
        }
    }
}

fn select_custom(ir: &IrFile, ctx: &PluginContext, name: &TypeName, arguments: &Vec<Ty>) -> (plan:
    CustomSelection)
    ensures
        plan@ == custom_plan(*ir, *ctx, name@, views(arguments@)),
        plan matches CustomSelection::Constructed(class) ==> class < ir.classes@.len(),
{
    match ir.class_position(name) {
        None => CustomSelection::Open,
        Some(class) => match custom_serializer_of(ctx, class) {
            None => CustomSelection::Open,
            Some(custom) => match crate::plugins::serialization::cached_serializer::object_position(
                ir,
                &custom,
            ) {
                Some(serializer) => CustomSelection::Singleton(serializer),
                None => match ir.class_position(&custom) {
                    None => CustomSelection::Open,
                    Some(serializer) => {
                        if !are_readable(arguments) {
                            return CustomSelection::Underivable;
                        }
                        let found = &ir.classes[serializer];
                        if found.constructor_prefix_count == 0 && found.captured_type_params.len()
                            == 0 && arguments.len() > 0 && found.type_params.len()
                            == arguments.len() && found.ctor_args.len() == arguments.len()
                            && constructor_takes_serializers(&found.ctor_args) {
                            CustomSelection::Constructed(serializer)
                        } else {
                            CustomSelection::Open
                        }
                    },
                },
            },
        },
    }
}

/// The plan for a builtin type, where the runtime has its serializer.
pub open spec fn builtin_plan(ctx: PluginContext, name: Seq<char>) -> Option<PlanView> {
    match builtin_serializer(name) {
        Some((serializer, marked)) => if marked && !ctx.provides(serializer) {
            None
        } else {
            Some(PlanView::Builtin(serializer))
        },
        None => None,
    }
}

/// The plans for the first `count` arguments of a type; none where one of them has none.
pub open spec fn argument_plans(
    ir: IrFile,
    ctx: PluginContext,
    ty: TyView,
    count: nat,
    read_before: bool,
    scope: ScopeView,
) -> Option<Seq<PlanView>>
    decreases ty, 1int,
{
    match ty.non_null() {
        TyView::Obj(_, arguments) => if forall|k: int|
            0 <= k < count && k < arguments.len() ==> given_plan(
                ir,
                ctx,
                #[trigger] arguments[k],
                read_before,
                scope,
            ) is Some {
            Some(
                Seq::new(
                    count,
                    |k: int|
                        if 0 <= k < arguments.len() {
                            given_plan(ir, ctx, arguments[k], read_before, scope)->0
                        } else {
                            PlanView::LocalSingleton(0)
                        },
                ),
            )
        } else {
            None
        },
        _ => Some(seq![]),
    }
}

/// The plan for one type argument. Where it is `read_before`, what it reads as is planned for in its
/// place: a serializer class of this file is constructed over what its arguments read as.
pub open spec fn given_plan(
    ir: IrFile,
    ctx: PluginContext,
    argument: TyView,
    read_before: bool,
    scope: ScopeView,
) -> Option<PlanView>
    decreases argument, 5int,
{
    if read_before {
        match readable(argument) {
            Some(read) => argument_plan(ir, ctx, read, scope),
            None => None,
        }
    } else {
        argument_plan(ir, ctx, argument, scope)
    }
}

/// The plan for one type argument. A nullable argument needs a serializer of nullable values of its
/// own.
pub open spec fn argument_plan(
    ir: IrFile,
    ctx: PluginContext,
    argument: TyView,
    scope: ScopeView,
) -> Option<PlanView>
    decreases argument, 4int,
{
    match readable(argument) {
        None => None,
        Some(read) => match element_plan(ir, ctx, read, scope) {
            None => None,
            Some(plan) => Some(
                if read.is_nullable() {
                    PlanView::Nullable(Box::new(plan))
                } else {
                    plan
                },
            ),
        },
    }
}

/// The plan for an element of the type `ty`: how its serializer is come by, and none where it
/// cannot be.
pub open spec fn element_plan(
    ir: IrFile,
    ctx: PluginContext,
    ty: TyView,
    scope: ScopeView,
) -> Option<PlanView>
    decreases ty, 3int,
{
    match ty.non_null().ty_param_name() {
        Some(identity) => match scope.field(identity) {
            Some(field) => Some(
                PlanView::TypeParameter { serializer_class: scope.serializer_class, field },
            ),
            None => None,
        },
        None => match ty.kotlin_class_internal() {
            Some(name) => classifier_plan(ir, ctx, ty, name, scope),
            None => None,
        },
    }
}

/// The plan for an element of the type `ty`, whose classifier is `name`.
pub open spec fn classifier_plan(
    ir: IrFile,
    ctx: PluginContext,
    ty: TyView,
    name: Seq<char>,
    scope: ScopeView,
) -> Option<PlanView>
    decreases ty, 2int,
{
    let arguments = ty.non_null().type_args();
    let plans = argument_plans(ir, ctx, ty, arguments.len(), false, scope);
    match declared_plan(ir, ctx, name) {
        Some(plan) => Some(plan),
        None => match standard_serializer(name) {
            Some(serializer) => if arguments.len() == 0 {
                None
            } else {
                match plans {
                    Some(arguments) => Some(
                        PlanView::ConstructedStandard { serializer, arguments },
                    ),
                    None => None,
                }
            },
            None => if some_class(
                ir.classes@,
                name,
                |class: IrClass| open_class(class, ir.functions@),
            ) {
                Some(PlanView::Polymorphic(name))
            } else {
                match class_named(ir.classes@, nested_name(name, "$serializer"@)) {
                    Some(serializer) => {
                        let count = parameter_count(ir, name);
                        if count == 0 {
                            Some(PlanView::LocalSingleton(serializer))
                        } else if arguments.len() < count {
                            None
                        } else {
                            match argument_plans(ir, ctx, ty, count, false, scope) {
                                Some(arguments) => Some(
                                    PlanView::Generated { classifier: name, arguments },
                                ),
                                None => None,
                            }
                        }
                    },
                    None => match custom_plan(ir, ctx, name, arguments) {
                        CustomPlan::Singleton(class) => Some(PlanView::LocalSingleton(class)),
                        CustomPlan::Underivable => None,
                        CustomPlan::Constructed(class) => match argument_plans(
                            ir,
                            ctx,
                            ty,
                            arguments.len(),
                            true,
                            scope,
                        ) {
                            Some(arguments) => Some(
                                PlanView::LocalConstructed { class, arguments },
                            ),
                            None => None,
                        },
                        CustomPlan::Open => match serializer_for(ctx.external_serializers@, name) {
                            Some(ExternalSerializerView::Singleton(serializer)) if arguments.len()
                                == 0 => Some(PlanView::ExternalSingleton(serializer)),
                            Some(
                                ExternalSerializerView::Object {
                                    serial_name,
                                    serial_info_unsupported,
                                },
                            ) if arguments.len() == 0 => Some(
                                PlanView::Object {
                                    object: name,
                                    serial_name,
                                    serial_info_unsupported,
                                },
                            ),
                            Some(
                                ExternalSerializerView::Companion {
                                    field,
                                    companion,
                                    type_parameters,
                                },
                            ) => if arguments.len() != type_parameters as nat {
                                None
                            } else {
                                match plans {
                                    Some(arguments) => Some(
                                        PlanView::ExternalCompanion {
                                            classifier: name,
                                            field,
                                            companion,
                                            arguments,
                                        },
                                    ),
                                    None => None,
                                }
                            },
                            _ => builtin_plan(ctx, name),
                        },
                    },
                }
            },
        },
    }
}

/// Whether `plans` are the plans for the first `count` arguments.
spec fn planned(
    ir: IrFile,
    ctx: PluginContext,
    arguments: Seq<Ty>,
    count: nat,
    read_before: bool,
    scope: ScopeView,
    plans: Option<Vec<ElementSerializerPlan>>,
) -> bool {
    match plans {
        Some(found) => found@.len() == count && forall|k: int|
            0 <= k < count ==> given_plan(
                ir,
                ctx,
                (#[trigger] arguments[k])@,
                read_before,
                scope,
            ) == Some(found@[k]@),
        None => exists|k: int|
            0 <= k < count && given_plan(
                ir,
                ctx,
                (#[trigger] arguments[k])@,
                read_before,
                scope,
            ) is None,
    }
}

proof fn lemma_planned(
    ir: IrFile,
    ctx: PluginContext,
    ty: TyView,
    arguments: Seq<Ty>,
    count: nat,
    read_before: bool,
    scope: ScopeView,
    plans: Option<Vec<ElementSerializerPlan>>,
)
    requires
        planned(ir, ctx, arguments, count, read_before, scope, plans),
        ty.non_null().type_args() == views(arguments),
        count <= arguments.len(),
        ty.non_null() is Obj || count == 0,
    ensures
        argument_plans(ir, ctx, ty, count, read_before, scope) == match plans {
            Some(found) => Some(plan_views(found@)),
            None => None,
        },
{
    match ty.non_null() {
        TyView::Obj(_, shown) => {
            assert(shown == views(arguments));
            match plans {
                Some(found) => {
                    assert forall|k: int| 0 <= k < count && k < shown.len() implies given_plan(
                        ir,
                        ctx,
                        #[trigger] shown[k],
                        read_before,
                        scope,
                    ) is Some by {
                        assert(shown[k] == arguments[k]@);
                    }
                    assert forall|k: int| 0 <= k < count implies given_plan(
                        ir,
                        ctx,
                        shown[k],
                        read_before,
                        scope,
                    ) == Some(plan_view(found@[k])) by {
                        assert(shown[k] == arguments[k]@);
                    }
                    assert(argument_plans(ir, ctx, ty, count, read_before, scope)->0 =~= plan_views(
                        found@,
                    ));
                },
                None => {
                    let k = choose|k: int|
                        0 <= k < count && given_plan(
                            ir,
                            ctx,
                            (#[trigger] arguments[k])@,
                            read_before,
                            scope,
                        ) is None;
                    assert(given_plan(ir, ctx, shown[k], read_before, scope) is None);
                },
            }
        },
        _ => {
            assert(plans is Some);
            assert(plan_views(plans->0@) =~= seq![]);
        },
    }
}

fn plan_arguments(
    ir: &IrFile,
    ctx: &PluginContext,
    arguments: &Vec<Ty>,
    count: usize,
    read_before: bool,
    scope: TypeParameterSerializers<'_>,
) -> (plans: Option<Vec<ElementSerializerPlan>>)
    requires
        objects_named(*ir, *ctx),
        scope@.fits(),
        count <= arguments@.len(),
    ensures
        planned(*ir, *ctx, arguments@, count as nat, read_before, scope@, plans),
    decreases arguments, 0int,
{
    let mut plans: Vec<ElementSerializerPlan> = Vec::new();
    let mut index: usize = 0;
    while index < count
        invariant
            index <= count,
            count <= arguments@.len(),
            objects_named(*ir, *ctx),
            scope@.fits(),
            plans@.len() == index,
            forall|k: int|
                0 <= k < index ==> given_plan(
                    *ir,
                    *ctx,
                    (#[trigger] arguments@[k])@,
                    read_before,
                    scope@,
                ) == Some(plans@[k]@),
        decreases count - index,
    {
        match given_serializer_plan(ir, ctx, &arguments[index], read_before, scope) {
            Some(plan) => {
                plans.push(plan);
            },
            None => {
                assert(given_plan(
                    *ir,
                    *ctx,
                    arguments@[index as int]@,
                    read_before,
                    scope@,
                ) is None);
                return None;
            },
        }
        index += 1;
    }
    Some(plans)
}

fn given_serializer_plan(
    ir: &IrFile,
    ctx: &PluginContext,
    argument: &Ty,
    read_before: bool,
    scope: TypeParameterSerializers<'_>,
) -> (plan: Option<ElementSerializerPlan>)
    requires
        objects_named(*ir, *ctx),
        scope@.fits(),
    ensures
        option_view(plan) == given_plan(*ir, *ctx, argument@, read_before, scope@),
    decreases argument, 4int,
{
    if !read_before {
        return type_argument_serializer_plan(ir, ctx, argument, scope);
    }
    match readable_type_argument(argument) {
        Some(read) => type_argument_serializer_plan(ir, ctx, read, scope),
        None => None,
    }
}

/// The plan for one type argument.
fn type_argument_serializer_plan(
    ir: &IrFile,
    ctx: &PluginContext,
    argument: &Ty,
    scope: TypeParameterSerializers<'_>,
) -> (plan: Option<ElementSerializerPlan>)
    requires
        objects_named(*ir, *ctx),
        scope@.fits(),
    ensures
        option_view(plan) == argument_plan(*ir, *ctx, argument@, scope@),
    decreases argument, 3int,
{
    match readable_type_argument(argument) {
        None => None,
        Some(read) => match element_serializer_plan_in(ir, ctx, read, scope) {
            None => None,
            Some(plan) => if read.is_nullable() {
                Some(ElementSerializerPlan::Nullable(Box::new(plan)))
            } else {
                Some(plan)
            },
        },
    }
}

/// The plan for an element of the type `ty`, where no type parameter has a serializer.
pub fn element_serializer_plan(ir: &IrFile, ctx: &PluginContext, ty: &Ty) -> (plan: Option<
    ElementSerializerPlan,
>)
    requires
        objects_named(*ir, *ctx),
    ensures
        option_view(plan) == element_plan(*ir, *ctx, ty@, ScopeView::none()),
{
    element_serializer_plan_in(ir, ctx, ty, TypeParameterSerializers::none())
}

/// The plan for an element of the type `ty`, where the type parameters in `scope` have serializers.
/// Whether an element is supported and how its serializer is emitted both follow from this one
/// decision.
pub fn element_serializer_plan_in(
    ir: &IrFile,
    ctx: &PluginContext,
    ty: &Ty,
    scope: TypeParameterSerializers<'_>,
) -> (plan: Option<ElementSerializerPlan>)
    requires
        objects_named(*ir, *ctx),
        scope@.fits(),
    ensures
        option_view(plan) == element_plan(*ir, *ctx, ty@, scope@),
    decreases ty, 2int,
{
    let inner: &Ty = match ty {
        Ty::Nullable(inner) => &**inner,
        Ty::PlatformNullable(inner) => &**inner,
        _ => ty,
    };
    assert(inner@ == ty@.non_null());
    if let Some(identity) = inner.ty_param_name() {
        return match scope.field(identity) {
            Some(field) => Some(
                ElementSerializerPlan::TypeParameter {
                    serializer_class: scope.serializer_class(),
                    field,
                },
            ),
            None => None,
        };
    }
    let name = match ty.kotlin_class_internal() {
        Some(name) => name,
        None => {
            return None;
        },
    };
    let ghost shown = ty@.non_null().type_args();
    assert(element_plan(*ir, *ctx, ty@, scope@) == classifier_plan(
        *ir,
        *ctx,
        ty@,
        name@,
        scope@,
    ));
    match inner {
        Ty::Obj(_, arguments) => {
            assert(inner@->Obj_1 == views(arguments@));
            plan_classifier(ir, ctx, ty, name, arguments, scope)
        },
        _ => plan_plain(ir, ctx, ty, name, scope),
    }
}

/// The plan for a type without arguments that is no classifier type itself: a builtin one.
fn plan_plain(
    ir: &IrFile,
    ctx: &PluginContext,
    ty: &Ty,
    name: TypeName,
    scope: TypeParameterSerializers<'_>,
) -> (plan: Option<ElementSerializerPlan>)
    requires
        objects_named(*ir, *ctx),
        scope@.fits(),
        ty@.non_null() !is Obj,
    ensures
        option_view(plan) == classifier_plan(*ir, *ctx, ty@, name@, scope@),
{
    let arguments: Vec<Ty> = Vec::new();
    assert(views(arguments@) =~= ty@.non_null().type_args());
    match select_head(ir, ctx, &name, 0) {
        Head::Found(plan) => Some(plan),
        Head::Missing => None,
        Head::Constructed(_) => None,
        Head::Generic(_) => None,
        Head::Other => match select_tail(ir, ctx, &name, &arguments) {
            Tail::Found(plan) => Some(plan),
            Tail::Missing => None,
            Tail::Constructed(class) => None,
            Tail::Companion { field, companion } => {
                let none: Vec<ElementSerializerPlan> = Vec::new();
                assert(argument_plans(*ir, *ctx, ty@, 0, false, scope@)->0 =~= plan_views(none@));
                Some(
                    ElementSerializerPlan::ExternalCompanion {
                        classifier: name,
                        field,
                        companion,
                        arguments: none,
                    },
                )
            },
        },
    }
}

enum Head {
    Found(ElementSerializerPlan),
    Missing,
    Constructed(TypeName),
    Generic(usize),
    Other,
}

/// What the first rules say: those for classes of this file with a generated serializer, for
/// standard types and for open classes.
spec fn head_says(
    ir: IrFile,
    ctx: PluginContext,
    name: Seq<char>,
    count: nat,
    head: Head,
) -> bool {
    match head {
        Head::Found(plan) => declared_plan(ir, ctx, name) == Some(plan@) || (declared_plan(
            ir,
            ctx,
            name,
        ) is None && standard_serializer(name) is None && if some_class(
            ir.classes@,
            name,
            |class: IrClass| open_class(class, ir.functions@),
        ) {
            plan@ == PlanView::Polymorphic(name)
        } else {
            class_named(ir.classes@, nested_name(name, "$serializer"@)) matches Some(class)
                && parameter_count(ir, name) == 0 && plan@ == PlanView::LocalSingleton(class)
        }),
        Head::Missing => declared_plan(ir, ctx, name) is None && (standard_serializer(name) is Some
            && count == 0 || standard_serializer(name) is None && !some_class(
            ir.classes@,
            name,
            |class: IrClass| open_class(class, ir.functions@),
        ) && class_named(ir.classes@, nested_name(name, "$serializer"@)) is Some
            && parameter_count(ir, name) > count),
        Head::Constructed(serializer) => declared_plan(ir, ctx, name) is None
            && standard_serializer(name) == Some(serializer@) && count > 0,
        Head::Generic(parameters) => declared_plan(ir, ctx, name) is None && standard_serializer(
            name,
        ) is None && !some_class(
            ir.classes@,
            name,
            |class: IrClass| open_class(class, ir.functions@),
        ) && class_named(ir.classes@, nested_name(name, "$serializer"@)) is Some
            && parameter_count(ir, name) == parameters && 0 < parameters <= count,
        Head::Other => declared_plan(ir, ctx, name) is None && standard_serializer(name) is None
            && !some_class(ir.classes@, name, |class: IrClass| open_class(class, ir.functions@))
            && class_named(ir.classes@, nested_name(name, "$serializer"@)) is None,
    }
}

fn select_head(ir: &IrFile, ctx: &PluginContext, name: &TypeName, count: usize) -> (head: Head)
    requires
        objects_named(*ir, *ctx),
    ensures
        head_says(*ir, *ctx, name@, count as nat, head),
{
    if let Some(plan) = select_declared(ir, ctx, name) {
        return Head::Found(plan);
    }
    if let Some(serializer) = constructed_standard_serializer(name) {
        return if count == 0 {
            Head::Missing
        } else {
            Head::Constructed(serializer)
        };
    }
    if any_open(ir, name) {
        return Head::Found(ElementSerializerPlan::Polymorphic(name.clone()));
    }
    match ir.class_position(&name.nested_child("$serializer")) {
        None => Head::Other,
        Some(serializer) => {
            let parameters: usize = match ir.class_position(name) {
                Some(class) => ir.classes[class].type_params.len(),
                None => 0,
            };
            if parameters == 0 {
                Head::Found(ElementSerializerPlan::LocalSingleton(serializer))
            } else if count < parameters {
                Head::Missing
            } else {
                Head::Generic(parameters)
            }
        },
    }
}

enum Tail {
    Found(ElementSerializerPlan),
    Missing,
    Constructed(ClassId),
    Companion { field: String, companion: TypeName },
}

/// What the last rules say: those for serializers that a class names, for classifiers of other
/// files and for builtin types.
spec fn tail_says(
    ir: IrFile,
    ctx: PluginContext,
    name: Seq<char>,
    arguments: Seq<TyView>,
    tail: Tail,
) -> bool {
    match custom_plan(ir, ctx, name, arguments) {
        CustomPlan::Singleton(class) => tail matches Tail::Found(plan) && plan@
            == PlanView::LocalSingleton(class),
        CustomPlan::Underivable => tail is Missing,
        CustomPlan::Constructed(class) => tail == Tail::Constructed(class),
        CustomPlan::Open => match serializer_for(ctx.external_serializers@, name) {
            Some(ExternalSerializerView::Singleton(serializer)) if arguments.len() == 0 => tail
                matches Tail::Found(plan) && plan@ == PlanView::ExternalSingleton(serializer),
            Some(
                ExternalSerializerView::Object { serial_name, serial_info_unsupported },
            ) if arguments.len() == 0 => tail matches Tail::Found(plan) && plan@
                == (PlanView::Object { object: name, serial_name, serial_info_unsupported }),
            Some(
                ExternalSerializerView::Companion { field, companion, type_parameters },
            ) => if arguments.len() != type_parameters as nat {
                tail is Missing
            } else {
                tail matches Tail::Companion { field: found, companion: owner } && found@ == field
                    && owner@ == companion
            },
            _ => match builtin_plan(ctx, name) {
                Some(shown) => tail matches Tail::Found(plan) && plan@ == shown,
                None => tail is Missing,
            },
        },
    }
}

fn select_tail(ir: &IrFile, ctx: &PluginContext, name: &TypeName, arguments: &Vec<Ty>) -> (tail:
    Tail)
    ensures
        tail_says(*ir, *ctx, name@, views(arguments@), tail),
        tail matches Tail::Constructed(class) ==> class < ir.classes@.len(),
{
    match select_custom(ir, ctx, name, arguments) {
        CustomSelection::Singleton(class) => {
            return Tail::Found(ElementSerializerPlan::LocalSingleton(class));
        },
        CustomSelection::Underivable => {
            return Tail::Missing;
        },
        CustomSelection::Constructed(class) => {
            return Tail::Constructed(class);
        },
        CustomSelection::Open => {},
    }
    if let Some(external) = ctx.external_serializer(name) {
        match external {
            ExternalSerializer::Singleton(serializer) => {
                if arguments.len() == 0 {
                    return Tail::Found(
                        ElementSerializerPlan::ExternalSingleton(serializer.clone()),
                    );
                }
            },
            ExternalSerializer::Object { serial_name, serial_info_unsupported } => {
                if arguments.len() == 0 {
                    return Tail::Found(
                        ElementSerializerPlan::Object {
                            object: name.clone(),
                            serial_name: serial_name.clone(),
                            serial_info_unsupported: *serial_info_unsupported,
                        },
                    );
                }
            },
            ExternalSerializer::Companion { field, companion, type_parameters } => {
                if arguments.len() != *type_parameters {
                    return Tail::Missing;
                }
                return Tail::Companion { field: field.clone(), companion: companion.clone() };
            },
        }
    }
    match builtin_serializers(name) {
        Some(found) => {
            if found.requires_runtime_declaration && !ctx.runtime_provides(&found.serializer) {
                Tail::Missing
            } else {
                Tail::Found(ElementSerializerPlan::Builtin(found.serializer))
            }
        },
        None => Tail::Missing,
    }
}

fn plan_classifier(
    ir: &IrFile,
    ctx: &PluginContext,
    ty: &Ty,
    name: TypeName,
    arguments: &Vec<Ty>,
    scope: TypeParameterSerializers<'_>,
) -> (plan: Option<ElementSerializerPlan>)
    requires
        objects_named(*ir, *ctx),
        scope@.fits(),
        ty@.non_null() is Obj,
        ty@.non_null().type_args() == views(arguments@),
    ensures
        option_view(plan) == classifier_plan(*ir, *ctx, ty@, name@, scope@),
    decreases arguments, 1int,
{
    let count: usize = arguments.len();
    match select_head(ir, ctx, &name, count) {
        Head::Found(plan) => Some(plan),
        Head::Missing => None,
        Head::Constructed(serializer) => {
            let plans = plan_arguments(ir, ctx, arguments, count, false, scope);
            proof {
                lemma_planned(*ir, *ctx, ty@, arguments@, count as nat, false, scope@, plans);
            }
            match plans {
                Some(arguments) => Some(
                    ElementSerializerPlan::ConstructedStandard { serializer, arguments },
                ),
                None => None,
            }
        },
        Head::Generic(parameters) => {
            let plans = plan_arguments(ir, ctx, arguments, parameters, false, scope);
            proof {
                lemma_planned(*ir, *ctx, ty@, arguments@, parameters as nat, false, scope@, plans);
            }
            match plans {
                Some(arguments) => Some(
                    ElementSerializerPlan::Generated { classifier: name, arguments },
                ),
                None => None,
            }
        },
        Head::Other => match select_tail(ir, ctx, &name, arguments) {
            Tail::Found(plan) => Some(plan),
            Tail::Missing => None,
            Tail::Constructed(class) => {
                let plans = plan_arguments(ir, ctx, arguments, count, true, scope);
                proof {
                    lemma_planned(*ir, *ctx, ty@, arguments@, count as nat, true, scope@, plans);
                }
                match plans {
                    Some(arguments) => Some(
                        ElementSerializerPlan::LocalConstructed { serializer: class, arguments },
                    ),
                    None => None,
                }
            },
            Tail::Companion { field, companion } => {
                let plans = plan_arguments(ir, ctx, arguments, count, false, scope);
                proof {
                    lemma_planned(*ir, *ctx, ty@, arguments@, count as nat, false, scope@, plans);
                }
                match plans {
                    Some(arguments) => Some(
                        ElementSerializerPlan::ExternalCompanion {
                            classifier: name,
                            field,
                            companion,
                            arguments,
                        },
                    ),
                    None => None,
                }
            },
        },
    }
}

/// A serializer narrowed to the interface that factories take. Where it has that static type
/// already, the cast vanishes.
pub open spec fn narrowed_serializer(serializer: IrTree) -> IrTree {
    cast_tree(serializer, class_type("kotlinx/serialization/KSerializer"@))
}

/// The construction of a standard serializer.
pub open spec fn standard_tree(serializer: Seq<char>, arguments: Seq<IrTree>) -> IrTree {
    IrTree {
        label: IrLabel::New {
            internal: serializer,
            ctor_params: Some(
                Seq::new(
                    arguments.len(),
                    |k: int| class_type("kotlinx/serialization/KSerializer"@),
                ),
            ),
            ctor_desc: Some(
                "("@ + repeated("Lkotlinx/serialization/KSerializer;"@, arguments.len()) + ")V"@,
            ),
        },
        operands: arguments,
    }
}

/// The construction of a serializer class of this file.
pub open spec fn local_construction(class: Seq<char>, arguments: Seq<IrTree>) -> IrTree {
    IrTree {
        label: IrLabel::New { internal: class, ctor_params: None, ctor_desc: None },
        operands: arguments,
    }
}

/// The expressions of several plans, each narrowed or not.
pub open spec fn plan_trees(
    classes: Seq<IrClass>,
    functions: Seq<IrFunction>,
    plans: Seq<PlanView>,
    narrow: bool,
) -> Seq<IrTree>
    decreases plans,
{
    Seq::new(
        plans.len(),
        |k: int|
            if 0 <= k < plans.len() {
                let serializer = plan_tree(classes, functions, plans[k]);
                if narrow {
                    narrowed_serializer(serializer)
                } else {
                    serializer
                }
            } else {
                null_tree()
            },
    )
}

/// The expression that comes by a serializer as planned.
pub open spec fn plan_tree(
    classes: Seq<IrClass>,
    functions: Seq<IrFunction>,
    plan: PlanView,
) -> IrTree
    decreases plan,
{
    match plan {
        PlanView::Generated { classifier, arguments } => accessor_call(
            classes,
            functions,
            classifier,
            plan_trees(classes, functions, arguments, false),
        ),
        PlanView::ConstructedStandard { serializer, arguments } => standard_tree(
            serializer,
            plan_trees(classes, functions, arguments, true),
        ),
        PlanView::Nullable(inner) => nullable_serializer(
            narrowed_serializer(plan_tree(classes, functions, *inner)),
        ),
        PlanView::LocalConstructed { class, arguments } => local_construction(
            classes[class as int].name@,
            plan_trees(classes, functions, arguments, false),
        ),
        PlanView::Contextual(classifier) => contextual_serializer(classifier),
        PlanView::Polymorphic(classifier) => polymorphic_serializer(classifier),
        PlanView::Object { object, serial_name, serial_info_unsupported } => {
            object_serializer_tree(
                object,
                const_tree(IrConstView::String(serial_name)),
                serial_info_unsupported,
            )
        },
        PlanView::LocalSingleton(class) => local_instance_tree(class),
        PlanView::ExternalSingleton(serializer) => instance_tree(serializer),
        PlanView::TypeParameter { serializer_class, field } => field_tree(
            value_tree(0),
            serializer_class,
            field,
        ),
        PlanView::ExternalCompanion { classifier, field, companion, arguments } => {
            external_accessor_call(
                classifier,
                field,
                companion,
                plan_trees(classes, functions, arguments, true),
            )
        },
        PlanView::Builtin(serializer) => instance_tree(serializer),
    }
}

/// Whether every class that a plan constructs is one of `count` classes.
pub open spec fn plan_fits(plan: PlanView, count: nat) -> bool
    decreases plan,
{
    match plan {
        PlanView::Generated { arguments, .. } => plans_fit(arguments, count),
        PlanView::ConstructedStandard { arguments, .. } => plans_fit(arguments, count),
        PlanView::Nullable(inner) => plan_fits(*inner, count),
        PlanView::LocalConstructed { class, arguments } => class < count && plans_fit(
            arguments,
            count,
        ),
        PlanView::ExternalCompanion { arguments, .. } => plans_fit(arguments, count),
        _ => true,
    }
}

/// Whether every class that some plans construct is one of `count` classes.
pub open spec fn plans_fit(plans: Seq<PlanView>, count: nat) -> bool
    decreases plans,
{
    forall|k: int| 0 <= k < plans.len() ==> plan_fits(#[trigger] plans[k], count)
}

fn kserializer_types(count: usize) -> (types: Vec<Ty>)
    ensures
        views(types@) == Seq::new(
            count as nat,
            |k: int| class_type("kotlinx/serialization/KSerializer"@),
        ),
{
    let mut types: Vec<Ty> = Vec::new();
    while types.len() < count
        invariant
            types@.len() <= count,
            forall|k: int|
                0 <= k < types@.len() ==> (#[trigger] types@[k])@ == class_type(
                    "kotlinx/serialization/KSerializer"@,
                ),
        decreases count - types@.len(),
    {
        types.push(class_ty("kotlinx/serialization/KSerializer"));
    }
    assert(views(types@) =~= Seq::new(
        count as nat,
        |k: int| class_type("kotlinx/serialization/KSerializer"@),
    ));
    types
}

/// Narrow a serializer to the interface that factories take.
pub fn narrow_to_kserializer(exprs: &mut Vec<IrExpr>, serializer: ExprId) -> (id: ExprId)
    requires
        grounded(old(exprs)@, serializer),
    ensures
        grows(old(exprs)@, final(exprs)@),
        grounded(final(exprs)@, id),
        tree(final(exprs)@, id) == narrowed_serializer(tree(old(exprs)@, serializer)),
        adds(old(exprs)@, final(exprs)@, id, 1),
{
    plant_cast(exprs, serializer, class_ty("kotlinx/serialization/KSerializer"))
}

proof fn lemma_narrowed_nodes(serializer: IrTree)
    ensures
        nodes(narrowed_serializer(serializer)) == nodes(serializer) + 1,
{
    lemma_more_nodes(seq![], serializer);
    assert(Seq::<IrTree>::empty().push(serializer) =~= seq![serializer]);
}

/// Whether the serializer of an object is laid out so: its name, the instance, the annotations, and
/// then the construction at `id`.
pub open spec fn object_laid_out(
    before: Seq<IrExpr>,
    after: Seq<IrExpr>,
    id: ExprId,
    shown: IrTree,
) -> bool {
    let start = before.len() as int;
    &&& adds(before, after, id, 4)
    &&& after[id as int].operands() == seq![start as usize, (start + 1) as usize, (start + 2) as usize]
    &&& forall|k: int|
        0 <= k < 3 ==> (#[trigger] after[start + k]).label() == shown.operands[k].label
            && after[start + k].operands() == Seq::<ExprId>::empty()
}

/// How many expressions come by a serializer as planned, by the form of the plan.
proof fn lemma_plan_nodes(classes: Seq<IrClass>, functions: Seq<IrFunction>, plan: PlanView)
    ensures
        nodes(plan_tree(classes, functions, plan)) == match plan {
            PlanView::Generated { classifier, arguments } => {
                let shown = plan_trees(classes, functions, arguments, false);
                total_nodes(shown) + if accessor_companion(
                    classes,
                    functions,
                    classifier,
                    shown.len(),
                ) is Some {
                    2nat
                } else {
                    1nat
                }
            },
            PlanView::ConstructedStandard { serializer, arguments } => total_nodes(
                plan_trees(classes, functions, arguments, true),
            ) + 1,
            PlanView::Nullable(inner) => nodes(plan_tree(classes, functions, *inner)) + 2,
            PlanView::LocalConstructed { class, arguments } => total_nodes(
                plan_trees(classes, functions, arguments, false),
            ) + 1,
            PlanView::ExternalCompanion { classifier, field, companion, arguments } => total_nodes(
                plan_trees(classes, functions, arguments, true),
            ) + 2,
            PlanView::Contextual(_) => 2,
            PlanView::Polymorphic(_) => 2,
            PlanView::Object { .. } => 4,
            PlanView::TypeParameter { .. } => 2,
            _ => 1,
        },
{
    reveal_with_fuel(plan_tree, 2);
    let whole = plan_tree(classes, functions, plan);
    let none = Seq::<IrTree>::empty();
    assert(total_nodes(none) == 0);
    match plan {
        PlanView::Generated { classifier, arguments } => {
            let shown = plan_trees(classes, functions, arguments, false);
            if accessor_companion(classes, functions, classifier, shown.len()) is Some {
                let receiver = whole.operands[0];
                lemma_total_nodes(seq![receiver], shown);
                lemma_more_nodes(none, receiver);
                assert(none.push(receiver) =~= seq![receiver]);
                assert(whole.operands =~= seq![receiver] + shown);
            }
        },
        PlanView::ExternalCompanion { classifier, field, companion, arguments } => {
            let shown = plan_trees(classes, functions, arguments, true);
            let receiver = whole.operands[0];
            lemma_total_nodes(seq![receiver], shown);
            lemma_more_nodes(none, receiver);
            assert(none.push(receiver) =~= seq![receiver]);
            assert(whole.operands =~= seq![receiver] + shown);
        },
        PlanView::Object { .. } => {
            let a = whole.operands[0];
            let b = whole.operands[1];
            let c = whole.operands[2];
            lemma_more_nodes(none, a);
            lemma_more_nodes(none.push(a), b);
            lemma_more_nodes(none.push(a).push(b), c);
            assert(none.push(a).push(b).push(c) =~= whole.operands);
        },
        PlanView::Nullable(inner) => {
            lemma_narrowed_nodes(plan_tree(classes, functions, *inner));
            lemma_more_nodes(none, whole.operands[0]);
            assert(none.push(whole.operands[0]) =~= whole.operands);
        },
        PlanView::Contextual(_) | PlanView::Polymorphic(_) | PlanView::TypeParameter { .. } => {
            lemma_more_nodes(none, whole.operands[0]);
            assert(none.push(whole.operands[0]) =~= whole.operands);
        },
        _ => {},
    }
}

fn emit_arguments(ir: &mut IrFile, plans: &Vec<ElementSerializerPlan>, narrow: bool) -> (ids: Vec<
    ExprId,
>)
    requires
        plans_fit(plan_views(plans@), old(ir).classes@.len()),
    ensures
        *final(ir) == (IrFile { exprs: final(ir).exprs, ..*old(ir) }),
        grows(old(ir).exprs@, final(ir).exprs@),
        ids@.len() == plans@.len(),
        forall|k: int| 0 <= k < ids@.len() ==> grounded(final(ir).exprs@, #[trigger] ids@[k]),
        trees(final(ir).exprs@, ids@) == plan_trees(
            old(ir).classes@,
            old(ir).functions@,
            plan_views(plans@),
            narrow,
        ),
        final(ir).exprs@.len() == old(ir).exprs@.len() + total_nodes(
            plan_trees(old(ir).classes@, old(ir).functions@, plan_views(plans@), narrow),
        ),
    decreases plans, 0int,
{
    let ghost shown = plan_trees(ir.classes@, ir.functions@, plan_views(plans@), narrow);
    let mut ids: Vec<ExprId> = Vec::new();
    let mut index: usize = 0;
    while index < plans.len()
        invariant
            index <= plans@.len(),
            plans_fit(plan_views(plans@), old(ir).classes@.len()),
            *ir == (IrFile { exprs: ir.exprs, ..*old(ir) }),
            grows(old(ir).exprs@, ir.exprs@),
            shown == plan_trees(
                old(ir).classes@,
                old(ir).functions@,
                plan_views(plans@),
                narrow,
            ),
            ids@.len() == index,
            forall|k: int|
                0 <= k < index ==> grounded(ir.exprs@, #[trigger] ids@[k]) && tree(
                    ir.exprs@,
                    ids@[k],
                ) == shown[k],
            ir.exprs@.len() == old(ir).exprs@.len() + total_nodes(shown.take(index as int)),
        decreases plans@.len() - index,
    {
        let ghost before = ir.exprs@;
        assert(plan_fits(plan_views(plans@)[index as int], old(ir).classes@.len()));
        let serializer: ExprId = emit(ir, &plans[index]);
        let id: ExprId = if narrow {
            narrow_to_kserializer(&mut ir.exprs, serializer)
        } else {
            serializer
        };
        assert(grows(before, ir.exprs@));
        proof {
            let planned = plan_tree(
                old(ir).classes@,
                old(ir).functions@,
                plan_views(plans@)[index as int],
            );
            lemma_narrowed_nodes(planned);
            lemma_more_nodes(shown.take(index as int), shown[index as int]);
            assert(shown.take(index as int + 1) =~= shown.take(index as int).push(
                shown[index as int],
            ));
        }
        ids.push(id);
        index += 1;
    }
    assert(trees(ir.exprs@, ids@) =~= shown);
    assert(shown.take(index as int) =~= shown);
    ids
}

fn emit(ir: &mut IrFile, plan: &ElementSerializerPlan) -> (id: ExprId)
    requires
        plan_fits(plan@, old(ir).classes@.len()),
    ensures
        *final(ir) == (IrFile { exprs: final(ir).exprs, ..*old(ir) }),
        grows(old(ir).exprs@, final(ir).exprs@),
        grounded(final(ir).exprs@, id),
        tree(final(ir).exprs@, id) == plan_tree(old(ir).classes@, old(ir).functions@, plan@),
        adds(
            old(ir).exprs@,
            final(ir).exprs@,
            id,
            nodes(plan_tree(old(ir).classes@, old(ir).functions@, plan@)),
        ),
        plan is Object ==> object_laid_out(
            old(ir).exprs@,
            final(ir).exprs@,
            id,
            plan_tree(old(ir).classes@, old(ir).functions@, plan@),
        ),
    decreases plan, 1int,
{
    proof {
        lemma_plan_nodes(ir.classes@, ir.functions@, plan@);
    }
    match plan {
        ElementSerializerPlan::Generated { classifier, arguments } => {
            let args = emit_arguments(ir, arguments, false);
            serializer_of_name(ir, classifier, args)
        },
        ElementSerializerPlan::ConstructedStandard { serializer, arguments } => {
            emit_constructed_standard_serializer(ir, serializer, arguments)
        },
        ElementSerializerPlan::Nullable(inner) => {
            let serializer: ExprId = emit(ir, &**inner);
            let narrowed: ExprId = narrow_to_kserializer(&mut ir.exprs, serializer);
            wrap_nullable_serializer(&mut ir.exprs, narrowed)
        },
        ElementSerializerPlan::LocalConstructed { serializer, arguments } => {
            let internal = ir.classes[*serializer].name.clone();
            let args = emit_arguments(ir, arguments, false);
            plant(
                &mut ir.exprs,
                IrExpr::New { internal, args, ctor_params: None, ctor_desc: None },
            )
        },
        ElementSerializerPlan::Contextual(classifier) => build_contextual_serializer(
            &mut ir.exprs,
            classifier,
        ),
        ElementSerializerPlan::Polymorphic(classifier) => build_polymorphic_serializer(
            &mut ir.exprs,
            classifier,
        ),
        ElementSerializerPlan::Object { object, serial_name, serial_info_unsupported } => {
            let ghost start = *ir;
            let name: ExprId = plant_const(&mut ir.exprs, IrConst::String(serial_name.clone()));
            let id: ExprId = object_serializer(
                &mut ir.exprs,
                object,
                name,
                *serial_info_unsupported,
            );
            proof {
                let shown = tree(ir.exprs@, id);
                lemma_depicts_its_tree(ir.exprs@, id);
                let ids = ir.exprs@[id as int].operands();
                assert forall|k: int| 0 <= k < 3 implies (#[trigger] ir.exprs@[start.exprs@.len()
                    + k]).label() == shown.operands[k].label && ir.exprs@[start.exprs@.len()
                    + k].operands() == Seq::<ExprId>::empty() by {
                    assert(ids[k] == start.exprs@.len() + k);
                    assert(depicts(ir.exprs@, ids[k], shown.operands[k]));
                    assert(shown.operands[k].operands.len() == 0);
                }
            }
            id
        },
        ElementSerializerPlan::TypeParameter { serializer_class, field } => {
            let this: ExprId = plant_value(&mut ir.exprs, 0);
            plant_field(&mut ir.exprs, this, *serializer_class, *field)
        },
        ElementSerializerPlan::LocalSingleton(class) => plant_local_instance(
            &mut ir.exprs,
            *class,
        ),
        ElementSerializerPlan::ExternalSingleton(serializer) => plant_instance(
            &mut ir.exprs,
            serializer,
        ),
        ElementSerializerPlan::ExternalCompanion { classifier, field, companion, arguments } => {
            let args = emit_arguments(ir, arguments, true);
            call_external_companion_serializer(
                &mut ir.exprs,
                classifier,
                field.as_str(),
                companion,
                args,
            )
        },
        ElementSerializerPlan::Builtin(serializer) => plant_instance(&mut ir.exprs, serializer),
    }
}

/// Construct a standard serializer from the serializers of the type arguments. It is constructed
/// directly, not taken from the factory that returns the same value.
fn emit_constructed_standard_serializer(
    ir: &mut IrFile,
    serializer: &TypeName,
    arguments: &Vec<ElementSerializerPlan>,
) -> (id: ExprId)
    requires
        plans_fit(plan_views(arguments@), old(ir).classes@.len()),
    ensures
        *final(ir) == (IrFile { exprs: final(ir).exprs, ..*old(ir) }),
        grows(old(ir).exprs@, final(ir).exprs@),
        grounded(final(ir).exprs@, id),
        tree(final(ir).exprs@, id) == standard_tree(
            serializer@,
            plan_trees(
                old(ir).classes@,
                old(ir).functions@,
                plan_views(arguments@),
                true,
            ),
        ),
        adds(
            old(ir).exprs@,
            final(ir).exprs@,
            id,
            total_nodes(
                plan_trees(old(ir).classes@, old(ir).functions@, plan_views(arguments@), true),
            ) + 1,
        ),
    decreases arguments, 1int,
{
    let arity: usize = arguments.len();
    let args = emit_arguments(ir, arguments, true);
    plant(
        &mut ir.exprs,
        IrExpr::New {
            internal: serializer.clone(),
            args,
            ctor_params: Some(kserializer_types(arity)),
            ctor_desc: Some(
                concat("(", repeat("Lkotlinx/serialization/KSerializer;", arity).as_str(), ")V"),
            ),
        },
    )
}

/// Emit the serializer that was planned. Each part of it is one new expression, and the serializer
/// is the last of them.
pub fn emit_element_serializer(ir: &mut IrFile, plan: ElementSerializerPlan) -> (id: ExprId)
    requires
        plan_fits(plan@, old(ir).classes@.len()),
    ensures
        *final(ir) == (IrFile { exprs: final(ir).exprs, ..*old(ir) }),
        grows(old(ir).exprs@, final(ir).exprs@),
        grounded(final(ir).exprs@, id),
        tree(final(ir).exprs@, id) == plan_tree(old(ir).classes@, old(ir).functions@, plan@),
        adds(
            old(ir).exprs@,
            final(ir).exprs@,
            id,
            nodes(plan_tree(old(ir).classes@, old(ir).functions@, plan@)),
        ),
        plan is Object ==> object_laid_out(
            old(ir).exprs@,
            final(ir).exprs@,
            id,
            plan_tree(old(ir).classes@, old(ir).functions@, plan@),
        ),
{
    emit(ir, &plan)
}

/// Emit the serializer that a cache slot holds: the planned one, narrowed as its operands are.
pub fn emit_cached_element_serializer(ir: &mut IrFile, plan: ElementSerializerPlan) -> (id: ExprId)
    requires
        plan_fits(plan@, old(ir).classes@.len()),
    ensures
        *final(ir) == (IrFile { exprs: final(ir).exprs, ..*old(ir) }),
        grows(old(ir).exprs@, final(ir).exprs@),
        grounded(final(ir).exprs@, id),
        tree(final(ir).exprs@, id) == narrowed_serializer(
            plan_tree(old(ir).classes@, old(ir).functions@, plan@),
        ),
        adds(
            old(ir).exprs@,
            final(ir).exprs@,
            id,
            nodes(plan_tree(old(ir).classes@, old(ir).functions@, plan@)) + 1,
        ),
{
    let serializer: ExprId = emit(ir, &plan);
    narrow_to_kserializer(&mut ir.exprs, serializer)
}

/// A plan that is selected constructs only classes of the file.
pub proof fn lemma_selected_plan_fits(ir: IrFile, ctx: PluginContext, ty: TyView, scope: ScopeView)
    requires
        ir.classes@.len() <= usize::MAX,
    ensures
        element_plan(ir, ctx, ty, scope) matches Some(plan) ==> plan_fits(plan, ir.classes@.len()),
    decreases ty, 1int,
{
    if ty.non_null().ty_param_name() is None && ty.kotlin_class_internal() is Some {
        let name = ty.kotlin_class_internal()->0;
        let count = ir.classes@.len();
        lemma_argument_plans_fit(ir, ctx, ty, ty.non_null().type_args().len(), false, scope);
        lemma_argument_plans_fit(ir, ctx, ty, ty.non_null().type_args().len(), true, scope);
        lemma_argument_plans_fit(ir, ctx, ty, parameter_count(ir, name), false, scope);
        if let Some(class) = class_named(ir.classes@, name) {
            if let Some(custom) = custom_serializer(ctx, class) {
                crate::ir::file::lemma_class_named(ir.classes@, custom);
            }
        }
        assert(element_plan(ir, ctx, ty, scope) == classifier_plan(ir, ctx, ty, name, scope));
        reveal_with_fuel(plan_fits, 2);
        reveal_with_fuel(plans_fit, 2);
    }
}

proof fn lemma_argument_plans_fit(
    ir: IrFile,
    ctx: PluginContext,
    ty: TyView,
    count: nat,
    read_before: bool,
    scope: ScopeView,
)
    requires
        ir.classes@.len() <= usize::MAX,
    ensures
        argument_plans(ir, ctx, ty, count, read_before, scope) matches Some(plans) ==> plans_fit(
            plans,
            ir.classes@.len(),
        ),
    decreases ty, 0int,
{
    if let TyView::Obj(_, arguments) = ty.non_null() {
        if let Some(plans) = argument_plans(ir, ctx, ty, count, read_before, scope) {
            assert forall|k: int| 0 <= k < plans.len() implies plan_fits(
                #[trigger] plans[k],
                ir.classes@.len(),
            ) by {
                if k < arguments.len() {
                    assert(given_plan(ir, ctx, arguments[k], read_before, scope) is Some);
                    let argument = if read_before {
                        readable(arguments[k])->0
                    } else {
                        arguments[k]
                    };
                    lemma_selected_plan_fits(ir, ctx, readable(argument)->0, scope);
                }
            }
        }
    }
}

/// The expression for the serializer of an element, where it can be come by.
pub open spec fn element_tree(ir: IrFile, ctx: PluginContext, ty: TyView, scope: ScopeView) -> Option<
    IrTree,
> {
    match element_plan(ir, ctx, ty, scope) {
        Some(plan) => Some(plan_tree(ir.classes@, ir.functions@, plan)),
        None => None,
    }
}

/// Emit the serializer of an element of the type `ty`. Nothing is emitted where there is none.
pub fn element_serializer_expr_in(
    ir: &mut IrFile,
    ctx: &PluginContext,
    ty: &Ty,
    scope: TypeParameterSerializers<'_>,
) -> (id: Option<ExprId>)
    requires
        objects_named(*old(ir), *ctx),
        scope@.fits(),
    ensures
        *final(ir) == (IrFile { exprs: final(ir).exprs, ..*old(ir) }),
        grows(old(ir).exprs@, final(ir).exprs@),
        match (id, element_tree(*old(ir), *ctx, ty@, scope@)) {
            (Some(id), Some(shown)) => grounded(final(ir).exprs@, id) && tree(
                final(ir).exprs@,
                id,
            ) == shown,
            (None, None) => *final(ir) == *old(ir),
            _ => false,
        },
{
    let count: usize = ir.classes.len();
    proof {
        lemma_selected_plan_fits(*ir, *ctx, ty@, scope@);
    }
    match element_serializer_plan_in(ir, ctx, ty, scope) {
        Some(plan) => Some(emit_element_serializer(ir, plan)),
        None => None,
    }
}

/// Emit the serializer of an element where no type parameter has a serializer.
pub fn element_serializer_expr(ir: &mut IrFile, ctx: &PluginContext, ty: &Ty) -> (id: Option<
    ExprId,
>)
    requires
        objects_named(*old(ir), *ctx),
    ensures
        *final(ir) == (IrFile { exprs: final(ir).exprs, ..*old(ir) }),
        grows(old(ir).exprs@, final(ir).exprs@),
        match (id, element_tree(*old(ir), *ctx, ty@, ScopeView::none())) {
            (Some(id), Some(shown)) => grounded(final(ir).exprs@, id) && tree(
                final(ir).exprs@,
                id,
            ) == shown,
            (None, None) => *final(ir) == *old(ir),
            _ => false,
        },
{
    element_serializer_expr_in(ir, ctx, ty, TypeParameterSerializers::none())
}

/// What stands for the serializer of an element that has none. A `null` would become code that
/// fails at run time; a planned operation that nothing realizes makes every target decline the
/// file.
pub open spec fn unsupported_element(ty: TyView) -> IrTree {
    residual_tree(
        "element-serializer"@,
        match ty.kotlin_class_internal() {
            Some(classifier) => seq![classifier],
            None => seq![],
        },
        seq![ty],
    )
}

pub fn unsupported_element_serializer(exprs: &mut Vec<IrExpr>, ty: &Ty) -> (id: ExprId)
    ensures
        grows(old(exprs)@, final(exprs)@),
        grounded(final(exprs)@, id),
        tree(final(exprs)@, id) == unsupported_element(ty@),
{
    let mut data: Vec<TypeName> = Vec::new();
    match ty.kotlin_class_internal() {
        Some(classifier) => {
            data.push(classifier);
            assert(views(data@) =~= seq![classifier@]);
        },
        None => {
            assert(views(data@) =~= Seq::<Seq<char>>::empty());
        },
    }
    let mut types: Vec<Ty> = Vec::new();
    types.push(ty.clone());
    assert(views(types@) =~= seq![ty@]);
    plant_residual(exprs, "element-serializer", data, types)
}

/// Whether the serializer of elements of a type is constructed rather than a singleton, so that it
/// is worth keeping: that of a standard type, an enum or an object, and one that a companion of
/// another file hands out. One that mentions a type parameter is never kept: a static cannot hold
/// what belongs to an instance.
pub open spec fn is_cacheable(ir: IrFile, ctx: PluginContext, ty: TyView) -> bool {
    !ty.mentions_ty_param() && match ty.kotlin_class_internal() {
        Some(name) => standard_serializer(name) is Some || some_class(
            ir.classes@,
            name,
            |class: IrClass| enum_class(class),
        ) || local_object(ir, ctx, name) is Some || match serializer_for(
            ctx.external_serializers@,
            name,
        ) {
            Some(ExternalSerializerView::Object { .. }) => true,
            Some(ExternalSerializerView::Companion { .. }) => true,
            _ => false,
        },
        None => false,
    }
}

/// A type whose serializer has to be kept has none that can be constructed.
#[derive(Debug)]
pub struct UnderivableChildCacheElement {}

/// The plan for a cache slot. A type that needs no slot has none; a type that needs one and has no
/// serializer is an error, and not the same as one that needs none.
pub fn child_cache_element_plan(ir: &IrFile, ctx: &PluginContext, ty: &Ty) -> (plan: Result<
    Option<ElementSerializerPlan>,
    UnderivableChildCacheElement,
>)
    requires
        objects_named(*ir, *ctx),
    ensures
        match plan {
            Ok(None) => !is_cacheable(*ir, *ctx, ty@),
            Ok(Some(plan)) => is_cacheable(*ir, *ctx, ty@) && element_plan(
                *ir,
                *ctx,
                ty@,
                ScopeView::none(),
            ) == Some(plan@),
            Err(_) => is_cacheable(*ir, *ctx, ty@) && element_plan(
                *ir,
                *ctx,
                ty@,
                ScopeView::none(),
            ) is None,
        },
{
    if ty.mentions_ty_param() {
        return Ok(None);
    }
    let name = match ty.kotlin_class_internal() {
        Some(name) => name,
        None => {
            return Ok(None);
        },
    };
    let external = match ctx.external_serializer(&name) {
        Some(ExternalSerializer::Object { .. }) => true,
        Some(ExternalSerializer::Companion { .. }) => true,
        _ => false,
    };
    if !external && constructed_standard_serializer(&name).is_none() && !any_enum(ir, &name)
        && local_serializable_object(ir, ctx, &name).is_none() {
        return Ok(None);
    }
    match element_serializer_plan(ir, ctx, ty) {
        Some(plan) => Ok(Some(plan)),
        None => Err(UnderivableChildCacheElement {  }),
    }
}

/// Where no type parameter has a serializer, none is read off a generic serializer: the plan for a
/// type parameter is none.
pub proof fn a_type_parameter_has_no_serializer_outside_its_scope(
    ir: IrFile,
    ctx: PluginContext,
    ty: TyView,
)
    requires
        ty.non_null().ty_param_name() is Some,
    ensures
        element_plan(ir, ctx, ty, ScopeView::none()) is None,
{
}

/// A type is planned for by its non-null form: what is nullable is the business of the one that
/// asks.
pub proof fn nullability_does_not_change_the_plan(
    ir: IrFile,
    ctx: PluginContext,
    ty: TyView,
    scope: ScopeView,
)
    requires
        ty !is Nullable,
        ty !is PlatformNullable,
    ensures
        element_plan(ir, ctx, TyView::Nullable(Box::new(ty)), scope) == element_plan(
            ir,
            ctx,
            ty,
            scope,
        ),
{
    let nullable = TyView::Nullable(Box::new(ty));
    assert(nullable.non_null() == ty && ty.non_null() == ty);
    assert(nullable.kotlin_class_internal() == ty.kotlin_class_internal());
    if ty.non_null().ty_param_name() is None && ty.kotlin_class_internal() is Some {
        let name = ty.kotlin_class_internal()->0;
        let all = ty.type_args().len();
        let count = parameter_count(ir, name);
        assert forall|read_before: bool| #[trigger]
            argument_plans(ir, ctx, nullable, all, read_before, scope) == argument_plans(
                ir,
                ctx,
                ty,
                all,
                read_before,
                scope,
            ) by {}
        assert(argument_plans(ir, ctx, nullable, count, false, scope) == argument_plans(
            ir,
            ctx,
            ty,
            count,
            false,
            scope,
        ));
        assert(classifier_plan(ir, ctx, nullable, name, scope) == classifier_plan(
            ir,
            ctx,
            ty,
            name,
            scope,
        ));
    }
}

/// Which expressions a file holds has no say in how a serializer is come by.
pub proof fn lemma_plan_ignores_expressions(
    left: IrFile,
    right: IrFile,
    ctx: PluginContext,
    ty: TyView,
    scope: ScopeView,
)
    requires
        left.classes == right.classes,
        left.functions@ == right.functions@,
    ensures
        element_plan(left, ctx, ty, scope) == element_plan(right, ctx, ty, scope),
    decreases ty, 1int,
{
    if ty.non_null().ty_param_name() is None && ty.kotlin_class_internal() is Some {
        let name = ty.kotlin_class_internal()->0;
        lemma_argument_plans_ignore_expressions(
            left,
            right,
            ctx,
            ty,
            ty.non_null().type_args().len(),
            false,
            scope,
        );
        lemma_argument_plans_ignore_expressions(
            left,
            right,
            ctx,
            ty,
            ty.non_null().type_args().len(),
            true,
            scope,
        );
        lemma_argument_plans_ignore_expressions(
            left,
            right,
            ctx,
            ty,
            parameter_count(left, name),
            false,
            scope,
        );
        assert(some_class(
            left.classes@,
            name,
            |class: IrClass| open_class(class, left.functions@),
        ) == some_class(
            right.classes@,
            name,
            |class: IrClass| open_class(class, right.functions@),
        ));
        assert(declared_plan(left, ctx, name) == declared_plan(right, ctx, name));
        assert(custom_plan(left, ctx, name, ty.non_null().type_args()) == custom_plan(
            right,
            ctx,
            name,
            ty.non_null().type_args(),
        ));
        assert(classifier_plan(left, ctx, ty, name, scope) == classifier_plan(
            right,
            ctx,
            ty,
            name,
            scope,
        ));
    }
}

proof fn lemma_argument_plans_ignore_expressions(
    left: IrFile,
    right: IrFile,
    ctx: PluginContext,
    ty: TyView,
    count: nat,
    read_before: bool,
    scope: ScopeView,
)
    requires
        left.classes == right.classes,
        left.functions@ == right.functions@,
    ensures
        argument_plans(left, ctx, ty, count, read_before, scope) == argument_plans(
            right,
            ctx,
            ty,
            count,
            read_before,
            scope,
        ),
    decreases ty, 0int,
{
    if let TyView::Obj(_, arguments) = ty.non_null() {
        assert forall|k: int| 0 <= k < arguments.len() implies given_plan(
            left,
            ctx,
            #[trigger] arguments[k],
            read_before,
            scope,
        ) == given_plan(right, ctx, arguments[k], read_before, scope) by {
            let argument = match readable(arguments[k]) {
                Some(read) if read_before => read,
                _ => arguments[k],
            };
            if let Some(read) = readable(argument) {
                lemma_plan_ignores_expressions(left, right, ctx, read, scope);
            }
        }
        let one = argument_plans(left, ctx, ty, count, read_before, scope);
        let other = argument_plans(right, ctx, ty, count, read_before, scope);
        if one is Some && other is Some {
            assert(one->0 =~= other->0);
        }
    }
}

} // verus!
