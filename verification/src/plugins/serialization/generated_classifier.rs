//! The classifiers and members that the plugin publishes before bodies are checked.

use vstd::prelude::*;

use crate::libraries::{GenericReturnPolicy, GenericSig, GenericSigView, TypeKind, Visibility};
use crate::model::{copy_all, first_place, lemma_first_place, position};
use crate::names::{nested_name, qualified, TypeName};
use crate::plugins::frontend::{
    FrontendCallable, FrontendCallableOwner, FrontendCallableView, FrontendClassContext,
    GeneratedClassifierFact, GeneratedClassifierFactView, GeneratedClassifierKind,
    GeneratedClassifierPurpose, PluginExpressionDeclaration, TypeParameters,
};
use crate::plugins::serialization::annotations::serializable_fq;
use crate::text::{decimal, decimal_text, option_view, views};
use crate::types::{Ty, TyView};

verus! {

broadcast use {crate::text::group_views, crate::types::group_ty_views};

/// Whether the plugin, and not a serializer of the user's, serializes a class: the serializable
/// annotation stands on it, and no class literal is given to that annotation.
pub open spec fn built_by_plugin(
    annotations: Seq<Seq<char>>,
    class_arguments: Seq<(u32, TypeName)>,
) -> bool {
    match first_place(annotations, "kotlinx/serialization/Serializable"@) {
        None => false,
        Some(place) => forall|k: int|
            0 <= k < class_arguments.len() ==> (#[trigger] class_arguments[k]).0 as nat != place,
    }
}

pub fn serializable_by_plugin(
    annotations: &[TypeName],
    annotation_class_arguments: &[(u32, TypeName)],
) -> (yes: bool)
    ensures
        yes == built_by_plugin(views(annotations@), annotation_class_arguments@),
{
    let place: usize = match position(annotations, &qualified(serializable_fq())) {
        Some(place) => place,
        None => {
            return false;
        },
    };
    let mut index: usize = 0;
    while index < annotation_class_arguments.len()
        invariant
            index <= annotation_class_arguments@.len(),
            forall|k: int|
                0 <= k < index ==> (#[trigger] annotation_class_arguments@[k]).0 as nat != place,
            first_place(views(annotations@), "kotlinx/serialization/Serializable"@) == Some(
                place as nat,
            ),
        decreases annotation_class_arguments@.len() - index,
    {
        if annotation_class_arguments[index].0 as usize == place {
            return false;
        }
        index += 1;
    }
    true
}

/// The serializer class that is generated for a class. An enum, a sealed class and an object build
/// their serializer at run time; only an ordinary class gets one.
pub open spec fn serializer_class(ctx: FrontendClassContext<'_>) -> Option<
    GeneratedClassifierFactView,
> {
    if !built_by_plugin(views(ctx.annotations@), ctx.annotation_class_arguments@) || ctx.kind
        == TypeKind::Enum || ctx.kind == TypeKind::Object || ctx.is_sealed {
        None
    } else {
        Some(
            GeneratedClassifierFactView {
                classifier: nested_name(ctx.classifier@, "$serializer"@),
                lexical_owner: ctx.classifier@,
                purpose: GeneratedClassifierPurpose::SerializationSerializer,
                source_name: "$serializer"@,
                visibility: Visibility::Public,
                kind: GeneratedClassifierKind::Class,
                is_abstract: false,
                is_final: true,
                captures_outer: false,
                compiler_generated: true,
            },
        )
    }
}

pub fn generated_serializer_classifier_fact(ctx: &FrontendClassContext<'_>) -> (fact: Option<
    GeneratedClassifierFact,
>)
    ensures
        option_view(fact) == serializer_class(*ctx),
{
    if !serializable_by_plugin(ctx.annotations, ctx.annotation_class_arguments) || ctx.kind
        == TypeKind::Enum || ctx.kind == TypeKind::Object || ctx.is_sealed {
        return None;
    }
    Some(
        GeneratedClassifierFact {
            classifier: ctx.classifier.nested_child("$serializer"),
            lexical_owner: ctx.classifier.clone(),
            purpose: GeneratedClassifierPurpose::SerializationSerializer,
            source_name: "$serializer".to_owned(),
            visibility: Visibility::Public,
            kind: GeneratedClassifierKind::Class,
            is_abstract: false,
            is_final: true,
            captures_outer: false,
            compiler_generated: true,
        },
    )
}

/// The type parameters of a class, as types.
pub open spec fn parameter_types(parameters: TypeParameters) -> Seq<TyView> {
    Seq::new(
        parameters.names@.len(),
        |k: int| TyView::TyParam(parameters.names@[k]@, Box::new(parameters.bounds@[k]@)),
    )
}

/// The serializer of values of a type, as a type.
pub open spec fn serializer_type(ty: TyView) -> TyView {
    TyView::Obj("kotlinx/serialization/KSerializer"@, seq![ty])
}

/// The member through which a class hands out its serializer, given one serializer for each of its
/// type parameters.
pub open spec fn accessor(ctx: FrontendClassContext<'_>) -> FrontendCallableView {
    let formals = parameter_types(*ctx.type_parameters);
    let params = Seq::new(formals.len(), |k: int| serializer_type(formals[k]));
    let ret = serializer_type(TyView::Obj(ctx.classifier@, formals));
    FrontendCallableView {
        owner: if ctx.kind == TypeKind::Object {
            FrontendCallableOwner::Classifier
        } else {
            FrontendCallableOwner::Companion
        },
        name: "serializer"@,
        params,
        param_names: Seq::new(formals.len(), |k: int| "typeSerial"@ + decimal(k as nat)),
        ret,
        generic_sig: if formals.len() == 0 {
            None
        } else {
            Some(
                GenericSigView {
                    formals: views(ctx.type_parameters.names@),
                    formal_bounds: Seq::new(
                        formals.len(),
                        |k: int| seq![ctx.type_parameters.bounds@[k]@],
                    ),
                    receiver: None,
                    params,
                    ret,
                    return_policy: GenericReturnPolicy::Exact,
                },
            )
        },
        plugin_expression: Some(("serialization"@, "serializer"@)),
    }
}

fn formal_types(parameters: &TypeParameters) -> (types: Vec<Ty>)
    requires
        parameters.well_formed(),
    ensures
        views(types@) == parameter_types(*parameters),
{
    let mut types: Vec<Ty> = Vec::new();
    let mut index: usize = 0;
    while index < parameters.names.len()
        invariant
            index <= parameters.names@.len(),
            parameters.well_formed(),
            types@.len() == index,
            forall|k: int| 0 <= k < index ==> types@[k]@ == parameter_types(*parameters)[k],
        decreases parameters.names@.len() - index,
    {
        types.push(
            Ty::ty_param(parameters.names[index].as_str(), parameters.bounds[index].clone()),
        );
        index += 1;
    }
    assert(views(types@) =~= parameter_types(*parameters));
    types
}

fn serializer_types(formals: &Vec<Ty>) -> (types: Vec<Ty>)
    ensures
        views(types@) == Seq::new(formals@.len(), |k: int| serializer_type(formals@[k]@)),
{
    let mut types: Vec<Ty> = Vec::new();
    let mut index: usize = 0;
    while index < formals.len()
        invariant
            index <= formals@.len(),
            types@.len() == index,
            forall|k: int| 0 <= k < index ==> types@[k]@ == serializer_type(formals@[k]@),
        decreases formals@.len() - index,
    {
        types.push(kserializer_of(formals[index].clone()));
        index += 1;
    }
    assert(views(types@) =~= Seq::new(formals@.len(), |k: int| serializer_type(formals@[k]@)));
    types
}

/// The type of serializers of values of `ty`.
pub fn kserializer_of(ty: Ty) -> (out: Ty)
    ensures
        out@ == serializer_type(ty@),
{
    let mut arguments: Vec<Ty> = Vec::new();
    arguments.push(ty);
    assert(views(arguments@) =~= seq![ty@]);
    Ty::obj_args("kotlinx/serialization/KSerializer", arguments.as_slice())
}

fn serial_parameter_names(count: usize) -> (names: Vec<String>)
    ensures
        views(names@) == Seq::new(count as nat, |k: int| "typeSerial"@ + decimal(k as nat)),
{
    let mut names: Vec<String> = Vec::new();
    let mut index: usize = 0;
    while index < count
        invariant
            index <= count,
            names@.len() == index,
            forall|k: int| 0 <= k < index ==> names@[k]@ == "typeSerial"@ + decimal(k as nat),
        decreases count - index,
    {
        let mut name = "typeSerial".to_owned();
        name.append(decimal_text(index as u64).as_str());
        names.push(name);
        index += 1;
    }
    assert(views(names@) =~= Seq::new(
        count as nat,
        |k: int| "typeSerial"@ + decimal(k as nat),
    ));
    names
}

fn single_bounds(bounds: &Vec<Ty>) -> (lists: Vec<Vec<Ty>>)
    ensures
        crate::model::deep_views(lists@) == Seq::new(bounds@.len(), |k: int| seq![bounds@[k]@]),
{
    let mut lists: Vec<Vec<Ty>> = Vec::new();
    let mut index: usize = 0;
    while index < bounds.len()
        invariant
            index <= bounds@.len(),
            lists@.len() == index,
            forall|k: int| 0 <= k < index ==> views((#[trigger] lists@[k])@) == seq![bounds@[k]@],
        decreases bounds@.len() - index,
    {
        let mut list: Vec<Ty> = Vec::new();
        list.push(bounds[index].clone());
        assert(views(list@) =~= seq![bounds@[index as int]@]);
        lists.push(list);
        index += 1;
    }
    assert(crate::model::deep_views(lists@) =~= Seq::new(
        bounds@.len(),
        |k: int| seq![bounds@[k]@],
    ));
    lists
}

/// The serialization plugin.
#[derive(Clone, Copy, Debug, PartialEq, Eq, Default, Structural)]
pub struct SerializationPlugin {}

impl SerializationPlugin {
    /// Add the members that the plugin declares on a class. Exactly a serializable class gets one:
    /// the accessor of its serializer, which an object has itself and any other class has on its
    /// companion.
    pub fn generate_frontend_declarations(
        &self,
        ctx: &FrontendClassContext<'_>,
        members: &mut Vec<FrontendCallable>,
    )
        requires
            ctx.type_parameters.well_formed(),
        ensures
            if views(ctx.annotations@).contains("kotlinx/serialization/Serializable"@) {
                views(final(members)@) == views(old(members)@).push(accessor(*ctx))
            } else {
                final(members)@ == old(members)@
            },
    {
        let serializable = position(ctx.annotations, &qualified(serializable_fq()));
        proof {
            lemma_first_place(
                views(ctx.annotations@),
                "kotlinx/serialization/Serializable"@,
            );
        }
        if serializable.is_none() {
            return;
        }
        let formals = formal_types(ctx.type_parameters);
        let ghost shown = parameter_types(*ctx.type_parameters);
        let params = serializer_types(&formals);
        assert(Seq::new(formals@.len(), |k: int| serializer_type(formals@[k]@)) =~= Seq::new(
            shown.len(),
            |k: int| serializer_type(shown[k]),
        )) by {
            assert forall|k: int| 0 <= k < formals@.len() implies formals@[k]@ == shown[k] by {
                assert(views(formals@)[k] == shown[k]);
            }
        }
        let ret = kserializer_of(Ty::obj_args_name(&ctx.classifier, formals.as_slice()));
        let param_names = serial_parameter_names(formals.len());
        let generic_sig = if formals.len() == 0 {
            None
        } else {
            let bounds = single_bounds(&ctx.type_parameters.bounds);
            Some(
                GenericSig {
                    formals: copy_all(&ctx.type_parameters.names),
                    formal_bounds: bounds,
                    receiver: None,
                    params: copy_all(&params),
                    ret: ret.clone(),
                    return_policy: GenericReturnPolicy::Exact,
                },
            )
        };
        let member = FrontendCallable {
            owner: if ctx.kind == TypeKind::Object {
                FrontendCallableOwner::Classifier
            } else {
                FrontendCallableOwner::Companion
            },
            name: "serializer".to_owned(),
            params,
            param_names,
            ret,
            generic_sig,
            plugin_expression: Some(
                PluginExpressionDeclaration { plugin: "serialization", operation: "serializer" },
            ),
        };
        assert(member@ == accessor(*ctx));
        members.push(member);
    }
}

} // verus!
