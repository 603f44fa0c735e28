//! How generated code reaches the serializer of a serializable classifier that this file does not
//! declare: one of another file of the module or of a dependency.
//!
//! The compilation of the classifier decided what it generated, by its kind. An object has no
//! serializer class: a serializer over its `INSTANCE` is built wherever one is needed. An enum, a
//! sealed or abstract class, an interface and a generic class publish their serializer through the
//! `serializer(..)` of the companion. Only a plain class without type parameters has a serializer
//! object to read.

use vstd::prelude::*;

use crate::declarations::{
    AnnotationValue, ClassifierDeclarationFacts, ClassifierDeclarationKind, ResolvedAnnotation,
};
use crate::kt_string::{text_units, KtString};
use crate::names::TypeName;
use crate::plugins::serialization::annotations::serial_name_fq;
use crate::text::option_view;

verus! {

/// The serializer of a serializable classifier that another file declares.
#[derive(Clone, Debug, PartialEq)]
pub enum ExternalSerializer {
    /// A serializer object that is known to exist: one that the annotation names, or a generated
    /// one that the declaring compilation published.
    Singleton(TypeName),
    /// An object serializer, constructed where it is used.
    Object {
        serial_name: KtString,
        /// Whether an annotation of the object is serial information. Such annotations are not
        /// built at run time, so nothing may be emitted for them.
        serial_info_unsupported: bool,
    },
    /// The generated `serializer(..)` of the companion, which takes one serializer for each type
    /// parameter.
    Companion {
        field: String,
        companion: TypeName,
        type_parameters: usize,
    },
}

/// The model of an external serializer.
pub enum ExternalSerializerView {
    Singleton(Seq<char>),
    Object { serial_name: Seq<u16>, serial_info_unsupported: bool },
    Companion { field: Seq<char>, companion: Seq<char>, type_parameters: usize },
}

impl View for ExternalSerializer {
    type V = ExternalSerializerView;

    open spec fn view(&self) -> ExternalSerializerView {
        match *self {
            ExternalSerializer::Singleton(serializer) => ExternalSerializerView::Singleton(
                serializer@,
            ),
            ExternalSerializer::Object { serial_name, serial_info_unsupported } => {
                ExternalSerializerView::Object {
                    serial_name: serial_name@,
                    serial_info_unsupported,
                }
            },
            ExternalSerializer::Companion { field, companion, type_parameters } => {
                ExternalSerializerView::Companion {
                    field: field@,
                    companion: companion@,
                    type_parameters,
                }
            },
        }
    }
}

/// The first application of `annotation`.
pub open spec fn first_application(
    annotations: Seq<ResolvedAnnotation>,
    annotation: Seq<char>,
) -> Option<ResolvedAnnotation>
    decreases annotations.len(),
{
    if annotations.len() == 0 {
        None
    } else if annotations[0].annotation@ == annotation {
        Some(annotations[0])
    } else {
        first_application(annotations.skip(1), annotation)
    }
}

/// What is known of the serial name that annotations give.
pub enum SerialNameFact {
    /// No annotation gives one.
    Unnamed,
    /// An annotation gives this one.
    Named(Seq<u16>),
    /// An annotation gives one that cannot be read.
    Unreadable,
}

pub open spec fn serial_name_fact(annotations: Seq<ResolvedAnnotation>) -> SerialNameFact {
    match first_application(annotations, "kotlinx/serialization/SerialName"@) {
        None => SerialNameFact::Unnamed,
        Some(application) => if application.arguments@.len() == 1 {
            match application.arguments@[0].1 {
                AnnotationValue::String(value) => SerialNameFact::Named(value@),
                _ => SerialNameFact::Unreadable,
            }
        } else {
            SerialNameFact::Unreadable
        },
    }
}

/// The name under which an object is written: the one an annotation gives, or the qualified one.
pub open spec fn object_serial_name(
    declaration: ClassifierDeclarationFacts,
    annotations: Seq<ResolvedAnnotation>,
) -> Option<Seq<u16>> {
    match serial_name_fact(annotations) {
        SerialNameFact::Named(name) => Some(name),
        SerialNameFact::Unreadable => None,
        SerialNameFact::Unnamed => match declaration.qualified_name {
            Some(name) => Some(text_units(name@)),
            None => None,
        },
    }
}

/// The serializer that the companion hands out, where a companion is recorded.
pub open spec fn through_companion(
    declaration: ClassifierDeclarationFacts,
) -> Option<ExternalSerializerView> {
    match declaration.companion {
        Some((field, companion)) => Some(
            ExternalSerializerView::Companion {
                field: field@,
                companion: companion@,
                type_parameters: declaration.own_type_parameter_count,
            },
        ),
        None => None,
    }
}

/// The serializer that the compilation of a classifier generated for it.
pub open spec fn generated_for(
    declaration: ClassifierDeclarationFacts,
    annotations: Seq<ResolvedAnnotation>,
) -> Option<ExternalSerializerView> {
    match declaration.kind {
        ClassifierDeclarationKind::Annotation => None,
        ClassifierDeclarationKind::Object => match object_serial_name(declaration, annotations) {
            Some(serial_name) => Some(
                ExternalSerializerView::Object { serial_name, serial_info_unsupported: false },
            ),
            None => None,
        },
        ClassifierDeclarationKind::Enum | ClassifierDeclarationKind::Interface => through_companion(
            declaration,
        ),
        ClassifierDeclarationKind::Class => if declaration.is_abstract
            || declaration.own_type_parameter_count > 0 {
            through_companion(declaration)
        } else {
            None
        },
    }
}

/// The serializer that was generated for a serializable declaration without one of its own. There
/// is none where the facts cannot name it: the element is then underivable, which is reported,
/// rather than a class that may not exist.
pub fn generated_external_serializer(
    declaration: &ClassifierDeclarationFacts,
    annotations: &[ResolvedAnnotation],
) -> (serializer: Option<ExternalSerializer>)
    ensures
        option_view(serializer) == generated_for(*declaration, annotations@),
{
    match declaration.kind {
        ClassifierDeclarationKind::Annotation => None,
        ClassifierDeclarationKind::Object => match class_serial_name(annotations) {
            ReadSerialName::Named(serial_name) => Some(
                ExternalSerializer::Object { serial_name, serial_info_unsupported: false },
            ),
            ReadSerialName::Unreadable => None,
            ReadSerialName::Unnamed => match &declaration.qualified_name {
                Some(name) => Some(
                    ExternalSerializer::Object {
                        serial_name: KtString::from(name.as_str()),
                        serial_info_unsupported: false,
                    },
                ),
                None => None,
            },
        },
        ClassifierDeclarationKind::Enum | ClassifierDeclarationKind::Interface => {
            companion_serializer(declaration)
        },
        ClassifierDeclarationKind::Class => {
            if declaration.is_abstract || declaration.own_type_parameter_count > 0 {
                companion_serializer(declaration)
            } else {
                None
            }
        },
    }
}

/// The companion that hands out the serializer. Where none is recorded, none is made up.
fn companion_serializer(declaration: &ClassifierDeclarationFacts) -> (serializer: Option<
    ExternalSerializer,
>)
    ensures
        option_view(serializer) == through_companion(*declaration),
{
    match &declaration.companion {
        Some((field, companion)) => Some(
            ExternalSerializer::Companion {
                field: field.clone(),
                companion: companion.clone(),
                type_parameters: declaration.own_type_parameter_count,
            },
        ),
        None => None,
    }
}

enum ReadSerialName {
    Unnamed,
    Named(KtString),
    Unreadable,
}

impl View for ReadSerialName {
    type V = SerialNameFact;

    closed spec fn view(&self) -> SerialNameFact {
        match *self {
            ReadSerialName::Unnamed => SerialNameFact::Unnamed,
            ReadSerialName::Named(name) => SerialNameFact::Named(name@),
            ReadSerialName::Unreadable => SerialNameFact::Unreadable,
        }
    }
}

fn class_serial_name(annotations: &[ResolvedAnnotation]) -> (name: ReadSerialName)
    ensures
        name@ == serial_name_fact(annotations@),
{
    let mut index: usize = 0;
    assert(annotations@.skip(0) =~= annotations@);
    while index < annotations.len()
        invariant
            index <= annotations@.len(),
            first_application(
                annotations@.skip(index as int),
                "kotlinx/serialization/SerialName"@,
            ) == first_application(annotations@, "kotlinx/serialization/SerialName"@),
        decreases annotations@.len() - index,
    {
        assert(annotations@.skip(index as int).skip(1) =~= annotations@.skip(index as int + 1));
        let application = &annotations[index];
        if application.annotation.matches(serial_name_fq()) {
            if application.arguments.len() != 1 {
                return ReadSerialName::Unreadable;
            }
            return match &application.arguments[0].1 {
                AnnotationValue::String(value) => ReadSerialName::Named(value.clone()),
                _ => ReadSerialName::Unreadable,
            };
        }
        index += 1;
    }
    ReadSerialName::Unnamed
}

/// A serializer is named only where the declaration shows it: a plain class without type
/// parameters and an annotation class have none, and no other kind has one without a recorded
/// companion or name.
pub proof fn nothing_is_guessed(
    declaration: ClassifierDeclarationFacts,
    annotations: Seq<ResolvedAnnotation>,
)
    ensures
        generated_for(declaration, annotations) matches Some(serializer) ==> match serializer {
            ExternalSerializerView::Singleton(_) => false,
            ExternalSerializerView::Object { serial_name, .. } => declaration.kind
                == ClassifierDeclarationKind::Object && object_serial_name(declaration, annotations)
                == Some(serial_name),
            ExternalSerializerView::Companion { .. } => declaration.companion is Some,
        },
{
}

} // verus!
