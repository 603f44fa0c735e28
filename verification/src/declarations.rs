//! Facts about declarations that resolution has settled.

use vstd::prelude::*;

use crate::kt_string::KtString;
use crate::names::TypeName;

verus! {

/// The kind of a classifier declaration.
#[derive(Clone, Copy, Debug, PartialEq, Eq, Structural)]
pub enum ClassifierDeclarationKind {
    Class,
    Interface,
    Object,
    Enum,
    Annotation,
}

/// What is known of a classifier declaration.
#[derive(Debug)]
pub struct ClassifierDeclarationFacts {
    pub kind: ClassifierDeclarationKind,
    pub is_abstract: bool,
    pub own_type_parameter_count: usize,
    /// The field that holds the companion, and the companion.
    pub companion: Option<(String, TypeName)>,
    pub qualified_name: Option<String>,
    /// Whether the declaration comes from source.
    pub source: bool,
}

/// A value given to an annotation.
#[derive(Debug)]
pub enum AnnotationValue {
    Boolean(bool),
    Int(i32),
    Long(i64),
    String(KtString),
    Enum(TypeName, String),
    Class(TypeName),
}

/// An annotation application whose classifier is resolved.
#[derive(Debug)]
pub struct ResolvedAnnotation {
    pub annotation: TypeName,
    pub arguments: Vec<(String, AnnotationValue)>,
}

/// The model of a value given to an annotation.
pub enum AnnotationValueView {
    Boolean(bool),
    Int(i32),
    Long(i64),
    String(Seq<u16>),
    Enum(Seq<char>, Seq<char>),
    Class(Seq<char>),
}

impl View for AnnotationValue {
    type V = AnnotationValueView;

    open spec fn view(&self) -> AnnotationValueView {
        match *self {
            AnnotationValue::Boolean(value) => AnnotationValueView::Boolean(value),
            AnnotationValue::Int(value) => AnnotationValueView::Int(value),
            AnnotationValue::Long(value) => AnnotationValueView::Long(value),
            AnnotationValue::String(text) => AnnotationValueView::String(text@),
            AnnotationValue::Enum(classifier, entry) => AnnotationValueView::Enum(
                classifier@,
                entry@,
            ),
            AnnotationValue::Class(classifier) => AnnotationValueView::Class(classifier@),
        }
    }
}

impl Clone for AnnotationValue {
    fn clone(&self) -> (copy: Self)
        ensures
            copy@ == self@,
    {
        match self {
            AnnotationValue::Boolean(value) => AnnotationValue::Boolean(*value),
            AnnotationValue::Int(value) => AnnotationValue::Int(*value),
            AnnotationValue::Long(value) => AnnotationValue::Long(*value),
            AnnotationValue::String(text) => AnnotationValue::String(text.clone()),
            AnnotationValue::Enum(classifier, entry) => AnnotationValue::Enum(
                classifier.clone(),
                entry.clone(),
            ),
            AnnotationValue::Class(classifier) => AnnotationValue::Class(classifier.clone()),
        }
    }
}

/// The model of an annotation application.
#[verifier::ext_equal]
pub struct ResolvedAnnotationView {
    pub annotation: Seq<char>,
    pub arguments: Seq<(Seq<char>, AnnotationValueView)>,
}

impl View for ResolvedAnnotation {
    type V = ResolvedAnnotationView;

    open spec fn view(&self) -> ResolvedAnnotationView {
        ResolvedAnnotationView {
            annotation: self.annotation@,
            arguments: Seq::new(
                self.arguments@.len(),
                |k: int| (self.arguments@[k].0@, self.arguments@[k].1@),
            ),
        }
    }
}

impl Clone for ResolvedAnnotation {
    fn clone(&self) -> (copy: Self)
        ensures
            copy@ == self@,
    {
        let mut arguments: Vec<(String, AnnotationValue)> = Vec::new();
        while arguments.len() < self.arguments.len()
            invariant
                arguments@.len() <= self.arguments@.len(),
                forall|k: int|
                    0 <= k < arguments@.len() ==> (#[trigger] arguments@[k]).0@
                        == self.arguments@[k].0@ && arguments@[k].1@ == self.arguments@[k].1@,
            decreases self.arguments@.len() - arguments@.len(),
        {
            let argument = &self.arguments[arguments.len()];
            arguments.push((argument.0.clone(), argument.1.clone()));
        }
        let copy = ResolvedAnnotation { annotation: self.annotation.clone(), arguments };
        assert(copy@.arguments =~= self@.arguments);
        copy
    }
}

} // verus!
