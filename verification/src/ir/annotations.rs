//! Annotations that declarations of the intermediate representation keep.

use vstd::prelude::*;

use crate::ir::expr::{IrConst, IrConstView};
use crate::names::TypeName;
use crate::text::same_text;

verus! {

/// How long an annotation is kept.
#[derive(Clone, Copy, Debug, PartialEq, Eq, Structural)]
pub enum AnnotationRetention {
    Source,
    Binary,
    Runtime,
}

/// A value given to an annotation.
#[derive(Debug)]
pub enum AnnoValue {
    Const(IrConst),
    Enum(TypeName, String),
    Class(TypeName),
}

/// The model of a value given to an annotation.
pub enum AnnoValueView {
    Const(IrConstView),
    Enum(Seq<char>, Seq<char>),
    Class(Seq<char>),
}

impl View for AnnoValue {
    type V = AnnoValueView;

    open spec fn view(&self) -> AnnoValueView {
        match *self {
            AnnoValue::Const(value) => AnnoValueView::Const(value@),
            AnnoValue::Enum(classifier, entry) => AnnoValueView::Enum(classifier@, entry@),
            AnnoValue::Class(classifier) => AnnoValueView::Class(classifier@),
        }
    }
}

/// An annotation with the values given to it by parameter.
#[derive(Debug)]
pub struct AppliedAnnotation {
    pub internal: TypeName,
    pub values: Vec<(String, AnnoValue)>,
}

/// The model of an applied annotation.
pub struct AppliedAnnotationView {
    pub internal: Seq<char>,
    pub values: Seq<(Seq<char>, AnnoValueView)>,
}

impl View for AppliedAnnotation {
    type V = AppliedAnnotationView;

    open spec fn view(&self) -> AppliedAnnotationView {
        AppliedAnnotationView {
            internal: self.internal@,
            values: Seq::new(
                self.values@.len(),
                |k: int| (self.values@[k].0@, self.values@[k].1@),
            ),
        }
    }
}

/// An applied annotation and how long it is kept.
#[derive(Debug)]
pub struct RetainedAnnotation {
    pub retention: AnnotationRetention,
    pub annotation: AppliedAnnotation,
}

/// The annotations of a declaration.
#[derive(Debug)]
pub struct DeclarationAnnotations {
    pub retained: Vec<RetainedAnnotation>,
}

impl View for DeclarationAnnotations {
    type V = Seq<(AnnotationRetention, AppliedAnnotationView)>;

    open spec fn view(&self) -> Seq<(AnnotationRetention, AppliedAnnotationView)> {
        Seq::new(
            self.retained@.len(),
            |k: int| (self.retained@[k].retention, self.retained@[k].annotation@),
        )
    }
}

/// The first application of `wanted` among some annotations.
pub open spec fn applied(
    annotations: Seq<(AnnotationRetention, AppliedAnnotationView)>,
    wanted: Seq<char>,
) -> Option<AppliedAnnotationView>
    decreases annotations.len(),
{
    if annotations.len() == 0 {
        None
    } else if annotations[0].1.internal == wanted {
        Some(annotations[0].1)
    } else {
        applied(annotations.skip(1), wanted)
    }
}

/// The first value given to the parameter `wanted`.
pub open spec fn value_for(
    values: Seq<(Seq<char>, AnnoValueView)>,
    wanted: Seq<char>,
) -> Option<AnnoValueView>
    decreases values.len(),
{
    if values.len() == 0 {
        None
    } else if values[0].0 == wanted {
        Some(values[0].1)
    } else {
        value_for(values.skip(1), wanted)
    }
}

impl AppliedAnnotation {
    /// The first value given to the parameter `wanted`.
    pub fn value(&self, wanted: &str) -> (found: Option<&AnnoValue>)
        ensures
            value_for(self@.values, wanted@) == match found {
                Some(value) => Some(value@),
                None => None,
            },
    {
        let mut index: usize = 0;
        assert(self@.values.skip(0) =~= self@.values);
        while index < self.values.len()
            invariant
                index <= self.values@.len(),
                self@.values.len() == self.values@.len(),
                value_for(self@.values.skip(index as int), wanted@) == value_for(
                    self@.values,
                    wanted@,
                ),
            decreases self.values@.len() - index,
        {
            assert(self@.values.skip(index as int).skip(1) =~= self@.values.skip(index as int + 1));
            if same_text(self.values[index].0.as_str(), wanted) {
                return Some(&self.values[index].1);
            }
            index += 1;
        }
        None
    }
}

impl DeclarationAnnotations {
    pub fn new(retained: Vec<RetainedAnnotation>) -> (out: Self)
        ensures
            out.retained == retained,
    {
        DeclarationAnnotations { retained }
    }

    /// The applied annotations, in order.
    pub fn applications(&self) -> (out: Vec<&AppliedAnnotation>)
        ensures
            out@.len() == self.retained@.len(),
            forall|k: int| 0 <= k < out@.len() ==> *out@[k] == self.retained@[k].annotation,
    {
        let mut out: Vec<&AppliedAnnotation> = Vec::new();
        let mut index: usize = 0;
        while index < self.retained.len()
            invariant
                index <= self.retained@.len(),
                out@.len() == index,
                forall|k: int| 0 <= k < index ==> *out@[k] == self.retained@[k].annotation,
            decreases self.retained@.len() - index,
        {
            out.push(&self.retained[index].annotation);
            index += 1;
        }
        out
    }

    /// The first application of `wanted`.
    pub fn application(&self, wanted: &str) -> (found: Option<&AppliedAnnotation>)
        ensures
            applied(self@, wanted@) == match found {
                Some(annotation) => Some(annotation@),
                None => None,
            },
    {
        let mut index: usize = 0;
        assert(self@.skip(0) =~= self@);
        while index < self.retained.len()
            invariant
                index <= self.retained@.len(),
                self@.len() == self.retained@.len(),
                applied(self@.skip(index as int), wanted@) == applied(self@, wanted@),
            decreases self.retained@.len() - index,
        {
            assert(self@.skip(index as int).skip(1) =~= self@.skip(index as int + 1));
            if self.retained[index].annotation.internal.matches(wanted) {
                return Some(&self.retained[index].annotation);
            }
            index += 1;
        }
        None
    }
}

impl Default for DeclarationAnnotations {
    fn default() -> (out: Self)
        ensures
            out@ == Seq::<(AnnotationRetention, AppliedAnnotationView)>::empty(),
    {
        let out = DeclarationAnnotations { retained: Vec::new() };
        assert(out@ =~= Seq::<(AnnotationRetention, AppliedAnnotationView)>::empty());
        out
    }
}

/// The annotations carried by one field of a class.
#[derive(Debug)]
pub struct FieldAnnotations {
    pub field: String,
    pub annotations: DeclarationAnnotations,
}

} // verus!
