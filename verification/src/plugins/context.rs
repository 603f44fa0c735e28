//! What a plugin may ask about the file it works on.

use vstd::prelude::*;

use crate::ir::expr::ClassId;
use crate::kt_string::KtString;
use crate::names::TypeName;
use crate::plugins::serialization::external_serializer::{
    ExternalSerializer, ExternalSerializerView,
};
use crate::text::{option_view, same_text, views};
use crate::types::{Ty, TyView};

verus! {

broadcast use crate::text::group_views;

/// An annotation of a class, with the class literal among its arguments.
#[derive(Debug)]
pub struct ClassAnnotation {
    pub class: ClassId,
    pub annotation: TypeName,
    pub class_literal: Option<TypeName>,
}

/// An annotation of a property, with the class literal and the string among its arguments.
#[derive(Debug)]
pub struct PropertyAnnotation {
    pub class: ClassId,
    pub property: String,
    pub annotation: TypeName,
    pub class_literal: Option<TypeName>,
    pub text: Option<KtString>,
}

/// The classifier that the type of a property resolves to.
#[derive(Debug)]
pub struct PropertyType {
    pub class: ClassId,
    pub property: String,
    pub canonical: TypeName,
}

/// The checked facts that a plugin consumes.
#[derive(Debug)]
pub struct PluginContext {
    pub class_annotations: Vec<ClassAnnotation>,
    pub property_annotations: Vec<PropertyAnnotation>,
    pub property_types: Vec<PropertyType>,
    /// The types that annotations of the file mention: the annotation, then the type.
    pub file_mentions: Vec<(TypeName, TypeName)>,
    /// The annotation classes that are themselves marked as serial information.
    pub serial_info: Vec<TypeName>,
    /// The serializers of classifiers that other files declare.
    pub external_serializers: Vec<(TypeName, ExternalSerializer)>,
    /// The classes that not every runtime has and this one has.
    pub runtime_classes: Vec<TypeName>,
    /// The physical descriptors of types.
    pub descriptors: Vec<(Ty, String)>,
}

impl Default for PluginContext {
    fn default() -> (context: Self)
        ensures
            context.class_annotations@ == Seq::<ClassAnnotation>::empty(),
            context.property_annotations@ == Seq::<PropertyAnnotation>::empty(),
            context.property_types@ == Seq::<PropertyType>::empty(),
            context.file_mentions@ == Seq::<(TypeName, TypeName)>::empty(),
            context.serial_info@ == Seq::<TypeName>::empty(),
            context.external_serializers@ == Seq::<(TypeName, ExternalSerializer)>::empty(),
            context.runtime_classes@ == Seq::<TypeName>::empty(),
            context.descriptors@ == Seq::<(Ty, String)>::empty(),
    {
        PluginContext {
            class_annotations: Vec::new(),
            property_annotations: Vec::new(),
            property_types: Vec::new(),
            file_mentions: Vec::new(),
            serial_info: Vec::new(),
            external_serializers: Vec::new(),
            runtime_classes: Vec::new(),
            descriptors: Vec::new(),
        }
    }
}

/// The first annotation `annotation` of the class `class`.
pub open spec fn class_annotation(
    facts: Seq<ClassAnnotation>,
    class: ClassId,
    annotation: Seq<char>,
) -> Option<ClassAnnotation>
    decreases facts.len(),
{
    if facts.len() == 0 {
        None
    } else if facts[0].class == class && facts[0].annotation@ == annotation {
        Some(facts[0])
    } else {
        class_annotation(facts.skip(1), class, annotation)
    }
}

/// The first annotation `annotation` of the property `property` of `class`.
pub open spec fn property_annotation(
    facts: Seq<PropertyAnnotation>,
    class: ClassId,
    property: Seq<char>,
    annotation: Seq<char>,
) -> Option<PropertyAnnotation>
    decreases facts.len(),
{
    if facts.len() == 0 {
        None
    } else if facts[0].class == class && facts[0].property@ == property && facts[0].annotation@
        == annotation {
        Some(facts[0])
    } else {
        property_annotation(facts.skip(1), class, property, annotation)
    }
}

/// The first type recorded for the property `property` of `class`.
pub open spec fn property_type(
    facts: Seq<PropertyType>,
    class: ClassId,
    property: Seq<char>,
) -> Option<Seq<char>>
    decreases facts.len(),
{
    if facts.len() == 0 {
        None
    } else if facts[0].class == class && facts[0].property@ == property {
        Some(facts[0].canonical@)
    } else {
        property_type(facts.skip(1), class, property)
    }
}

/// The first serializer recorded for `classifier`.
pub open spec fn serializer_for(
    facts: Seq<(TypeName, ExternalSerializer)>,
    classifier: Seq<char>,
) -> Option<ExternalSerializerView>
    decreases facts.len(),
{
    if facts.len() == 0 {
        None
    } else if facts[0].0@ == classifier {
        Some(facts[0].1@)
    } else {
        serializer_for(facts.skip(1), classifier)
    }
}

/// The first descriptor recorded for `ty`.
pub open spec fn descriptor_for(facts: Seq<(Ty, String)>, ty: TyView) -> Option<Seq<char>>
    decreases facts.len(),
{
    if facts.len() == 0 {
        None
    } else if facts[0].0@ == ty {
        Some(facts[0].1@)
    } else {
        descriptor_for(facts.skip(1), ty)
    }
}

impl PluginContext {
    pub open spec fn annotated(self, class: ClassId, annotation: Seq<char>) -> bool {
        class_annotation(self.class_annotations@, class, annotation) is Some
    }

    pub open spec fn class_literal(
        self,
        class: ClassId,
        annotation: Seq<char>,
    ) -> Option<Seq<char>> {
        match class_annotation(self.class_annotations@, class, annotation) {
            Some(fact) => option_view(fact.class_literal),
            None => None,
        }
    }

    pub open spec fn property_annotated(
        self,
        class: ClassId,
        property: Seq<char>,
        annotation: Seq<char>,
    ) -> bool {
        property_annotation(self.property_annotations@, class, property, annotation) is Some
    }

    pub open spec fn property_literal(
        self,
        class: ClassId,
        property: Seq<char>,
        annotation: Seq<char>,
    ) -> Option<Seq<char>> {
        match property_annotation(self.property_annotations@, class, property, annotation) {
            Some(fact) => option_view(fact.class_literal),
            None => None,
        }
    }

    pub open spec fn property_text(
        self,
        class: ClassId,
        property: Seq<char>,
        annotation: Seq<char>,
    ) -> Option<Seq<u16>> {
        match property_annotation(self.property_annotations@, class, property, annotation) {
            Some(fact) => option_view(fact.text),
            None => None,
        }
    }

    pub open spec fn file_mentions_type(self, annotation: Seq<char>, ty: Seq<char>) -> bool {
        exists|k: int|
            0 <= k < self.file_mentions@.len() && (#[trigger] self.file_mentions@[k]).0@
                == annotation && self.file_mentions@[k].1@ == ty
    }

    pub open spec fn provides(self, class: Seq<char>) -> bool {
        views(self.runtime_classes@).contains(class)
    }

    fn find_class_annotation(&self, class: ClassId, annotation: &str) -> (found: Option<
        &ClassAnnotation,
    >)
        ensures
            class_annotation(self.class_annotations@, class, annotation@) == match found {
                Some(fact) => Some(*fact),
                None => None,
            },
    {
        let mut index: usize = 0;
        assert(self.class_annotations@.skip(0) =~= self.class_annotations@);
        while index < self.class_annotations.len()
            invariant
                index <= self.class_annotations@.len(),
                class_annotation(
                    self.class_annotations@.skip(index as int),
                    class,
                    annotation@,
                ) == class_annotation(self.class_annotations@, class, annotation@),
            decreases self.class_annotations@.len() - index,
        {
            assert(self.class_annotations@.skip(index as int).skip(1)
                =~= self.class_annotations@.skip(index as int + 1));
            let fact = &self.class_annotations[index];
            if fact.class == class && fact.annotation.matches(annotation) {
                return Some(fact);
            }
            index += 1;
        }
        None
    }

    fn find_property_annotation(&self, class: ClassId, property: &str, annotation: &str) -> (found:
        Option<&PropertyAnnotation>)
        ensures
            property_annotation(self.property_annotations@, class, property@, annotation@)
                == match found {
                Some(fact) => Some(*fact),
                None => None,
            },
    {
        let mut index: usize = 0;
        assert(self.property_annotations@.skip(0) =~= self.property_annotations@);
        while index < self.property_annotations.len()
            invariant
                index <= self.property_annotations@.len(),
                property_annotation(
                    self.property_annotations@.skip(index as int),
                    class,
                    property@,
                    annotation@,
                ) == property_annotation(
                    self.property_annotations@,
                    class,
                    property@,
                    annotation@,
                ),
            decreases self.property_annotations@.len() - index,
        {
            assert(self.property_annotations@.skip(index as int).skip(1)
                =~= self.property_annotations@.skip(index as int + 1));
            let fact = &self.property_annotations[index];
            if fact.class == class && same_text(fact.property.as_str(), property)
                && fact.annotation.matches(annotation) {
                return Some(fact);
            }
            index += 1;
        }
        None
    }

    /// Whether the class carries the annotation.
    pub fn has_annotation(&self, class: ClassId, annotation: &str) -> (yes: bool)
        ensures
            yes == self.annotated(class, annotation@),
    {
        self.find_class_annotation(class, annotation).is_some()
    }

    /// The class literal among the arguments of an annotation of a class.
    pub fn class_annotation_class_literal(&self, class: ClassId, annotation: &str) -> (found:
        Option<TypeName>)
        ensures
            option_view(found) == self.class_literal(class, annotation@),
    {
        match self.find_class_annotation(class, annotation) {
            Some(fact) => match &fact.class_literal {
                Some(literal) => Some(literal.clone()),
                None => None,
            },
            None => None,
        }
    }

    /// Whether the property carries the annotation.
    pub fn property_has_annotation(&self, class: ClassId, property: &str, annotation: &str) -> (yes:
        bool)
        ensures
            yes == self.property_annotated(class, property@, annotation@),
    {
        self.find_property_annotation(class, property, annotation).is_some()
    }

    /// The class literal among the arguments of an annotation of a property.
    pub fn property_annotation_class_literal(
        &self,
        class: ClassId,
        property: &str,
        annotation: &str,
    ) -> (found: Option<TypeName>)
        ensures
            option_view(found) == self.property_literal(class, property@, annotation@),
    {
        match self.find_property_annotation(class, property, annotation) {
            Some(fact) => match &fact.class_literal {
                Some(literal) => Some(literal.clone()),
                None => None,
            },
            None => None,
        }
    }

    /// The string among the arguments of an annotation of a property.
    pub fn property_annotation_const_string(
        &self,
        class: ClassId,
        property: &str,
        annotation: &str,
    ) -> (found: Option<KtString>)
        ensures
            option_view(found) == self.property_text(class, property@, annotation@),
    {
        match self.find_property_annotation(class, property, annotation) {
            Some(fact) => match &fact.text {
                Some(text) => Some(text.clone()),
                None => None,
            },
            None => None,
        }
    }

    /// The classifier that the type of a property resolves to.
    pub fn property_canonical_type(&self, class: ClassId, property: &str) -> (found: Option<
        &TypeName,
    >)
        ensures
            property_type(self.property_types@, class, property@) == match found {
                Some(canonical) => Some(canonical@),
                None => None,
            },
    {
        let mut index: usize = 0;
        assert(self.property_types@.skip(0) =~= self.property_types@);
        while index < self.property_types.len()
            invariant
                index <= self.property_types@.len(),
                property_type(self.property_types@.skip(index as int), class, property@)
                    == property_type(self.property_types@, class, property@),
            decreases self.property_types@.len() - index,
        {
            assert(self.property_types@.skip(index as int).skip(1) =~= self.property_types@.skip(
                index as int + 1,
            ));
            let fact = &self.property_types[index];
            if fact.class == class && same_text(fact.property.as_str(), property) {
                return Some(&fact.canonical);
            }
            index += 1;
        }
        None
    }

    /// Whether the annotation stands on the file and mentions the type.
    pub fn file_annotation_mentions_canonical_type(&self, annotation: &str, ty: &TypeName) -> (yes:
        bool)
        ensures
            yes == self.file_mentions_type(annotation@, ty@),
    {
        let mut index: usize = 0;
        while index < self.file_mentions.len()
            invariant
                index <= self.file_mentions@.len(),
                forall|k: int|
                    0 <= k < index ==> !((#[trigger] self.file_mentions@[k]).0@ == annotation@
                        && self.file_mentions@[k].1@ == ty@),
            decreases self.file_mentions@.len() - index,
        {
            if self.file_mentions[index].0.matches(annotation) && self.file_mentions[index].1
                == *ty {
                return true;
            }
            index += 1;
        }
        false
    }

    /// The serializer of a classifier that another file declares.
    pub fn external_serializer(&self, classifier: &TypeName) -> (found: Option<&ExternalSerializer>)
        ensures
            serializer_for(self.external_serializers@, classifier@) == match found {
                Some(serializer) => Some(serializer@),
                None => None,
            },
    {
        let mut index: usize = 0;
        assert(self.external_serializers@.skip(0) =~= self.external_serializers@);
        while index < self.external_serializers.len()
            invariant
                index <= self.external_serializers@.len(),
                serializer_for(self.external_serializers@.skip(index as int), classifier@)
                    == serializer_for(self.external_serializers@, classifier@),
            decreases self.external_serializers@.len() - index,
        {
            assert(self.external_serializers@.skip(index as int).skip(1)
                =~= self.external_serializers@.skip(index as int + 1));
            if self.external_serializers[index].0 == *classifier {
                return Some(&self.external_serializers[index].1);
            }
            index += 1;
        }
        None
    }

    /// Whether this runtime has the class.
    pub fn runtime_provides(&self, class: &TypeName) -> (yes: bool)
        ensures
            yes == self.provides(class@),
    {
        crate::model::holds(&self.runtime_classes, class)
    }

    /// The physical descriptor of a type.
    pub fn ty_descriptor(&self, ty: &Ty) -> (found: Option<&str>)
        ensures
            descriptor_for(self.descriptors@, ty@) == match found {
                Some(descriptor) => Some(descriptor@),
                None => None,
            },
    {
        let mut index: usize = 0;
        assert(self.descriptors@.skip(0) =~= self.descriptors@);
        while index < self.descriptors.len()
            invariant
                index <= self.descriptors@.len(),
                descriptor_for(self.descriptors@.skip(index as int), ty@) == descriptor_for(
                    self.descriptors@,
                    ty@,
                ),
            decreases self.descriptors@.len() - index,
        {
            assert(self.descriptors@.skip(index as int).skip(1) =~= self.descriptors@.skip(
                index as int + 1,
            ));
            if self.descriptors[index].0 == *ty {
                return Some(self.descriptors[index].1.as_str());
            }
            index += 1;
        }
        None
    }
}

} // verus!
