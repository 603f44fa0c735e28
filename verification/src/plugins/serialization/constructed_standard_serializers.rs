//! Standard types whose serializer is constructed from the serializers of their arguments.

use vstd::prelude::*;

use crate::names::{qualified, TypeName};
use crate::text::option_view;

verus! {

/// The class of the serializer of a standard type. How many serializers it is constructed from is
/// the business of the type.
pub open spec fn standard_serializer(classifier: Seq<char>) -> Option<Seq<char>> {
    if classifier == "kotlin/collections/List"@ || classifier == "kotlin/collections/MutableList"@
        || classifier == "kotlin/collections/Collection"@ || classifier
        == "kotlin/collections/MutableCollection"@ || classifier == "kotlin/collections/Iterable"@
        || classifier == "kotlin/collections/MutableIterable"@ {
        Some("kotlinx/serialization/internal/ArrayListSerializer"@)
    } else if classifier == "kotlin/collections/Set"@ || classifier
        == "kotlin/collections/MutableSet"@ {
        Some("kotlinx/serialization/internal/LinkedHashSetSerializer"@)
    } else if classifier == "kotlin/collections/Map"@ || classifier
        == "kotlin/collections/MutableMap"@ {
        Some("kotlinx/serialization/internal/LinkedHashMapSerializer"@)
    } else if classifier == "kotlin/Pair"@ {
        Some("kotlinx/serialization/internal/PairSerializer"@)
    } else if classifier == "kotlin/Triple"@ {
        Some("kotlinx/serialization/internal/TripleSerializer"@)
    } else if classifier == "kotlin/collections/Map.Entry"@ {
        Some("kotlinx/serialization/internal/MapEntrySerializer"@)
    } else {
        None
    }
}

pub fn constructed_standard_serializer(classifier: &TypeName) -> (serializer: Option<TypeName>)
    ensures
        option_view(serializer) == standard_serializer(classifier@),
{
    if classifier.matches("kotlin/collections/List") || classifier.matches(
        "kotlin/collections/MutableList",
    ) || classifier.matches("kotlin/collections/Collection") || classifier.matches(
        "kotlin/collections/MutableCollection",
    ) || classifier.matches("kotlin/collections/Iterable") || classifier.matches(
        "kotlin/collections/MutableIterable",
    ) {
        Some(qualified("kotlinx/serialization/internal/ArrayListSerializer"))
    } else if classifier.matches("kotlin/collections/Set") || classifier.matches(
        "kotlin/collections/MutableSet",
    ) {
        Some(qualified("kotlinx/serialization/internal/LinkedHashSetSerializer"))
    } else if classifier.matches("kotlin/collections/Map") || classifier.matches(
        "kotlin/collections/MutableMap",
    ) {
        Some(qualified("kotlinx/serialization/internal/LinkedHashMapSerializer"))
    } else if classifier.matches("kotlin/Pair") {
        Some(qualified("kotlinx/serialization/internal/PairSerializer"))
    } else if classifier.matches("kotlin/Triple") {
        Some(qualified("kotlinx/serialization/internal/TripleSerializer"))
    } else if classifier.matches("kotlin/collections/Map.Entry") {
        Some(qualified("kotlinx/serialization/internal/MapEntrySerializer"))
    } else {
        None
    }
}

} // verus!
