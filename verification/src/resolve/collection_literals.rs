//! The standard factories behind collection-literal syntax.
//!
//! A collection literal first offers the `operator fun of` of the expected classifier's companion.
//! For its own collection interfaces the language defines factories of the standard library.

use vstd::prelude::*;

use crate::names::{qualified, TypeName};

verus! {

/// A factory of the standard library.
#[derive(Debug)]
pub struct StandardCollectionFactory {
    pub package: TypeName,
    pub callable: &'static str,
}

/// The package and the name of the factory for a classifier.
pub open spec fn factory_of(classifier: Seq<char>) -> Option<(Seq<char>, Seq<char>)> {
    if classifier == "kotlin/collections/List"@ {
        Some(("kotlin/collections"@, "listOf"@))
    } else if classifier == "kotlin/collections/MutableList"@ {
        Some(("kotlin/collections"@, "mutableListOf"@))
    } else if classifier == "kotlin/collections/Set"@ {
        Some(("kotlin/collections"@, "setOf"@))
    } else if classifier == "kotlin/collections/MutableSet"@ {
        Some(("kotlin/collections"@, "mutableSetOf"@))
    } else if classifier == "kotlin/sequences/Sequence"@ {
        Some(("kotlin/sequences"@, "sequenceOf"@))
    } else {
        None
    }
}

impl View for StandardCollectionFactory {
    type V = (Seq<char>, Seq<char>);

    open spec fn view(&self) -> (Seq<char>, Seq<char>) {
        (self.package@, self.callable@)
    }
}

impl PartialEq for StandardCollectionFactory {
    fn eq(&self, other: &Self) -> (same: bool) {
        self.package == other.package && crate::text::same_text(self.callable, other.callable)
    }
}

impl vstd::std_specs::cmp::PartialEqSpecImpl for StandardCollectionFactory {
    open spec fn obeys_eq_spec() -> bool {
        true
    }

    open spec fn eq_spec(&self, other: &Self) -> bool {
        self@ == other@
    }
}

/// The factory of the standard library for a classifier, by its qualified name. Arrays have none:
/// they are constructed by the compiler.
pub fn standard_factory(classifier: &TypeName) -> (factory: Option<StandardCollectionFactory>)
    ensures
        crate::text::option_view(factory) == factory_of(classifier@),
{
    let (package, callable): (&str, &'static str) = if classifier.matches(
        "kotlin/collections/List",
    ) {
        ("kotlin/collections", "listOf")
    } else if classifier.matches("kotlin/collections/MutableList") {
        ("kotlin/collections", "mutableListOf")
    } else if classifier.matches("kotlin/collections/Set") {
        ("kotlin/collections", "setOf")
    } else if classifier.matches("kotlin/collections/MutableSet") {
        ("kotlin/collections", "mutableSetOf")
    } else if classifier.matches("kotlin/sequences/Sequence") {
        ("kotlin/sequences", "sequenceOf")
    } else {
        return None;
    };
    Some(StandardCollectionFactory { package: qualified(package), callable })
}

/// The factory where no classifier is expected: that of an immutable list.
pub fn default_factory() -> (factory: StandardCollectionFactory)
    ensures
        Some(factory@) == factory_of("kotlin/collections/List"@),
{
    StandardCollectionFactory { package: qualified("kotlin/collections"), callable: "listOf" }
}

} // verus!
