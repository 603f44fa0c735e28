//! The annotations of the classes of a module whose signatures are not settled yet.

use vstd::prelude::*;

use crate::model::Modelled;
use crate::names::TypeName;
use crate::resolve::checked_annotation_publication::identities;
use crate::text::views;

verus! {

broadcast use crate::text::group_views;

/// A class with what each of its annotations resolves to.
#[derive(Debug)]
pub struct SourceClassAnnotations {
    pub classifier: TypeName,
    pub source_file: u32,
    /// The annotations as the source declares the class, where it declares one.
    pub declared: Option<Vec<Option<TypeName>>>,
    /// The annotations as the active declarations have the class, where they have it.
    pub active: Option<Vec<Option<TypeName>>>,
}

/// The sources that a check can read.
#[derive(Debug)]
pub struct ReadableSources {
    /// The source that is checked.
    pub file_index: u32,
    /// How many sources of the module can be read beside it.
    pub source_files: Option<usize>,
    /// Whether only the active declarations of the checked source are looked at.
    pub active_only: bool,
}

/// The annotations of a class that a check can read: those of the active declaration where only
/// active declarations are looked at, and else those of the declaration in a readable source.
pub open spec fn readable(sources: ReadableSources, class: SourceClassAnnotations) -> Option<
    Seq<Option<TypeName>>,
> {
    let own = class.source_file == sources.file_index;
    if !own && !(sources.source_files matches Some(count) && (class.source_file as int) < count) {
        None
    } else if sources.active_only {
        if own {
            match class.active {
                Some(annotations) => Some(annotations@),
                None => None,
            }
        } else {
            None
        }
    } else {
        match class.declared {
            Some(annotations) => Some(annotations@),
            None => None,
        }
    }
}

/// The classes that can be read, each with the annotations that resolve.
pub open spec fn annotated_classifiers(
    sources: ReadableSources,
    classes: Seq<SourceClassAnnotations>,
) -> Seq<(Seq<char>, Seq<Seq<char>>)>
    decreases classes.len(),
{
    if classes.len() == 0 {
        seq![]
    } else {
        let rest = annotated_classifiers(sources, classes.drop_last());
        match readable(sources, classes.last()) {
            Some(annotations) => rest.push((classes.last().classifier@, identities(annotations))),
            None => rest,
        }
    }
}

/// The annotations of a class.
#[derive(Debug)]
pub struct AnnotatedClassifier {
    pub classifier: TypeName,
    pub annotations: Vec<TypeName>,
}

impl View for AnnotatedClassifier {
    type V = (Seq<char>, Seq<Seq<char>>);

    open spec fn view(&self) -> (Seq<char>, Seq<Seq<char>>) {
        (self.classifier@, views(self.annotations@))
    }
}

fn resolved_annotations(occurrences: &Vec<Option<TypeName>>) -> (out: Vec<TypeName>)
    ensures
        views(out@) == identities(occurrences@),
{
    let mut out: Vec<TypeName> = Vec::new();
    let mut next: usize = 0;
    assert(occurrences@.take(0) =~= seq![]);
    while next < occurrences.len()
        invariant
            next <= occurrences@.len(),
            views(out@) == identities(occurrences@.take(next as int)),
        decreases occurrences@.len() - next,
    {
        assert(occurrences@.take(next as int + 1).drop_last() =~= occurrences@.take(next as int));
        if let Some(name) = &occurrences[next] {
            out.push(name.duplicate());
        }
        next += 1;
    }
    assert(occurrences@.take(next as int) =~= occurrences@);
    out
}

fn read_annotations<'a>(sources: &ReadableSources, class: &'a SourceClassAnnotations) -> (found:
    Option<&'a Vec<Option<TypeName>>>)
    ensures
        readable(*sources, *class) == match found {
            Some(annotations) => Some(annotations@),
            None => None,
        },
{
    let own = class.source_file == sources.file_index;
    let elsewhere = match sources.source_files {
        Some(count) => (class.source_file as usize) < count,
        None => false,
    };
    if !own && !elsewhere {
        None
    } else if sources.active_only {
        if own {
            class.active.as_ref()
        } else {
            None
        }
    } else {
        class.declared.as_ref()
    }
}

/// The classes that can be read, each with the annotations that resolve.
pub fn classifier_annotations(sources: &ReadableSources, classes: &Vec<SourceClassAnnotations>) -> (
    annotated: Vec<AnnotatedClassifier>)
    ensures
        views(annotated@) == annotated_classifiers(*sources, classes@),
{
    let mut annotated: Vec<AnnotatedClassifier> = Vec::new();
    let mut next: usize = 0;
    assert(classes@.take(0) =~= seq![]);
    while next < classes.len()
        invariant
            next <= classes@.len(),
            views(annotated@) == annotated_classifiers(*sources, classes@.take(next as int)),
        decreases classes@.len() - next,
    {
        assert(classes@.take(next as int + 1).drop_last() =~= classes@.take(next as int));
        if let Some(annotations) = read_annotations(sources, &classes[next]) {
            annotated.push(
                AnnotatedClassifier {
                    classifier: classes[next].classifier.duplicate(),
                    annotations: resolved_annotations(annotations),
                },
            );
        }
        next += 1;
    }
    assert(classes@.take(next as int) =~= classes@);
    annotated
}

} // verus!
