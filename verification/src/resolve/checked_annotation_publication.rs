//! Publication of the checked annotations of classes.
//!
//! Which annotation an occurrence is was settled once, with the header of the class. It is carried
//! by the identity of the class and the position of the occurrence, and is not looked up again by
//! its spelling.

use std::collections::HashMap;

use vstd::prelude::*;

use crate::declarations::{ResolvedAnnotation, ResolvedAnnotationView};
use crate::fir::DeclarationId;
use crate::names::TypeName;
use crate::plugins::frontend::Span;
use crate::resolve::finalized_projection::{last_value, recorded};
use crate::text::{followed, views};

verus! {

broadcast use crate::text::group_views;

/// The annotations of a class, as they are written and as they are settled.
#[derive(Debug)]
pub struct ClassAnnotations {
    pub stable: DeclarationId,
    pub span: Span,
    /// Where the annotations are written.
    pub annotations: Vec<Span>,
    /// For each annotation, the constant strings among its arguments.
    pub arguments: Vec<Vec<Option<String>>>,
    /// For each annotation, what it was settled as.
    pub occurrences: Vec<Option<TypeName>>,
    /// The annotations that the header of the class has.
    pub published: Vec<TypeName>,
    /// Whether the check of the annotations complained.
    pub complained: bool,
}

/// A class of a source file.
#[derive(Debug)]
pub struct DeclaredClass {
    /// Whether it is declared in a body.
    pub local: bool,
    /// Its declaration in the module, where it has one.
    pub stable: Option<DeclarationId>,
    /// Whether the module has a header for that declaration.
    pub has_header: bool,
    pub span: Span,
    pub annotations: Vec<Span>,
    pub arguments: Vec<Vec<Option<String>>>,
    pub occurrences: Vec<Option<TypeName>>,
    pub published: Vec<TypeName>,
    pub complained: bool,
}

impl DeclaredClass {
    /// Whether the annotations of the class are published: it is no local class, and the module has
    /// its header.
    pub open spec fn publishes(self) -> bool {
        !self.local && self.stable is Some && self.has_header
    }

    /// The annotations of the class.
    pub open spec fn annotations(self) -> ClassAnnotations {
        ClassAnnotations {
            stable: self.stable->0,
            span: self.span,
            annotations: self.annotations,
            arguments: self.arguments,
            occurrences: self.occurrences,
            published: self.published,
            complained: self.complained,
        }
    }
}

/// The annotations of the classes of a source file that publish theirs.
pub open spec fn publishing(classes: Seq<DeclaredClass>) -> Seq<ClassAnnotations>
    decreases classes.len(),
{
    if classes.len() == 0 {
        seq![]
    } else if classes[0].publishes() {
        seq![classes[0].annotations()] + publishing(classes.skip(1))
    } else {
        publishing(classes.skip(1))
    }
}

/// The annotations of the classes of a source file that publish theirs, in their order.
pub fn publishing_classes(classes: Vec<DeclaredClass>) -> (out: Vec<ClassAnnotations>)
    ensures
        out@ == publishing(classes@),
{
    let ghost all = classes@;
    let mut rest = classes;
    let mut out: Vec<ClassAnnotations> = Vec::new();
    assert(out@ + publishing(rest@) =~= publishing(all));
    while rest.len() > 0
        invariant
            out@ + publishing(rest@) == publishing(all),
        decreases rest@.len(),
    {
        let ghost before = out@;
        let ghost left = rest@;
        let class = rest.remove(0);
        assert(rest@ =~= left.skip(1));
        if !class.local && class.has_header {
            if let Some(stable) = class.stable {
                out.push(
                    ClassAnnotations {
                        stable,
                        span: class.span,
                        annotations: class.annotations,
                        arguments: class.arguments,
                        occurrences: class.occurrences,
                        published: class.published,
                        complained: class.complained,
                    },
                );
                assert(out@ + publishing(rest@) =~= before + publishing(left));
            }
        }
    }
    assert(out@ =~= out@ + publishing(rest@));
    out
}

/// The annotations that occurrences were settled as.
pub open spec fn identities(occurrences: Seq<Option<TypeName>>) -> Seq<Seq<char>>
    decreases occurrences.len(),
{
    if occurrences.len() == 0 {
        seq![]
    } else {
        let rest = identities(occurrences.drop_last());
        match occurrences.last() {
            Some(name) => rest.push(name@),
            None => rest,
        }
    }
}

/// Whether the annotations are settled as the header of the class says.
pub open spec fn bound(class: ClassAnnotations) -> bool {
    &&& class.occurrences@.len() == class.annotations@.len()
    &&& class.annotations@.len() == class.arguments@.len()
    &&& identities(class.occurrences@) == views(class.published@)
}

fn identifies(occurrences: &Vec<Option<TypeName>>, published: &Vec<TypeName>) -> (same: bool)
    ensures
        same == (identities(occurrences@) == views(published@)),
{
    let ghost wanted = views(published@);
    let mut seen: usize = 0;
    let mut next: usize = 0;
    assert(identities(occurrences@.take(0)) =~= wanted.take(0));
    while next < occurrences.len()
        invariant
            next <= occurrences@.len(),
            seen <= published@.len(),
            wanted == views(published@),
            identities(occurrences@.take(next as int)) == wanted.take(seen as int),
        decreases occurrences@.len() - next,
    {
        assert(occurrences@.take(next as int + 1).drop_last() =~= occurrences@.take(next as int));
        if let Some(name) = &occurrences[next] {
            if seen >= published.len() || published[seen] != *name {
                proof {
                    lemma_identities_grow(occurrences@, next as int + 1);
                    let found = identities(occurrences@.take(next as int + 1));
                    assert(found[seen as int] == name@);
                    assert(identities(occurrences@)[seen as int] == name@);
                }
                return false;
            }
            assert(wanted.take(seen as int + 1) =~= wanted.take(seen as int).push(name@));
            seen += 1;
        }
        next += 1;
    }
    assert(occurrences@.take(next as int) =~= occurrences@);
    if seen == published.len() {
        assert(wanted.take(seen as int) =~= wanted);
    }
    seen == published.len()
}

proof fn lemma_identities_grow(occurrences: Seq<Option<TypeName>>, seen: int)
    requires
        0 <= seen <= occurrences.len(),
    ensures
        identities(occurrences.take(seen)).len() <= identities(occurrences).len(),
        identities(occurrences).take(identities(occurrences.take(seen)).len() as int)
            == identities(occurrences.take(seen)),
    decreases occurrences.len() - seen,
{
    let found = identities(occurrences.take(seen));
    if seen < occurrences.len() {
        assert(occurrences.take(seen + 1).drop_last() =~= occurrences.take(seen));
        lemma_identities_grow(occurrences, seen + 1);
        let more = identities(occurrences.take(seen + 1));
        assert(more.take(found.len() as int) =~= found);
        assert(identities(occurrences).take(found.len() as int) =~= identities(occurrences).take(
            more.len() as int,
        ).take(found.len() as int));
    } else {
        assert(occurrences.take(seen) =~= occurrences);
        assert(found.take(found.len() as int) =~= found);
    }
}

/// The first class whose annotations are not settled as its header says.
pub open spec fn first_unbound(classes: Seq<ClassAnnotations>) -> Option<ClassAnnotations>
    decreases classes.len(),
{
    if classes.len() == 0 {
        None
    } else if !bound(classes[0]) {
        Some(classes[0])
    } else {
        first_unbound(classes.skip(1))
    }
}

/// The positions of the classes that have annotations.
pub open spec fn annotated(classes: Seq<ClassAnnotations>) -> Seq<usize>
    decreases classes.len(),
{
    if classes.len() == 0 {
        seq![]
    } else if classes.last().published@.len() > 0 {
        annotated(classes.drop_last()).push((classes.len() - 1) as usize)
    } else {
        annotated(classes.drop_last())
    }
}

/// The positions of the classes whose annotations are to be checked, or where the class stands
/// whose annotations are not settled as its header says.
pub fn annotated_classes(classes: &Vec<ClassAnnotations>) -> (found: Result<Vec<usize>, Span>)
    ensures
        match (found, first_unbound(classes@)) {
            (Err(span), Some(class)) => span == class.span,
            (Ok(positions), None) => positions@ == annotated(classes@),
            _ => false,
        },
{
    let mut positions: Vec<usize> = Vec::new();
    let mut next: usize = 0;
    assert(classes@.skip(0) =~= classes@);
    assert(positions@ =~= annotated(classes@.take(0)));
    while next < classes.len()
        invariant
            next <= classes@.len(),
            first_unbound(classes@.skip(next as int)) == first_unbound(classes@),
            positions@ == annotated(classes@.take(next as int)),
        decreases classes@.len() - next,
    {
        assert(classes@.skip(next as int).skip(1) =~= classes@.skip(next as int + 1));
        assert(classes@.take(next as int + 1).drop_last() =~= classes@.take(next as int));
        let class = &classes[next];
        if class.occurrences.len() != class.annotations.len() || class.annotations.len()
            != class.arguments.len() || !identifies(&class.occurrences, &class.published) {
            return Err(class.span);
        }
        if class.published.len() > 0 {
            positions.push(next);
        }
        next += 1;
    }
    assert(classes@.take(next as int) =~= classes@);
    Ok(positions)
}

/// The strings among some arguments.
pub open spec fn strings(arguments: Seq<Option<String>>) -> Seq<Seq<char>>
    decreases arguments.len(),
{
    if arguments.len() == 0 {
        seq![]
    } else {
        let rest = strings(arguments.drop_last());
        match arguments.last() {
            Some(text) => rest.push(text@),
            None => rest,
        }
    }
}

/// What the first `count` annotations of a class suppress while its annotations are checked.
pub open spec fn suppressed(class: ClassAnnotations, count: nat) -> Seq<Seq<char>>
    decreases count,
{
    if count == 0 {
        seq![]
    } else {
        let rest = suppressed(class, (count - 1) as nat);
        match class.occurrences@[count - 1] {
            Some(name) if name@ == "kotlin/Suppress"@ => rest + strings(
                class.arguments@[count - 1]@,
            ),
            _ => rest,
        }
    }
}

/// What the annotations of a class suppress while they are checked.
pub fn suppressions(class: &ClassAnnotations) -> (names: Vec<String>)
    requires
        bound(*class),
    ensures
        views(names@) == suppressed(*class, class.occurrences@.len()),
{
    let mut names: Vec<String> = Vec::new();
    let mut next: usize = 0;
    while next < class.occurrences.len()
        invariant
            next <= class.occurrences@.len(),
            bound(*class),
            views(names@) == suppressed(*class, next as nat),
        decreases class.occurrences@.len() - next,
    {
        let suppresses = match &class.occurrences[next] {
            Some(name) => name.matches("kotlin/Suppress"),
            None => false,
        };
        if suppresses {
            let arguments = &class.arguments[next];
            let ghost before = views(names@);
            let mut inner: usize = 0;
            assert(before + strings(arguments@.take(0)) =~= before);
            while inner < arguments.len()
                invariant
                    inner <= arguments@.len(),
                    views(names@) == before + strings(arguments@.take(inner as int)),
                decreases arguments@.len() - inner,
            {
                assert(arguments@.take(inner as int + 1).drop_last() =~= arguments@.take(
                    inner as int,
                ));
                if let Some(text) = &arguments[inner] {
                    names.push(text.clone());
                    assert(views(names@) =~= before + strings(arguments@.take(inner as int + 1)));
                }
                inner += 1;
            }
            assert(arguments@.take(inner as int) =~= arguments@);
        }
        next += 1;
    }
    names
}

/// An annotation that was checked, by where it is written.
#[derive(Debug)]
pub struct CheckedAnnotation {
    pub span: Span,
    pub annotation: ResolvedAnnotation,
}

/// The checked annotation that is written at `span`.
pub open spec fn checked_at(checked: Seq<CheckedAnnotation>, span: Span) -> Option<
    ResolvedAnnotationView,
>
    decreases checked.len(),
{
    if checked.len() == 0 {
        None
    } else if checked[0].span == span {
        Some(checked[0].annotation@)
    } else {
        checked_at(checked.skip(1), span)
    }
}

/// The checked annotations of the first `count` occurrences of a class, where each of them that is
/// an annotation was checked.
pub open spec fn applications(
    class: ClassAnnotations,
    checked: Seq<CheckedAnnotation>,
    count: nat,
) -> Option<Seq<ResolvedAnnotationView>>
    decreases count,
{
    if count == 0 {
        Some(seq![])
    } else {
        match applications(class, checked, (count - 1) as nat) {
            None => None,
            Some(rest) => if class.occurrences@[count - 1] is None {
                Some(rest)
            } else {
                match checked_at(checked, class.annotations@[count - 1]) {
                    Some(annotation) => Some(rest.push(annotation)),
                    None => None,
                }
            },
        }
    }
}

fn find_checked<'a>(checked: &'a Vec<CheckedAnnotation>, span: Span) -> (found: Option<
    &'a ResolvedAnnotation,
>)
    ensures
        checked_at(checked@, span) == match found {
            Some(annotation) => Some(annotation@),
            None => None,
        },
{
    let mut next: usize = 0;
    assert(checked@.skip(0) =~= checked@);
    while next < checked.len()
        invariant
            next <= checked@.len(),
            checked_at(checked@.skip(next as int), span) == checked_at(checked@, span),
        decreases checked@.len() - next,
    {
        assert(checked@.skip(next as int).skip(1) =~= checked@.skip(next as int + 1));
        if checked[next].span == span {
            return Some(&checked[next].annotation);
        }
        next += 1;
    }
    None
}

/// The checked annotations of a class.
#[derive(Debug)]
pub struct AppliedAnnotations {
    pub annotations: Vec<ResolvedAnnotation>,
}

impl View for AppliedAnnotations {
    type V = Seq<ResolvedAnnotationView>;

    open spec fn view(&self) -> Seq<ResolvedAnnotationView> {
        views(self.annotations@)
    }
}

proof fn lemma_applications_missing(
    class: ClassAnnotations,
    checked: Seq<CheckedAnnotation>,
    seen: nat,
    count: nat,
)
    requires
        seen <= count,
        applications(class, checked, seen) is None,
    ensures
        applications(class, checked, count) is None,
    decreases count - seen,
{
    if seen < count {
        lemma_applications_missing(class, checked, seen + 1, count);
    }
}

/// The checked annotations of a class, where all of its annotations were checked.
pub fn checked_applications(class: &ClassAnnotations, checked: &Vec<CheckedAnnotation>) -> (found:
    Option<AppliedAnnotations>)
    requires
        bound(*class),
    ensures
        applications(*class, checked@, class.occurrences@.len()) == match found {
            Some(applied) => Some(applied@),
            None => None,
        },
{
    let mut annotations: Vec<ResolvedAnnotation> = Vec::new();
    let mut next: usize = 0;
    assert(views(annotations@) =~= Seq::<ResolvedAnnotationView>::empty());
    while next < class.occurrences.len()
        invariant
            next <= class.occurrences@.len(),
            bound(*class),
            applications(*class, checked@, next as nat) == Some(views(annotations@)),
        decreases class.occurrences@.len() - next,
    {
        if class.occurrences[next].is_some() {
            match find_checked(checked, class.annotations[next]) {
                Some(annotation) => {
                    annotations.push(annotation.clone());
                },
                None => {
                    proof {
                        lemma_applications_missing(
                            *class,
                            checked@,
                            (next + 1) as nat,
                            class.occurrences@.len(),
                        );
                    }
                    return None;
                },
            }
        }
        next += 1;
    }
    Some(AppliedAnnotations { annotations })
}

/// What is published for the class `class`: its annotations where all of them were checked.
pub open spec fn class_applications(
    class: ClassAnnotations,
    checked: Seq<CheckedAnnotation>,
) -> Option<Seq<ResolvedAnnotationView>> {
    applications(class, checked, class.occurrences@.len())
}

/// What is published for the first `count` of the classes at `positions`.
pub open spec fn publications(
    classes: Seq<ClassAnnotations>,
    positions: Seq<usize>,
    checked: Seq<CheckedAnnotation>,
    count: nat,
) -> Seq<(DeclarationId, Seq<ResolvedAnnotationView>)>
    decreases count,
{
    if count == 0 {
        seq![]
    } else {
        let rest = publications(classes, positions, checked, (count - 1) as nat);
        let class = classes[positions[count - 1] as int];
        match class_applications(class, checked) {
            Some(applied) => rest.push((class.stable, applied)),
            None => rest,
        }
    }
}

/// What is known to be wrong once the classes of a source file were looked at.
#[derive(Clone, Copy, Debug, PartialEq, Eq, Structural)]
pub struct SourceFindings {
    /// Whether anything is wrong.
    pub errors: bool,
    /// The class that is told to be incomplete.
    pub incomplete: Option<Span>,
}

/// What is known after the first `count` of the classes at `positions`. A class whose annotations
/// were not all checked is told where nothing was wrong before it and its own check did not complain.
pub open spec fn findings(
    classes: Seq<ClassAnnotations>,
    positions: Seq<usize>,
    checked: Seq<CheckedAnnotation>,
    errors: bool,
    count: nat,
) -> SourceFindings
    decreases count,
{
    if count == 0 {
        SourceFindings { errors, incomplete: None }
    } else {
        let before = findings(classes, positions, checked, errors, (count - 1) as nat);
        let class = classes[positions[count - 1] as int];
        let known = before.errors || class.complained;
        if class_applications(class, checked) is None && !known {
            SourceFindings { errors: true, incomplete: Some(class.span) }
        } else {
            SourceFindings { errors: known, incomplete: before.incomplete }
        }
    }
}

/// A class that is told to be incomplete stays told, whatever is found of the classes behind it.
pub proof fn a_later_complaint_takes_nothing_back(
    classes: Seq<ClassAnnotations>,
    positions: Seq<usize>,
    checked: Seq<CheckedAnnotation>,
    errors: bool,
    seen: nat,
    count: nat,
)
    requires
        seen <= count,
        findings(classes, positions, checked, errors, seen).incomplete is Some,
    ensures
        findings(classes, positions, checked, errors, count) == findings(
            classes,
            positions,
            checked,
            errors,
            seen,
        ),
    decreases count,
{
    lemma_told_is_wrong(classes, positions, checked, errors, seen);
    if seen < count {
        a_later_complaint_takes_nothing_back(
            classes,
            positions,
            checked,
            errors,
            seen,
            (count - 1) as nat,
        );
    }
}

proof fn lemma_told_is_wrong(
    classes: Seq<ClassAnnotations>,
    positions: Seq<usize>,
    checked: Seq<CheckedAnnotation>,
    errors: bool,
    count: nat,
)
    ensures
        findings(classes, positions, checked, errors, count).incomplete is Some ==> findings(
            classes,
            positions,
            checked,
            errors,
            count,
        ).errors,
    decreases count,
{
    if count > 0 {
        lemma_told_is_wrong(classes, positions, checked, errors, (count - 1) as nat);
    }
}

/// Publish the checked annotations of the classes at `positions`. A class whose annotations were
/// not all checked publishes none; it is told where nothing is wrong so far.
pub fn publish_source_annotations(
    index: &mut HashMap<DeclarationId, AppliedAnnotations>,
    classes: &Vec<ClassAnnotations>,
    positions: &Vec<usize>,
    checked: &Vec<CheckedAnnotation>,
    errors: bool,
) -> (found: SourceFindings)
    requires
        forall|k: int|
            0 <= k < positions@.len() ==> (#[trigger] positions@[k] as int) < classes@.len()
                && bound(classes@[positions@[k] as int]),
    ensures
        recorded(
            old(index)@,
            final(index)@,
            publications(classes@, positions@, checked@, positions@.len()),
        ),
        found == findings(classes@, positions@, checked@, errors, positions@.len()),
{
    let ghost start = index@;
    let mut wrong = errors;
    let mut incomplete: Option<Span> = None;
    let mut next: usize = 0;
    while next < positions.len()
        invariant
            next <= positions@.len(),
            forall|k: int|
                0 <= k < positions@.len() ==> (#[trigger] positions@[k] as int) < classes@.len()
                    && bound(classes@[positions@[k] as int]),
            recorded(start, index@, publications(classes@, positions@, checked@, next as nat)),
            (SourceFindings { errors: wrong, incomplete }) == findings(
                classes@,
                positions@,
                checked@,
                errors,
                next as nat,
            ),
        decreases positions@.len() - next,
    {
        let class = &classes[positions[next]];
        if class.complained {
            wrong = true;
        }
        let ghost before = index@;
        let ghost found = publications(classes@, positions@, checked@, next as nat);
        match checked_applications(class, checked) {
            Some(applied) => {
                let ghost shown = applied@;
                index.insert(class.stable, applied);
                proof {
                    let more = found.push((class.stable, shown));
                    assert(more.drop_last() =~= found);
                    assert forall|id: DeclarationId|
                        last_value(start, more, id) == if #[trigger] index@.contains_key(id) {
                            Some(index@[id]@)
                        } else {
                            None
                        } by {
                        if id != class.stable {
                            assert(index@.contains_key(id) == before.contains_key(id));
                        }
                    }
                }
            },
            None => {
                if !wrong {
                    incomplete = Some(class.span);
                    wrong = true;
                }
            },
        }
        next += 1;
    }
    SourceFindings { errors: wrong, incomplete }
}

/// Where a class publishes its annotations, it publishes one for each occurrence that was settled.
pub proof fn each_settled_occurrence_is_published(
    class: ClassAnnotations,
    checked: Seq<CheckedAnnotation>,
    count: nat,
)
    requires
        count <= class.occurrences@.len(),
        applications(class, checked, count) is Some,
    ensures
        applications(class, checked, count)->0.len() == identities(
            class.occurrences@.take(count as int),
        ).len(),
    decreases count,
{
    if count > 0 {
        each_settled_occurrence_is_published(class, checked, (count - 1) as nat);
        assert(class.occurrences@.take(count as int).drop_last() =~= class.occurrences@.take(
            count - 1,
        ));
    }
}

proof fn lemma_recorded_in_turn(
    start: Map<DeclarationId, AppliedAnnotations>,
    middle: Map<DeclarationId, AppliedAnnotations>,
    end: Map<DeclarationId, AppliedAnnotations>,
    first: Seq<(DeclarationId, Seq<ResolvedAnnotationView>)>,
    second: Seq<(DeclarationId, Seq<ResolvedAnnotationView>)>,
)
    requires
        recorded(start, middle, first),
        recorded(middle, end, second),
    ensures
        recorded(start, end, first + second),
{
    assert forall|id: DeclarationId|
        last_value(start, first + second, id) == if #[trigger] end.contains_key(id) {
            Some(end[id]@)
        } else {
            None
        } by {
        lemma_last_value_in_turn(start, middle, first, second, id);
    }
}

proof fn lemma_last_value_in_turn(
    start: Map<DeclarationId, AppliedAnnotations>,
    middle: Map<DeclarationId, AppliedAnnotations>,
    first: Seq<(DeclarationId, Seq<ResolvedAnnotationView>)>,
    second: Seq<(DeclarationId, Seq<ResolvedAnnotationView>)>,
    id: DeclarationId,
)
    requires
        recorded(start, middle, first),
    ensures
        last_value(start, first + second, id) == last_value(middle, second, id),
    decreases second.len(),
{
    if second.len() == 0 {
        assert(first + second =~= first);
        assert(middle.contains_key(id) || !middle.contains_key(id));
    } else {
        assert((first + second).drop_last() =~= first + second.drop_last());
        assert((first + second).last() == second.last());
        lemma_last_value_in_turn(start, middle, first, second.drop_last(), id);
    }
}

/// The classes of a source file with what the check of their annotations gave.
#[derive(Debug)]
pub struct SourceAnnotations {
    /// Why the declarations of the file could not be bound to those of the module, where they could
    /// not.
    pub unbound: Option<String>,
    pub classes: Vec<ClassAnnotations>,
    pub checked: Vec<CheckedAnnotation>,
}

/// A complaint about the publication of annotations.
#[derive(Debug, PartialEq, Eq)]
pub enum PublicationComplaint {
    /// The declarations of the source could not be bound to those of the module.
    Inventory { source: usize, error: String },
    /// The annotations of a class in the source are not settled as its header says.
    Unbound { source: usize, span: Span },
    /// The annotations of a class in the source were not all checked.
    Incomplete { source: usize, span: Span },
    /// Occurrences are left that belong to no class.
    Remaining,
}

/// The model of a [`PublicationComplaint`].
pub enum PublicationComplaintView {
    Inventory { source: usize, error: Seq<char> },
    Unbound { source: usize, span: Span },
    Incomplete { source: usize, span: Span },
    Remaining,
}

impl View for PublicationComplaint {
    type V = PublicationComplaintView;

    open spec fn view(&self) -> PublicationComplaintView {
        match *self {
            PublicationComplaint::Inventory { source, error } => {
                PublicationComplaintView::Inventory { source, error: error@ }
            },
            PublicationComplaint::Unbound { source, span } => PublicationComplaintView::Unbound {
                source,
                span,
            },
            PublicationComplaint::Incomplete { source, span } => {
                PublicationComplaintView::Incomplete { source, span }
            },
            PublicationComplaint::Remaining => PublicationComplaintView::Remaining,
        }
    }
}

impl PublicationComplaintView {
    /// What the complaint says.
    pub open spec fn text(self) -> Seq<char> {
        match self {
            PublicationComplaintView::Inventory { error, .. } => {
                "internal error: classifier annotation source inventory did not bind: "@ + error
            },
            PublicationComplaintView::Unbound { .. } => {
                "internal error: stable classifier annotation occurrences do not match the finalized declaration header"@
            },
            PublicationComplaintView::Incomplete { .. } => {
                "internal error: checked classifier annotations were not fully published"@
            },
            PublicationComplaintView::Remaining => {
                "internal error: classifier annotation occurrences remained after stable publication"@
            },
        }
    }

    /// The source file that the complaint is about, and the place in it.
    pub open spec fn place(self) -> (usize, Span) {
        match self {
            PublicationComplaintView::Inventory { source, .. } => (source, Span { lo: 0, hi: 0 }),
            PublicationComplaintView::Unbound { source, span } => (source, span),
            PublicationComplaintView::Incomplete { source, span } => (source, span),
            PublicationComplaintView::Remaining => (0, Span { lo: 0, hi: 0 }),
        }
    }
}

impl PublicationComplaint {
    /// What the complaint says.
    pub fn message(&self) -> (text: String)
        ensures
            text@ == self@.text(),
    {
        match self {
            PublicationComplaint::Inventory { error, .. } => followed(
                "internal error: classifier annotation source inventory did not bind: ",
                error.as_str(),
            ),
            PublicationComplaint::Unbound { .. } => {
                "internal error: stable classifier annotation occurrences do not match the finalized declaration header".to_owned()
            },
            PublicationComplaint::Incomplete { .. } => {
                "internal error: checked classifier annotations were not fully published".to_owned()
            },
            PublicationComplaint::Remaining => {
                "internal error: classifier annotation occurrences remained after stable publication".to_owned()
            },
        }
    }

    /// The source file that the complaint is about, and the place in it.
    pub fn position(&self) -> (place: (usize, Span))
        ensures
            place == self@.place(),
    {
        match self {
            PublicationComplaint::Inventory { source, .. } => (*source, Span { lo: 0, hi: 0 }),
            PublicationComplaint::Unbound { source, span } => (*source, *span),
            PublicationComplaint::Incomplete { source, span } => (*source, *span),
            PublicationComplaint::Remaining => (0, Span { lo: 0, hi: 0 }),
        }
    }
}

/// How far publication has come.
pub struct PublicationState {
    pub published: Seq<(DeclarationId, Seq<ResolvedAnnotationView>)>,
    pub complaints: Seq<PublicationComplaintView>,
    /// Whether anything was complained of.
    pub errors: bool,
    /// Whether publication ended early.
    pub stopped: bool,
}

impl PublicationState {
    /// The state after a complaint that ends the publication.
    pub open spec fn ended_by(self, complaint: PublicationComplaintView) -> PublicationState {
        PublicationState {
            complaints: self.complaints.push(complaint),
            errors: true,
            stopped: true,
            ..self
        }
    }
}

/// The state after the first `count` source files. A file whose declarations are not bound, or whose
/// headers do not agree, ends the publication; a class that is incomplete is told only where nothing
/// was wrong until then.
pub open spec fn publication_after(
    sources: Seq<SourceAnnotations>,
    errors: bool,
    count: nat,
) -> PublicationState
    decreases count,
{
    if count == 0 {
        PublicationState { published: seq![], complaints: seq![], errors, stopped: false }
    } else {
        let state = publication_after(sources, errors, (count - 1) as nat);
        let source = sources[count - 1];
        let place = (count - 1) as usize;
        if state.stopped {
            state
        } else {
            match (source.unbound, first_unbound(source.classes@)) {
                (Some(error), _) => state.ended_by(
                    PublicationComplaintView::Inventory { source: place, error: error@ },
                ),
                (None, Some(class)) => state.ended_by(
                    PublicationComplaintView::Unbound { source: place, span: class.span },
                ),
                (None, None) => {
                    let positions = annotated(source.classes@);
                    let found = findings(
                        source.classes@,
                        positions,
                        source.checked@,
                        state.errors,
                        positions.len(),
                    );
                    PublicationState {
                        published: state.published + publications(
                            source.classes@,
                            positions,
                            source.checked@,
                            positions.len(),
                        ),
                        complaints: match found.incomplete {
                            Some(span) => state.complaints.push(
                                PublicationComplaintView::Incomplete { source: place, span },
                            ),
                            None => state.complaints,
                        },
                        errors: found.errors,
                        stopped: false,
                    }
                },
            }
        }
    }
}

proof fn lemma_annotated_are_bound(classes: Seq<ClassAnnotations>)
    requires
        first_unbound(classes) is None,
        classes.len() <= usize::MAX,
    ensures
        forall|k: int|
            0 <= k < annotated(classes).len() ==> (#[trigger] annotated(classes)[k] as int)
                < classes.len() && bound(classes[annotated(classes)[k] as int]),
    decreases classes.len(),
{
    if classes.len() > 0 {
        lemma_all_bound(classes);
        lemma_first_bound(classes);
        lemma_annotated_are_bound(classes.drop_last());
        let earlier = annotated(classes.drop_last());
        assert forall|k: int| 0 <= k < annotated(classes).len() implies (
        #[trigger] annotated(classes)[k] as int) < classes.len() && bound(
            classes[annotated(classes)[k] as int],
        ) by {
            if k < earlier.len() {
                assert(annotated(classes)[k] == earlier[k]);
                assert(classes.drop_last()[earlier[k] as int] == classes[earlier[k] as int]);
            }
        }
    }
}

proof fn lemma_all_bound(classes: Seq<ClassAnnotations>)
    requires
        first_unbound(classes) is None,
    ensures
        forall|k: int| 0 <= k < classes.len() ==> bound(#[trigger] classes[k]),
    decreases classes.len(),
{
    if classes.len() > 0 {
        lemma_all_bound(classes.skip(1));
        assert forall|k: int| 0 <= k < classes.len() implies bound(#[trigger] classes[k]) by {
            if k > 0 {
                assert(classes.skip(1)[k - 1] == classes[k]);
            }
        }
    }
}

proof fn lemma_first_bound(classes: Seq<ClassAnnotations>)
    requires
        classes.len() > 0,
        forall|k: int| 0 <= k < classes.len() ==> bound(#[trigger] classes[k]),
    ensures
        first_unbound(classes.drop_last()) is None,
    decreases classes.len(),
{
    let rest = classes.drop_last();
    if rest.len() > 0 {
        assert(rest[0] == classes[0]);
        let inner = classes.skip(1);
        assert forall|k: int| 0 <= k < inner.len() implies bound(#[trigger] inner[k]) by {
            assert(inner[k] == classes[k + 1]);
        }
        lemma_first_bound(inner);
        assert(inner.drop_last() =~= rest.skip(1));
    }
}

/// Publish the checked annotations of the classes of a module, source file by source file. `errors`
/// says whether anything is wrong already, and `remaining` whether occurrences are left behind that
/// belong to no class.
pub fn publish_checked_classifier_annotations(
    index: &mut HashMap<DeclarationId, AppliedAnnotations>,
    sources: &Vec<SourceAnnotations>,
    errors: bool,
    remaining: bool,
) -> (complaints: Vec<PublicationComplaint>)
    ensures
        ({
            let state = publication_after(sources@, errors, sources@.len());
            &&& recorded(old(index)@, final(index)@, state.published)
            &&& views(complaints@) == if remaining && !state.stopped {
                state.complaints.push(PublicationComplaintView::Remaining)
            } else {
                state.complaints
            }
        }),
{
    let ghost start = index@;
    let mut complaints: Vec<PublicationComplaint> = Vec::new();
    let mut wrong = errors;
    let mut next: usize = 0;
    while next < sources.len()
        invariant
            next <= sources@.len(),
            recorded(start, index@, publication_after(sources@, errors, next as nat).published),
            views(complaints@) == publication_after(sources@, errors, next as nat).complaints,
            wrong == publication_after(sources@, errors, next as nat).errors,
            !publication_after(sources@, errors, next as nat).stopped,
            start == old(index)@,
        decreases sources@.len() - next,
    {
        let source = &sources[next];
        if let Some(error) = &source.unbound {
            complaints.push(
                PublicationComplaint::Inventory { source: next, error: error.clone() },
            );
            proof {
                lemma_stays_stopped(sources@, errors, (next + 1) as nat, sources@.len());
            }
            return complaints;
        }
        match annotated_classes(&source.classes) {
            Err(span) => {
                complaints.push(PublicationComplaint::Unbound { source: next, span });
                proof {
                    lemma_stays_stopped(sources@, errors, (next + 1) as nat, sources@.len());
                }
                return complaints;
            },
            Ok(positions) => {
                let classes: usize = source.classes.len();
                let ghost middle = index@;
                let ghost earlier = publication_after(sources@, errors, next as nat).published;
                proof {
                    assert(source.classes@.len() == classes);
                    lemma_annotated_are_bound(source.classes@);
                }
                let found = publish_source_annotations(
                    index,
                    &source.classes,
                    &positions,
                    &source.checked,
                    wrong,
                );
                proof {
                    lemma_recorded_in_turn(
                        start,
                        middle,
                        index@,
                        earlier,
                        publications(
                            source.classes@,
                            positions@,
                            source.checked@,
                            positions@.len(),
                        ),
                    );
                }
                wrong = found.errors;
                if let Some(span) = found.incomplete {
                    complaints.push(PublicationComplaint::Incomplete { source: next, span });
                }
            },
        }
        next += 1;
    }
    if remaining {
        complaints.push(PublicationComplaint::Remaining);
    }
    complaints
}

proof fn lemma_stays_stopped(
    sources: Seq<SourceAnnotations>,
    errors: bool,
    seen: nat,
    count: nat,
)
    requires
        seen <= count,
        publication_after(sources, errors, seen).stopped,
    ensures
        publication_after(sources, errors, count) == publication_after(sources, errors, seen),
    decreases count - seen,
{
    if seen < count {
        lemma_stays_stopped(sources, errors, seen + 1, count);
    }
}

} // verus!
