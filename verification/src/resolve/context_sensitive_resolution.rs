//! The classifier that the expected type of a position contributes.

use vstd::prelude::*;

use crate::model::holds;
use crate::names::{nested_name, TypeName};
use crate::symbols::SymbolTable;
use crate::text::views;
use crate::types::{Ty, TyView};

verus! {

broadcast use {crate::text::group_views, crate::types::group_ty_views};

/// A nested classifier that a classifier declares or inherits.
#[derive(Debug)]
pub enum InheritedNestedClassifier {
    NotFound,
    Found(TypeName),
    /// Two parents at the same distance declare one.
    Ambiguous,
}

/// The model of an [`InheritedNestedClassifier`].
pub enum InheritedNestedView {
    NotFound,
    Found(Seq<char>),
    Ambiguous,
}

impl View for InheritedNestedClassifier {
    type V = InheritedNestedView;

    open spec fn view(&self) -> InheritedNestedView {
        match self {
            InheritedNestedClassifier::NotFound => InheritedNestedView::NotFound,
            InheritedNestedClassifier::Found(name) => InheritedNestedView::Found(name@),
            InheritedNestedClassifier::Ambiguous => InheritedNestedView::Ambiguous,
        }
    }
}

/// The names with one more, where it is not among them.
pub open spec fn with_name(names: Seq<Seq<char>>, name: Seq<char>) -> Seq<Seq<char>> {
    if names.contains(name) {
        names
    } else {
        names.push(name)
    }
}

/// The classifiers called `name` that are declared directly inside the owners.
pub open spec fn declared_nested(
    source: SymbolTable,
    owners: Seq<Seq<char>>,
    name: Seq<char>,
) -> Seq<Seq<char>>
    decreases owners.len(),
{
    if owners.len() == 0 {
        seq![]
    } else {
        let rest = declared_nested(source, owners.drop_last(), name);
        let nested = nested_name(owners.last(), name);
        if source.classifier_of(nested) is Some {
            with_name(rest, nested)
        } else {
            rest
        }
    }
}

/// The names with the classifiers of the types added.
pub open spec fn with_classifiers(names: Seq<Seq<char>>, types: Seq<TyView>) -> Seq<Seq<char>>
    decreases types.len(),
{
    if types.len() == 0 {
        names
    } else {
        let rest = with_classifiers(names, types.drop_last());
        match types.last() {
            TyView::Obj(name, _) => with_name(rest, name),
            _ => rest,
        }
    }
}

/// The classifiers directly above the owners.
pub open spec fn parents(source: SymbolTable, owners: Seq<Seq<char>>) -> Seq<Seq<char>>
    decreases owners.len(),
{
    if owners.len() == 0 {
        seq![]
    } else {
        let rest = parents(source, owners.drop_last());
        match source.classifier_of(owners.last()) {
            Some(classifier) => with_classifiers(rest, classifier.supertypes),
            None => rest,
        }
    }
}

/// The nested classifier that the owners have, or that the nearest of their ancestors declare. No
/// hierarchy is higher than there are records.
pub open spec fn nearest_nested(
    source: SymbolTable,
    owners: Seq<Seq<char>>,
    name: Seq<char>,
    height: nat,
) -> InheritedNestedView
    decreases height,
{
    let found = declared_nested(source, owners, name);
    if found.len() == 1 {
        InheritedNestedView::Found(found[0])
    } else if found.len() > 1 {
        InheritedNestedView::Ambiguous
    } else if height == 0 {
        InheritedNestedView::NotFound
    } else {
        nearest_nested(source, parents(source, owners), name, (height - 1) as nat)
    }
}

fn add_name(names: &mut Vec<TypeName>, name: TypeName)
    ensures
        views(final(names)@) == with_name(views(old(names)@), name@),
{
    if !holds(names, &name) {
        names.push(name);
    }
}

fn find_declared(source: &SymbolTable, owners: &Vec<TypeName>, name: &str) -> (found: Vec<TypeName>)
    ensures
        views(found@) == declared_nested(*source, views(owners@), name@),
{
    let mut found: Vec<TypeName> = Vec::new();
    let mut next: usize = 0;
    assert(views(owners@).take(0) =~= seq![]);
    while next < owners.len()
        invariant
            next <= owners@.len(),
            views(found@) == declared_nested(*source, views(owners@).take(next as int), name@),
        decreases owners@.len() - next,
    {
        let ghost grown = views(owners@).take(next as int + 1);
        assert(grown.drop_last() =~= views(owners@).take(next as int));
        assert(grown.last() == owners@[next as int]@);
        let nested = owners[next].nested_child(name);
        if source.classifier(&nested).is_some() {
            add_name(&mut found, nested);
        }
        next += 1;
    }
    assert(views(owners@).take(next as int) =~= views(owners@));
    found
}

fn add_classifiers(names: &mut Vec<TypeName>, types: &Vec<Ty>)
    ensures
        views(final(names)@) == with_classifiers(views(old(names)@), views(types@)),
{
    let ghost start = views(names@);
    let mut next: usize = 0;
    assert(views(types@).take(0) =~= seq![]);
    while next < types.len()
        invariant
            next <= types@.len(),
            views(names@) == with_classifiers(start, views(types@).take(next as int)),
        decreases types@.len() - next,
    {
        let ghost grown = views(types@).take(next as int + 1);
        assert(grown.drop_last() =~= views(types@).take(next as int));
        assert(grown.last() == types@[next as int]@);
        if let Some(name) = types[next].obj_internal() {
            add_name(names, name.clone());
        }
        next += 1;
    }
    assert(views(types@).take(next as int) =~= views(types@));
}

fn find_parents(source: &SymbolTable, owners: &Vec<TypeName>) -> (above: Vec<TypeName>)
    ensures
        views(above@) == parents(*source, views(owners@)),
{
    let mut above: Vec<TypeName> = Vec::new();
    let mut next: usize = 0;
    assert(views(owners@).take(0) =~= seq![]);
    while next < owners.len()
        invariant
            next <= owners@.len(),
            views(above@) == parents(*source, views(owners@).take(next as int)),
        decreases owners@.len() - next,
    {
        let ghost grown = views(owners@).take(next as int + 1);
        assert(grown.drop_last() =~= views(owners@).take(next as int));
        assert(grown.last() == owners@[next as int]@);
        if let Some(classifier) = source.classifier(&owners[next]) {
            add_classifiers(&mut above, &classifier.supertypes);
        }
        next += 1;
    }
    assert(views(owners@).take(next as int) =~= views(owners@));
    above
}

/// The nested classifier `name` that the roots have, or that the nearest of their ancestors
/// declare.
pub fn inherited_nested_classifier_name(
    source: &SymbolTable,
    roots: Vec<TypeName>,
    name: &str,
) -> (found: InheritedNestedClassifier)
    ensures
        found@ == nearest_nested(*source, views(roots@), name@, source.entries@.len()),
{
    let ghost start = views(roots@);
    let mut owners = roots;
    let mut height: usize = source.entries.len();
    loop
        invariant
            height <= source.entries@.len(),
            start == views(roots@),
            nearest_nested(*source, views(owners@), name@, height as nat) == nearest_nested(
                *source,
                start,
                name@,
                source.entries@.len(),
            ),
        decreases height,
    {
        let mut declared = find_declared(source, &owners, name);
        if declared.len() == 1 {
            let ghost shown = views(declared@);
            let nested = declared.remove(0);
            assert(shown[0] == nested@);
            return InheritedNestedClassifier::Found(nested);
        }
        if declared.len() > 1 {
            return InheritedNestedClassifier::Ambiguous;
        }
        if height == 0 {
            return InheritedNestedClassifier::NotFound;
        }
        owners = find_parents(source, &owners);
        height -= 1;
    }
}

/// The nested classifier that an expected type contributes.
pub open spec fn expected_nested(source: SymbolTable, expected: TyView, name: Seq<char>) -> InheritedNestedView {
    match expected.non_null() {
        TyView::Obj(root, _) => nearest_nested(source, seq![root], name, source.entries@.len()),
        _ => InheritedNestedView::NotFound,
    }
}

/// The nested classifier `name` that an expected type contributes: that of its classifier, or of the
/// nearest ancestors.
pub fn expected_nested_classifier(source: &SymbolTable, expected: &Ty, name: &str) -> (found:
    InheritedNestedClassifier)
    ensures
        found@ == expected_nested(*source, expected@, name@),
{
    match expected.non_null() {
        Ty::Obj(root, _) => {
            let mut owners: Vec<TypeName> = Vec::new();
            owners.push(root.clone());
            assert(views(owners@) =~= seq![root@]);
            inherited_nested_classifier_name(source, owners, name)
        },
        _ => InheritedNestedClassifier::NotFound,
    }
}

/// A classifier that declares the nested classifier itself hides what its ancestors declare.
pub proof fn an_own_nested_classifier_is_found(
    source: SymbolTable,
    root: Seq<char>,
    arguments: Seq<TyView>,
    name: Seq<char>,
)
    requires
        source.classifier_of(nested_name(root, name)) is Some,
    ensures
        expected_nested(source, TyView::Obj(root, arguments), name) == InheritedNestedView::Found(
            nested_name(root, name),
        ),
{
    reveal_with_fuel(declared_nested, 2);
    assert(seq![root].drop_last() =~= seq![]);
}

/// A classifier that is found exists.
pub proof fn a_found_nested_classifier_exists(
    source: SymbolTable,
    owners: Seq<Seq<char>>,
    name: Seq<char>,
    height: nat,
)
    ensures
        nearest_nested(source, owners, name, height) matches InheritedNestedView::Found(found)
            ==> source.classifier_of(found) is Some,
    decreases height,
{
    lemma_declared_exist(source, owners, name);
    if declared_nested(source, owners, name).len() == 0 && height > 0 {
        a_found_nested_classifier_exists(
            source,
            parents(source, owners),
            name,
            (height - 1) as nat,
        );
    }
}

proof fn lemma_declared_exist(source: SymbolTable, owners: Seq<Seq<char>>, name: Seq<char>)
    ensures
        forall|k: int|
            0 <= k < declared_nested(source, owners, name).len() ==> source.classifier_of(
                #[trigger] declared_nested(source, owners, name)[k],
            ) is Some,
    decreases owners.len(),
{
    if owners.len() > 0 {
        lemma_declared_exist(source, owners.drop_last(), name);
    }
}

} // verus!
