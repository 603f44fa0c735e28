//! What holds of the classifiers that spellings are bound to and of the constants that are
//! published.

use vstd::prelude::*;

use crate::ast::{File, PropDecl};
use crate::libraries::LibConstView;
use crate::resolve::actualization_names::ClassifierSelectionView;
use crate::resolve::checked_constant_publication::{
    class_constants, constants_after, member_value, object_at, object_declared_at, shown_constants,
    MemberConstantView,
};
use crate::resolve::import_scopes::{
    imported_at, packages, with_import, ClassifierSources, ImportScope, ImportTargetView,
    ImportedNameView, SourceImport,
};
use crate::resolve::source_table::ClassSig;
use crate::symbols::SymbolNamespaceView;
use crate::text::views;

verus! {

impl ClassifierSources {
    /// Whether a namespace of a level declares the name, under the given identity.
    pub open spec fn offers(
        self,
        level: Seq<SymbolNamespaceView>,
        name: Seq<char>,
        identity: Seq<char>,
    ) -> bool {
        self.declares(identity) && exists|k: int|
            0 <= k < level.len() && (#[trigger] level[k]).qualify(name) == identity
    }

    proof fn lemma_offers(
        self,
        level: Seq<SymbolNamespaceView>,
        name: Seq<char>,
        identity: Seq<char>,
    )
        requires
            level.len() > 0,
        ensures
            self.offers(level, name, identity) <==> self.offers(level.drop_last(), name, identity)
                || (self.declares(identity) && level.last().qualify(name) == identity),
    {
        let front = level.drop_last();
        if self.offers(front, name, identity) {
            let k = choose|k: int|
                0 <= k < front.len() && (#[trigger] front[k]).qualify(name) == identity;
            assert(level[k].qualify(name) == identity);
        }
        if self.offers(level, name, identity) {
            let k = choose|k: int|
                0 <= k < level.len() && (#[trigger] level[k]).qualify(name) == identity;
            if k < front.len() {
                assert(front[k].qualify(name) == identity);
            }
        }
        assert(level[level.len() - 1] == level.last());
    }

    /// A level selects the classifier that it offers where it offers just one, and is ambiguous
    /// where it offers two; it is absent where it offers none.
    pub proof fn a_level_selects_the_only_classifier_it_offers(
        self,
        level: Seq<SymbolNamespaceView>,
        name: Seq<char>,
    )
        ensures
            match self.on_level(level, name) {
                ClassifierSelectionView::Selected(found) => self.offers(level, name, found)
                    && forall|other: Seq<char>| #[trigger]
                    self.offers(level, name, other) ==> other == found,
                ClassifierSelectionView::Absent => forall|other: Seq<char>|
                    !#[trigger] self.offers(level, name, other),
                ClassifierSelectionView::Ambiguous => exists|one: Seq<char>, two: Seq<char>|
                    one != two && #[trigger] self.offers(level, name, one)
                        && #[trigger] self.offers(level, name, two),
            },
        decreases level.len(),
    {
        if level.len() > 0 {
            let front = level.drop_last();
            let candidate = level.last().qualify(name);
            self.a_level_selects_the_only_classifier_it_offers(front, name);
            assert forall|other: Seq<char>| #[trigger] self.offers(level, name, other) implies (
            self.offers(front, name, other) || (self.declares(other) && other == candidate)) by {
                self.lemma_offers(level, name, other);
            }
            self.lemma_offers(level, name, candidate);
            match self.on_level(front, name) {
                ClassifierSelectionView::Selected(known) => {
                    self.lemma_offers(level, name, known);
                },
                ClassifierSelectionView::Ambiguous => {
                    let (one, two) = choose|one: Seq<char>, two: Seq<char>|
                        one != two && #[trigger] self.offers(front, name, one)
                            && #[trigger] self.offers(front, name, two);
                    self.lemma_offers(level, name, one);
                    self.lemma_offers(level, name, two);
                },
                ClassifierSelectionView::Absent => {},
            }
        }
    }

    /// A name is looked up from the inside out: an imported classifier comes before the own
    /// package, that before the packages that are imported whole, and those before the ones that
    /// every file imports.
    pub proof fn a_nearer_level_hides_the_ones_behind_it(
        self,
        scope: ImportScope,
        name: Seq<char>,
    )
        ensures
            ({
                let own = SymbolNamespaceView::Package(scope.own_package@).qualify(name);
                let stars = views(scope.stars@);
                let kotlin = packages(views(scope.kotlin_defaults@));
                let platform = packages(views(scope.platform_defaults@));
                let bound = self.bound_name(scope, name);
                let imported = imported_at(views(scope.names@), name);
                &&& imported is None && self.declares(own) ==> bound
                    == ClassifierSelectionView::Selected(own)
                &&& imported matches Some(place) ==> (views(
                    scope.names@,
                )[place as int].target matches Some(target) ==> self.declares(
                    target.owner.qualify(target.declared_name),
                ) ==> bound == ClassifierSelectionView::Selected(
                    target.owner.qualify(target.declared_name),
                ))
                &&& imported is None && !self.declares(own) && !(self.on_level(stars, name)
                    is Absent) ==> bound == self.on_level(stars, name)
                &&& imported is None && !self.declares(own) && self.on_level(stars, name)
                    is Absent && !(self.on_level(kotlin, name) is Absent) ==> bound
                    == self.on_level(kotlin, name)
                &&& imported is None && !self.declares(own) && self.on_level(stars, name)
                    is Absent && self.on_level(kotlin, name) is Absent ==> bound
                    == self.on_level(platform, name)
            }),
    {
        let level = seq![SymbolNamespaceView::Package(scope.own_package@)];
        let own = level[0].qualify(name);
        self.a_level_selects_the_only_classifier_it_offers(level, name);
        assert(self.declares(own) ==> self.offers(level, name, own));
        assert forall|other: Seq<char>| #[trigger] self.offers(level, name, other) implies other
            == own by {}
    }
}

/// A class lists the constants in its body that have an initializer: all of them and nothing else.
pub proof fn a_class_lists_its_constants(
    file: usize,
    declaration: u32,
    properties: Seq<PropDecl>,
    count: nat,
    member: MemberConstantView,
)
    requires
        count <= properties.len(),
    ensures
        class_constants(file, declaration, properties, count).contains(member) <==> {
            &&& member.file == file
            &&& member.declaration == declaration
            &&& exists|k: int|
                0 <= k < count && (#[trigger] properties[k]).is_const && properties[k].init == Some(
                    member.initializer,
                ) && properties[k].name@ == member.name
        },
    decreases count,
{
    let listed = class_constants(file, declaration, properties, count);
    if count > 0 {
        let before = class_constants(file, declaration, properties, (count - 1) as nat);
        a_class_lists_its_constants(file, declaration, properties, (count - 1) as nat, member);
        if before.contains(member) {
            let k = choose|k: int| 0 <= k < before.len() && before[k] == member;
            assert(listed[k] == member);
        }
        if listed.contains(member) && !before.contains(member) {
            let k = choose|k: int| 0 <= k < listed.len() && listed[k] == member;
            assert(k == before.len());
            assert(properties[count - 1].is_const);
        }
        if listed.len() > before.len() {
            assert(listed[before.len() as int] == listed.last());
        }
    }
}

/// The object at a place is the first that is declared there, and only an object.
pub proof fn the_first_object_at_a_place_is_found(
    classes: Seq<ClassSig>,
    file: u32,
    declaration: u32,
)
    ensures
        match object_at(classes, file, declaration) {
            Some(place) => 0 <= place < classes.len() && object_declared_at(
                classes[place],
                file,
                declaration,
            ) && classes[place].is_object && forall|k: int|
                0 <= k < place ==> !object_declared_at(#[trigger] classes[k], file, declaration),
            None => forall|k: int|
                0 <= k < classes.len() ==> !object_declared_at(
                    #[trigger] classes[k],
                    file,
                    declaration,
                ),
        },
    decreases classes.len(),
{
    if classes.len() > 0 {
        let front = classes.drop_last();
        the_first_object_at_a_place_is_found(front, file, declaration);
        assert forall|k: int| 0 <= k < front.len() implies front[k] == #[trigger] classes[k] by {}
    }
}

/// An object publishes the values of its own listed constants, all that have one, beside what it
/// published before. A class that is no object publishes nothing more.
pub proof fn an_object_publishes_its_own_constants(
    files: Seq<File>,
    classes: Seq<ClassSig>,
    place: int,
    members: Seq<MemberConstantView>,
    count: nat,
    name: Seq<char>,
    value: LibConstView,
)
    requires
        0 <= place < classes.len(),
        count <= members.len(),
    ensures
        constants_after(files, classes, place, members, count).contains((name, value)) <==> {
            ||| shown_constants(classes[place].constants@).contains((name, value))
            ||| exists|k: int|
                0 <= k < count && (#[trigger] members[k]).name == name && object_at(
                    classes,
                    members[k].file as u32,
                    members[k].declaration,
                ) == Some(place) && member_value(files, classes[place], members[k]) == Some(value)
        },
        !classes[place].is_object ==> constants_after(files, classes, place, members, count)
            == shown_constants(classes[place].constants@),
    decreases count,
{
    let after = constants_after(files, classes, place, members, count);
    if count > 0 {
        let before = constants_after(files, classes, place, members, (count - 1) as nat);
        let member = members[count - 1];
        an_object_publishes_its_own_constants(
            files,
            classes,
            place,
            members,
            (count - 1) as nat,
            name,
            value,
        );
        the_first_object_at_a_place_is_found(classes, member.file as u32, member.declaration);
        if before.contains((name, value)) {
            let k = choose|k: int| 0 <= k < before.len() && before[k] == (name, value);
            assert(after[k] == (name, value));
        }
        if after.contains((name, value)) && !before.contains((name, value)) {
            let k = choose|k: int| 0 <= k < after.len() && after[k] == (name, value);
            assert(k == before.len());
            assert(members[count - 1].name == name);
        }
        if after.len() > before.len() {
            assert(after[before.len() as int] == after.last());
        }
    }
}

proof fn lemma_imported(names: Seq<ImportedNameView>, name: Seq<char>)
    ensures
        match imported_at(names, name) {
            Some(place) => place < names.len() && names[place as int].name == name,
            None => forall|k: int| 0 <= k < names.len() ==> (#[trigger] names[k]).name != name,
        },
    decreases names.len(),
{
    if names.len() > 0 {
        let front = names.drop_last();
        lemma_imported(front, name);
        assert forall|k: int| 0 <= k < front.len() implies front[k] == #[trigger] names[k] by {}
    }
}

proof fn lemma_same_places(
    left: Seq<ImportedNameView>,
    right: Seq<ImportedNameView>,
    name: Seq<char>,
)
    requires
        left.len() == right.len(),
        forall|k: int| 0 <= k < left.len() ==> (#[trigger] left[k]).name == right[k].name,
    ensures
        imported_at(left, name) == imported_at(right, name),
    decreases left.len(),
{
    if left.len() > 0 {
        lemma_same_places(left.drop_last(), right.drop_last(), name);
        assert(left[left.len() - 1].name == right[right.len() - 1].name);
    }
}

/// What a name is imported as: nothing where it is not imported, and no target where its imports
/// disagree.
pub open spec fn imported_as(names: Seq<ImportedNameView>, name: Seq<char>) -> Option<
    Option<ImportTargetView>,
> {
    match imported_at(names, name) {
        Some(place) => Some(names[place as int].target),
        None => None,
    }
}

/// One more import of a name agrees with what the name is imported as or leaves it without a
/// target; every other name is imported as before.
pub proof fn an_import_concerns_its_own_name(
    names: Seq<ImportedNameView>,
    name: Seq<char>,
    target: ImportTargetView,
    other: Seq<char>,
)
    ensures
        ({
            let after = with_import(names, name, target);
            &&& imported_as(after, name) == Some(
                match imported_as(names, name) {
                    None => Some(target),
                    Some(known) => if known == Some(target) {
                        Some(target)
                    } else {
                        None
                    },
                },
            )
            &&& other != name ==> imported_as(after, other) == imported_as(names, other)
        }),
{
    let after = with_import(names, name, target);
    lemma_imported(names, name);
    lemma_imported(names, other);
    match imported_at(names, name) {
        Some(place) => {
            lemma_same_places(names, after, name);
            lemma_same_places(names, after, other);
        },
        None => {
            assert(after.drop_last() =~= names);
        },
    }
}

impl ClassifierSources {
    /// What an import of a name brings in.
    pub open spec fn brought_in(self, import: SourceImport) -> ImportTargetView {
        let path = views(import.path@);
        ImportTargetView {
            owner: self.qualifier(path.drop_last())->0,
            declared_name: path.last(),
        }
    }

    /// A name is imported as what all its imports bring in. Where they disagree it has no target,
    /// and where there is none it is not imported. The order of the imports does not matter.
    pub proof fn a_name_is_imported_as_what_all_its_imports_bring_in(
        self,
        imports: Seq<SourceImport>,
        name: Seq<char>,
    )
        requires
            self.imports(imports) is Some,
        ensures
            match imported_as(self.imports(imports)->0.names, name) {
                None => forall|k: int| 0 <= k < imports.len() ==> !names_it(
                    #[trigger] imports[k],
                    name,
                ),
                Some(Some(target)) => (exists|k: int|
                    0 <= k < imports.len() && names_it(#[trigger] imports[k], name)) && forall|k: int|
                    0 <= k < imports.len() && names_it(#[trigger] imports[k], name)
                        ==> self.brought_in(imports[k]) == target,
                Some(None) => exists|i: int, j: int|
                    0 <= i < imports.len() && 0 <= j < imports.len() && names_it(
                        #[trigger] imports[i],
                        name,
                    ) && names_it(#[trigger] imports[j], name) && self.brought_in(imports[i])
                        != self.brought_in(imports[j]),
            },
        decreases imports.len(),
    {
        if imports.len() > 0 {
            let front = imports.drop_last();
            let last = imports.last();
            let end = imports.len() - 1;
            self.a_name_is_imported_as_what_all_its_imports_bring_in(front, name);
            assert forall|k: int| 0 <= k < front.len() implies front[k] == #[trigger] imports[k] by {}
            let earlier = self.imports(front)->0.names;
            assert(imports[end] == last);
            if !last.wildcard {
                let target = self.brought_in(last);
                an_import_concerns_its_own_name(earlier, last.visible_name@, target, name);
            }
            match imported_as(earlier, name) {
                Some(Some(known)) => {
                    let k = choose|k: int|
                        0 <= k < front.len() && names_it(#[trigger] front[k], name);
                    assert(names_it(imports[k], name));
                    assert(self.brought_in(front[k]) == known);
                    if names_it(last, name) && self.brought_in(last) != known {
                        assert(names_it(imports[k], name) && names_it(imports[end], name));
                        assert(self.brought_in(imports[k]) != self.brought_in(imports[end]));
                    }
                },
                Some(None) => {
                    let (i, j) = choose|i: int, j: int|
                        0 <= i < front.len() && 0 <= j < front.len() && names_it(
                            #[trigger] front[i],
                            name,
                        ) && names_it(#[trigger] front[j], name) && self.brought_in(front[i])
                            != self.brought_in(front[j]);
                    assert(names_it(imports[i], name) && names_it(imports[j], name));
                },
                None => {},
            }
        }
    }
}

/// Whether an import brings in a name.
pub open spec fn names_it(import: SourceImport, name: Seq<char>) -> bool {
    !import.wildcard && import.visible_name@ == name
}

} // verus!
