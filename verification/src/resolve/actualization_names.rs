//! The classifiers that the types of declaration headers name, for the matching of expected and
//! actual declarations.
//!
//! The matching decides which declarations survive, and so comes before signatures are solved. It
//! does not interpret imports or make identities out of spellings: each spelling is bound once, in
//! the scope of its file.

use vstd::prelude::*;

use crate::fir::DeclarationId;
use crate::model::{copy_all, copy_plain, holds, Modelled};
use crate::names::{nested_name, TypeName};
use crate::resolve::import_scopes::{
    find_imported, imported_at, packages, sees, ClassifierSources, DeclaredClassifiers,
    ImportScope, ImportedName, ImportsView, SourceImport,
};
use crate::symbols::{SymbolNamespace, SymbolNamespaceView};
use crate::text::{option_view, views};

verus! {

broadcast use crate::text::group_views;

/// What a name is bound to in a scope.
#[derive(Debug)]
pub enum ClassifierSelection {
    Selected(TypeName),
    Absent,
    Ambiguous,
}

/// The model of a [`ClassifierSelection`].
pub enum ClassifierSelectionView {
    Selected(Seq<char>),
    Absent,
    Ambiguous,
}

impl View for ClassifierSelection {
    type V = ClassifierSelectionView;

    open spec fn view(&self) -> ClassifierSelectionView {
        match self {
            ClassifierSelection::Selected(name) => ClassifierSelectionView::Selected(name@),
            ClassifierSelection::Absent => ClassifierSelectionView::Absent,
            ClassifierSelection::Ambiguous => ClassifierSelectionView::Ambiguous,
        }
    }
}

impl ClassifierSources {
    /// What a name is bound to on one level: the one classifier of the name that the namespaces of
    /// the level declare.
    pub open spec fn on_level(
        self,
        level: Seq<SymbolNamespaceView>,
        name: Seq<char>,
    ) -> ClassifierSelectionView
        decreases level.len(),
    {
        if level.len() == 0 {
            ClassifierSelectionView::Absent
        } else {
            let earlier = self.on_level(level.drop_last(), name);
            let candidate = level.last().qualify(name);
            if !self.declares(candidate) {
                earlier
            } else {
                match earlier {
                    ClassifierSelectionView::Absent => ClassifierSelectionView::Selected(candidate),
                    ClassifierSelectionView::Selected(known) => if known == candidate {
                        earlier
                    } else {
                        ClassifierSelectionView::Ambiguous
                    },
                    ClassifierSelectionView::Ambiguous => earlier,
                }
            }
        }
    }

    /// What a name is bound to behind the imported names: the first level that binds it decides.
    pub open spec fn on_levels(self, scope: ImportScope, name: Seq<char>) -> ClassifierSelectionView {
        let own = self.on_level(seq![SymbolNamespaceView::Package(scope.own_package@)], name);
        let starred = self.on_level(views(scope.stars@), name);
        let kotlin = self.on_level(packages(views(scope.kotlin_defaults@)), name);
        if !(own is Absent) {
            own
        } else if !(starred is Absent) {
            starred
        } else if !(kotlin is Absent) {
            kotlin
        } else {
            self.on_level(packages(views(scope.platform_defaults@)), name)
        }
    }

    /// What a simple name is bound to in a scope. An imported name that is no classifier does not
    /// hide the levels behind it.
    pub open spec fn bound_name(self, scope: ImportScope, name: Seq<char>) -> ClassifierSelectionView {
        match imported_at(views(scope.names@), name) {
            Some(place) => match views(scope.names@)[place as int].target {
                Some(target) => {
                    let candidate = target.owner.qualify(target.declared_name);
                    if self.declares(candidate) {
                        ClassifierSelectionView::Selected(candidate)
                    } else {
                        self.on_levels(scope, name)
                    }
                },
                None => ClassifierSelectionView::Ambiguous,
            },
            None => self.on_levels(scope, name),
        }
    }

    /// The classifier that a path names inside a classifier.
    pub open spec fn nested_in(self, owner: Seq<char>, path: Seq<Seq<char>>) -> Option<Seq<char>>
        decreases path.len(),
    {
        if path.len() == 0 {
            Some(owner)
        } else {
            let inner = nested_name(owner, path[0]);
            if self.declares(inner) {
                self.nested_in(inner, path.skip(1))
            } else {
                None
            }
        }
    }

    /// The classifier that a spelling names in a scope: its first segment is bound in the scope and
    /// the others nest in it, or else the whole is a qualified name.
    pub open spec fn resolved(self, scope: ImportScope, path: Seq<Seq<char>>) -> Option<Seq<char>> {
        if path.len() == 0 {
            None
        } else {
            match self.bound_name(scope, path[0]) {
                ClassifierSelectionView::Selected(owner) => self.nested_in(owner, path.skip(1)),
                ClassifierSelectionView::Ambiguous => None,
                ClassifierSelectionView::Absent => match self.qualifier(path) {
                    Some(SymbolNamespaceView::Classifier(name)) => Some(name),
                    _ => None,
                },
            }
        }
    }

    fn knows(&self, name: &TypeName) -> (yes: bool)
        ensures
            yes == self.declares(name@),
    {
        holds(&self.module.declarations, name) || holds(&self.platform.declarations, name)
    }

    fn search_level(&self, level: &Vec<SymbolNamespace>, name: &str) -> (selection:
        ClassifierSelection)
        ensures
            selection@ == self.on_level(views(level@), name@),
    {
        let mut selection = ClassifierSelection::Absent;
        let mut next: usize = 0;
        assert(views(level@).take(0) =~= seq![]);
        while next < level.len()
            invariant
                next <= level@.len(),
                selection@ == self.on_level(views(level@).take(next as int), name@),
            decreases level@.len() - next,
        {
            let ghost grown = views(level@).take(next as int + 1);
            assert(grown.drop_last() =~= views(level@).take(next as int));
            assert(grown.last() == level@[next as int]@);
            let candidate = level[next].qualify(name);
            if self.knows(&candidate) {
                selection = match selection {
                    ClassifierSelection::Absent => ClassifierSelection::Selected(candidate),
                    ClassifierSelection::Selected(known) => if known == candidate {
                        ClassifierSelection::Selected(known)
                    } else {
                        ClassifierSelection::Ambiguous
                    },
                    ClassifierSelection::Ambiguous => ClassifierSelection::Ambiguous,
                };
            }
            next += 1;
        }
        assert(views(level@).take(next as int) =~= views(level@));
        selection
    }

    fn search_packages(&self, names: &Vec<TypeName>, name: &str) -> (selection: ClassifierSelection)
        ensures
            selection@ == self.on_level(packages(views(names@)), name@),
    {
        let mut level: Vec<SymbolNamespace> = Vec::new();
        while level.len() < names.len()
            invariant
                level@.len() <= names@.len(),
                forall|k: int|
                    0 <= k < level@.len() ==> (#[trigger] level@[k])@ == packages(views(names@))[k],
            decreases names@.len() - level@.len(),
        {
            let package = names[level.len()].duplicate();
            level.push(SymbolNamespace::Package(package));
        }
        assert(views(level@) =~= packages(views(names@)));
        self.search_level(&level, name)
    }

    fn search_levels(&self, scope: &ImportScope, name: &str) -> (selection: ClassifierSelection)
        ensures
            selection@ == self.on_levels(*scope, name@),
    {
        let mut own: Vec<SymbolNamespace> = Vec::new();
        own.push(SymbolNamespace::Package(scope.own_package.duplicate()));
        assert(views(own@) =~= seq![SymbolNamespaceView::Package(scope.own_package@)]);
        let selection = self.search_level(&own, name);
        if !matches!(selection, ClassifierSelection::Absent) {
            return selection;
        }
        let selection = self.search_level(&scope.stars, name);
        if !matches!(selection, ClassifierSelection::Absent) {
            return selection;
        }
        let selection = self.search_packages(&scope.kotlin_defaults, name);
        if !matches!(selection, ClassifierSelection::Absent) {
            return selection;
        }
        self.search_packages(&scope.platform_defaults, name)
    }

    fn bind_name(&self, scope: &ImportScope, name: &str) -> (selection: ClassifierSelection)
        ensures
            selection@ == self.bound_name(*scope, name@),
    {
        match find_imported(&scope.names, name) {
            Some(place) => {
                let imported: &ImportedName = &scope.names[place];
                assert(views(scope.names@)[place as int] == imported@);
                match &imported.target {
                    Some(target) => {
                        let candidate = target.owner.qualify(target.declared_name.as_str());
                        if self.knows(&candidate) {
                            ClassifierSelection::Selected(candidate)
                        } else {
                            self.search_levels(scope, name)
                        }
                    },
                    None => ClassifierSelection::Ambiguous,
                }
            },
            None => self.search_levels(scope, name),
        }
    }

    fn find_nested(&self, owner: TypeName, path: &Vec<String>, start: usize) -> (found: Option<
        TypeName,
    >)
        requires
            start <= path@.len(),
        ensures
            option_view(found) == self.nested_in(owner@, views(path@).skip(start as int)),
    {
        let ghost wanted = self.nested_in(owner@, views(path@).skip(start as int));
        let mut current = owner;
        let mut next: usize = start;
        while next < path.len()
            invariant
                next <= path@.len(),
                self.nested_in(current@, views(path@).skip(next as int)) == wanted,
                wanted == self.nested_in(owner@, views(path@).skip(start as int)),
            decreases path@.len() - next,
        {
            assert(views(path@).skip(next as int)[0] == path@[next as int]@);
            assert(views(path@).skip(next as int).skip(1) =~= views(path@).skip(next as int + 1));
            let inner = current.nested_child(path[next].as_str());
            if !self.knows(&inner) {
                return None;
            }
            current = inner;
            next += 1;
        }
        Some(current)
    }

    /// The classifier that a spelling names in a scope.
    pub fn resolve(&self, scope: &ImportScope, path: &Vec<String>) -> (found: Option<TypeName>)
        ensures
            option_view(found) == self.resolved(*scope, views(path@)),
    {
        if path.len() == 0 {
            return None;
        }
        assert(views(path@)[0] == path@[0]@);
        match self.bind_name(scope, path[0].as_str()) {
            ClassifierSelection::Selected(owner) => self.find_nested(owner, path, 1),
            ClassifierSelection::Ambiguous => None,
            ClassifierSelection::Absent => {
                assert(views(path@).take(path@.len() as int) =~= views(path@));
                match self.qualifier_path(path, path.len()) {
                    Some(SymbolNamespace::Classifier(name)) => Some(name),
                    _ => None,
                }
            },
        }
    }
}

/// The syntax of a type in a declaration header. The parts refer to types by their place.
#[derive(Debug)]
pub enum HeaderType {
    Classifier { path: Vec<String>, arguments: Vec<usize>, abbreviated_argument: Option<usize> },
    Function { parameters: Vec<usize>, result: Option<usize> },
}

/// The place as a list.
pub open spec fn listed_place(place: Option<usize>) -> Seq<usize> {
    match place {
        Some(place) => seq![place],
        None => seq![],
    }
}

/// The parts of a type.
pub open spec fn parts(ty: HeaderType) -> Seq<usize> {
    match ty {
        HeaderType::Classifier { arguments, abbreviated_argument, .. } => arguments@ + listed_place(
            abbreviated_argument,
        ),
        HeaderType::Function { parameters, result } => parameters@ + listed_place(result),
    }
}

/// Whether a set of places holds the parts of each type in it.
pub open spec fn holds_parts(types: Seq<HeaderType>, places: Set<usize>) -> bool {
    forall|place: usize, k: int|
        #![trigger places.contains(place), parts(types[place as int])[k]]
        places.contains(place) && place < types.len() && 0 <= k < parts(types[place as int]).len()
            ==> places.contains(parts(types[place as int])[k])
}

/// Whether a place belongs to the roots, or to the parts of what belongs to them.
pub open spec fn belongs(types: Seq<HeaderType>, roots: Seq<usize>, place: usize) -> bool {
    forall|places: Set<usize>|
        (forall|k: int| 0 <= k < roots.len() ==> places.contains(#[trigger] roots[k]))
            && #[trigger] holds_parts(types, places) ==> places.contains(place)
}

fn type_parts(ty: &HeaderType) -> (out: Vec<usize>)
    ensures
        out@ == parts(*ty),
{
    let (list, last): (&Vec<usize>, &Option<usize>) = match ty {
        HeaderType::Classifier { path, arguments, abbreviated_argument } => (
            arguments,
            abbreviated_argument,
        ),
        HeaderType::Function { parameters, result } => (parameters, result),
    };
    let mut out: Vec<usize> = copy_plain(list);
    if let Some(place) = last {
        out.push(*place);
    }
    assert(out@ =~= parts(*ty));
    out
}

/// The places that are marked.
pub open spec fn marked(marks: Seq<bool>) -> Set<usize> {
    Set::new(|place: usize| place < marks.len() && marks[place as int])
}

/// How many places are not marked.
spec fn unmarked(marks: Seq<bool>) -> nat
    decreases marks.len(),
{
    if marks.len() == 0 {
        0
    } else {
        unmarked(marks.drop_last()) + if marks.last() {
            0nat
        } else {
            1nat
        }
    }
}

proof fn lemma_marking(marks: Seq<bool>, place: int)
    requires
        0 <= place < marks.len(),
        !marks[place],
    ensures
        unmarked(marks.update(place, true)) < unmarked(marks),
    decreases marks.len(),
{
    let after = marks.update(place, true);
    if place == marks.len() - 1 {
        assert(after.drop_last() =~= marks.drop_last());
    } else {
        assert(after.drop_last() =~= marks.drop_last().update(place, true));
        lemma_marking(marks.drop_last(), place);
    }
}

/// Mark the types that belong to the roots. A place without a type is passed over.
pub fn mark_types(types: &Vec<HeaderType>, roots: &Vec<usize>) -> (marks: Vec<bool>)
    ensures
        marks@.len() == types@.len(),
        forall|place: usize|
            place < types@.len() ==> (#[trigger] marks@[place as int]) == belongs(
                types@,
                roots@,
                place,
            ),
{
    let mut marks: Vec<bool> = Vec::new();
    while marks.len() < types.len()
        invariant
            marks@.len() <= types@.len(),
            forall|k: int| 0 <= k < marks@.len() ==> !(#[trigger] marks@[k]),
        decreases types@.len() - marks@.len(),
    {
        marks.push(false);
    }
    let mut pending: Vec<usize> = copy_plain(roots);
    proof {
        assert forall|k: int| 0 <= k < pending@.len() implies belongs(
            types@,
            roots@,
            #[trigger] pending@[k],
        ) by {
            assert(pending@[k] == roots@[k]);
        }
    }
    while pending.len() > 0
        invariant
            marks@.len() == types@.len(),
            forall|k: int|
                0 <= k < pending@.len() ==> belongs(types@, roots@, #[trigger] pending@[k]),
            forall|place: usize|
                place < types@.len() && (#[trigger] marks@[place as int]) ==> belongs(
                    types@,
                    roots@,
                    place,
                ),
            forall|k: int|
                0 <= k < roots@.len() ==> pending@.contains(#[trigger] roots@[k]) || roots@[k]
                    >= types@.len() || marks@[roots@[k] as int],
            forall|place: usize, k: int|
                #![trigger marks@[place as int], parts(types@[place as int])[k]]
                place < types@.len() && marks@[place as int] && 0 <= k < parts(
                    types@[place as int],
                ).len() ==> pending@.contains(parts(types@[place as int])[k]) || parts(
                    types@[place as int],
                )[k] >= types@.len() || marks@[parts(types@[place as int])[k] as int],
        decreases unmarked(marks@), pending@.len(),
    {
        let ghost waiting = pending@;
        let ghost before = marks@;
        let last: usize = pending.len() - 1;
        let place: usize = pending.remove(last);
        assert(waiting[last as int] == place);
        assert(pending@ =~= waiting.drop_last());
        assert forall|other: usize| #[trigger] waiting.contains(other) implies pending@.contains(
            other,
        ) || other == place by {
            let k = choose|k: int| 0 <= k < waiting.len() && waiting[k] == other;
            if k < last {
                assert(pending@[k] == other);
            }
        }
        if place < types.len() && !marks[place] {
            proof {
                lemma_marking(before, place as int);
            }
            marks.set(place, true);
            let ghost kept = pending@;
            let mut inner = type_parts(&types[place]);
            let ghost added = inner@;
            pending.append(&mut inner);
            assert(pending@ =~= kept + added);
            proof {
                assert forall|k: int| 0 <= k < pending@.len() implies belongs(
                    types@,
                    roots@,
                    #[trigger] pending@[k],
                ) by {
                    if k >= kept.len() {
                        let part = added[k - kept.len()];
                        assert(pending@[k] == part);
                        lemma_part_belongs(types@, roots@, place, k - kept.len());
                    } else {
                        assert(pending@[k] == waiting[k]);
                    }
                }
                assert forall|other: usize| #[trigger] kept.contains(other) implies
                    pending@.contains(other) by {
                    let k = choose|k: int| 0 <= k < kept.len() && kept[k] == other;
                    assert(pending@[k] == other);
                }
                assert forall|other: usize, k: int|
                    #![trigger marks@[other as int], parts(types@[other as int])[k]]
                    other < types@.len() && marks@[other as int] && 0 <= k < parts(
                        types@[other as int],
                    ).len() implies pending@.contains(parts(types@[other as int])[k]) || parts(
                    types@[other as int],
                )[k] >= types@.len() || marks@[parts(types@[other as int])[k] as int] by {
                    let part = parts(types@[other as int])[k];
                    if other == place {
                        assert(pending@[kept.len() + k] == part);
                    } else {
                        assert(before[other as int]);
                        if waiting.contains(part) && part != place {
                            assert(kept.contains(part));
                        }
                    }
                }
            }
        }
    }
    proof {
        let all = Set::new(|place: usize| place >= types@.len() || marks@[place as int]);
        assert(holds_parts(types@, all)) by {
            assert forall|place: usize, k: int|
                #![trigger all.contains(place), parts(types@[place as int])[k]]
                all.contains(place) && place < types@.len() && 0 <= k < parts(
                    types@[place as int],
                ).len() implies all.contains(parts(types@[place as int])[k]) by {
                assert(marks@[place as int]);
            }
        }
        assert forall|place: usize| place < types@.len() implies (#[trigger] marks@[place as int])
            == belongs(types@, roots@, place) by {
            if belongs(types@, roots@, place) {
                assert forall|k: int| 0 <= k < roots@.len() implies all.contains(
                    #[trigger] roots@[k],
                ) by {}
                assert(all.contains(place));
            }
        }
    }
    marks
}

proof fn lemma_part_belongs(types: Seq<HeaderType>, roots: Seq<usize>, place: usize, k: int)
    requires
        place < types.len(),
        belongs(types, roots, place),
        0 <= k < parts(types[place as int]).len(),
    ensures
        belongs(types, roots, parts(types[place as int])[k]),
{
    let part = parts(types[place as int])[k];
    assert forall|places: Set<usize>|
        (forall|j: int| 0 <= j < roots.len() ==> places.contains(#[trigger] roots[j]))
            && #[trigger] holds_parts(types, places) implies places.contains(part) by {
        assert(places.contains(place));
    }
}

/// A source file of a module, as far as its header goes.
#[derive(Debug)]
pub struct SourceHeader {
    pub package: TypeName,
    /// The imports, where the file is one whose names are looked at.
    pub imports: Option<Vec<SourceImport>>,
}

/// The kind of a declaration.
#[derive(Clone, Copy, Debug, PartialEq, Eq, Structural)]
pub enum StubKind {
    Classifier,
    TypeAlias,
    Callable,
}

/// The header of a declaration.
#[derive(Debug)]
pub struct DeclarationStub {
    pub id: DeclarationId,
    pub source: usize,
    pub kind: StubKind,
    /// The identity of a classifier or of an alias.
    pub identity: Option<TypeName>,
    /// The types that the header writes.
    pub type_roots: Vec<usize>,
}

/// The declaration headers of a module.
#[derive(Debug)]
pub struct HeaderModule {
    pub sources: Vec<SourceHeader>,
    pub classifier_names: Vec<TypeName>,
    pub stubs: Vec<DeclarationStub>,
    pub types: Vec<HeaderType>,
}

/// The identities that the aliases among the first `count` declarations have.
pub open spec fn alias_names(stubs: Seq<DeclarationStub>, count: nat) -> Seq<Seq<char>>
    decreases count,
{
    if count == 0 {
        seq![]
    } else {
        let rest = alias_names(stubs, (count - 1) as nat);
        match stubs[count - 1].identity {
            Some(name) if stubs[count - 1].kind == StubKind::TypeAlias => rest.push(name@),
            _ => rest,
        }
    }
}

impl HeaderModule {
    /// The classifiers and aliases that the module declares.
    pub open spec fn declared(self) -> Seq<Seq<char>> {
        views(self.classifier_names@) + alias_names(self.stubs@, self.stubs@.len())
    }

    /// The classifiers and aliases that the module declares.
    pub fn declarations(&self) -> (out: DeclaredClassifiers)
        ensures
            views(out.declarations@) == self.declared(),
    {
        let mut declarations: Vec<TypeName> = copy_all(&self.classifier_names);
        let mut next: usize = 0;
        while next < self.stubs.len()
            invariant
                next <= self.stubs@.len(),
                views(declarations@) == views(self.classifier_names@) + alias_names(
                    self.stubs@,
                    next as nat,
                ),
            decreases self.stubs@.len() - next,
        {
            let stub = &self.stubs[next];
            if let Some(name) = &stub.identity {
                if stub.kind == StubKind::TypeAlias {
                    declarations.push(name.duplicate());
                }
            }
            next += 1;
        }
        DeclaredClassifiers { declarations }
    }
}

/// The roots of the declarations of a source among the first `count`.
pub open spec fn source_roots(stubs: Seq<DeclarationStub>, source: int, count: nat) -> Seq<usize>
    decreases count,
{
    if count == 0 {
        seq![]
    } else {
        let rest = source_roots(stubs, source, (count - 1) as nat);
        if stubs[count - 1].source == source {
            rest + stubs[count - 1].type_roots@
        } else {
            rest
        }
    }
}

fn collect_roots(stubs: &Vec<DeclarationStub>, source: usize) -> (roots: Vec<usize>)
    ensures
        roots@ == source_roots(stubs@, source as int, stubs@.len()),
{
    let mut roots: Vec<usize> = Vec::new();
    let mut next: usize = 0;
    while next < stubs.len()
        invariant
            next <= stubs@.len(),
            roots@ == source_roots(stubs@, source as int, next as nat),
        decreases stubs@.len() - next,
    {
        if stubs[next].source == source {
            let mut more = copy_plain(&stubs[next].type_roots);
            roots.append(&mut more);
        }
        next += 1;
    }
    roots
}

/// What the headers of a module bind: declarations to their identity, and types, by their source and
/// their place, to the classifier that they name.
#[derive(Debug)]
pub struct ActualizationTypeBindings {
    pub declarations: Vec<(DeclarationId, TypeName)>,
    pub types: Vec<Vec<Option<TypeName>>>,
}

/// The declarations that are bound among the first `count`: classifiers and aliases.
pub open spec fn bound_declarations(stubs: Seq<DeclarationStub>, count: nat) -> Seq<
    (DeclarationId, Seq<char>),
>
    decreases count,
{
    if count == 0 {
        seq![]
    } else {
        let rest = bound_declarations(stubs, (count - 1) as nat);
        let stub = stubs[count - 1];
        match stub.identity {
            Some(name) if stub.kind != StubKind::Callable => rest.push((stub.id, name@)),
            _ => rest,
        }
    }
}

/// The model of a list of bound declarations.
pub open spec fn shown_declarations(declarations: Seq<(DeclarationId, TypeName)>) -> Seq<
    (DeclarationId, Seq<char>),
> {
    Seq::new(declarations.len(), |k: int| (declarations[k].0, declarations[k].1@))
}

fn bind_declarations(stubs: &Vec<DeclarationStub>) -> (declarations: Vec<(DeclarationId, TypeName)>)
    ensures
        shown_declarations(declarations@) == bound_declarations(stubs@, stubs@.len()),
{
    let mut declarations: Vec<(DeclarationId, TypeName)> = Vec::new();
    let mut next: usize = 0;
    assert(shown_declarations(declarations@) =~= seq![]);
    while next < stubs.len()
        invariant
            next <= stubs@.len(),
            shown_declarations(declarations@) == bound_declarations(stubs@, next as nat),
        decreases stubs@.len() - next,
    {
        let stub = &stubs[next];
        let ghost before = declarations@;
        if let Some(name) = &stub.identity {
            if stub.kind != StubKind::Callable {
                declarations.push((stub.id, name.duplicate()));
                assert(shown_declarations(declarations@) =~= shown_declarations(before).push(
                    (stub.id, name@),
                ));
            }
        }
        next += 1;
    }
    declarations
}

/// What the spellings of a module are looked up in: the classifiers, and what each file sees.
#[derive(Debug)]
pub struct ResolverInputs {
    pub sources: ClassifierSources,
    /// A file that is not looked at, or whose imports name nothing, sees nothing.
    pub scopes: Vec<Option<ImportScope>>,
}

/// What the imports of a file come to, where it is looked at and they can be used.
pub open spec fn header_imports(sources: ClassifierSources, header: SourceHeader) -> Option<
    ImportsView,
> {
    match header.imports {
        Some(imports) => sources.imports(imports@),
        None => None,
    }
}

impl ResolverInputs {
    /// Whether the inputs are those of a module over a platform.
    pub open spec fn of(
        self,
        headers: HeaderModule,
        platform: DeclaredClassifiers,
        platform_defaults: Seq<Seq<char>>,
    ) -> bool {
        &&& views(self.sources.module.declarations@) == headers.declared()
        &&& self.sources.platform == platform
        &&& self.scopes@.len() == headers.sources@.len()
        &&& forall|source: int|
            0 <= source < self.scopes@.len() ==> match header_imports(
                self.sources,
                headers.sources@[source],
            ) {
                Some(shown) => (#[trigger] self.scopes@[source]) matches Some(scope) && sees(
                    scope,
                    headers.sources@[source].package@,
                    shown,
                    platform_defaults,
                ),
                None => self.scopes@[source] is None,
            }
    }

    /// What a spelling names in a source file.
    pub open spec fn named(self, source: int, path: Seq<Seq<char>>) -> Option<Seq<char>> {
        if 0 <= source < self.scopes@.len() {
            match self.scopes@[source] {
                Some(scope) => self.sources.resolved(scope, path),
                None => None,
            }
        } else {
            None
        }
    }

    /// What a spelling names in a source file.
    pub fn resolve(&self, source: usize, spelling: &Vec<String>) -> (found: Option<TypeName>)
        ensures
            option_view(found) == self.named(source as int, views(spelling@)),
    {
        if source >= self.scopes.len() {
            return None;
        }
        match &self.scopes[source] {
            Some(scope) => self.sources.resolve(scope, spelling),
            None => None,
        }
    }
}

/// What the spellings of a module over a platform are looked up in.
pub fn resolver_inputs(
    headers: &HeaderModule,
    platform: DeclaredClassifiers,
    platform_defaults: &Vec<TypeName>,
) -> (inputs: ResolverInputs)
    ensures
        inputs.of(*headers, platform, views(platform_defaults@)),
{
    let sources = ClassifierSources { module: headers.declarations(), platform };
    let mut scopes: Vec<Option<ImportScope>> = Vec::new();
    while scopes.len() < headers.sources.len()
        invariant
            scopes@.len() <= headers.sources@.len(),
            forall|source: int|
                0 <= source < scopes@.len() ==> match header_imports(
                    sources,
                    headers.sources@[source],
                ) {
                    Some(shown) => (#[trigger] scopes@[source]) matches Some(scope) && sees(
                        scope,
                        headers.sources@[source].package@,
                        shown,
                        views(platform_defaults@),
                    ),
                    None => scopes@[source] is None,
                },
        decreases headers.sources@.len() - scopes@.len(),
    {
        let header = &headers.sources[scopes.len()];
        let scope = match &header.imports {
            Some(imports) => sources.import_scope(&header.package, imports, platform_defaults),
            None => None,
        };
        scopes.push(scope);
    }
    ResolverInputs { sources, scopes }
}

/// Whether `bound` is what the types of a source file are bound to: a type that belongs to a
/// declaration of the file is bound to the classifier that it names there.
pub open spec fn binds_source(
    inputs: ResolverInputs,
    headers: HeaderModule,
    source: int,
    bound: Seq<Option<TypeName>>,
) -> bool {
    bound.len() == headers.types@.len() && forall|place: usize|
        place < headers.types@.len() ==> option_view(#[trigger] bound[place as int]) == if belongs(
            headers.types@,
            source_roots(headers.stubs@, source, headers.stubs@.len()),
            place,
        ) {
            match headers.types@[place as int] {
                HeaderType::Classifier { path, .. } => inputs.named(source, views(path@)),
                HeaderType::Function { .. } => None,
            }
        } else {
            None
        }
}

fn bind_types(inputs: &ResolverInputs, headers: &HeaderModule, source: usize) -> (bound: Vec<
    Option<TypeName>,
>)
    ensures
        binds_source(*inputs, *headers, source as int, bound@),
{
    let roots = collect_roots(&headers.stubs, source);
    let marks = mark_types(&headers.types, &roots);
    let mut bound: Vec<Option<TypeName>> = Vec::new();
    while bound.len() < headers.types.len()
        invariant
            bound@.len() <= headers.types@.len(),
            marks@.len() == headers.types@.len(),
            roots@ == source_roots(headers.stubs@, source as int, headers.stubs@.len()),
            forall|place: usize|
                place < headers.types@.len() ==> (#[trigger] marks@[place as int]) == belongs(
                    headers.types@,
                    roots@,
                    place,
                ),
            forall|place: usize|
                place < bound@.len() ==> option_view(#[trigger] bound@[place as int]) == if belongs(
                    headers.types@,
                    roots@,
                    place,
                ) {
                    match headers.types@[place as int] {
                        HeaderType::Classifier { path, .. } => inputs.named(
                            source as int,
                            views(path@),
                        ),
                        HeaderType::Function { .. } => None,
                    }
                } else {
                    None
                },
        decreases headers.types@.len() - bound@.len(),
    {
        let place: usize = bound.len();
        let name = if marks[place] {
            match &headers.types[place] {
                HeaderType::Classifier { path, .. } => inputs.resolve(source, path),
                HeaderType::Function { .. } => None,
            }
        } else {
            None
        };
        bound.push(name);
    }
    bound
}

/// Bind the declarations and the types of the declaration headers, each type in the scope of its
/// file.
pub fn actualization_type_bindings(headers: &HeaderModule, inputs: &ResolverInputs) -> (bindings:
    ActualizationTypeBindings)
    ensures
        shown_declarations(bindings.declarations@) == bound_declarations(
            headers.stubs@,
            headers.stubs@.len(),
        ),
        bindings.types@.len() == headers.sources@.len(),
        forall|source: int|
            0 <= source < headers.sources@.len() ==> binds_source(
                *inputs,
                *headers,
                source,
                (#[trigger] bindings.types@[source])@,
            ),
{
    let mut types: Vec<Vec<Option<TypeName>>> = Vec::new();
    while types.len() < headers.sources.len()
        invariant
            types@.len() <= headers.sources@.len(),
            forall|source: int|
                0 <= source < types@.len() ==> binds_source(
                    *inputs,
                    *headers,
                    source,
                    (#[trigger] types@[source])@,
                ),
        decreases headers.sources@.len() - types@.len(),
    {
        let bound = bind_types(inputs, headers, types.len());
        types.push(bound);
    }
    ActualizationTypeBindings { declarations: bind_declarations(&headers.stubs), types }
}

proof fn lemma_level_selects_declared(
    sources: ClassifierSources,
    level: Seq<SymbolNamespaceView>,
    name: Seq<char>,
)
    ensures
        sources.on_level(level, name) matches ClassifierSelectionView::Selected(found)
            ==> sources.declares(found),
    decreases level.len(),
{
    if level.len() > 0 {
        lemma_level_selects_declared(sources, level.drop_last(), name);
    }
}

proof fn lemma_nested_is_declared(
    sources: ClassifierSources,
    owner: Seq<char>,
    path: Seq<Seq<char>>,
)
    requires
        sources.declares(owner),
    ensures
        sources.nested_in(owner, path) matches Some(found) ==> sources.declares(found),
    decreases path.len(),
{
    if path.len() > 0 && sources.declares(nested_name(owner, path[0])) {
        lemma_nested_is_declared(sources, nested_name(owner, path[0]), path.skip(1));
    }
}

/// A spelling is bound only to a classifier that the module or the platform declares: no identity is
/// made out of a spelling.
pub proof fn a_bound_spelling_is_declared(
    sources: ClassifierSources,
    scope: ImportScope,
    path: Seq<Seq<char>>,
)
    ensures
        sources.resolved(scope, path) matches Some(found) ==> sources.declares(found),
{
    if path.len() > 0 {
        let name = path[0];
        lemma_level_selects_declared(
            sources,
            seq![SymbolNamespaceView::Package(scope.own_package@)],
            name,
        );
        lemma_level_selects_declared(sources, views(scope.stars@), name);
        lemma_level_selects_declared(sources, packages(views(scope.kotlin_defaults@)), name);
        lemma_level_selects_declared(sources, packages(views(scope.platform_defaults@)), name);
        match sources.bound_name(scope, name) {
            ClassifierSelectionView::Selected(owner) => {
                lemma_nested_is_declared(sources, owner, path.skip(1));
            },
            _ => {},
        }
    }
}

/// A name that a file imports as two different things names nothing in it.
pub proof fn an_ambiguous_import_binds_nothing(
    sources: ClassifierSources,
    scope: ImportScope,
    path: Seq<Seq<char>>,
)
    requires
        path.len() > 0,
        imported_at(views(scope.names@), path[0]) matches Some(place) && views(
            scope.names@,
        )[place as int].target is None,
    ensures
        sources.resolved(scope, path) is None,
{
}

/// Two files with the same imports in the same package bind each spelling alike.
pub proof fn equal_scopes_bind_alike(
    sources: ClassifierSources,
    first: ImportScope,
    second: ImportScope,
    path: Seq<Seq<char>>,
)
    requires
        views(first.names@) == views(second.names@),
        first.own_package@ == second.own_package@,
        views(first.stars@) == views(second.stars@),
        views(first.kotlin_defaults@) == views(second.kotlin_defaults@),
        views(first.platform_defaults@) == views(second.platform_defaults@),
    ensures
        sources.resolved(first, path) == sources.resolved(second, path),
{
}

} // verus!
