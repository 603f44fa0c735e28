//! Which classifier a spelling names in a source file, before any signature is solved.
//!
//! A file sees what it imports by name, then level by level its own package, what it imports as a
//! whole, and the packages that every file imports.

use vstd::prelude::*;

use crate::libraries::{LibraryType, LibraryTypeView, TypeKind, Visibility};
use crate::model::{copy_all, deep_views, holds, Modelled};
use crate::names::{parent_of, qualified, TypeName};
use crate::symbols::{ResolvedSymbols, SymbolNamespace, SymbolNamespaceView};
use crate::text::{lemma_last_position, option_view, same_text, views};

verus! {

broadcast use crate::text::group_views;

/// Whether `outer` is the package or the classifier around a name, or one further out.
pub open spec fn encloses(outer: Seq<char>, name: Seq<char>) -> bool
    decreases name.len(),
    when true
    via parents_are_shorter
{
    if name.len() == 0 {
        false
    } else {
        parent_of(name) == outer || encloses(outer, parent_of(name))
    }
}

#[via_fn]
proof fn parents_are_shorter(outer: Seq<char>, name: Seq<char>) {
    lemma_last_position(name, '.');
    lemma_last_position(name, '/');
}

/// Whether `outer` is the package or the classifier around a name, or one further out.
pub fn is_around(outer: &TypeName, name: &TypeName) -> (yes: bool)
    ensures
        yes == encloses(outer@, name@),
{
    let mut current = name.duplicate();
    while current.text().unicode_len() > 0
        invariant
            encloses(outer@, current@) == encloses(outer@, name@),
        decreases current@.len(),
    {
        proof {
            lemma_last_position(current@, '.');
            lemma_last_position(current@, '/');
        }
        let parent = current.parent();
        if parent == *outer {
            return true;
        }
        current = parent;
    }
    false
}

/// The classifiers that a provider declares.
#[derive(Debug)]
pub struct DeclaredClassifiers {
    pub declarations: Vec<TypeName>,
}

impl DeclaredClassifiers {
    pub open spec fn declares(self, name: Seq<char>) -> bool {
        views(self.declarations@).contains(name)
    }

    /// Whether a declaration is inside the package.
    pub open spec fn has_package(self, package: Seq<char>) -> bool {
        exists|k: int|
            0 <= k < self.declarations@.len() && encloses(
                package,
                (#[trigger] self.declarations@[k])@,
            )
    }

    /// What a name of a namespace stands for: the header of the classifier where it is declared,
    /// and nothing else.
    pub fn symbols(&self, namespace: &SymbolNamespace, name: &str) -> (symbols: ResolvedSymbols)
        ensures
            if self.declares(namespace@.qualify(name@)) {
                &&& symbols@.classifier_name == Some(namespace@.qualify(name@))
                &&& symbols@.classifier == Some(header_shape())
                &&& symbols@.callables == crate::libraries::CallablesView::nothing()
                &&& symbols@.importable_declaration
            } else {
                symbols@ == crate::symbols::ResolvedSymbolsView::nothing()
            },
    {
        let candidate = namespace.qualify(name);
        if holds(&self.declarations, &candidate) {
            ResolvedSymbols {
                classifier_name: Some(candidate),
                classifier: Some(declaration_header()),
                callables: crate::libraries::Callables::nothing(),
                importable_declaration: true,
            }
        } else {
            ResolvedSymbols::nothing()
        }
    }

    /// Whether the package `name` of a package has a declaration.
    pub fn package_exists(&self, parent: &TypeName, name: &str) -> (yes: bool)
        ensures
            yes == self.has_package(SymbolNamespaceView::Package(parent@).qualify(name@)),
    {
        self.contains_package(&SymbolNamespace::Package(parent.duplicate()).qualify(name))
    }

    fn contains_package(&self, package: &TypeName) -> (yes: bool)
        ensures
            yes == self.has_package(package@),
    {
        let mut next: usize = 0;
        while next < self.declarations.len()
            invariant
                next <= self.declarations@.len(),
                forall|k: int|
                    0 <= k < next ==> !encloses(package@, (#[trigger] self.declarations@[k])@),
            decreases self.declarations@.len() - next,
        {
            if is_around(package, &self.declarations[next]) {
                return true;
            }
            next += 1;
        }
        false
    }
}

/// The shape of a classifier of which only the header is known.
pub open spec fn header_shape() -> LibraryTypeView {
    LibraryTypeView {
        is_kotlin: true,
        access: Visibility::Public,
        source_file: None,
        kind: TypeKind::Class,
        supertypes: seq![],
        type_params: seq![],
        type_param_bounds: seq![],
        constructors: seq![],
        members: seq![],
        companion: seq![],
        declared_callables: seq![],
        declared_callable_order: seq![],
        companion_object: None,
        value_underlying: None,
        alias_target: None,
        enum_entries: seq![],
        enum_entries_accessor: None,
    }
}

/// The shape of a classifier of which only the header is known.
pub fn declaration_header() -> (header: LibraryType)
    ensures
        header@ == header_shape(),
{
    let header = LibraryType {
        is_kotlin: true,
        access: Visibility::Public,
        source_file: None,
        kind: TypeKind::Class,
        supertypes: Vec::new(),
        type_params: Vec::new(),
        type_param_bounds: Vec::new(),
        constructors: Vec::new(),
        members: Vec::new(),
        companion: Vec::new(),
        declared_callables: Vec::new(),
        declared_callable_order: Vec::new(),
        companion_object: None,
        value_underlying: None,
        alias_target: None,
        enum_entries: Vec::new(),
        enum_entries_accessor: None,
    };
    assert(deep_views(header.type_param_bounds@) =~= seq![]);
    header
}

/// The classifiers of a module over those of its platform.
#[derive(Debug)]
pub struct ClassifierSources {
    pub module: DeclaredClassifiers,
    pub platform: DeclaredClassifiers,
}

impl ClassifierSources {
    pub open spec fn declares(self, name: Seq<char>) -> bool {
        self.module.declares(name) || self.platform.declares(name)
    }

    pub open spec fn has_package(self, package: Seq<char>) -> bool {
        self.module.has_package(package) || self.platform.has_package(package)
    }

    fn is_declared(&self, name: &TypeName) -> (yes: bool)
        ensures
            yes == self.declares(name@),
    {
        holds(&self.module.declarations, name) || holds(&self.platform.declarations, name)
    }

    fn contains_package(&self, package: &TypeName) -> (yes: bool)
        ensures
            yes == self.has_package(package@),
    {
        self.module.contains_package(package) || self.platform.contains_package(package)
    }

    /// What `segment` names inside a namespace: a package inside a package, else a classifier.
    pub open spec fn inside(self, namespace: SymbolNamespaceView, segment: Seq<char>) -> Option<
        SymbolNamespaceView,
    > {
        let name = namespace.qualify(segment);
        if namespace is Package && self.has_package(name) {
            Some(SymbolNamespaceView::Package(name))
        } else if self.declares(name) {
            Some(SymbolNamespaceView::Classifier(name))
        } else {
            None
        }
    }

    /// What a path names, from the root package on.
    pub open spec fn qualifier(self, path: Seq<Seq<char>>) -> Option<SymbolNamespaceView>
        decreases path.len(),
    {
        if path.len() == 0 {
            Some(SymbolNamespaceView::Package(seq![]))
        } else {
            match self.qualifier(path.drop_last()) {
                Some(namespace) => self.inside(namespace, path.last()),
                None => None,
            }
        }
    }

    /// What the first `count` segments of a path name, from the root package on.
    pub fn qualifier_path(&self, path: &Vec<String>, count: usize) -> (found: Option<
        SymbolNamespace,
    >)
        requires
            count <= path@.len(),
        ensures
            option_view(found) == self.qualifier(views(path@).take(count as int)),
    {
        let mut current = SymbolNamespace::Package(TypeName::root());
        let mut next: usize = 0;
        assert(views(path@).take(0) =~= seq![]);
        assert(current@ == SymbolNamespaceView::Package(seq![]));
        while next < count
            invariant
                next <= count <= path@.len(),
                self.qualifier(views(path@).take(next as int)) == Some(current@),
            decreases count - next,
        {
            let ghost grown = views(path@).take(next as int + 1);
            assert(grown.drop_last() =~= views(path@).take(next as int));
            assert(grown.last() == path@[next as int]@);
            let name = current.qualify(path[next].as_str());
            let in_package = matches!(current, SymbolNamespace::Package(_));
            if in_package && self.contains_package(&name) {
                current = SymbolNamespace::Package(name);
            } else if self.is_declared(&name) {
                current = SymbolNamespace::Classifier(name);
            } else {
                proof {
                    self.lemma_broken_path(views(path@), next as int + 1, count as int);
                }
                return None;
            }
            next += 1;
        }
        Some(current)
    }

    proof fn lemma_broken_path(self, path: Seq<Seq<char>>, seen: int, count: int)
        requires
            0 <= seen <= count <= path.len(),
            self.qualifier(path.take(seen)) is None,
        ensures
            self.qualifier(path.take(count)) is None,
        decreases count - seen,
    {
        if seen < count {
            assert(path.take(seen + 1).drop_last() =~= path.take(seen));
            self.lemma_broken_path(path, seen + 1, count);
        }
    }
}

/// One import of a source file.
#[derive(Debug)]
pub struct SourceImport {
    pub path: Vec<String>,
    /// The name that the file uses for it.
    pub visible_name: String,
    /// Whether everything inside the path is imported.
    pub wildcard: bool,
}

/// What a name is imported as: a declaration of a namespace.
#[derive(Debug)]
pub struct ImportTarget {
    pub owner: SymbolNamespace,
    pub declared_name: String,
}

/// The model of an [`ImportTarget`].
pub struct ImportTargetView {
    pub owner: SymbolNamespaceView,
    pub declared_name: Seq<char>,
}

impl View for ImportTarget {
    type V = ImportTargetView;

    open spec fn view(&self) -> ImportTargetView {
        ImportTargetView { owner: self.owner@, declared_name: self.declared_name@ }
    }
}

impl Modelled for ImportTarget {
    fn duplicate(&self) -> (copy: Self) {
        ImportTarget {
            owner: self.owner.duplicate(),
            declared_name: self.declared_name.duplicate(),
        }
    }

    fn same(&self, other: &Self) -> (same: bool) {
        self.owner.same(&other.owner) && self.declared_name.same(&other.declared_name)
    }
}

/// A name that is imported. One that is imported as two different things has no target.
#[derive(Debug)]
pub struct ImportedName {
    pub name: String,
    pub target: Option<ImportTarget>,
}

/// The model of an [`ImportedName`].
pub struct ImportedNameView {
    pub name: Seq<char>,
    pub target: Option<ImportTargetView>,
}

impl View for ImportedName {
    type V = ImportedNameView;

    open spec fn view(&self) -> ImportedNameView {
        ImportedNameView { name: self.name@, target: option_view(self.target) }
    }
}

/// Where a name stands among the imported ones.
pub open spec fn imported_at(names: Seq<ImportedNameView>, name: Seq<char>) -> Option<nat>
    decreases names.len(),
{
    if names.len() == 0 {
        None
    } else {
        match imported_at(names.drop_last(), name) {
            Some(place) => Some(place),
            None => if names.last().name == name {
                Some((names.len() - 1) as nat)
            } else {
                None
            },
        }
    }
}

/// The imported names with one more import. A second import of a name must agree with the first.
pub open spec fn with_import(
    names: Seq<ImportedNameView>,
    name: Seq<char>,
    target: ImportTargetView,
) -> Seq<ImportedNameView> {
    match imported_at(names, name) {
        None => names.push(ImportedNameView { name, target: Some(target) }),
        Some(place) => if names[place as int].target == Some(target) {
            names
        } else {
            names.update(place as int, ImportedNameView { name, target: None })
        },
    }
}

proof fn lemma_imported_at(names: Seq<ImportedNameView>, name: Seq<char>)
    ensures
        imported_at(names, name) matches Some(place) ==> place < names.len()
            && names[place as int].name == name,
    decreases names.len(),
{
    if names.len() > 0 {
        lemma_imported_at(names.drop_last(), name);
    }
}

proof fn lemma_imported_at_stays(names: Seq<ImportedNameView>, name: Seq<char>, seen: int)
    requires
        0 <= seen <= names.len(),
        imported_at(names.take(seen), name) is Some,
    ensures
        imported_at(names, name) == imported_at(names.take(seen), name),
    decreases names.len() - seen,
{
    if seen < names.len() {
        assert(names.take(seen + 1).drop_last() =~= names.take(seen));
        lemma_imported_at_stays(names, name, seen + 1);
    } else {
        assert(names.take(seen) =~= names);
    }
}

/// Where a name stands among the imported ones.
pub fn find_imported(names: &Vec<ImportedName>, name: &str) -> (place: Option<usize>)
    ensures
        imported_at(views(names@), name@) == match place {
            Some(place) => Some(place as nat),
            None => None,
        },
        place matches Some(found) ==> found < names@.len() && names@[found as int].name@ == name@,
{
    let mut next: usize = 0;
    assert(views(names@).take(0) =~= seq![]);
    while next < names.len()
        invariant
            next <= names@.len(),
            imported_at(views(names@).take(next as int), name@) is None,
        decreases names@.len() - next,
    {
        let ghost grown = views(names@).take(next as int + 1);
        assert(grown.drop_last() =~= views(names@).take(next as int));
        assert(grown.last() == names@[next as int]@);
        if same_text(names[next].name.as_str(), name) {
            proof {
                lemma_imported_at_stays(views(names@), name@, next as int + 1);
            }
            return Some(next);
        }
        next += 1;
    }
    assert(views(names@).take(next as int) =~= views(names@));
    None
}

fn add_import(names: &mut Vec<ImportedName>, name: &str, target: ImportTarget)
    ensures
        views(final(names)@) == with_import(views(old(names)@), name@, target@),
{
    let ghost before = views(names@);
    match find_imported(names, name) {
        None => {
            names.push(ImportedName { name: name.to_owned(), target: Some(target) });
        },
        Some(place) => {
            let agrees = match &names[place].target {
                Some(known) => known.same(&target),
                None => false,
            };
            if !agrees {
                names.set(place, ImportedName { name: name.to_owned(), target: None });
                assert(views(names@) =~= before.update(
                    place as int,
                    ImportedNameView { name: name@, target: None },
                ));
            }
        },
    }
}

/// The namespaces with one more, where it is not among them.
pub open spec fn with_namespace(
    namespaces: Seq<SymbolNamespaceView>,
    namespace: SymbolNamespaceView,
) -> Seq<SymbolNamespaceView> {
    if namespaces.contains(namespace) {
        namespaces
    } else {
        namespaces.push(namespace)
    }
}

/// What the imports of a file come to.
pub struct ImportsView {
    pub names: Seq<ImportedNameView>,
    pub stars: Seq<SymbolNamespaceView>,
}

impl ClassifierSources {
    /// What the imports of a file come to with one more import. A path that names nothing makes the
    /// imports of the file unusable.
    pub open spec fn after_import(self, imports: ImportsView, import: SourceImport) -> Option<
        ImportsView,
    > {
        let path = views(import.path@);
        if import.wildcard {
            match self.qualifier(path) {
                Some(namespace) => Some(
                    ImportsView { stars: with_namespace(imports.stars, namespace), ..imports },
                ),
                None => None,
            }
        } else if path.len() == 0 {
            None
        } else {
            match self.qualifier(path.drop_last()) {
                Some(owner) => Some(
                    ImportsView {
                        names: with_import(
                            imports.names,
                            import.visible_name@,
                            ImportTargetView { owner, declared_name: path.last() },
                        ),
                        ..imports
                    },
                ),
                None => None,
            }
        }
    }

    /// What the imports of a file come to.
    pub open spec fn imports(self, imports: Seq<SourceImport>) -> Option<ImportsView>
        decreases imports.len(),
    {
        if imports.len() == 0 {
            Some(ImportsView { names: seq![], stars: seq![] })
        } else {
            match self.imports(imports.drop_last()) {
                Some(earlier) => self.after_import(earlier, imports.last()),
                None => None,
            }
        }
    }
}

/// What a file sees: the names it imports, then the namespaces level by level.
#[derive(Debug)]
pub struct ImportScope {
    pub names: Vec<ImportedName>,
    pub own_package: TypeName,
    pub stars: Vec<SymbolNamespace>,
    pub kotlin_defaults: Vec<TypeName>,
    pub platform_defaults: Vec<TypeName>,
}

/// The packages as namespaces.
pub open spec fn packages(names: Seq<Seq<char>>) -> Seq<SymbolNamespaceView> {
    Seq::new(names.len(), |k: int| SymbolNamespaceView::Package(names[k]))
}

/// The packages that every Kotlin file imports.
pub open spec fn kotlin_default_names() -> Seq<Seq<char>> {
    seq![
        "kotlin"@,
        "kotlin/annotation"@,
        "kotlin/collections"@,
        "kotlin/comparisons"@,
        "kotlin/io"@,
        "kotlin/ranges"@,
        "kotlin/sequences"@,
        "kotlin/text"@,
    ]
}

/// The packages that every Kotlin file imports.
pub fn kotlin_default_packages() -> (names: Vec<TypeName>)
    ensures
        views(names@) == kotlin_default_names(),
{
    let mut names: Vec<TypeName> = Vec::new();
    names.push(qualified("kotlin"));
    names.push(qualified("kotlin/annotation"));
    names.push(qualified("kotlin/collections"));
    names.push(qualified("kotlin/comparisons"));
    names.push(qualified("kotlin/io"));
    names.push(qualified("kotlin/ranges"));
    names.push(qualified("kotlin/sequences"));
    names.push(qualified("kotlin/text"));
    assert(views(names@) =~= kotlin_default_names());
    names
}

/// Whether `scope` is what a file of the package `package` with the imports `imports` sees.
pub open spec fn sees(
    scope: ImportScope,
    package: Seq<char>,
    imports: ImportsView,
    platform_defaults: Seq<Seq<char>>,
) -> bool {
    &&& views(scope.names@) == imports.names
    &&& scope.own_package@ == package
    &&& views(scope.stars@) == imports.stars
    &&& views(scope.kotlin_defaults@) == kotlin_default_names()
    &&& views(scope.platform_defaults@) == platform_defaults
}

impl ClassifierSources {
    /// What a file of the package `package` sees, where its imports can be used.
    pub fn import_scope(
        &self,
        package: &TypeName,
        imports: &Vec<SourceImport>,
        platform_defaults: &Vec<TypeName>,
    ) -> (scope: Option<ImportScope>)
        ensures
            match self.imports(imports@) {
                Some(shown) => scope matches Some(found) && sees(
                    found,
                    package@,
                    shown,
                    views(platform_defaults@),
                ),
                None => scope is None,
            },
    {
        let mut names: Vec<ImportedName> = Vec::new();
        let mut stars: Vec<SymbolNamespace> = Vec::new();
        let mut next: usize = 0;
        assert(imports@.take(0) =~= seq![]);
        assert(views(names@) =~= seq![]);
        assert(views(stars@) =~= seq![]);
        while next < imports.len()
            invariant
                next <= imports@.len(),
                self.imports(imports@.take(next as int)) == Some(
                    ImportsView { names: views(names@), stars: views(stars@) },
                ),
            decreases imports@.len() - next,
        {
            let import = &imports[next];
            assert(imports@.take(next as int + 1).drop_last() =~= imports@.take(next as int));
            let ghost path = views(import.path@);
            let length: usize = import.path.len();
            if import.wildcard {
                assert(path.take(length as int) =~= path);
                match self.qualifier_path(&import.path, length) {
                    Some(namespace) => {
                        if !holds(&stars, &namespace) {
                            stars.push(namespace);
                        }
                    },
                    None => {
                        proof {
                            self.lemma_unusable(imports@, next as int + 1);
                        }
                        return None;
                    },
                }
            } else {
                if length == 0 {
                    proof {
                        self.lemma_unusable(imports@, next as int + 1);
                    }
                    return None;
                }
                assert(path.take(length as int - 1) =~= path.drop_last());
                match self.qualifier_path(&import.path, length - 1) {
                    Some(owner) => {
                        let declared_name = import.path[length - 1].clone();
                        add_import(
                            &mut names,
                            import.visible_name.as_str(),
                            ImportTarget { owner, declared_name },
                        );
                    },
                    None => {
                        proof {
                            self.lemma_unusable(imports@, next as int + 1);
                        }
                        return None;
                    },
                }
            }
            next += 1;
        }
        assert(imports@.take(next as int) =~= imports@);
        Some(
            ImportScope {
                names,
                own_package: package.duplicate(),
                stars,
                kotlin_defaults: kotlin_default_packages(),
                platform_defaults: copy_all(platform_defaults),
            },
        )
    }

    proof fn lemma_unusable(self, imports: Seq<SourceImport>, seen: int)
        requires
            0 <= seen <= imports.len(),
            self.imports(imports.take(seen)) is None,
        ensures
            self.imports(imports) is None,
        decreases imports.len() - seen,
    {
        if seen < imports.len() {
            assert(imports.take(seen + 1).drop_last() =~= imports.take(seen));
            self.lemma_unusable(imports, seen + 1);
        } else {
            assert(imports.take(seen) =~= imports);
        }
    }
}

} // verus!
