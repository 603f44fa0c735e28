//! Symbol records and the providers that answer for them.

use vstd::prelude::*;

use crate::libraries::{Callables, CallablesView, LibraryType, LibraryTypeView};
use crate::model::{copy_optional, holds, same_optional, Modelled};
use crate::names::{nested_name, TypeName};
use crate::text::{option_view, views};

verus! {

broadcast use crate::text::group_views;

/// Everything that one name of a namespace stands for.
#[derive(Debug)]
pub struct ResolvedSymbols {
    pub classifier_name: Option<TypeName>,
    pub classifier: Option<LibraryType>,
    pub callables: Callables,
    pub importable_declaration: bool,
}

/// The model of a [`ResolvedSymbols`].
pub struct ResolvedSymbolsView {
    pub classifier_name: Option<Seq<char>>,
    pub classifier: Option<LibraryTypeView>,
    pub callables: CallablesView,
    pub importable_declaration: bool,
}

impl View for ResolvedSymbols {
    type V = ResolvedSymbolsView;

    open spec fn view(&self) -> ResolvedSymbolsView {
        ResolvedSymbolsView {
            classifier_name: option_view(self.classifier_name),
            classifier: option_view(self.classifier),
            callables: self.callables@,
            importable_declaration: self.importable_declaration,
        }
    }
}

impl Modelled for ResolvedSymbols {
    fn duplicate(&self) -> (copy: Self) {
        ResolvedSymbols {
            classifier_name: copy_optional(&self.classifier_name),
            classifier: copy_optional(&self.classifier),
            callables: self.callables.duplicate(),
            importable_declaration: self.importable_declaration,
        }
    }

    fn same(&self, other: &Self) -> (same: bool) {
        same_optional(&self.classifier_name, &other.classifier_name)
            && same_optional(&self.classifier, &other.classifier)
            && self.callables.same(&other.callables)
            && self.importable_declaration == other.importable_declaration
    }
}

impl ResolvedSymbolsView {
    /// The record of a name that stands for nothing.
    pub open spec fn nothing() -> ResolvedSymbolsView {
        ResolvedSymbolsView {
            classifier_name: None,
            classifier: None,
            callables: CallablesView::nothing(),
            importable_declaration: false,
        }
    }

    /// Whether the name stands for no classifier and no callable.
    pub open spec fn is_empty(self) -> bool {
        self.classifier_name is None && self.classifier is None
            && self.callables.functions.overloads.len() == 0
            && self.callables.properties.overloads.len() == 0
    }
}

impl ResolvedSymbols {
    /// The record of a name that stands for nothing.
    pub fn nothing() -> (symbols: ResolvedSymbols)
        ensures
            symbols@ == ResolvedSymbolsView::nothing(),
    {
        ResolvedSymbols {
            classifier_name: None,
            classifier: None,
            callables: Callables::nothing(),
            importable_declaration: false,
        }
    }

    /// Whether the name stands for no classifier and no callable.
    pub fn is_empty(&self) -> (empty: bool)
        ensures
            empty == self@.is_empty(),
    {
        self.classifier_name.is_none() && self.classifier.is_none()
            && self.callables.functions.overloads.len() == 0
            && self.callables.properties.overloads.len() == 0
    }
}

/// Where a name is looked up.
#[derive(Debug)]
pub enum SymbolNamespace {
    Package(TypeName),
    Classifier(TypeName),
}

/// The model of a [`SymbolNamespace`].
pub enum SymbolNamespaceView {
    Package(Seq<char>),
    Classifier(Seq<char>),
}

impl View for SymbolNamespace {
    type V = SymbolNamespaceView;

    open spec fn view(&self) -> SymbolNamespaceView {
        match self {
            SymbolNamespace::Package(name) => SymbolNamespaceView::Package(name@),
            SymbolNamespace::Classifier(name) => SymbolNamespaceView::Classifier(name@),
        }
    }
}

impl Modelled for SymbolNamespace {
    fn duplicate(&self) -> (copy: Self) {
        match self {
            SymbolNamespace::Package(name) => SymbolNamespace::Package(name.duplicate()),
            SymbolNamespace::Classifier(name) => SymbolNamespace::Classifier(name.duplicate()),
        }
    }

    fn same(&self, other: &Self) -> (same: bool) {
        match (self, other) {
            (SymbolNamespace::Package(left), SymbolNamespace::Package(right)) => left.same(right),
            (SymbolNamespace::Classifier(left), SymbolNamespace::Classifier(right)) => {
                left.same(right)
            },
            _ => false,
        }
    }
}

impl SymbolNamespaceView {
    /// The qualified name of `name` in the namespace.
    pub open spec fn qualify(self, name: Seq<char>) -> Seq<char> {
        match self {
            SymbolNamespaceView::Package(package) => if package.len() == 0 {
                name
            } else {
                package + "/"@ + name
            },
            SymbolNamespaceView::Classifier(owner) => nested_name(owner, name),
        }
    }
}

impl SymbolNamespace {
    /// The qualified name of `name` in the namespace.
    pub fn qualify(&self, name: &str) -> (qualified_name: TypeName)
        ensures
            qualified_name@ == self@.qualify(name@),
    {
        match self {
            SymbolNamespace::Package(package) => package.package_child(name),
            SymbolNamespace::Classifier(owner) => owner.nested_child(name),
        }
    }
}

/// The record that a provider keeps for one qualified name.
#[derive(Debug)]
pub struct SymbolEntry {
    pub name: TypeName,
    pub symbols: ResolvedSymbols,
}

/// The symbols of one side of a compilation.
#[derive(Debug)]
pub struct SymbolTable {
    pub entries: Vec<SymbolEntry>,
    /// The packages that the side knows.
    pub packages: Vec<TypeName>,
}

/// The record in the first entry for `name`.
pub open spec fn first_record(entries: Seq<SymbolEntry>, name: Seq<char>) -> Option<ResolvedSymbolsView>
    decreases entries.len(),
{
    if entries.len() == 0 {
        None
    } else if entries[0].name@ == name {
        Some(entries[0].symbols@)
    } else {
        first_record(entries.skip(1), name)
    }
}

impl SymbolTable {
    /// The record for a qualified name, that of nothing where there is none.
    pub open spec fn record(&self, name: Seq<char>) -> ResolvedSymbolsView {
        match first_record(self.entries@, name) {
            Some(found) => found,
            None => ResolvedSymbolsView::nothing(),
        }
    }

    /// The classifier with a qualified name.
    pub open spec fn classifier_of(&self, name: Seq<char>) -> Option<LibraryTypeView> {
        self.record(name).classifier
    }

    /// Whether the side knows a package.
    pub open spec fn has_package(&self, package: Seq<char>) -> bool {
        views(self.packages@).contains(package)
    }

    /// A table without symbols.
    pub fn new() -> (table: SymbolTable)
        ensures
            table.entries@ == Seq::<SymbolEntry>::empty(),
            table.packages@ == Seq::<TypeName>::empty(),
            forall|name: Seq<char>| #[trigger] table.record(name) == ResolvedSymbolsView::nothing(),
    {
        SymbolTable { entries: Vec::new(), packages: Vec::new() }
    }

    fn find(&self, name: &TypeName) -> (found: Option<&SymbolEntry>)
        ensures
            match found {
                Some(entry) => first_record(self.entries@, name@) == Some(entry.symbols@),
                None => first_record(self.entries@, name@) is None,
            },
    {
        let mut index: usize = 0;
        assert(self.entries@.skip(0) =~= self.entries@);
        while index < self.entries.len()
            invariant
                index <= self.entries@.len(),
                first_record(self.entries@, name@) == first_record(
                    self.entries@.skip(index as int),
                    name@,
                ),
            decreases self.entries@.len() - index,
        {
            if self.entries[index].name == *name {
                return Some(&self.entries[index]);
            }
            assert(self.entries@.skip(index as int).skip(1) =~= self.entries@.skip(
                index as int + 1,
            ));
            index += 1;
        }
        None
    }

    /// Whether the package `name` of a package is known.
    pub fn package_exists(&self, parent: &TypeName, name: &str) -> (yes: bool)
        ensures
            yes == self.has_package(SymbolNamespaceView::Package(parent@).qualify(name@)),
    {
        holds(&self.packages, &parent.package_child(name))
    }

    /// The record for a qualified name.
    pub fn symbols(&self, name: &TypeName) -> (symbols: ResolvedSymbols)
        ensures
            symbols@ == self.record(name@),
    {
        match self.find(name) {
            Some(entry) => entry.symbols.duplicate(),
            None => ResolvedSymbols::nothing(),
        }
    }

    /// The classifier with a qualified name.
    pub fn classifier(&self, name: &TypeName) -> (classifier: Option<&LibraryType>)
        ensures
            match classifier {
                Some(shape) => self.classifier_of(name@) == Some(shape@),
                None => self.classifier_of(name@) is None,
            },
    {
        match self.find(name) {
            Some(entry) => entry.symbols.classifier.as_ref(),
            None => None,
        }
    }
}

} // verus!
