//! The declarations of the source as the checker reads them.

use vstd::prelude::*;

use crate::fir::{ContractId, DeclarationId, VisibilitySuppression};
use crate::libraries::LibConst;
use crate::names::TypeName;
use crate::text::{same_text, views};
use crate::types::{Ty, TyView};

verus! {

/// Where a declaration comes from.
#[derive(Clone, Copy, Debug, PartialEq, Eq, Structural)]
pub struct Origin {
    pub stable_declaration: Option<DeclarationId>,
    pub source_file: Option<u32>,
    pub source_decl: Option<u32>,
    /// The member of a class that it is.
    pub source_member: Option<u32>,
}

/// Something that was declared.
pub trait Declared: Sized {
    /// Where it comes from.
    spec fn declared_at(self) -> Origin;

    fn origin(&self) -> (origin: Origin)
        ensures
            origin == self.declared_at(),
    ;
}

/// The signature of a function.
#[derive(Debug)]
pub struct Signature {
    pub origin: Origin,
    pub params: Vec<Ty>,
    pub ret: Ty,
    pub contract: Option<ContractId>,
}

/// A property outside of classes.
#[derive(Debug)]
pub struct SourceProperty {
    pub origin: Origin,
    pub name: String,
    pub ty: Ty,
    /// The type of the stored value, where it is not that of the property.
    pub storage_ty: Option<Ty>,
    pub context_params: Vec<Ty>,
    pub compile_time_constant: Option<LibConst>,
}

/// An extension property.
#[derive(Debug)]
pub struct ExtensionProperty {
    pub origin: Origin,
    pub receiver: Ty,
    pub ty: Ty,
    pub context_params: Vec<Ty>,
}

/// A property of a class.
#[derive(Debug)]
pub struct MemberProperty {
    pub origin: Origin,
    pub name: String,
    pub ty: Ty,
    pub storage_ty: Option<Ty>,
}

/// A class.
#[derive(Debug)]
pub struct ClassSig {
    pub origin: Origin,
    pub internal: TypeName,
    pub is_object: bool,
    pub type_params: Vec<String>,
    pub super_internal: Option<TypeName>,
    pub super_type_args: Vec<Ty>,
    pub interfaces: Vec<TypeName>,
    pub interface_type_args: Vec<Vec<Ty>>,
    /// The first of the function types that the class implements.
    pub callable_signature: Option<Ty>,
    pub callable_signatures: Vec<Ty>,
    pub source_methods: Vec<Signature>,
    pub methods: Vec<Signature>,
    pub member_ext_funs: Vec<Signature>,
    pub declared_props: Vec<MemberProperty>,
    pub contextual_props: Vec<MemberProperty>,
    pub member_ext_props: Vec<ExtensionProperty>,
    /// The types of the properties that hold a type parameter, by name.
    pub generic_property_shapes: Vec<(String, Ty)>,
    /// The type of the stored value of properties, by name.
    pub props: Vec<(String, Ty)>,
    pub constants: Vec<(String, LibConst)>,
}

impl Declared for Signature {
    open spec fn declared_at(self) -> Origin {
        self.origin
    }

    fn origin(&self) -> (origin: Origin) {
        self.origin
    }
}

impl Declared for SourceProperty {
    open spec fn declared_at(self) -> Origin {
        self.origin
    }

    fn origin(&self) -> (origin: Origin) {
        self.origin
    }
}

impl Declared for ExtensionProperty {
    open spec fn declared_at(self) -> Origin {
        self.origin
    }

    fn origin(&self) -> (origin: Origin) {
        self.origin
    }
}

impl Declared for MemberProperty {
    open spec fn declared_at(self) -> Origin {
        self.origin
    }

    fn origin(&self) -> (origin: Origin) {
        self.origin
    }
}

impl Declared for ClassSig {
    open spec fn declared_at(self) -> Origin {
        self.origin
    }

    fn origin(&self) -> (origin: Origin) {
        self.origin
    }
}

/// The declarations of the source.
#[derive(Debug)]
pub struct SourceTable {
    pub funs: Vec<Signature>,
    pub ext_funs: Vec<Signature>,
    pub source_props: Vec<SourceProperty>,
    pub ext_props: Vec<ExtensionProperty>,
    pub classes: Vec<ClassSig>,
    /// The types of the properties outside of classes, by name.
    pub props: Vec<(String, Ty)>,
    /// The classifiers of anonymous objects.
    pub anonymous_object_types: Vec<TypeName>,
    /// How declarations are spelled, by file and declaration.
    pub declared_spellings: Vec<((u32, u32), String)>,
    /// How members are spelled.
    pub member_spellings: Vec<(u32, String)>,
    /// How declarations are spelled, by stable identity; the last spelling of one counts.
    pub stable_declared_spellings: Vec<(DeclarationId, String)>,
    /// The spelling in the source of the type parameters whose identity is another name.
    pub parameter_spellings: Vec<(String, String)>,
    pub visibility_suppressions: Vec<(DeclarationId, VisibilitySuppression)>,
    /// Whether the symbols that are derived from the declarations are kept.
    pub derived_symbols_kept: bool,
}

/// The spelling of the declaration `place`.
pub open spec fn spelling_of<K>(spellings: Seq<(K, String)>, place: K) -> Option<Seq<char>>
    decreases spellings.len(),
{
    if spellings.len() == 0 {
        None
    } else if spellings[0].0 == place {
        Some(spellings[0].1@)
    } else {
        spelling_of(spellings.skip(1), place)
    }
}

pub fn spelled(spellings: &Vec<((u32, u32), String)>, place: (u32, u32)) -> (found: Option<&String>)
    ensures
        spelling_of(spellings@, place) == match found {
            Some(spelling) => Some(spelling@),
            None => None,
        },
{
    let mut index: usize = 0;
    assert(spellings@.skip(0) =~= spellings@);
    while index < spellings.len()
        invariant
            index <= spellings@.len(),
            spelling_of(spellings@.skip(index as int), place) == spelling_of(spellings@, place),
        decreases spellings@.len() - index,
    {
        assert(spellings@.skip(index as int).skip(1) =~= spellings@.skip(index as int + 1));
        if spellings[index].0.0 == place.0 && spellings[index].0.1 == place.1 {
            return Some(&spellings[index].1);
        }
        index += 1;
    }
    None
}

pub fn member_spelled(spellings: &Vec<(u32, String)>, place: u32) -> (found: Option<&String>)
    ensures
        spelling_of(spellings@, place) == match found {
            Some(spelling) => Some(spelling@),
            None => None,
        },
{
    let mut index: usize = 0;
    assert(spellings@.skip(0) =~= spellings@);
    while index < spellings.len()
        invariant
            index <= spellings@.len(),
            spelling_of(spellings@.skip(index as int), place) == spelling_of(spellings@, place),
        decreases spellings@.len() - index,
    {
        assert(spellings@.skip(index as int).skip(1) =~= spellings@.skip(index as int + 1));
        if spellings[index].0 == place {
            return Some(&spellings[index].1);
        }
        index += 1;
    }
    None
}

/// The spelling in the source of the type parameter `name`.
pub open spec fn parameter_source(spellings: Seq<(String, String)>, name: Seq<char>) -> Seq<char>
    decreases spellings.len(),
{
    if spellings.len() == 0 {
        name
    } else if spellings[0].0@ == name {
        spellings[0].1@
    } else {
        parameter_source(spellings.skip(1), name)
    }
}

pub fn type_parameter_source_name<'a>(spellings: &'a Vec<(String, String)>, name: &'a str) -> (
source: &'a str)
    ensures
        source@ == parameter_source(spellings@, name@),
{
    let mut index: usize = 0;
    assert(spellings@.skip(0) =~= spellings@);
    while index < spellings.len()
        invariant
            index <= spellings@.len(),
            parameter_source(spellings@.skip(index as int), name@) == parameter_source(
                spellings@,
                name@,
            ),
        decreases spellings@.len() - index,
    {
        assert(spellings@.skip(index as int).skip(1) =~= spellings@.skip(index as int + 1));
        if same_text(spellings[index].0.as_str(), name) {
            return spellings[index].1.as_str();
        }
        index += 1;
    }
    name
}

/// The position of the first entry called `name`.
pub open spec fn entry_named(entries: Seq<(Seq<char>, TyView)>, name: Seq<char>) -> Option<int>
    decreases entries.len(),
{
    if entries.len() == 0 {
        None
    } else {
        match entry_named(entries.drop_last(), name) {
            Some(place) => Some(place),
            None => if entries.last().0 == name {
                Some(entries.len() - 1)
            } else {
                None
            },
        }
    }
}

/// The entries with the type of the first one called `name` replaced.
pub open spec fn retyped(
    entries: Seq<(Seq<char>, TyView)>,
    name: Seq<char>,
    ty: TyView,
) -> Seq<(Seq<char>, TyView)> {
    match entry_named(entries, name) {
        Some(place) => entries.update(place, (entries[place].0, ty)),
        None => entries,
    }
}

proof fn lemma_entry_stays(entries: Seq<(Seq<char>, TyView)>, seen: int, name: Seq<char>)
    requires
        0 <= seen <= entries.len(),
        entry_named(entries.take(seen), name) is Some,
    ensures
        entry_named(entries, name) == entry_named(entries.take(seen), name),
    decreases entries.len() - seen,
{
    if seen < entries.len() {
        assert(entries.take(seen + 1).drop_last() =~= entries.take(seen));
        lemma_entry_stays(entries, seen + 1, name);
    } else {
        assert(entries.take(seen) =~= entries);
    }
}

/// Replace the type of the first entry called `name`.
pub fn retype(entries: &mut Vec<(String, Ty)>, name: &str, ty: &Ty)
    ensures
        views(final(entries)@) == retyped(views(old(entries)@), name@, ty@),
{
    let ghost shown = views(entries@);
    let mut index: usize = 0;
    while index < entries.len()
        invariant
            index <= entries@.len(),
            *entries == *old(entries),
            shown == views(entries@),
            entry_named(shown.take(index as int), name@) is None,
        decreases entries@.len() - index,
    {
        assert(shown.take(index as int + 1).drop_last() =~= shown.take(index as int));
        if same_text(entries[index].0.as_str(), name) {
            proof {
                lemma_entry_stays(shown, index as int + 1, name@);
            }
            let name = entries[index].0.clone();
            entries.set(index, (name, ty.clone()));
            assert(views(entries@) =~= shown.update(index as int, (shown[index as int].0, ty@)));
            return;
        }
        index += 1;
    }
    assert(shown.take(index as int) =~= shown);
}

/// The entries that are not called `name`.
pub open spec fn without(entries: Seq<(Seq<char>, TyView)>, name: Seq<char>) -> Seq<
    (Seq<char>, TyView),
>
    decreases entries.len(),
{
    if entries.len() == 0 {
        entries
    } else {
        let rest = without(entries.drop_last(), name);
        if entries.last().0 == name {
            rest
        } else {
            rest.push(entries.last())
        }
    }
}

/// The entries that are not called `name`.
pub fn entries_without(entries: &Vec<(String, Ty)>, name: &str) -> (kept: Vec<(String, Ty)>)
    ensures
        views(kept@) == without(views(entries@), name@),
{
    let ghost shown = views(entries@);
    let mut kept: Vec<(String, Ty)> = Vec::new();
    let mut index: usize = 0;
    assert(views(kept@) =~= without(shown.take(0), name@));
    while index < entries.len()
        invariant
            index <= entries@.len(),
            shown == views(entries@),
            views(kept@) == without(shown.take(index as int), name@),
        decreases entries@.len() - index,
    {
        assert(shown.take(index as int + 1).drop_last() =~= shown.take(index as int));
        if !same_text(entries[index].0.as_str(), name) {
            let ghost before = kept@;
            kept.push((entries[index].0.clone(), entries[index].1.clone()));
            assert(views(kept@) =~= views(before).push(shown[index as int]));
        }
        index += 1;
    }
    assert(shown.take(index as int) =~= shown);
    kept
}

} // verus!
