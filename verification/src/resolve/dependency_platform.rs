//! The compiled platform and the dependency sources, seen as one symbol source.

use std::rc::Rc;

use vstd::prelude::*;

use crate::libraries::{
    Callables, CallablesView, FunctionInfo, FunctionInfoView, FunctionSet, FunctionSetView,
    LibraryCallable, LibraryCallableView, LibraryMember, LibraryMemberView, LibraryType,
    LibraryTypeView, NamedCallables, NamedCallablesView, PropKind, PropertyInfo, PropertyInfoView,
    PropertySet, PropertySetView, Visibility,
};
use crate::model::{copy_optional, holds, same_optional, Modelled};
use crate::names::{nested_owner_of, TypeName};
use crate::symbols::{
    ResolvedSymbols, ResolvedSymbolsView, SymbolNamespace, SymbolNamespaceView, SymbolTable,
};
use crate::text::{copy_names, lemma_last_position, option_view, same_text, views};
use crate::types::{Ty, TyView};

verus! {

broadcast use {crate::text::group_views, crate::types::group_ty_views};

/// A type and the form that compiled declarations spell it with.
#[derive(Debug)]
pub struct ValueForm {
    pub ty: Ty,
    pub form: Ty,
}

/// A source type alias.
#[derive(Debug)]
pub struct AliasExpansion {
    pub identity: TypeName,
    pub formals: Vec<String>,
    pub expansion: Ty,
    /// How the source spells the expansion; empty where that is not known.
    pub expansion_spelling: String,
}

/// A type alias with the classifier that it stands for.
#[derive(Debug)]
pub struct ExpandedAlias {
    pub target: TypeName,
    pub alias: AliasExpansion,
}

pub struct AliasExpansionView {
    pub identity: Seq<char>,
    pub formals: Seq<Seq<char>>,
    pub expansion: TyView,
    pub expansion_spelling: Seq<char>,
}

impl View for AliasExpansion {
    type V = AliasExpansionView;

    open spec fn view(&self) -> AliasExpansionView {
        AliasExpansionView {
            identity: self.identity@,
            formals: views(self.formals@),
            expansion: self.expansion@,
            expansion_spelling: self.expansion_spelling@,
        }
    }
}

pub struct ExpandedAliasView {
    pub target: Seq<char>,
    pub alias: AliasExpansionView,
}

impl View for ExpandedAlias {
    type V = ExpandedAliasView;

    open spec fn view(&self) -> ExpandedAliasView {
        ExpandedAliasView { target: self.target@, alias: self.alias@ }
    }
}

impl AliasExpansion {
    fn duplicate(&self) -> (copy: AliasExpansion)
        ensures
            copy@ == self@,
    {
        AliasExpansion {
            identity: self.identity.clone(),
            formals: copy_names(&self.formals),
            expansion: self.expansion.clone(),
            expansion_spelling: self.expansion_spelling.clone(),
        }
    }
}

/// The first compiled alias with a name.
pub open spec fn compiled_alias(aliases: Seq<ExpandedAlias>, name: Seq<char>) -> Option<
    ExpandedAliasView,
>
    decreases aliases.len(),
{
    if aliases.len() == 0 {
        None
    } else if aliases[0].alias.identity@ == name {
        Some(aliases[0]@)
    } else {
        compiled_alias(aliases.skip(1), name)
    }
}

/// What a compiled platform answers.
#[derive(Debug)]
pub struct SemanticPlatform {
    pub table: SymbolTable,
    pub value_forms: Vec<ValueForm>,
    /// The function type of each arity.
    pub function_types: Vec<Ty>,
    pub value_underlyings: Vec<ValueForm>,
    /// The classifiers that inherit the callables of their supertypes.
    pub inheriting_classifiers: Vec<TypeName>,
    pub type_aliases: Vec<ExpandedAlias>,
}

/// The form in the first entry for `ty`.
pub open spec fn first_form(forms: Seq<ValueForm>, ty: TyView) -> Option<TyView>
    decreases forms.len(),
{
    if forms.len() == 0 {
        None
    } else if forms[0].ty@ == ty {
        Some(forms[0].form@)
    } else {
        first_form(forms.skip(1), ty)
    }
}

fn find_form(forms: &Vec<ValueForm>, ty: &Ty) -> (form: Option<Ty>)
    ensures
        option_view(form) == first_form(forms@, ty@),
{
    let mut index: usize = 0;
    assert(forms@.skip(0) =~= forms@);
    while index < forms.len()
        invariant
            index <= forms@.len(),
            first_form(forms@, ty@) == first_form(forms@.skip(index as int), ty@),
        decreases forms@.len() - index,
    {
        if forms[index].ty == *ty {
            return Some(forms[index].form.clone());
        }
        assert(forms@.skip(index as int).skip(1) =~= forms@.skip(index as int + 1));
        index += 1;
    }
    None
}

impl SemanticPlatform {
    /// The compiled alias of a name.
    pub fn type_alias_expansion(&self, internal: &TypeName) -> (found: Option<ExpandedAlias>)
        ensures
            option_view(found) == compiled_alias(self.type_aliases@, internal@),
    {
        let mut index: usize = 0;
        assert(self.type_aliases@.skip(0) =~= self.type_aliases@);
        while index < self.type_aliases.len()
            invariant
                index <= self.type_aliases@.len(),
                compiled_alias(self.type_aliases@, internal@) == compiled_alias(
                    self.type_aliases@.skip(index as int),
                    internal@,
                ),
            decreases self.type_aliases@.len() - index,
        {
            let entry = &self.type_aliases[index];
            if entry.alias.identity == *internal {
                return Some(
                    ExpandedAlias { target: entry.target.clone(), alias: entry.alias.duplicate() },
                );
            }
            assert(self.type_aliases@.skip(index as int).skip(1) =~= self.type_aliases@.skip(
                index as int + 1,
            ));
            index += 1;
        }
        None
    }

    /// The form that compiled declarations spell a type with: the type itself unless it has
    /// another one.
    pub open spec fn value_form(&self, ty: TyView) -> TyView {
        match first_form(self.value_forms@, ty) {
            Some(form) => form,
            None => ty,
        }
    }

    pub fn library_value_form(&self, ty: &Ty) -> (form: Ty)
        ensures
            form@ == self.value_form(ty@),
    {
        match find_form(&self.value_forms, ty) {
            Some(form) => form,
            None => ty.clone(),
        }
    }

    /// The function type of an arity.
    pub fn function_type(&self, arity: usize) -> (ty: Option<Ty>)
        ensures
            option_view(ty) == (if arity < self.function_types@.len() {
                Some(self.function_types@[arity as int]@)
            } else {
                None
            }),
    {
        if arity < self.function_types.len() {
            Some(self.function_types[arity].clone())
        } else {
            None
        }
    }
}

impl TyView {
    /// The type as the receiver of a compiled declaration: without nullability or arguments, a
    /// type parameter as its bound.
    pub open spec fn erased_recv(self) -> TyView
        decreases self,
    {
        match self {
            TyView::Nullable(inner) | TyView::PlatformNullable(inner) => inner.erased_recv(),
            TyView::TyParam(_, bound) => bound.erased_recv(),
            TyView::Obj(name, _) => TyView::Obj(name, Seq::empty()),
            _ => self,
        }
    }
}

impl Ty {
    /// The type as the receiver of a compiled declaration.
    pub fn erased_recv(&self) -> (ty: Ty)
        ensures
            ty@ == self@.erased_recv(),
        decreases self,
    {
        match self {
            Ty::Nullable(inner) => inner.erased_recv(),
            Ty::PlatformNullable(inner) => inner.erased_recv(),
            Ty::TyParam(_, bound) => bound.erased_recv(),
            Ty::Obj(name, _) => Ty::obj_name(name),
            _ => self.clone(),
        }
    }
}

/// Whether two members have the same name and parameters.
pub open spec fn members_match(left: LibraryMemberView, right: LibraryMemberView) -> bool {
    left.name == right.name && left.params == right.params
}

pub fn same_member(left: &LibraryMember, right: &LibraryMember) -> (same: bool)
    ensures
        same == members_match(left@, right@),
{
    left.name.same(&right.name) && crate::model::same_all(&left.params, &right.params)
}

/// Whether two parameter types are the same to compiled declarations.
pub open spec fn params_match(platform: SemanticPlatform, left: TyView, right: TyView) -> bool {
    match (left.non_null(), right.non_null()) {
        (TyView::Fun(a), TyView::Fun(b)) => a.params.len() == b.params.len() && a.suspend
            == b.suspend,
        _ => platform.value_form(left.erased_recv()) == platform.value_form(right.erased_recv()),
    }
}

fn same_parameter(platform: &SemanticPlatform, left: &Ty, right: &Ty) -> (same: bool)
    ensures
        same == params_match(*platform, left@, right@),
{
    match (left.non_null(), right.non_null()) {
        (Ty::Fun(a), Ty::Fun(b)) => {
            assert(left@.non_null()->Fun_0.params == views(a.params@));
            assert(right@.non_null()->Fun_0.params == views(b.params@));
            a.params.len() == b.params.len() && a.suspend == b.suspend
        },
        _ => platform.library_value_form(&left.erased_recv()) == platform.library_value_form(
            &right.erased_recv(),
        ),
    }
}

/// Whether two functions are one declaration.
pub open spec fn functions_match(
    platform: SemanticPlatform,
    left: FunctionInfoView,
    right: FunctionInfoView,
) -> bool {
    &&& left.kind == right.kind
    &&& left.callable.name == right.callable.name
    &&& left.callable.suspend == right.callable.suspend
    &&& left.callable.params.len() == right.callable.params.len()
    &&& forall|k: int|
        0 <= k < left.callable.params.len() ==> params_match(
            platform,
            #[trigger] left.callable.params[k],
            right.callable.params[k],
        )
}

pub fn same_function(platform: &SemanticPlatform, left: &FunctionInfo, right: &FunctionInfo) -> (same: bool)
    ensures
        same == functions_match(*platform, left@, right@),
{
    if left.kind != right.kind || !left.callable.name.same(&right.callable.name)
        || left.callable.suspend != right.callable.suspend || left.callable.params.len()
        != right.callable.params.len() {
        return false;
    }
    let mut index: usize = 0;
    while index < left.callable.params.len()
        invariant
            index <= left.callable.params@.len(),
            left.callable.params@.len() == right.callable.params@.len(),
            forall|k: int|
                0 <= k < index ==> params_match(
                    *platform,
                    #[trigger] left@.callable.params[k],
                    right@.callable.params[k],
                ),
        decreases left.callable.params@.len() - index,
    {
        if !same_parameter(platform, &left.callable.params[index], &right.callable.params[index]) {
            assert(!params_match(
                *platform,
                left@.callable.params[index as int],
                right@.callable.params[index as int],
            ));
            return false;
        }
        index += 1;
    }
    true
}

/// Whether a compiled property says all that a source property says, so that it stands for it.
pub open spec fn covers(
    platform: SemanticPlatform,
    primary: PropertyInfoView,
    source: PropertyInfoView,
) -> bool {
    &&& primary.kind == source.kind
    &&& primary.receiver == source.receiver
    &&& primary.visibility == Visibility::Public
    &&& source.setter is Some ==> primary.setter is Some
    &&& primary.kind == PropKind::Member ==> primary.owner == source.owner && (
    platform.table.classifier_of(primary.owner) matches Some(shape) && shape.access
        == Visibility::Public)
}

pub fn property_covers(
    platform: &SemanticPlatform,
    primary: &PropertyInfo,
    source: &PropertyInfo,
) -> (yes: bool)
    ensures
        yes == covers(*platform, primary@, source@),
{
    if primary.kind != source.kind || !same_optional(&primary.receiver, &source.receiver)
        || primary.visibility != Visibility::Public || (source.setter.is_some()
        && primary.setter.is_none()) {
        return false;
    }
    if primary.kind != PropKind::Member {
        return true;
    }
    if !primary.owner.same(&source.owner) {
        return false;
    }
    match platform.table.classifier(&primary.owner) {
        Some(shape) => shape.is_public(),
        None => false,
    }
}

/// Whether two properties are one declaration.
pub open spec fn properties_match(left: PropertyInfoView, right: PropertyInfoView) -> bool {
    left.kind == right.kind && left.receiver == right.receiver && left.owner == right.owner
}

pub fn same_property_declaration(left: &PropertyInfo, right: &PropertyInfo) -> (same: bool)
    ensures
        same == properties_match(left@, right@),
{
    left.kind == right.kind && same_optional(&left.receiver, &right.receiver) && left.owner.same(
        &right.owner,
    )
}

/// The first value that is there.
pub open spec fn either<A>(first: Option<A>, second: Option<A>) -> Option<A> {
    if first is Some {
        first
    } else {
        second
    }
}

/// The compiled function with the declaration of its source: the physical identity, descriptor and
/// realization of the one, what the language knows of the other.
pub open spec fn restored(existing: FunctionInfoView, candidate: FunctionInfoView) -> FunctionInfoView {
    FunctionInfoView {
        companion_extension: candidate.companion_extension,
        receiver: either(candidate.receiver, existing.receiver),
        flags: candidate.flags,
        visibility: candidate.visibility,
        generic_sig: either(candidate.generic_sig, existing.generic_sig),
        projected_return_hazard: candidate.projected_return_hazard,
        call_sig: candidate.call_sig,
        default_values: candidate.default_values,
        context_count: candidate.context_count,
        annotations: candidate.annotations,
        callable: LibraryCallableView {
            inline: candidate.flags.inline,
            suspend: candidate.flags.suspend,
            is_abstract: candidate.flags.is_abstract,
            context_count: candidate.context_count,
            equality_bound: either(
                candidate.callable.equality_bound,
                existing.callable.equality_bound,
            ),
            source_receiver: either(
                candidate.callable.source_receiver,
                existing.callable.source_receiver,
            ),
            generic_sig: either(candidate.generic_sig, existing.callable.generic_sig),
            ..existing.callable
        },
        ..existing
    }
}

fn prefer<T>(first: Option<T>, second: Option<T>) -> (out: Option<T>)
    ensures
        out == either(first, second),
{
    match first {
        Some(value) => Some(value),
        None => second,
    }
}

fn restore(existing: FunctionInfo, candidate: FunctionInfo) -> (out: FunctionInfo)
    ensures
        out@ == restored(existing@, candidate@),
{
    let callable_sig = prefer(
        copy_optional(&candidate.generic_sig),
        existing.callable.generic_sig,
    );
    let callable = LibraryCallable {
        owner: existing.callable.owner,
        name: existing.callable.name,
        params: existing.callable.params,
        ret: existing.callable.ret,
        physical_ret: existing.callable.physical_ret,
        descriptor: existing.callable.descriptor,
        origin: existing.callable.origin,
        inline: candidate.flags.inline,
        suspend: candidate.flags.suspend,
        is_abstract: candidate.flags.is_abstract,
        context_count: candidate.context_count,
        equality_bound: prefer(
            candidate.callable.equality_bound,
            existing.callable.equality_bound,
        ),
        source_receiver: prefer(
            candidate.callable.source_receiver,
            existing.callable.source_receiver,
        ),
        generic_sig: callable_sig,
        intrinsic: existing.callable.intrinsic,
    };
    FunctionInfo {
        kind: existing.kind,
        receiver: prefer(candidate.receiver, existing.receiver),
        receiver_rank: existing.receiver_rank,
        companion_extension: candidate.companion_extension,
        flags: candidate.flags,
        visibility: candidate.visibility,
        generic_sig: prefer(candidate.generic_sig, existing.generic_sig),
        projected_return_hazard: candidate.projected_return_hazard,
        call_sig: candidate.call_sig,
        default_values: candidate.default_values,
        context_count: candidate.context_count,
        annotations: candidate.annotations,
        callable,
    }
}

/// The first function in the list that `candidate` declares again, or -1.
pub open spec fn matching(
    platform: SemanticPlatform,
    functions: Seq<FunctionInfoView>,
    candidate: FunctionInfoView,
) -> int
    decreases functions.len(),
{
    if functions.len() == 0 {
        -1
    } else {
        let earlier = matching(platform, functions.drop_last(), candidate);
        if earlier >= 0 {
            earlier
        } else if functions_match(platform, functions.last(), candidate) {
            functions.len() - 1
        } else {
            -1
        }
    }
}

/// The functions with one from the source: it restores the function that it declares again, and is
/// added where there is none.
pub open spec fn with_source_function(
    platform: SemanticPlatform,
    functions: Seq<FunctionInfoView>,
    candidate: FunctionInfoView,
) -> Seq<FunctionInfoView> {
    let position = matching(platform, functions, candidate);
    if 0 <= position < functions.len() {
        functions.update(position, restored(functions[position], candidate))
    } else {
        functions.push(candidate)
    }
}

/// The functions with those from the source, from the first to the last.
pub open spec fn merged_functions(
    platform: SemanticPlatform,
    primary: Seq<FunctionInfoView>,
    source: Seq<FunctionInfoView>,
) -> Seq<FunctionInfoView>
    decreases source.len(),
{
    if source.len() == 0 {
        primary
    } else {
        merged_functions(
            platform,
            with_source_function(platform, primary, source[0]),
            source.skip(1),
        )
    }
}

fn position_of(
    platform: &SemanticPlatform,
    functions: &Vec<FunctionInfo>,
    candidate: &FunctionInfo,
) -> (position: Option<usize>)
    ensures
        match position {
            Some(found) => found < functions@.len() && found == matching(
                *platform,
                views(functions@),
                candidate@,
            ),
            None => matching(*platform, views(functions@), candidate@) == -1,
        },
{
    let ghost all = views(functions@);
    let mut index: usize = 0;
    while index < functions.len()
        invariant
            index <= functions@.len(),
            all == views(functions@),
            matching(*platform, all.take(index as int), candidate@) == -1,
        decreases functions@.len() - index,
    {
        assert(all.take(index as int + 1).drop_last() =~= all.take(index as int));
        if same_function(platform, &functions[index], candidate) {
            proof {
                lemma_matching_stays(*platform, all, candidate@, index as int + 1);
            }
            return Some(index);
        }
        index += 1;
    }
    assert(all.take(index as int) =~= all);
    None
}

proof fn lemma_matching_stays(
    platform: SemanticPlatform,
    functions: Seq<FunctionInfoView>,
    candidate: FunctionInfoView,
    count: int,
)
    requires
        0 <= count <= functions.len(),
        matching(platform, functions.take(count), candidate) >= 0,
    ensures
        matching(platform, functions, candidate) == matching(
            platform,
            functions.take(count),
            candidate,
        ),
    decreases functions.len(),
{
    if count == functions.len() {
        assert(functions.take(count) =~= functions);
    } else {
        assert(functions.drop_last().take(count) =~= functions.take(count));
        lemma_matching_stays(platform, functions.drop_last(), candidate, count);
    }
}

/// Join the functions of the two sides. A function that both sides declare keeps its compiled
/// realization and takes its declaration from the source, because compiled declarations omit
/// capabilities such as `operator` and `inline`.
pub fn merge_functions(
    platform: &SemanticPlatform,
    primary: FunctionSet,
    source: FunctionSet,
) -> (merged: FunctionSet)
    ensures
        merged@.overloads == merged_functions(
            *platform,
            primary@.overloads,
            source@.overloads,
        ),
{
    let mut functions = primary.overloads;
    let mut rest = source.overloads;
    while rest.len() > 0
        invariant
            merged_functions(*platform, views(functions@), views(rest@)) == merged_functions(
                *platform,
                primary@.overloads,
                source@.overloads,
            ),
        decreases rest@.len(),
    {
        let ghost before = views(functions@);
        let ghost waiting = views(rest@);
        let candidate = rest.remove(0);
        assert(views(rest@) =~= waiting.skip(1));
        match position_of(platform, &functions, &candidate) {
            Some(position) => {
                let existing = functions.remove(position);
                let joined = restore(existing, candidate);
                functions.insert(position, joined);
                assert(views(functions@) =~= with_source_function(
                    *platform,
                    before,
                    waiting[0],
                ));
            },
            None => {
                functions.push(candidate);
            },
        }
    }
    FunctionSet { overloads: functions }
}

/// The properties without those that `candidate` declares again.
pub open spec fn without_declaration(
    properties: Seq<PropertyInfoView>,
    candidate: PropertyInfoView,
) -> Seq<PropertyInfoView>
    decreases properties.len(),
{
    if properties.len() == 0 {
        Seq::empty()
    } else {
        let earlier = without_declaration(properties.drop_last(), candidate);
        if properties_match(properties.last(), candidate) {
            earlier
        } else {
            earlier.push(properties.last())
        }
    }
}

/// The properties with one from the source: it replaces those that it declares again, unless a
/// compiled one covers it.
pub open spec fn with_source_property(
    platform: SemanticPlatform,
    properties: Seq<PropertyInfoView>,
    candidate: PropertyInfoView,
) -> Seq<PropertyInfoView> {
    if exists|k: int|
        0 <= k < properties.len() && covers(platform, #[trigger] properties[k], candidate) {
        properties
    } else {
        without_declaration(properties, candidate).push(candidate)
    }
}

/// The properties with those from the source, from the first to the last.
pub open spec fn merged_properties(
    platform: SemanticPlatform,
    primary: Seq<PropertyInfoView>,
    source: Seq<PropertyInfoView>,
) -> Seq<PropertyInfoView>
    decreases source.len(),
{
    if source.len() == 0 {
        primary
    } else {
        merged_properties(
            platform,
            with_source_property(platform, primary, source[0]),
            source.skip(1),
        )
    }
}

fn any_covers(
    platform: &SemanticPlatform,
    properties: &Vec<PropertyInfo>,
    candidate: &PropertyInfo,
) -> (found: bool)
    ensures
        found == exists|k: int|
            0 <= k < views(properties@).len() && covers(
                *platform,
                #[trigger] views(properties@)[k],
                candidate@,
            ),
{
    let mut index: usize = 0;
    while index < properties.len()
        invariant
            index <= properties@.len(),
            forall|k: int|
                0 <= k < index ==> !covers(
                    *platform,
                    #[trigger] views(properties@)[k],
                    candidate@,
                ),
        decreases properties@.len() - index,
    {
        if property_covers(platform, &properties[index], candidate) {
            assert(covers(*platform, views(properties@)[index as int], candidate@));
            return true;
        }
        index += 1;
    }
    false
}

fn drop_declaration(properties: Vec<PropertyInfo>, candidate: &PropertyInfo) -> (out: Vec<PropertyInfo>)
    ensures
        views(out@) == without_declaration(views(properties@), candidate@),
{
    let ghost all = views(properties@);
    let mut rest = properties;
    let mut out: Vec<PropertyInfo> = Vec::new();
    let ghost mut done: int = 0;
    while rest.len() > 0
        invariant
            0 <= done <= all.len(),
            views(rest@) == all.skip(done),
            views(out@) == without_declaration(all.take(done), candidate@),
        decreases rest@.len(),
    {
        let ghost waiting = views(rest@);
        let property = rest.remove(0);
        proof {
            assert(waiting.len() > 0);
            assert(views(rest@) =~= waiting.skip(1));
            assert(waiting.skip(1) =~= all.skip(done + 1));
            assert(all.take(done + 1).drop_last() =~= all.take(done));
            assert(all.skip(done)[0] == all[done]);
            done = done + 1;
        }
        if !same_property_declaration(&property, candidate) {
            out.push(property);
        }
    }
    assert(all.take(done) =~= all);
    out
}

/// Join the properties of the two sides. A public compiled property stands for its source; an
/// incomplete one is replaced by it.
pub fn merge_properties(
    platform: &SemanticPlatform,
    primary: PropertySet,
    source: PropertySet,
) -> (merged: PropertySet)
    ensures
        merged@.overloads == merged_properties(
            *platform,
            primary@.overloads,
            source@.overloads,
        ),
{
    let mut properties = primary.overloads;
    let mut rest = source.overloads;
    while rest.len() > 0
        invariant
            merged_properties(*platform, views(properties@), views(rest@)) == merged_properties(
                *platform,
                primary@.overloads,
                source@.overloads,
            ),
        decreases rest@.len(),
    {
        let ghost before = views(properties@);
        let ghost waiting = views(rest@);
        let candidate = rest.remove(0);
        assert(views(rest@) =~= waiting.skip(1));
        if !any_covers(platform, &properties, &candidate) {
            properties = drop_declaration(properties, &candidate);
            properties.push(candidate);
        }
        assert(views(properties@) == with_source_property(*platform, before, waiting[0]));
    }
    PropertySet { overloads: properties }
}

/// The members with those from the source that are not there yet.
pub open spec fn merged_members(
    primary: Seq<LibraryMemberView>,
    source: Seq<LibraryMemberView>,
) -> Seq<LibraryMemberView>
    decreases source.len(),
{
    if source.len() == 0 {
        primary
    } else {
        let candidate = source[0];
        merged_members(
            if exists|k: int| 0 <= k < primary.len() && members_match(#[trigger] primary[k], candidate) {
                primary
            } else {
                primary.push(candidate)
            },
            source.skip(1),
        )
    }
}

fn merge_members(primary: Vec<LibraryMember>, source: Vec<LibraryMember>) -> (merged: Vec<LibraryMember>)
    ensures
        views(merged@) == merged_members(views(primary@), views(source@)),
{
    let mut members = primary;
    let mut rest = source;
    while rest.len() > 0
        invariant
            merged_members(views(members@), views(rest@)) == merged_members(
                views(primary@),
                views(source@),
            ),
        decreases rest@.len(),
    {
        let ghost waiting = views(rest@);
        let candidate = rest.remove(0);
        assert(views(rest@) =~= waiting.skip(1));
        let mut known = false;
        let mut index: usize = 0;
        while index < members.len()
            invariant
                index <= members@.len(),
                known == exists|k: int|
                    0 <= k < index && members_match(#[trigger] views(members@)[k], candidate@),
            decreases members@.len() - index,
        {
            if same_member(&members[index], &candidate) {
                assert(members_match(views(members@)[index as int], candidate@));
                known = true;
            } else {
                assert(!members_match(views(members@)[index as int], candidate@));
            }
            index += 1;
        }
        if !known {
            members.push(candidate);
        }
    }
    members
}

/// The names with those that are not there yet behind them.
pub open spec fn merged_names(names: Seq<Seq<char>>, more: Seq<Seq<char>>) -> Seq<Seq<char>>
    decreases more.len(),
{
    if more.len() == 0 {
        names
    } else {
        merged_names(
            if names.contains(more[0]) {
                names
            } else {
                names.push(more[0])
            },
            more.skip(1),
        )
    }
}

fn merge_names(names: Vec<String>, more: Vec<String>) -> (merged: Vec<String>)
    ensures
        views(merged@) == merged_names(views(names@), views(more@)),
{
    let mut out = names;
    let mut rest = more;
    while rest.len() > 0
        invariant
            merged_names(views(out@), views(rest@)) == merged_names(views(names@), views(more@)),
        decreases rest@.len(),
    {
        let ghost waiting = views(rest@);
        let name = rest.remove(0);
        assert(views(rest@) =~= waiting.skip(1));
        if !holds(&out, &name) {
            out.push(name);
        }
    }
    out
}

/// The callables declared under `name`, none where the name is not among them.
pub open spec fn callables_named(entries: Seq<NamedCallablesView>, name: Seq<char>) -> CallablesView
    decreases entries.len(),
{
    if entries.len() == 0 {
        CallablesView::nothing()
    } else if entries[0].name == name {
        entries[0].callables
    } else {
        callables_named(entries.skip(1), name)
    }
}

/// The callables of the two sides under one name.
pub open spec fn merged_callables(
    platform: SemanticPlatform,
    primary: CallablesView,
    source: CallablesView,
) -> CallablesView {
    CallablesView {
        functions: FunctionSetView {
            overloads: merged_functions(
                platform,
                primary.functions.overloads,
                source.functions.overloads,
            ),
        },
        properties: PropertySetView {
            overloads: merged_properties(
                platform,
                primary.properties.overloads,
                source.properties.overloads,
            ),
        },
    }
}

fn merge_callables(platform: &SemanticPlatform, primary: Callables, source: Callables) -> (merged: Callables)
    ensures
        merged@ == merged_callables(*platform, primary@, source@),
{
    Callables {
        functions: merge_functions(platform, primary.functions, source.functions),
        properties: merge_properties(platform, primary.properties, source.properties),
    }
}

/// The declared callables with those of one name from the source joined in. Their entry moves to
/// the end.
pub open spec fn with_source_callables(
    platform: SemanticPlatform,
    entries: Seq<NamedCallablesView>,
    source: NamedCallablesView,
) -> Seq<NamedCallablesView> {
    without_name(entries, source.name).push(
        NamedCallablesView {
            name: source.name,
            callables: merged_callables(
                platform,
                callables_named(entries, source.name),
                source.callables,
            ),
        },
    )
}

/// The entries without those of one name.
pub open spec fn without_name(entries: Seq<NamedCallablesView>, name: Seq<char>) -> Seq<NamedCallablesView>
    decreases entries.len(),
{
    if entries.len() == 0 {
        Seq::empty()
    } else if entries[0].name == name {
        without_name(entries.skip(1), name)
    } else {
        seq![entries[0]] + without_name(entries.skip(1), name)
    }
}

/// The declared callables of the two sides.
pub open spec fn merged_declared(
    platform: SemanticPlatform,
    primary: Seq<NamedCallablesView>,
    source: Seq<NamedCallablesView>,
) -> Seq<NamedCallablesView>
    decreases source.len(),
{
    if source.len() == 0 {
        primary
    } else {
        merged_declared(
            platform,
            with_source_callables(platform, primary, source[0]),
            source.skip(1),
        )
    }
}

fn take_named(entries: Vec<NamedCallables>, name: &String) -> (out: (Callables, Vec<NamedCallables>))
    ensures
        out.0@ == callables_named(views(entries@), name@),
        views(out.1@) == without_name(views(entries@), name@),
{
    let ghost all = views(entries@);
    let mut rest = entries;
    let mut kept: Vec<NamedCallables> = Vec::new();
    let mut found: Option<Callables> = None;
    while rest.len() > 0
        invariant
            all == views(entries@),
            views(kept@) + without_name(views(rest@), name@) == without_name(all, name@),
            match found {
                Some(callables) => callables@ == callables_named(all, name@),
                None => callables_named(views(rest@), name@) == callables_named(all, name@),
            },
        decreases rest@.len(),
    {
        let ghost waiting = views(rest@);
        let ghost held = views(kept@);
        let entry = rest.remove(0);
        assert(views(rest@) =~= waiting.skip(1));
        if entry.name.same(name) {
            if found.is_none() {
                found = Some(entry.callables);
            }
            assert(views(kept@) + without_name(views(rest@), name@) =~= held + without_name(
                waiting,
                name@,
            ));
        } else {
            kept.push(entry);
            assert(views(kept@) + without_name(views(rest@), name@) =~= held + without_name(
                waiting,
                name@,
            ));
        }
    }
    assert(views(kept@) + Seq::<NamedCallablesView>::empty() =~= views(kept@));
    match found {
        Some(callables) => (callables, kept),
        None => (Callables::nothing(), kept),
    }
}

fn merge_declared(
    platform: &SemanticPlatform,
    primary: Vec<NamedCallables>,
    source: Vec<NamedCallables>,
) -> (merged: Vec<NamedCallables>)
    ensures
        views(merged@) == merged_declared(*platform, views(primary@), views(source@)),
{
    let mut entries = primary;
    let mut rest = source;
    while rest.len() > 0
        invariant
            merged_declared(*platform, views(entries@), views(rest@)) == merged_declared(
                *platform,
                views(primary@),
                views(source@),
            ),
        decreases rest@.len(),
    {
        let ghost before = views(entries@);
        let ghost waiting = views(rest@);
        let candidate = rest.remove(0);
        assert(views(rest@) =~= waiting.skip(1));
        let (known, others) = take_named(entries, &candidate.name);
        entries = others;
        let callables = merge_callables(platform, known, candidate.callables);
        entries.push(NamedCallables { name: candidate.name, callables });
        assert(views(entries@) == with_source_callables(*platform, before, waiting[0]));
    }
    entries
}

/// The shape of a classifier that both sides describe. The source owns its declaration order, its
/// access, its type parameters and its enum entries; the compiled side contributes the physical
/// realization.
pub open spec fn merged_type(
    platform: SemanticPlatform,
    primary: LibraryTypeView,
    source: LibraryTypeView,
) -> LibraryTypeView {
    LibraryTypeView {
        declared_callable_order: merged_names(
            source.declared_callable_order,
            primary.declared_callable_order,
        ),
        access: source.access,
        source_file: source.source_file,
        type_params: if source.type_params.len() > 0 {
            source.type_params
        } else {
            primary.type_params
        },
        type_param_bounds: if source.type_params.len() > 0 {
            source.type_param_bounds
        } else {
            primary.type_param_bounds
        },
        enum_entries: source.enum_entries,
        enum_entries_accessor: either(primary.enum_entries_accessor, source.enum_entries_accessor),
        constructors: merged_members(primary.constructors, source.constructors),
        members: merged_members(primary.members, source.members),
        companion: merged_members(primary.companion, source.companion),
        declared_callables: merged_declared(
            platform,
            primary.declared_callables,
            source.declared_callables,
        ),
        ..primary
    }
}

pub fn merge_type(platform: &SemanticPlatform, primary: LibraryType, source: LibraryType) -> (merged: LibraryType)
    ensures
        merged@ == merged_type(*platform, primary@, source@),
{
    let declared_callable_order = merge_names(
        source.declared_callable_order,
        primary.declared_callable_order,
    );
    let source_is_generic = source.type_params.len() > 0;
    LibraryType {
        is_kotlin: primary.is_kotlin,
        access: source.access,
        source_file: source.source_file,
        kind: primary.kind,
        supertypes: primary.supertypes,
        type_params: if source_is_generic {
            source.type_params
        } else {
            primary.type_params
        },
        type_param_bounds: if source_is_generic {
            source.type_param_bounds
        } else {
            primary.type_param_bounds
        },
        constructors: merge_members(primary.constructors, source.constructors),
        members: merge_members(primary.members, source.members),
        companion: merge_members(primary.companion, source.companion),
        declared_callables: merge_declared(
            platform,
            primary.declared_callables,
            source.declared_callables,
        ),
        declared_callable_order,
        companion_object: primary.companion_object,
        value_underlying: primary.value_underlying,
        alias_target: primary.alias_target,
        enum_entries: source.enum_entries,
        enum_entries_accessor: prefer(
            primary.enum_entries_accessor,
            source.enum_entries_accessor,
        ),
    }
}

/// What the source side says about the path of a classifier.
#[derive(Clone, Copy, Debug, PartialEq, Eq, Structural)]
pub enum SourceTypeAccess {
    /// Neither the classifier nor a restrictive source owner claims the path, so the compiled
    /// platform remains authoritative.
    Absent,
    /// The source declares the classifier and every lexical owner is public.
    Declared(Visibility),
    /// A non-public source owner claims the path before the classifier.
    HiddenByOwner(Visibility),
}

impl SourceTypeAccess {
    /// The visibility that the source side claims. For a path that an owner blocks this is the
    /// owner's visibility.
    pub open spec fn claimed(self) -> Option<Visibility> {
        match self {
            SourceTypeAccess::Declared(visibility)
            | SourceTypeAccess::HiddenByOwner(visibility) => Some(visibility),
            SourceTypeAccess::Absent => None,
        }
    }

    pub fn source_visibility(self) -> (visibility: Option<Visibility>)
        ensures
            visibility == self.claimed(),
    {
        match self {
            SourceTypeAccess::Declared(visibility) => Some(visibility),
            SourceTypeAccess::HiddenByOwner(visibility) => Some(visibility),
            SourceTypeAccess::Absent => None,
        }
    }
}

/// The visibility of a source classifier.
pub open spec fn source_visibility_of(source: SymbolTable, name: Seq<char>) -> Option<Visibility> {
    match source.classifier_of(name) {
        Some(shape) => Some(shape.access),
        None => None,
    }
}

/// The visibility of the nearest owner that hides what is inside it. An owner that the source
/// does not declare hides a classifier that it does declare.
pub open spec fn blocking_owner(source: SymbolTable, name: Seq<char>, declared: bool) -> Option<Visibility>
    decreases name.len(),
    when true
    via owners_are_shorter
{
    match nested_owner_of(name) {
        None => None,
        Some(owner) => match source_visibility_of(source, owner) {
            Some(Visibility::Public) => blocking_owner(source, owner, declared),
            Some(visibility) => Some(visibility),
            None => if declared {
                Some(Visibility::Private)
            } else {
                blocking_owner(source, owner, declared)
            },
        },
    }
}

#[via_fn]
proof fn owners_are_shorter(source: SymbolTable, name: Seq<char>, declared: bool) {
    lemma_last_position(name, '.');
    lemma_last_position(name, '/');
}

/// What the source side says about the path of a classifier.
pub open spec fn access_of(source: SymbolTable, name: Seq<char>) -> SourceTypeAccess {
    let leaf = source_visibility_of(source, name);
    match blocking_owner(source, name, leaf is Some) {
        Some(visibility) => SourceTypeAccess::HiddenByOwner(visibility),
        None => match leaf {
            Some(visibility) => SourceTypeAccess::Declared(visibility),
            None => SourceTypeAccess::Absent,
        },
    }
}

/// The two sides of a compilation's dependencies.
#[derive(Debug)]
pub struct DependencyPlatform {
    platform: SemanticPlatform,
    symbols: SymbolTable,
    aliases: Vec<AliasExpansion>,
    /// Merged records that were asked for before.
    memo: Vec<MergedRecord>,
}

/// A merged record and what it was asked for.
#[derive(Debug)]
pub struct MergedRecord {
    pub namespace: SymbolNamespace,
    pub name: String,
    pub symbols: Rc<ResolvedSymbols>,
}

/// The first alias with a name.
pub open spec fn alias_named(aliases: Seq<AliasExpansion>, name: Seq<char>) -> Option<
    AliasExpansion,
>
    decreases aliases.len(),
{
    if aliases.len() == 0 {
        None
    } else if aliases[0].identity@ == name {
        Some(aliases[0])
    } else {
        alias_named(aliases.skip(1), name)
    }
}

/// The classifier that an alias expands to.
pub open spec fn expansion_target(platform: SemanticPlatform, expansion: TyView) -> Option<Seq<char>> {
    match expansion.kotlin_class_internal() {
        Some(name) => Some(name),
        None => match expansion.non_null() {
            TyView::Fun(sig) => if sig.params.len() < platform.function_types@.len() {
                platform.function_types@[sig.params.len() as int]@.obj_internal()
            } else {
                None
            },
            _ => None,
        },
    }
}

/// What the two sides hold together for one name.
pub struct FederationView {
    pub platform: SemanticPlatform,
    pub symbols: SymbolTable,
    pub aliases: Seq<AliasExpansion>,
}

impl FederationView {
    /// The classifier that a source alias of the namespace stands for.
    pub open spec fn alias_target(self, name: Seq<char>) -> Option<Seq<char>> {
        match alias_named(self.aliases, name) {
            Some(alias) => expansion_target(self.platform, alias.expansion@),
            None => None,
        }
    }

    /// The source alias of a name with the classifier that it stands for. An alias that stands for
    /// none is no alias.
    pub open spec fn source_alias(self, name: Seq<char>) -> Option<ExpandedAliasView> {
        match (alias_named(self.aliases, name), self.alias_target(name)) {
            (Some(alias), Some(target)) => Some(ExpandedAliasView { target, alias: alias@ }),
            _ => None,
        }
    }

    /// The alias of a name: the one of the source before a compiled one.
    pub open spec fn type_alias(self, name: Seq<char>) -> Option<ExpandedAliasView> {
        match self.source_alias(name) {
            Some(alias) => Some(alias),
            None => compiled_alias(self.platform.type_aliases@, name),
        }
    }

    /// The record of the source side. An alias stands for the compiled classifier that it expands
    /// to.
    pub open spec fn source_record(self, name: Seq<char>) -> ResolvedSymbolsView {
        match self.alias_target(name) {
            Some(target) => ResolvedSymbolsView {
                classifier_name: Some(target),
                classifier: match self.platform.table.classifier_of(target) {
                    Some(shape) => Some(
                        LibraryTypeView { alias_target: Some(target), ..shape },
                    ),
                    None => None,
                },
                importable_declaration: true,
                ..ResolvedSymbolsView::nothing()
            },
            None => self.symbols.record(name),
        }
    }

    /// What the source side says about the path of the classifier behind a name.
    pub open spec fn access(self, name: Seq<char>) -> SourceTypeAccess {
        if self.alias_target(name) is Some {
            SourceTypeAccess::Declared(Visibility::Public)
        } else {
            match either(
                self.source_record(name).classifier_name,
                self.platform.table.record(name).classifier_name,
            ) {
                Some(classifier) => access_of(self.symbols, classifier),
                None => SourceTypeAccess::Absent,
            }
        }
    }

    /// The record of a name. An inaccessible declaration stays in it with its visibility, so that
    /// a use of it is reported as inaccessible and not as unresolved.
    pub open spec fn record(self, name: Seq<char>) -> ResolvedSymbolsView {
        let primary = self.platform.table.record(name);
        let source = self.source_record(name);
        let access = self.access(name);
        let source_classifier = if access is Absent {
            None
        } else {
            source.classifier
        };
        let joined = match (primary.classifier, source_classifier) {
            (Some(compiled), Some(declared)) => Some(
                merged_type(self.platform, compiled, declared),
            ),
            (Some(compiled), None) => Some(compiled),
            (None, declared) => declared,
        };
        ResolvedSymbolsView {
            classifier_name: either(primary.classifier_name, source.classifier_name),
            classifier: match (joined, access.claimed()) {
                (Some(shape), Some(visibility)) => Some(
                    LibraryTypeView { access: visibility, ..shape },
                ),
                _ => joined,
            },
            callables: merged_callables(self.platform, primary.callables, source.callables),
            importable_declaration: primary.importable_declaration || source.importable_declaration,
        }
    }
}

impl View for DependencyPlatform {
    type V = FederationView;

    closed spec fn view(&self) -> FederationView {
        FederationView { platform: self.platform, symbols: self.symbols, aliases: self.aliases@ }
    }
}

impl DependencyPlatform {
    /// What the remembered records were asked for, in the order in which they were merged.
    pub closed spec fn asked(&self) -> Seq<(SymbolNamespaceView, Seq<char>)> {
        Seq::new(self.memo@.len(), |k: int| (self.memo@[k].namespace@, self.memo@[k].name@))
    }

    /// Whether each remembered record is the one that it was asked for, and none is remembered
    /// twice.
    pub closed spec fn well_formed(&self) -> bool {
        &&& forall|k: int|
            0 <= k < self.memo@.len() ==> (#[trigger] self.memo@[k]).symbols@ == self@.record(
                self.memo@[k].namespace@.qualify(self.memo@[k].name@),
            )
        &&& self.asked().no_duplicates()
    }

    pub fn new(
        platform: SemanticPlatform,
        symbols: SymbolTable,
        aliases: Vec<AliasExpansion>,
    ) -> (out: DependencyPlatform)
        ensures
            out.well_formed(),
            out@ == (FederationView { platform, symbols, aliases: aliases@ }),
            out.asked() == Seq::<(SymbolNamespaceView, Seq<char>)>::empty(),
    {
        DependencyPlatform { platform, symbols, aliases, memo: Vec::new() }
    }

    fn source_alias(&self, identity: &TypeName) -> (found: Option<&AliasExpansion>)
        ensures
            alias_named(self@.aliases, identity@) == match found {
                Some(alias) => Some(*alias),
                None => None,
            },
    {
        let mut index: usize = 0;
        assert(self.aliases@.skip(0) =~= self.aliases@);
        while index < self.aliases.len()
            invariant
                index <= self.aliases@.len(),
                alias_named(self.aliases@, identity@) == alias_named(
                    self.aliases@.skip(index as int),
                    identity@,
                ),
            decreases self.aliases@.len() - index,
        {
            if self.aliases[index].identity == *identity {
                return Some(&self.aliases[index]);
            }
            assert(self.aliases@.skip(index as int).skip(1) =~= self.aliases@.skip(index as int + 1));
            index += 1;
        }
        None
    }

    fn source_alias_target(&self, identity: &TypeName) -> (target: Option<TypeName>)
        ensures
            option_view(target) == self@.alias_target(identity@),
    {
        let alias = match self.source_alias(identity) {
            Some(alias) => alias,
            None => {
                return None;
            },
        };
        if let Some(name) = alias.expansion.kotlin_class_internal() {
            return Some(name);
        }
        if let Ty::Fun(sig) = alias.expansion.non_null() {
            assert(alias.expansion@.non_null()->Fun_0.params == views(sig.params@));
            if let Some(function) = self.platform.function_type(sig.params.len()) {
                return match function.obj_internal() {
                    Some(name) => Some(name.clone()),
                    None => None,
                };
            }
        }
        None
    }

    /// The source alias of a name with the classifier that it stands for.
    pub fn source_alias_expansion(&self, identity: &TypeName) -> (alias: Option<ExpandedAlias>)
        ensures
            option_view(alias) == self@.source_alias(identity@),
    {
        match (self.source_alias(identity), self.source_alias_target(identity)) {
            (Some(alias), Some(target)) => Some(
                ExpandedAlias { target, alias: alias.duplicate() },
            ),
            _ => None,
        }
    }

    /// The alias of a name: the one of the source before a compiled one.
    pub fn type_alias_expansion(&self, internal: &TypeName) -> (alias: Option<ExpandedAlias>)
        ensures
            option_view(alias) == self@.type_alias(internal@),
    {
        match self.source_alias_expansion(internal) {
            Some(alias) => Some(alias),
            None => self.platform.type_alias_expansion(internal),
        }
    }

    /// What the source side says about the path of a classifier.
    pub fn source_type_access(&self, internal: &TypeName) -> (access: SourceTypeAccess)
        ensures
            access == access_of(self@.symbols, internal@),
    {
        let leaf: Option<Visibility> = match self.symbols.classifier(internal) {
            Some(shape) => Some(shape.access),
            None => None,
        };
        let mut current = internal.clone();
        loop
            invariant
                leaf == source_visibility_of(self.symbols, internal@),
                blocking_owner(self.symbols, current@, leaf is Some) == blocking_owner(
                    self.symbols,
                    internal@,
                    leaf is Some,
                ),
            decreases current@.len(),
        {
            proof {
                lemma_last_position(current@, '.');
                lemma_last_position(current@, '/');
            }
            match current.nested_owner() {
                Some(owner) => {
                    match self.symbols.classifier(&owner) {
                        Some(shape) => {
                            if shape.access != Visibility::Public {
                                return SourceTypeAccess::HiddenByOwner(shape.access);
                            }
                        },
                        None => {
                            if leaf.is_some() {
                                return SourceTypeAccess::HiddenByOwner(Visibility::Private);
                            }
                        },
                    }
                    current = owner;
                },
                None => {
                    return match leaf {
                        Some(visibility) => SourceTypeAccess::Declared(visibility),
                        None => SourceTypeAccess::Absent,
                    };
                },
            }
        }
    }

    fn source_symbols(&self, name: &TypeName, target: &Option<TypeName>) -> (symbols: ResolvedSymbols)
        requires
            option_view(*target) == self@.alias_target(name@),
        ensures
            symbols@ == self@.source_record(name@),
    {
        match target {
            Some(target) => {
                let classifier = match self.platform.table.classifier(target) {
                    Some(shape) => {
                        let mut copy = shape.duplicate();
                        copy.alias_target = Some(target.clone());
                        Some(copy)
                    },
                    None => None,
                };
                ResolvedSymbols {
                    classifier_name: Some(target.clone()),
                    classifier,
                    callables: Callables::nothing(),
                    importable_declaration: true,
                }
            },
            None => self.symbols.symbols(name),
        }
    }

    fn merge(&self, name: &TypeName) -> (merged: ResolvedSymbols)
        ensures
            merged@ == self@.record(name@),
    {
        let primary = self.platform.table.symbols(name);
        let target = self.source_alias_target(name);
        let source = self.source_symbols(name, &target);
        let access = if target.is_some() {
            SourceTypeAccess::Declared(Visibility::Public)
        } else {
            match (&source.classifier_name, &primary.classifier_name) {
                (Some(classifier), _) => self.source_type_access(classifier),
                (None, Some(classifier)) => self.source_type_access(classifier),
                (None, None) => SourceTypeAccess::Absent,
            }
        };
        let declared = match access {
            SourceTypeAccess::Absent => None,
            _ => source.classifier,
        };
        let joined = match (primary.classifier, declared) {
            (Some(compiled), Some(shape)) => Some(merge_type(&self.platform, compiled, shape)),
            (Some(compiled), None) => Some(compiled),
            (None, other) => other,
        };
        let classifier = match (joined, access.source_visibility()) {
            (Some(shape), Some(visibility)) => {
                let mut shape = shape;
                shape.access = visibility;
                Some(shape)
            },
            (other, _) => other,
        };
        ResolvedSymbols {
            classifier_name: prefer(primary.classifier_name, source.classifier_name),
            classifier,
            callables: merge_callables(&self.platform, primary.callables, source.callables),
            importable_declaration: primary.importable_declaration || source.importable_declaration,
        }
    }

    fn remembered(&self, namespace: &SymbolNamespace, name: &str) -> (symbols: Option<Rc<ResolvedSymbols>>)
        requires
            self.well_formed(),
        ensures
            symbols is Some == self.asked().contains((namespace@, name@)),
            symbols matches Some(found) ==> found@ == self@.record(namespace@.qualify(name@)),
    {
        let mut index: usize = 0;
        while index < self.memo.len()
            invariant
                index <= self.memo@.len(),
                self.well_formed(),
                forall|k: int|
                    0 <= k < index ==> #[trigger] self.asked()[k] != (namespace@, name@),
            decreases self.memo@.len() - index,
        {
            let entry = &self.memo[index];
            assert(self.asked()[index as int] == (entry.namespace@, entry.name@));
            if entry.namespace.same(namespace) && same_text(entry.name.as_str(), name) {
                return Some(entry.symbols.clone());
            }
            index += 1;
        }
        None
    }

    /// Whether the package `name` of a package is known on either side.
    pub fn package_exists(&self, parent: &TypeName, name: &str) -> (yes: bool)
        ensures
            yes == (self@.symbols.has_package(
                SymbolNamespaceView::Package(parent@).qualify(name@),
            ) || self@.platform.table.has_package(
                SymbolNamespaceView::Package(parent@).qualify(name@),
            )),
    {
        self.symbols.package_exists(parent, name) || self.platform.table.package_exists(
            parent,
            name,
        )
    }

    /// Everything that a name of a namespace stands for on the two sides together. The record of a
    /// name that stands for something is kept, so that asking again does not merge again.
    pub fn symbols(&mut self, namespace: &SymbolNamespace, name: &str) -> (symbols: Rc<ResolvedSymbols>)
        requires
            old(self).well_formed(),
        ensures
            final(self).well_formed(),
            final(self)@ == old(self)@,
            symbols@ == old(self)@.record(namespace@.qualify(name@)),
            final(self).asked() == if old(self).asked().contains((namespace@, name@))
                || symbols@.is_empty() {
                old(self).asked()
            } else {
                old(self).asked().push((namespace@, name@))
            },
    {
        if let Some(found) = self.remembered(namespace, name) {
            return found;
        }
        let merged = self.merge(&namespace.qualify(name));
        let empty = merged.is_empty();
        let shared = Rc::new(merged);
        if !empty {
            let ghost before = *self;
            self.memo.push(
                MergedRecord {
                    namespace: namespace.duplicate(),
                    name: name.to_owned(),
                    symbols: shared.clone(),
                },
            );
            proof {
                assert(self@ == before@);
                assert(self.asked() =~= before.asked().push((namespace@, name@)));
                assert forall|k: int| 0 <= k < self.memo@.len() implies (
                #[trigger] self.memo@[k]).symbols@ == self@.record(
                    self.memo@[k].namespace@.qualify(self.memo@[k].name@),
                ) by {
                    if k < before.memo@.len() {
                        assert(self.memo@[k] == before.memo@[k]);
                    }
                }
            }
        }
        shared
    }

    /// The type that a value class wraps, as the compiled side or else the merged record says.
    pub fn value_underlying(&self, ty: &Ty) -> (underlying: Option<Ty>)
        ensures
            option_view(underlying) == (match first_form(
                self@.platform.value_underlyings@,
                ty@,
            ) {
                Some(found) => Some(found),
                None => match ty@.obj_internal() {
                    Some(name) => match self@.record(name).classifier {
                        Some(shape) => shape.value_underlying,
                        None => None,
                    },
                    None => None,
                },
            }),
    {
        if let Some(found) = find_form(&self.platform.value_underlyings, ty) {
            return Some(found);
        }
        match ty.obj_internal() {
            Some(name) => match self.merge(name).classifier {
                Some(shape) => shape.value_underlying,
                None => None,
            },
            None => None,
        }
    }

    /// The compiled classifier-associated property of a name, unless the source side claims the
    /// path of the classifier.
    pub fn classifier_associated_property(
        &self,
        internal: &TypeName,
        name: &str,
        compiled: Option<PropertyInfo>,
    ) -> (property: Option<PropertyInfo>)
        ensures
            property == (if access_of(self@.symbols, internal@) is Absent {
                compiled
            } else {
                None
            }),
    {
        match self.source_type_access(internal) {
            SourceTypeAccess::Absent => compiled,
            _ => None,
        }
    }

    /// Whether the classifier inherits the callables of its supertypes, as the compiled side says.
    pub fn inherits_classifier_callables(&self, internal: &TypeName) -> (inherits: bool)
        ensures
            inherits == views(self@.platform.inheriting_classifiers@).contains(internal@),
    {
        holds(&self.platform.inheriting_classifiers, internal)
    }
}

/// A source declaration that a compiled public property covers leaves the merged set as it was.
pub proof fn a_covered_property_changes_nothing(
    platform: SemanticPlatform,
    primary: PropertyInfoView,
    source: PropertyInfoView,
)
    requires
        covers(platform, primary, source),
    ensures
        merged_properties(platform, seq![primary], seq![source]) == seq![primary],
{
    let properties = seq![primary];
    assert(covers(platform, properties[0], source));
    assert(seq![source].skip(1) =~= Seq::empty());
    reveal_with_fuel(merged_properties, 2);
}

/// A compiled property that does not cover its source is replaced by it.
pub proof fn an_incomplete_property_is_replaced(
    platform: SemanticPlatform,
    primary: PropertyInfoView,
    source: PropertyInfoView,
)
    requires
        properties_match(primary, source),
        !covers(platform, primary, source),
    ensures
        merged_properties(platform, seq![primary], seq![source]) == seq![source],
{
    let properties = seq![primary];
    assert(seq![source].skip(1) =~= Seq::empty());
    assert(properties.drop_last() =~= Seq::empty());
    reveal_with_fuel(merged_properties, 2);
    reveal_with_fuel(without_declaration, 2);
    assert forall|k: int| 0 <= k < properties.len() implies !covers(
        platform,
        #[trigger] properties[k],
        source,
    ) by {}
    assert(without_declaration(properties, source) =~= Seq::empty());
    assert(Seq::<PropertyInfoView>::empty().push(source) =~= seq![source]);
}

/// A function that both sides declare keeps its compiled realization.
pub proof fn a_restored_function_keeps_its_realization(
    existing: FunctionInfoView,
    candidate: FunctionInfoView,
)
    ensures
        restored(existing, candidate).callable.owner == existing.callable.owner,
        restored(existing, candidate).callable.name == existing.callable.name,
        restored(existing, candidate).callable.params == existing.callable.params,
        restored(existing, candidate).callable.descriptor == existing.callable.descriptor,
        restored(existing, candidate).callable.origin == existing.callable.origin,
        restored(existing, candidate).flags == candidate.flags,
        restored(existing, candidate).callable.inline == candidate.flags.inline,
{
}

/// Joining never loses a compiled function: the merged list begins with as many functions, each
/// with its compiled owner and descriptor.
pub proof fn merging_keeps_every_compiled_function(
    platform: SemanticPlatform,
    primary: Seq<FunctionInfoView>,
    source: Seq<FunctionInfoView>,
)
    ensures
        primary.len() <= merged_functions(platform, primary, source).len() <= primary.len()
            + source.len(),
        forall|k: int|
            #![trigger merged_functions(platform, primary, source)[k]]
            0 <= k < primary.len() ==> merged_functions(platform, primary, source)[k].callable.owner
                == primary[k].callable.owner && merged_functions(
                platform,
                primary,
                source,
            )[k].callable.descriptor == primary[k].callable.descriptor,
    decreases source.len(),
{
    if source.len() > 0 {
        let next = with_source_function(platform, primary, source[0]);
        merging_keeps_every_compiled_function(platform, next, source.skip(1));
        let merged = merged_functions(platform, primary, source);
        assert forall|k: int| #![trigger merged[k]] 0 <= k < primary.len() implies merged[k].callable.owner
            == primary[k].callable.owner && merged[k].callable.descriptor
            == primary[k].callable.descriptor by {
            assert(merged_functions(platform, next, source.skip(1))[k] == merged[k]);
            assert(next[k].callable.owner == primary[k].callable.owner);
        }
    }
}

} // verus!
