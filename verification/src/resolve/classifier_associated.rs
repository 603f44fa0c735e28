//! Calls, properties and callable references that are answered by declarations associated with a
//! classifier: members of its `companion` block, and written `companion` declarations.
//!
//! They are named through the classifier, qualified or from its static scope, and are selected as
//! any declaration without a receiver is.

use vstd::prelude::*;

use crate::libraries::{FunctionInfo, PropertyInfo, Visibility};
use crate::model::{holds, Modelled};
use crate::names::TypeName;
use crate::resolve::context_sensitive_resolution::with_name;
use crate::resolve::source_names::{source_name, spell};
use crate::text::{option_view, views};
use crate::types::{copy_tys, FnSigView, Ty, TyView};

verus! {

broadcast use {crate::text::group_views, crate::types::group_ty_views};

/// The names with others added, each once.
pub open spec fn with_all(names: Seq<Seq<char>>, more: Seq<Seq<char>>) -> Seq<Seq<char>>
    decreases more.len(),
{
    if more.len() == 0 {
        names
    } else {
        with_name(with_all(names, more.drop_last()), more.last())
    }
}

/// The classifiers whose static scope is open at a use, the innermost first: those of enclosing
/// companion declarations, then the enclosing classes.
pub fn static_scope_classifiers(companions: Vec<TypeName>, lexical: &Vec<TypeName>) -> (classifiers:
    Vec<TypeName>)
    ensures
        views(classifiers@) == with_all(views(companions@), views(lexical@)),
{
    let ghost start = views(companions@);
    let mut classifiers = companions;
    let mut next: usize = 0;
    assert(views(lexical@).take(0) =~= seq![]);
    while next < lexical.len()
        invariant
            next <= lexical@.len(),
            start == views(companions@),
            views(classifiers@) == with_all(start, views(lexical@).take(next as int)),
        decreases lexical@.len() - next,
    {
        let ghost grown = views(lexical@).take(next as int + 1);
        assert(grown.drop_last() =~= views(lexical@).take(next as int));
        assert(grown.last() == lexical@[next as int]@);
        if !holds(&classifiers, &lexical[next]) {
            classifiers.push(lexical[next].duplicate());
        }
        next += 1;
    }
    assert(views(lexical@).take(next as int) =~= views(lexical@));
    classifiers
}

/// What one rung of associated declarations answers to a call.
#[derive(Debug)]
pub enum AssociatedCall {
    /// The rung declares no function of the name.
    Absent,
    /// Candidates exist, and none applies.
    Inapplicable(Vec<FunctionInfo>),
    /// A candidate was selected, or an ambiguity was complained of: the result of the call.
    Selected(Ty),
}

/// What was selected among the candidates of a rung.
#[derive(Debug)]
pub enum CandidateOutcome {
    /// A candidate was selected and its call recorded with the result.
    Selected(Ty),
    /// A candidate was selected whose context arguments are missing.
    MissingContext(Ty),
    Ambiguous,
}

/// What one rung answers to a call, given what was selected among its candidates.
pub fn associated_call(candidates: Vec<FunctionInfo>, selection: Option<CandidateOutcome>) -> (call:
    AssociatedCall)
    ensures
        candidates@.len() == 0 ==> call is Absent,
        candidates@.len() > 0 ==> match selection {
            Some(CandidateOutcome::Selected(result)) => call == AssociatedCall::Selected(result),
            Some(CandidateOutcome::MissingContext(result)) => call == AssociatedCall::Selected(
                result,
            ),
            Some(CandidateOutcome::Ambiguous) => call matches AssociatedCall::Selected(result)
                && result@ is Error,
            None => call == AssociatedCall::Inapplicable(candidates),
        },
{
    if candidates.len() == 0 {
        return AssociatedCall::Absent;
    }
    match selection {
        Some(CandidateOutcome::Selected(result)) => AssociatedCall::Selected(result),
        Some(CandidateOutcome::MissingContext(result)) => AssociatedCall::Selected(result),
        Some(CandidateOutcome::Ambiguous) => AssociatedCall::Selected(Ty::Error),
        None => AssociatedCall::Inapplicable(candidates),
    }
}

impl AssociatedCall {
    /// The result of the selected call. Candidates that do not apply join those of the caller.
    pub fn selected_or_report(self, inapplicable: &mut Vec<FunctionInfo>) -> (result: Option<Ty>)
        ensures
            match self {
                AssociatedCall::Selected(ty) => result == Some(ty) && final(inapplicable)@ == old(inapplicable)@,
                AssociatedCall::Inapplicable(candidates) => result is None && final(inapplicable)@
                    == old(inapplicable)@ + candidates@,
                AssociatedCall::Absent => result is None && final(inapplicable)@ == old(inapplicable)@,
            },
    {
        match self {
            AssociatedCall::Selected(ty) => Some(ty),
            AssociatedCall::Inapplicable(candidates) => {
                let mut candidates = candidates;
                inapplicable.append(&mut candidates);
                None
            },
            AssociatedCall::Absent => None,
        }
    }
}

/// What a qualified call of associated functions comes to.
#[derive(Debug)]
pub enum QualifiedCall {
    /// The classifier declares no such function: the qualifier is read as a value.
    Absent,
    /// The result of the call.
    Result(Ty),
    /// No candidate applies, and that is still to be complained of.
    Complain,
}

/// What a qualified call of associated functions comes to. Candidates that do not apply end the
/// call, whether or not a closer complaint was `reported`.
pub fn qualified_associated_call(call: AssociatedCall, reported: bool) -> (outcome: QualifiedCall)
    ensures
        match call {
            AssociatedCall::Absent => outcome is Absent,
            AssociatedCall::Selected(result) => outcome == QualifiedCall::Result(result),
            AssociatedCall::Inapplicable(_) => if reported {
                outcome matches QualifiedCall::Result(result) && result@ is Error
            } else {
                outcome is Complain
            },
        },
{
    match call {
        AssociatedCall::Absent => QualifiedCall::Absent,
        AssociatedCall::Selected(result) => QualifiedCall::Result(result),
        AssociatedCall::Inapplicable(_) => if reported {
            QualifiedCall::Result(Ty::Error)
        } else {
            QualifiedCall::Complain
        },
    }
}

/// The result of an unqualified call on one rung of a static scope. Candidates that do not apply
/// join those of the caller.
pub fn static_scope_call(
    candidates: Vec<FunctionInfo>,
    selection: Option<CandidateOutcome>,
    inapplicable: &mut Vec<FunctionInfo>,
) -> (result: Option<Ty>)
    ensures
        candidates@.len() == 0 ==> result is None && final(inapplicable)@ == old(inapplicable)@,
        candidates@.len() > 0 ==> match selection {
            Some(CandidateOutcome::Selected(ty)) => result == Some(ty) && final(inapplicable)@
                == old(inapplicable)@,
            Some(CandidateOutcome::MissingContext(ty)) => result == Some(ty) && final(inapplicable)@ == old(inapplicable)@,
            Some(CandidateOutcome::Ambiguous) => result matches Some(ty) && ty@ is Error && final(inapplicable)@ == old(inapplicable)@,
            None => result is None && final(inapplicable)@ == old(inapplicable)@ + candidates@,
        },
{
    associated_call(candidates, selection).selected_or_report(inapplicable)
}

/// A declaration that stands at some distance from where it is looked for.
pub trait Ranked {
    spec fn rank(self) -> nat;

    fn receiver_rank(&self) -> (rank: usize)
        ensures
            rank as nat == self.rank(),
    ;
}

impl Ranked for FunctionInfo {
    open spec fn rank(self) -> nat {
        self.receiver_rank as nat
    }

    fn receiver_rank(&self) -> (rank: usize) {
        self.receiver_rank
    }
}

impl Ranked for PropertyInfo {
    open spec fn rank(self) -> nat {
        self.receiver_rank as nat
    }

    fn receiver_rank(&self) -> (rank: usize) {
        self.receiver_rank
    }
}

/// Whether no declaration is nearer than the one at a place.
pub open spec fn nearest<T: Ranked>(items: Seq<T>, place: int) -> bool {
    forall|k: int| 0 <= k < items.len() ==> items[place].rank() <= (#[trigger] items[k]).rank()
}

/// The places, among the first `count`, of the nearest declarations.
pub open spec fn nearest_places<T: Ranked>(items: Seq<T>, count: nat) -> Seq<usize>
    decreases count,
{
    if count == 0 {
        seq![]
    } else {
        let rest = nearest_places(items, (count - 1) as nat);
        if nearest(items, count - 1) {
            rest.push((count - 1) as usize)
        } else {
            rest
        }
    }
}

fn lowest_rank<T: Ranked>(items: &Vec<T>) -> (lowest: usize)
    requires
        items@.len() > 0,
    ensures
        forall|k: int| 0 <= k < items@.len() ==> lowest as nat <= (#[trigger] items@[k]).rank(),
        exists|k: int| 0 <= k < items@.len() && lowest as nat == (#[trigger] items@[k]).rank(),
{
    let mut lowest: usize = items[0].receiver_rank();
    let mut next: usize = 1;
    while next < items.len()
        invariant
            1 <= next <= items@.len(),
            forall|k: int| 0 <= k < next ==> lowest as nat <= (#[trigger] items@[k]).rank(),
            exists|k: int| 0 <= k < next && lowest as nat == (#[trigger] items@[k]).rank(),
        decreases items@.len() - next,
    {
        let rank: usize = items[next].receiver_rank();
        let ghost found = items@[next as int];
        if rank < lowest {
            lowest = rank;
        }
        next += 1;
    }
    lowest
}

/// The places of the nearest declarations.
pub fn nearest_declarations<T: Ranked>(items: &Vec<T>) -> (places: Vec<usize>)
    ensures
        places@ == nearest_places(items@, items@.len()),
        forall|k: int| 0 <= k < places@.len() ==> (#[trigger] places@[k]) < items@.len(),
        items@.len() > 0 ==> places@.len() > 0,
{
    let mut places: Vec<usize> = Vec::new();
    if items.len() == 0 {
        return places;
    }
    let lowest: usize = lowest_rank(items);
    let ghost witness = choose|k: int|
        0 <= k < items@.len() && lowest as nat == (#[trigger] items@[k]).rank();
    let mut next: usize = 0;
    while next < items.len()
        invariant
            next <= items@.len(),
            0 <= witness < items@.len(),
            lowest as nat == items@[witness].rank(),
            forall|k: int| 0 <= k < items@.len() ==> lowest as nat <= (#[trigger] items@[k]).rank(),
            places@ == nearest_places(items@, next as nat),
            forall|k: int| 0 <= k < places@.len() ==> (#[trigger] places@[k]) < next,
            next > witness ==> places@.len() > 0,
        decreases items@.len() - next,
    {
        let rank: usize = items[next].receiver_rank();
        assert(nearest(items@, next as int) == (rank == lowest)) by {
            assert(items@[next as int].rank() == rank);
        }
        if rank == lowest {
            places.push(next);
        }
        next += 1;
    }
    places
}

/// What a property access without a receiver selects.
#[derive(Debug)]
pub enum TopLevelPropertySelection {
    Selected(PropertyInfo),
    MissingContext,
    Ambiguous,
    Absent,
}

/// The place of the first rung that declares the property.
pub open spec fn first_selection(selections: Seq<TopLevelPropertySelection>) -> Option<nat>
    decreases selections.len(),
{
    if selections.len() == 0 {
        None
    } else if !(selections[0] is Absent) {
        Some(0)
    } else {
        match first_selection(selections.skip(1)) {
            Some(place) => Some(place + 1),
            None => None,
        }
    }
}

/// The nearest open static scope that declares the property, given what each selects.
pub fn select_scoped_associated_property(selections: &Vec<TopLevelPropertySelection>) -> (place:
    Option<usize>)
    ensures
        first_selection(selections@) == match place {
            Some(place) => Some(place as nat),
            None => None,
        },
{
    let mut next: usize = 0;
    assert(selections@.skip(0) =~= selections@);
    while next < selections.len()
        invariant
            next <= selections@.len(),
            first_selection(selections@) == match first_selection(selections@.skip(next as int)) {
                Some(place) => Some((place + next) as nat),
                None => None,
            },
        decreases selections@.len() - next,
    {
        assert(selections@.skip(next as int).skip(1) =~= selections@.skip(next as int + 1));
        if !matches!(selections[next], TopLevelPropertySelection::Absent) {
            return Some(next);
        }
        next += 1;
    }
    None
}

/// The word for a visibility.
pub open spec fn visibility_word(visibility: Visibility) -> Seq<char> {
    match visibility {
        Visibility::Private => "private"@,
        Visibility::Protected => "protected"@,
        Visibility::Internal => "internal"@,
        Visibility::PackagePrivate => "package-private"@,
        Visibility::Public => "public"@,
    }
}

fn visibility_text(visibility: Visibility) -> (word: &'static str)
    ensures
        word@ == visibility_word(visibility),
{
    match visibility {
        Visibility::Private => "private",
        Visibility::Protected => "protected",
        Visibility::Internal => "internal",
        Visibility::PackagePrivate => "package-private",
        Visibility::Public => "public",
    }
}

/// What is said of an associated property that a use cannot see: a member of the companion block of
/// `classifier`, or one written beside it, which belongs to its file.
pub open spec fn inaccessible_property(
    property: PropertyInfo,
    classifier: Seq<char>,
    display: Seq<char>,
) -> Seq<char> {
    let written = property.owner@ != classifier;
    let kind = if property.setter is Some {
        "var "@
    } else {
        "val "@
    };
    let receiver = if written {
        source_name(TyView::Obj(classifier, seq![])) + "."@
    } else {
        ""@
    };
    let container = if written {
        "file"@
    } else {
        "'"@ + display + "'"@
    };
    "cannot access 'companion "@ + kind + receiver + property.name@ + ": "@ + source_name(
        property.ty@,
    ) + "': it is "@ + visibility_word(property.visibility) + " in "@ + container + "."@
}

/// What is said of an associated property that a use cannot see, where `display` is how its
/// classifier is shown. Nothing is said here of one that a provider labels, or where visibility is
/// not checked: those are complained of as any property is.
pub fn inaccessible_associated_property(
    property: &PropertyInfo,
    classifier: Option<&TypeName>,
    display: &str,
    provider_label: bool,
    suppressed: bool,
) -> (text: Option<String>)
    ensures
        option_view(text) == match classifier {
            Some(classifier) if !provider_label && !suppressed => Some(
                inaccessible_property(*property, classifier@, display@),
            ),
            _ => None,
        },
{
    let classifier = match classifier {
        Some(classifier) => classifier,
        None => {
            return None;
        },
    };
    if provider_label || suppressed {
        return None;
    }
    let written = property.owner != *classifier;
    let mut text = "cannot access 'companion ".to_owned();
    text.append(
        if property.setter.is_some() {
            "var "
        } else {
            "val "
        },
    );
    let mut receiver = "".to_owned();
    if written {
        receiver = spell(&Ty::obj_name(classifier));
        receiver.append(".");
    }
    text.append(receiver.as_str());
    text.append(property.name.as_str());
    text.append(": ");
    text.append(spell(&property.ty).as_str());
    text.append("': it is ");
    text.append(visibility_text(property.visibility));
    text.append(" in ");
    let mut container = "file".to_owned();
    if !written {
        container = "'".to_owned();
        container.append(display);
        container.append("'");
    }
    text.append(container.as_str());
    text.append(".");
    Some(text)
}

/// What an assignment to a property without a receiver comes to.
#[derive(Debug)]
pub enum ReceiverlessWrite {
    /// The value is checked against the property and written to it. One that has no setter is also
    /// complained of.
    Write { property: PropertyInfo, reassigns_val: bool },
    Complaint(String),
    /// There is no such property.
    Absent,
}

/// What an assignment to the property `name` comes to, given what was selected for it.
pub fn write_receiverless_property(name: &str, selection: TopLevelPropertySelection) -> (write:
    ReceiverlessWrite)
    ensures
        match selection {
            TopLevelPropertySelection::Selected(property) => write == (ReceiverlessWrite::Write {
                property,
                reassigns_val: property.setter is None,
            }),
            TopLevelPropertySelection::Ambiguous => write matches ReceiverlessWrite::Complaint(text)
                && text@ == "overload resolution ambiguity for property '"@ + name@ + "'"@,
            TopLevelPropertySelection::MissingContext => write matches ReceiverlessWrite::Complaint(
                text,
            ) && text@ == "No context argument for '"@ + name@ + "' found."@,
            TopLevelPropertySelection::Absent => write is Absent,
        },
{
    match selection {
        TopLevelPropertySelection::Selected(property) => {
            let reassigns_val = property.setter.is_none();
            ReceiverlessWrite::Write { property, reassigns_val }
        },
        TopLevelPropertySelection::Ambiguous => ReceiverlessWrite::Complaint(
            crate::text::concat("overload resolution ambiguity for property '", name, "'"),
        ),
        TopLevelPropertySelection::MissingContext => ReceiverlessWrite::Complaint(
            crate::text::concat("No context argument for '", name, "' found."),
        ),
        TopLevelPropertySelection::Absent => ReceiverlessWrite::Absent,
    }
}

/// The type of a reference to a function without a receiver.
pub open spec fn reference_type(function: FunctionInfo) -> TyView {
    TyView::Fun(
        Box::new(
            FnSigView {
                params: views(function.callable.params@),
                ret: function.callable.ret@,
                context_count: 0,
                has_receiver: false,
                suspend: function.callable.suspend,
            },
        ),
    )
}

/// What a reference to an associated declaration denotes.
#[derive(Debug)]
pub enum AssociatedReference {
    /// An overload is selected against the expected function type.
    SelectAgainstExpected,
    /// The function at the place, with the type of the reference.
    Function(usize, Ty),
    /// More than one function is nearest: that is complained of.
    AmbiguousFunction(String),
    /// The property at the place.
    Property(usize),
    Absent,
}

/// The place of the first of the nearest properties that takes no context.
pub open spec fn referenced_property(properties: Seq<PropertyInfo>, count: nat) -> Option<nat>
    decreases count,
{
    if count == 0 {
        None
    } else {
        match referenced_property(properties, (count - 1) as nat) {
            Some(place) => Some(place),
            None => if nearest(properties, count - 1) && properties[count - 1].context_count == 0 {
                Some((count - 1) as nat)
            } else {
                None
            },
        }
    }
}

fn find_referenced_property(properties: &Vec<PropertyInfo>) -> (place: Option<usize>)
    ensures
        referenced_property(properties@, properties@.len()) == match place {
            Some(place) => Some(place as nat),
            None => None,
        },
{
    if properties.len() == 0 {
        return None;
    }
    let lowest: usize = lowest_rank(properties);
    let ghost witness = choose|k: int|
        0 <= k < properties@.len() && lowest as nat == (#[trigger] properties@[k]).rank();
    let mut found: Option<usize> = None;
    let mut next: usize = 0;
    while next < properties.len()
        invariant
            next <= properties@.len(),
            0 <= witness < properties@.len(),
            lowest as nat == properties@[witness].rank(),
            forall|k: int|
                0 <= k < properties@.len() ==> lowest as nat <= (#[trigger] properties@[k]).rank(),
            referenced_property(properties@, next as nat) == match found {
                Some(place) => Some(place as nat),
                None => None,
            },
        decreases properties@.len() - next,
    {
        let rank: usize = properties[next].receiver_rank();
        assert(nearest(properties@, next as int) == (rank == lowest)) by {
            assert(properties@[next as int].rank() == rank);
        }
        if found.is_none() && rank == lowest && properties[next].context_count == 0 {
            found = Some(next);
        }
        next += 1;
    }
    found
}

/// What a reference to the associated declarations of a name denotes. Functions come before
/// properties; without an expected function type the nearest function must be the only one.
pub fn associated_callable_ref(
    name: &str,
    functions: &Vec<FunctionInfo>,
    properties: &Vec<PropertyInfo>,
    expects_function: bool,
) -> (reference: AssociatedReference)
    ensures
        functions@.len() > 0 && expects_function ==> reference is SelectAgainstExpected,
        functions@.len() > 0 && !expects_function ==> {
            let places = nearest_places(functions@, functions@.len());
            if places.len() == 1 {
                reference matches AssociatedReference::Function(place, ty) && place == places[0]
                    && ty@ == reference_type(functions@[place as int])
            } else {
                reference matches AssociatedReference::AmbiguousFunction(text) && text@
                    == "overload resolution ambiguity for callable reference '"@ + name@ + "'"@
            }
        },
        functions@.len() == 0 ==> match referenced_property(properties@, properties@.len()) {
            Some(place) => reference matches AssociatedReference::Property(found) && found == place,
            None => reference is Absent,
        },
{
    if functions.len() > 0 {
        if expects_function {
            return AssociatedReference::SelectAgainstExpected;
        }
        let places = nearest_declarations(functions);
        if places.len() == 1 {
            let place: usize = places[0];
            let callable = &functions[place].callable;
            let params = copy_tys(callable.params.as_slice());
            let ty = if callable.suspend {
                Ty::fun_suspend(params, callable.ret.clone())
            } else {
                Ty::fun(params, callable.ret.clone())
            };
            return AssociatedReference::Function(place, ty);
        }
        return AssociatedReference::AmbiguousFunction(
            crate::text::concat(
                "overload resolution ambiguity for callable reference '",
                name,
                "'",
            ),
        );
    }
    match find_referenced_property(properties) {
        Some(place) => AssociatedReference::Property(place),
        None => AssociatedReference::Absent,
    }
}

/// No static scope is looked at twice: where the companions are distinct, so are all classifiers.
pub proof fn static_scopes_are_distinct(companions: Seq<Seq<char>>, lexical: Seq<Seq<char>>)
    requires
        companions.no_duplicates(),
    ensures
        with_all(companions, lexical).no_duplicates(),
    decreases lexical.len(),
{
    if lexical.len() > 0 {
        static_scopes_are_distinct(companions, lexical.drop_last());
    }
}

/// The companions come first, in their order, and every enclosing class is among the classifiers.
pub proof fn companions_come_before_enclosing_classes(
    companions: Seq<Seq<char>>,
    lexical: Seq<Seq<char>>,
    class: Seq<char>,
)
    ensures
        companions.len() <= with_all(companions, lexical).len(),
        with_all(companions, lexical).take(companions.len() as int) == companions,
        lexical.contains(class) ==> with_all(companions, lexical).contains(class),
    decreases lexical.len(),
{
    let all = with_all(companions, lexical);
    if lexical.len() > 0 {
        companions_come_before_enclosing_classes(companions, lexical.drop_last(), class);
        let earlier = with_all(companions, lexical.drop_last());
        assert(all.take(companions.len() as int) =~= earlier.take(companions.len() as int));
        if lexical.contains(class) {
            let k = choose|k: int| 0 <= k < lexical.len() && lexical[k] == class;
            if k < lexical.len() - 1 {
                assert(lexical.drop_last()[k] == class);
                let j = choose|j: int| 0 <= j < earlier.len() && earlier[j] == class;
                assert(all[j] == class);
            } else if !earlier.contains(class) {
                assert(all[all.len() - 1] == class);
            }
        }
    } else {
        assert(all.take(companions.len() as int) =~= companions);
    }
}

} // verus!
