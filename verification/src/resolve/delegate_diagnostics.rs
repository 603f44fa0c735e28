//! What is said of a delegate that does not supply a convention.

use vstd::prelude::*;

use crate::libraries::{FunctionInfo, FunctionInfoView};
use crate::plugins::frontend::Span;
use crate::resolve::source_names::{source_name, spell};
use crate::text::{decimal, decimal_text, join, joined, option_view, views};
use crate::types::{Ty, TyView};

verus! {

broadcast use {crate::text::group_views, crate::types::group_ty_views};

/// The identity of a diagnostic.
pub type DiagnosticId = u32;

/// What the receiver of a delegated member is called.
#[derive(Debug)]
pub enum DelegateDispatchDiagnosticName {
    Source(String),
    Anonymous,
}

/// What the complaints about a delegate name beside its type: where `by` stands, which receivers
/// the property has, the dispatch receiver first, and whether it can be written.
#[derive(Debug)]
pub struct DelegateConventionSite {
    pub by_span: Span,
    pub dispatch_receiver: Option<Ty>,
    pub extension_receiver: Option<Ty>,
    pub dispatch_diagnostic_name: Option<DelegateDispatchDiagnosticName>,
    pub is_var: bool,
}

/// An optional type as a list.
pub open spec fn listed_type(ty: Option<Ty>) -> Seq<TyView> {
    match ty {
        Some(ty) => seq![ty@],
        None => seq![],
    }
}

/// `count` stars.
pub open spec fn stars(count: nat) -> Seq<Seq<char>> {
    Seq::new(count, |k: int| "*"@)
}

impl DelegateConventionSite {
    /// The site of a declared property.
    pub fn of(
        by_span: Span,
        is_var: bool,
        dispatch_receiver: Option<Ty>,
        extension_receiver: Option<Ty>,
    ) -> (site: Self)
        ensures
            site == (DelegateConventionSite {
                by_span,
                dispatch_receiver,
                extension_receiver,
                dispatch_diagnostic_name: None,
                is_var,
            }),
    {
        DelegateConventionSite {
            by_span,
            dispatch_receiver,
            extension_receiver,
            dispatch_diagnostic_name: None,
            is_var,
        }
    }

    /// The site of a local property. It has no receiver.
    pub fn local(by_span: Span, is_var: bool) -> (site: Self)
        ensures
            site == (DelegateConventionSite {
                by_span,
                dispatch_receiver: None,
                extension_receiver: None,
                dispatch_diagnostic_name: None,
                is_var,
            }),
    {
        DelegateConventionSite {
            by_span,
            dispatch_receiver: None,
            extension_receiver: None,
            dispatch_diagnostic_name: None,
            is_var,
        }
    }

    /// Whether a dispatch receiver has a name to be called by.
    pub open spec fn well_formed(self) -> bool {
        self.dispatch_receiver is Some ==> self.dispatch_diagnostic_name is Some
    }

    /// The receivers of the property.
    pub open spec fn receivers(self) -> Seq<TyView> {
        listed_type(self.dispatch_receiver) + listed_type(self.extension_receiver)
    }

    /// The kind of reference to the property that its accessors pass.
    pub open spec fn flavour(self) -> Seq<char> {
        (if self.is_var {
            "KMutableProperty"@
        } else {
            "KProperty"@
        }) + decimal(self.receivers().len())
    }

    /// The reference with every argument left open.
    pub open spec fn star_projected(self) -> Seq<char> {
        self.flavour() + "<"@ + joined(stars(self.receivers().len() + 1), ", "@) + ">"@
    }

    /// What the dispatch receiver is called in the reference: an anonymous one has no name.
    pub open spec fn reference_dispatch(self) -> Seq<char> {
        match self.dispatch_diagnostic_name {
            Some(DelegateDispatchDiagnosticName::Source(name)) => name@,
            _ => "*"@,
        }
    }

    /// The arguments of the reference: the receivers of the property, and then its type.
    pub open spec fn reference_arguments(self, property: TyView) -> Seq<Seq<char>> {
        (if self.dispatch_receiver is Some {
            seq![self.reference_dispatch()]
        } else {
            seq![]
        }) + match self.extension_receiver {
            Some(extension) => seq![source_name(extension@)],
            None => seq![],
        } + seq![source_name(property)]
    }

    /// The reference that the accessors pass for a property of the type `property`.
    pub open spec fn applied(self, property: TyView) -> Seq<char> {
        self.flavour() + "<"@ + joined(self.reference_arguments(property), ", "@) + ">"@
    }

    /// What the receiver that the accessors pass is called.
    pub open spec fn this_ref_name(self, ty: TyView) -> Seq<char> {
        match (self.extension_receiver, self.dispatch_receiver) {
            (Some(extension), _) => source_name(extension@),
            (None, Some(_)) => match self.dispatch_diagnostic_name {
                Some(DelegateDispatchDiagnosticName::Source(name)) => name@,
                _ => "<anonymous>"@,
            },
            (None, None) => source_name(ty),
        }
    }

    fn receiver_count(&self) -> (count: usize)
        ensures
            count == self.receivers().len(),
            count <= 2,
    {
        (if self.dispatch_receiver.is_some() {
            1usize
        } else {
            0
        }) + if self.extension_receiver.is_some() {
            1usize
        } else {
            0
        }
    }

    fn flavour_text(&self) -> (text: String)
        ensures
            text@ == self.flavour(),
    {
        let mut text = (if self.is_var {
            "KMutableProperty"
        } else {
            "KProperty"
        }).to_owned();
        text.append(decimal_text(self.receiver_count() as u64).as_str());
        text
    }

    /// The reference with every argument left open: it was never built, so they are not known.
    pub fn star_projected_reference(&self) -> (text: String)
        ensures
            text@ == self.star_projected(),
    {
        let count: usize = self.receiver_count() + 1;
        let mut arguments: Vec<String> = Vec::new();
        while arguments.len() < count
            invariant
                arguments@.len() <= count,
                views(arguments@) == stars(arguments@.len()),
            decreases count - arguments@.len(),
        {
            let ghost before = arguments@;
            arguments.push("*".to_owned());
            assert(views(arguments@) =~= stars(arguments@.len()));
        }
        let mut text = self.flavour_text();
        text.append("<");
        text.append(join(&arguments, ", ").as_str());
        text.append(">");
        text
    }

    /// The reference that the accessors pass for a property of the type `property`.
    pub fn applied_reference(&self, property: &Ty) -> (text: String)
        requires
            self.well_formed(),
        ensures
            text@ == self.applied(property@),
    {
        let mut arguments: Vec<String> = Vec::new();
        if self.dispatch_receiver.is_some() {
            arguments.push(
                match &self.dispatch_diagnostic_name {
                    Some(DelegateDispatchDiagnosticName::Source(name)) => name.clone(),
                    _ => "*".to_owned(),
                },
            );
        }
        if let Some(extension) = &self.extension_receiver {
            arguments.push(spell(extension));
        }
        arguments.push(spell(property));
        assert(views(arguments@) =~= self.reference_arguments(property@));
        let mut text = self.flavour_text();
        text.append("<");
        text.append(join(&arguments, ", ").as_str());
        text.append(">");
        text
    }

    /// What the receiver that the accessors pass is called.
    pub fn this_ref_diagnostic_ty(&self, ty: &Ty) -> (text: String)
        requires
            self.well_formed(),
        ensures
            text@ == self.this_ref_name(ty@),
    {
        match (&self.extension_receiver, &self.dispatch_receiver) {
            (Some(extension), _) => spell(extension),
            (None, Some(_)) => match &self.dispatch_diagnostic_name {
                Some(DelegateDispatchDiagnosticName::Source(name)) => name.clone(),
                _ => "<anonymous>".to_owned(),
            },
            (None, None) => spell(ty),
        }
    }
}

/// Why no convention was selected.
#[derive(Debug)]
pub enum DelegateConventionFailure {
    /// Nothing of the name is visible on the delegate.
    Missing,
    /// There are functions of the name, as they are listed, and none is applicable; with the result
    /// of the one function, where there is one alone.
    NoneApplicable(Vec<String>, Option<Ty>),
    /// More than one is applicable, and none is the more specific.
    Ambiguous(Vec<String>),
}

/// The model of a failure.
#[verifier::ext_equal]
pub enum DelegateConventionFailureView {
    Missing,
    NoneApplicable(Seq<Seq<char>>, Option<TyView>),
    Ambiguous(Seq<Seq<char>>),
}

impl View for DelegateConventionFailure {
    type V = DelegateConventionFailureView;

    open spec fn view(&self) -> DelegateConventionFailureView {
        match *self {
            DelegateConventionFailure::Missing => DelegateConventionFailureView::Missing,
            DelegateConventionFailure::NoneApplicable(candidates, result) => {
                DelegateConventionFailureView::NoneApplicable(
                    views(candidates@),
                    option_view(result),
                )
            },
            DelegateConventionFailure::Ambiguous(candidates) => {
                DelegateConventionFailureView::Ambiguous(views(candidates@))
            },
        }
    }
}

/// A function that could have been the convention, as it is listed.
#[derive(Debug)]
pub struct DelegateConventionDiagnosticCandidate {
    pub rendered: String,
    pub result: Ty,
}

/// The model of a listed function.
pub struct DiagnosticCandidateView {
    pub rendered: Seq<char>,
    pub result: TyView,
}

impl View for DelegateConventionDiagnosticCandidate {
    type V = DiagnosticCandidateView;

    open spec fn view(&self) -> DiagnosticCandidateView {
        DiagnosticCandidateView { rendered: self.rendered@, result: self.result@ }
    }
}

/// A parameter as it is listed; one without a name is named by its position.
pub open spec fn listed_parameter(names: Seq<Seq<char>>, position: nat, ty: TyView) -> Seq<char> {
    (if position < names.len() {
        names[position as int]
    } else {
        "p"@ + decimal(position)
    }) + ": "@ + source_name(ty)
}

/// Parameters as they are listed, the first of them at `offset`.
pub open spec fn listed_parameters(
    parameters: Seq<TyView>,
    offset: nat,
    names: Seq<Seq<char>>,
) -> Seq<Seq<char>> {
    Seq::new(
        parameters.len(),
        |k: int| listed_parameter(names, (offset + k) as nat, parameters[k]),
    )
}

/// A function as it is listed: its context, its receiver, its parameters and its result.
pub open spec fn listed_function(
    name: Seq<char>,
    extension_receiver: Option<TyView>,
    context: Seq<TyView>,
    parameters: Seq<TyView>,
    names: Seq<Seq<char>>,
    result: TyView,
) -> Seq<char> {
    (if context.len() == 0 {
        ""@
    } else {
        "context("@ + joined(listed_parameters(context, 0, names), ", "@) + ") "@
    }) + "fun "@ + match extension_receiver {
        Some(receiver) => source_name(receiver) + "."@ + name,
        None => name,
    } + "("@ + joined(listed_parameters(parameters, context.len(), names), ", "@) + "): "@
        + source_name(result)
}

fn list_parameters(parameters: &[Ty], offset: usize, names: &Vec<String>) -> (texts: Vec<String>)
    requires
        offset + parameters@.len() <= usize::MAX,
    ensures
        views(texts@) == listed_parameters(views(parameters@), offset as nat, views(names@)),
{
    let mut texts: Vec<String> = Vec::new();
    let mut index: usize = 0;
    while index < parameters.len()
        invariant
            index <= parameters@.len(),
            offset + parameters@.len() <= usize::MAX,
            texts@.len() == index,
            forall|k: int|
                0 <= k < index ==> (#[trigger] texts@[k])@ == listed_parameter(
                    views(names@),
                    (offset + k) as nat,
                    parameters@[k]@,
                ),
        decreases parameters@.len() - index,
    {
        let position: usize = offset + index;
        let mut text = if position < names.len() {
            names[position].clone()
        } else {
            let mut text = "p".to_owned();
            text.append(decimal_text(position as u64).as_str());
            text
        };
        text.append(": ");
        text.append(spell(&parameters[index]).as_str());
        texts.push(text);
        index += 1;
    }
    assert(views(texts@) =~= listed_parameters(views(parameters@), offset as nat, views(names@)));
    texts
}

/// List a function that could have been the convention.
pub fn delegate_convention_diagnostic_candidate(
    name: &str,
    extension_receiver: Option<&Ty>,
    context_parameters: &[Ty],
    value_parameters: &[Ty],
    parameter_names: &Vec<String>,
    result: &Ty,
) -> (candidate: DelegateConventionDiagnosticCandidate)
    requires
        context_parameters@.len() + value_parameters@.len() <= usize::MAX,
    ensures
        candidate@ == (DiagnosticCandidateView {
            rendered: listed_function(
                name@,
                match extension_receiver {
                    Some(receiver) => Some(receiver@),
                    None => None,
                },
                views(context_parameters@),
                views(value_parameters@),
                views(parameter_names@),
                result@,
            ),
            result: result@,
        }),
{
    let context = list_parameters(context_parameters, 0, parameter_names);
    let value = list_parameters(value_parameters, context_parameters.len(), parameter_names);
    let mut rendered = if context.len() == 0 {
        "".to_owned()
    } else {
        let mut text = "context(".to_owned();
        text.append(join(&context, ", ").as_str());
        text.append(") ");
        text
    };
    rendered.append("fun ");
    match extension_receiver {
        Some(receiver) => {
            let mut callable = spell(receiver);
            callable.append(".");
            callable.append(name);
            rendered.append(callable.as_str());
        },
        None => {
            rendered.append(name);
        },
    }
    rendered.append("(");
    rendered.append(join(&value, ", ").as_str());
    rendered.append("): ");
    rendered.append(spell(result).as_str());
    assert(views(context@).len() == views(context_parameters@).len());
    DelegateConventionDiagnosticCandidate { rendered, result: result.clone() }
}

/// How many leading parameters are listed as the context. The count is stated apart from the
/// parameters, and never reaches past them.
pub open spec fn context_prefix(context_count: nat, parameters: nat) -> nat {
    if context_count < parameters {
        context_count
    } else {
        parameters
    }
}

/// A function with the result `result`, as it is listed.
pub open spec fn listed_candidate(
    function: FunctionInfoView,
    name: Seq<char>,
    result: TyView,
) -> DiagnosticCandidateView {
    let parameters = function.semantic_params();
    let prefix = context_prefix(function.context_count as nat, parameters.len()) as int;
    DiagnosticCandidateView {
        rendered: listed_function(
            name,
            if function.is_extension() {
                function.receiver
            } else {
                None
            },
            parameters.take(prefix),
            parameters.skip(prefix),
            function.call_sig.param_names,
            result,
        ),
        result,
    }
}

/// The functions as they are listed, each with its result, or the first result that is missing.
pub open spec fn listed_candidates(
    functions: Seq<FunctionInfoView>,
    name: Seq<char>,
    results: Seq<Result<Ty, DiagnosticId>>,
) -> Result<Seq<DiagnosticCandidateView>, DiagnosticId>
    decreases functions.len(),
{
    if functions.len() == 0 {
        Ok(seq![])
    } else {
        match listed_candidates(functions.drop_last(), name, results) {
            Err(missing) => Err(missing),
            Ok(listed) => match results[functions.len() - 1] {
                Err(missing) => Err(missing),
                Ok(result) => Ok(listed.push(listed_candidate(functions.last(), name, result@))),
            },
        }
    }
}

proof fn lemma_missing_stays(
    functions: Seq<FunctionInfoView>,
    seen: int,
    name: Seq<char>,
    results: Seq<Result<Ty, DiagnosticId>>,
)
    requires
        0 <= seen <= functions.len(),
        listed_candidates(functions.take(seen), name, results) is Err,
    ensures
        listed_candidates(functions, name, results) == listed_candidates(
            functions.take(seen),
            name,
            results,
        ),
    decreases functions.len() - seen,
{
    if seen < functions.len() {
        assert(functions.take(seen + 1).drop_last() =~= functions.take(seen));
        lemma_missing_stays(functions, seen + 1, name, results);
    } else {
        assert(functions.take(seen) =~= functions);
    }
}

/// List functions of the name `name`. Whatever kept a function from being selected, it is listed:
/// it is what the author may have meant. `results` holds what was found for the result of each.
pub fn delegate_convention_candidates_from_functions(
    functions: &[FunctionInfo],
    name: &str,
    results: &Vec<Result<Ty, DiagnosticId>>,
) -> (candidates: Result<Vec<DelegateConventionDiagnosticCandidate>, DiagnosticId>)
    requires
        results@.len() == functions@.len(),
    ensures
        listed_candidates(views(functions@), name@, results@) == match candidates {
            Ok(listed) => Ok(views(listed@)),
            Err(missing) => Err(missing),
        },
{
    let ghost all = views(functions@);
    let mut candidates: Vec<DelegateConventionDiagnosticCandidate> = Vec::new();
    let mut index: usize = 0;
    assert(views(candidates@) =~= Seq::<DiagnosticCandidateView>::empty());
    while index < functions.len()
        invariant
            index <= functions@.len(),
            results@.len() == functions@.len(),
            all == views(functions@),
            listed_candidates(all.take(index as int), name@, results@)
                == Ok::<_, DiagnosticId>(views(candidates@)),
        decreases functions@.len() - index,
    {
        assert(all.take(index as int + 1).drop_last() =~= all.take(index as int));
        let function = &functions[index];
        let result = match &results[index] {
            Ok(result) => result,
            Err(missing) => {
                proof {
                    lemma_missing_stays(all, index as int + 1, name@, results@);
                }
                return Err(*missing);
            },
        };
        let parameters = function.semantic_params();
        let prefix: usize = if function.context_count < parameters.len() {
            function.context_count
        } else {
            parameters.len()
        };
        let context = vstd::slice::slice_subrange(parameters.as_slice(), 0, prefix);
        let value = vstd::slice::slice_subrange(parameters.as_slice(), prefix, parameters.len());
        assert(views(context@) =~= function@.semantic_params().take(prefix as int));
        assert(views(value@) =~= function@.semantic_params().skip(prefix as int));
        let receiver = if function.is_extension() {
            function.receiver.as_ref()
        } else {
            None
        };
        candidates.push(
            delegate_convention_diagnostic_candidate(
                name,
                receiver,
                context,
                value,
                &function.call_sig.param_names,
                result,
            ),
        );
        index += 1;
    }
    assert(all.take(index as int) =~= all);
    Ok(candidates)
}

/// The listed functions.
pub open spec fn listings(candidates: Seq<DiagnosticCandidateView>) -> Seq<Seq<char>> {
    Seq::new(candidates.len(), |k: int| candidates[k].rendered)
}

/// The failure of functions none of which is applicable.
pub open spec fn inapplicable(
    candidates: Seq<DiagnosticCandidateView>,
) -> DelegateConventionFailureView {
    DelegateConventionFailureView::NoneApplicable(
        listings(candidates),
        if candidates.len() == 1 {
            Some(candidates[0].result)
        } else {
            None
        },
    )
}

fn list_all(candidates: &[DelegateConventionDiagnosticCandidate]) -> (texts: Vec<String>)
    ensures
        views(texts@) == listings(views(candidates@)),
{
    let mut texts: Vec<String> = Vec::new();
    while texts.len() < candidates.len()
        invariant
            texts@.len() <= candidates@.len(),
            forall|k: int|
                0 <= k < texts@.len() ==> (#[trigger] texts@[k])@ == candidates@[k].rendered@,
        decreases candidates@.len() - texts@.len(),
    {
        texts.push(candidates[texts.len()].rendered.clone());
    }
    assert(views(texts@) =~= listings(views(candidates@)));
    texts
}

pub fn delegate_convention_candidates_failure(
    candidates: &[DelegateConventionDiagnosticCandidate],
) -> (failure: DelegateConventionFailure)
    ensures
        failure@ == inapplicable(views(candidates@)),
{
    let sole = if candidates.len() == 1 {
        Some(candidates[0].result.clone())
    } else {
        None
    };
    DelegateConventionFailure::NoneApplicable(list_all(candidates), sole)
}

pub fn delegate_convention_candidates_ambiguity(
    candidates: &[DelegateConventionDiagnosticCandidate],
) -> (failure: DelegateConventionFailure)
    ensures
        failure@ == DelegateConventionFailureView::Ambiguous(listings(views(candidates@))),
{
    DelegateConventionFailure::Ambiguous(list_all(candidates))
}

/// The failure for the functions of the name that the delegate offers.
pub open spec fn convention_failure(
    candidates: Seq<DiagnosticCandidateView>,
) -> DelegateConventionFailureView {
    if candidates.len() == 0 {
        DelegateConventionFailureView::Missing
    } else {
        inapplicable(candidates)
    }
}

/// Whether nothing is said: what the convention is given has failed by itself.
pub open spec fn silent(delegate: TyView, this_ref: TyView, value: Option<TyView>) -> bool {
    ||| delegate.mentions_error()
    ||| delegate.mentions_pending()
    ||| this_ref.mentions_error()
    ||| value matches Some(value) && (value.mentions_error() || value.mentions_pending())
}

fn stays_silent(delegate: &Ty, this_ref: &Ty, value: Option<&Ty>) -> (yes: bool)
    ensures
        yes == silent(
            delegate@,
            this_ref@,
            match value {
                Some(value) => Some(value@),
                None => None,
            },
        ),
{
    delegate.mentions_error() || delegate.mentions_pending() || this_ref.mentions_error()
        || match value {
        Some(value) => value.mentions_error() || value.mentions_pending(),
        None => false,
    }
}

/// Whether a type is known well enough to be named.
pub open spec fn nameable(ty: TyView) -> bool {
    !ty.mentions_error() && !ty.mentions_pending()
}

/// The type of the property that the reference names, where the blame falls on one function alone:
/// the declared one, or that function's result.
pub open spec fn blamed_property(
    property: Option<TyView>,
    failure: DelegateConventionFailureView,
) -> Option<TyView> {
    match failure {
        DelegateConventionFailureView::NoneApplicable(candidates, result) if candidates.len()
            == 1 => match (property, result) {
            (Some(property), _) if nameable(property) => Some(property),
            (_, Some(result)) if nameable(result) => Some(result),
            _ => None,
        },
        _ => None,
    }
}

/// The arguments of the call that the convention would have been.
pub open spec fn demanded_arguments(
    this_ref: Seq<char>,
    reference: Seq<char>,
    value: Option<TyView>,
) -> Seq<Seq<char>> {
    match value {
        Some(value) => seq![this_ref, reference, source_name(value)],
        None => seq![this_ref, reference],
    }
}

/// The call that the convention would have been.
pub open spec fn demanded_call(
    site: DelegateConventionSite,
    name: Seq<char>,
    this_ref: TyView,
    property: Option<TyView>,
    value: Option<TyView>,
    failure: DelegateConventionFailureView,
) -> Seq<char> {
    let reference = match blamed_property(property, failure) {
        Some(property) => site.applied(property),
        None => site.star_projected(),
    };
    name + "("@ + joined(
        demanded_arguments(site.this_ref_name(this_ref), reference, value),
        ", "@,
    ) + ")"@
}

/// What is said of a convention that was not selected.
pub open spec fn convention_message(
    site: DelegateConventionSite,
    delegate: TyView,
    name: Seq<char>,
    this_ref: TyView,
    property: Option<TyView>,
    value: Option<TyView>,
    failure: DelegateConventionFailureView,
) -> Option<Seq<char>> {
    let call = demanded_call(site, name, this_ref, property, value, failure);
    if silent(delegate, this_ref, value) {
        None
    } else {
        Some(
            match failure {
                DelegateConventionFailureView::Missing => "type '"@ + source_name(delegate)
                    + "' has no method '"@ + call + "', so it cannot serve as a delegate"@ + (
                if value is Some {
                    " for var (read-write property)"@
                } else {
                    ""@
                }) + "."@,
                DelegateConventionFailureView::NoneApplicable(candidates, _) => {
                    "property delegate must have a '"@ + call
                        + "' method. None of the following functions is applicable:\n"@ + joined(
                        candidates,
                        "\n"@,
                    )
                },
                DelegateConventionFailureView::Ambiguous(candidates) => {
                    "overload resolution ambiguity on method '"@ + call + "':\n"@ + joined(
                        candidates,
                        "\n"@,
                    )
                },
            },
        )
    }
}

fn blamed(property: Option<&Ty>, failure: &DelegateConventionFailure) -> (ty: Option<Ty>)
    ensures
        option_view(ty) == blamed_property(
            match property {
                Some(property) => Some(property@),
                None => None,
            },
            failure@,
        ),
{
    match failure {
        DelegateConventionFailure::NoneApplicable(candidates, result) => {
            if candidates.len() != 1 {
                return None;
            }
            if let Some(property) = property {
                if !property.mentions_error() && !property.mentions_pending() {
                    return Some(property.clone());
                }
            }
            match result {
                Some(result) => if !result.mentions_error() && !result.mentions_pending() {
                    Some(result.clone())
                } else {
                    None
                },
                None => None,
            }
        },
        _ => None,
    }
}

/// Say what is wrong with a convention that was not selected, or nothing where the complaint would
/// only follow from another. The reference is spelled out where the blame falls on one function.
pub fn render_delegate_convention_failure(
    site: &DelegateConventionSite,
    delegate_ty: &Ty,
    name: &str,
    this_ref: &Ty,
    property: Option<&Ty>,
    value: Option<&Ty>,
    failure: &DelegateConventionFailure,
) -> (message: Option<String>)
    requires
        site.well_formed(),
    ensures
        option_view(message) == convention_message(
            *site,
            delegate_ty@,
            name@,
            this_ref@,
            match property {
                Some(property) => Some(property@),
                None => None,
            },
            match value {
                Some(value) => Some(value@),
                None => None,
            },
            failure@,
        ),
{
    if stays_silent(delegate_ty, this_ref, value) {
        return None;
    }
    let reference = match blamed(property, failure) {
        Some(property) => site.applied_reference(&property),
        None => site.star_projected_reference(),
    };
    let ghost named = reference@;
    let mut arguments: Vec<String> = Vec::new();
    arguments.push(site.this_ref_diagnostic_ty(this_ref));
    arguments.push(reference);
    if let Some(value) = value {
        arguments.push(spell(value));
    }
    let ghost written = match value {
        Some(value) => Some(value@),
        None => None,
    };
    assert(views(arguments@) =~= demanded_arguments(
        site.this_ref_name(this_ref@),
        named,
        written,
    ));
    let mut call = name.to_owned();
    call.append("(");
    call.append(join(&arguments, ", ").as_str());
    call.append(")");
    let mut text: String;
    match failure {
        DelegateConventionFailure::Missing => {
            text = "type '".to_owned();
            text.append(spell(delegate_ty).as_str());
            text.append("' has no method '");
            text.append(call.as_str());
            text.append("', so it cannot serve as a delegate");
            text.append(
                if value.is_some() {
                    " for var (read-write property)"
                } else {
                    ""
                },
            );
            text.append(".");
        },
        DelegateConventionFailure::NoneApplicable(candidates, _) => {
            text = "property delegate must have a '".to_owned();
            text.append(call.as_str());
            text.append("' method. None of the following functions is applicable:\n");
            text.append(join(candidates, "\n").as_str());
        },
        DelegateConventionFailure::Ambiguous(candidates) => {
            text = "overload resolution ambiguity on method '".to_owned();
            text.append(call.as_str());
            text.append("':\n");
            text.append(join(candidates, "\n").as_str());
        },
    }
    Some(text)
}

/// What is said where none of the listed functions is applicable.
pub fn delegate_convention_message_with_candidates(
    site: &DelegateConventionSite,
    delegate_ty: &Ty,
    name: &str,
    this_ref: &Ty,
    property: Option<&Ty>,
    value: Option<&Ty>,
    candidates: &[DelegateConventionDiagnosticCandidate],
) -> (message: Option<String>)
    requires
        site.well_formed(),
    ensures
        option_view(message) == convention_message(
            *site,
            delegate_ty@,
            name@,
            this_ref@,
            match property {
                Some(property) => Some(property@),
                None => None,
            },
            match value {
                Some(value) => Some(value@),
                None => None,
            },
            inapplicable(views(candidates@)),
        ),
{
    render_delegate_convention_failure(
        site,
        delegate_ty,
        name,
        this_ref,
        property,
        value,
        &delegate_convention_candidates_failure(candidates),
    )
}

/// What is said where more than one of the listed functions is applicable.
pub fn delegate_convention_ambiguity_message_with_candidates(
    site: &DelegateConventionSite,
    delegate_ty: &Ty,
    name: &str,
    this_ref: &Ty,
    property: Option<&Ty>,
    value: Option<&Ty>,
    candidates: &[DelegateConventionDiagnosticCandidate],
) -> (message: Option<String>)
    requires
        site.well_formed(),
    ensures
        option_view(message) == convention_message(
            *site,
            delegate_ty@,
            name@,
            this_ref@,
            match property {
                Some(property) => Some(property@),
                None => None,
            },
            match value {
                Some(value) => Some(value@),
                None => None,
            },
            DelegateConventionFailureView::Ambiguous(listings(views(candidates@))),
        ),
{
    render_delegate_convention_failure(
        site,
        delegate_ty,
        name,
        this_ref,
        property,
        value,
        &delegate_convention_candidates_ambiguity(candidates),
    )
}

/// What is said where more than one of the functions is applicable. Where nothing is said, the
/// results are not asked for.
pub fn delegate_convention_ambiguity_message_with_functions(
    site: &DelegateConventionSite,
    delegate_ty: &Ty,
    name: &str,
    this_ref: &Ty,
    property: Option<&Ty>,
    value: Option<&Ty>,
    functions: &[FunctionInfo],
    results: &Vec<Result<Ty, DiagnosticId>>,
) -> (message: Result<Option<String>, DiagnosticId>)
    requires
        site.well_formed(),
        results@.len() == functions@.len(),
    ensures
        ({
            let written = match value {
                Some(value) => Some(value@),
                None => None,
            };
            if silent(delegate_ty@, this_ref@, written) {
                message == Ok::<Option<String>, DiagnosticId>(None)
            } else {
                match (message, listed_candidates(views(functions@), name@, results@)) {
                    (Ok(message), Ok(listed)) => option_view(message) == convention_message(
                        *site,
                        delegate_ty@,
                        name@,
                        this_ref@,
                        match property {
                            Some(property) => Some(property@),
                            None => None,
                        },
                        written,
                        DelegateConventionFailureView::Ambiguous(listings(listed)),
                    ),
                    (Err(missing), Err(wanted)) => missing == wanted,
                    _ => false,
                }
            }
        }),
{
    if stays_silent(delegate_ty, this_ref, value) {
        return Ok(None);
    }
    match delegate_convention_candidates_from_functions(functions, name, results) {
        Ok(candidates) => Ok(
            delegate_convention_ambiguity_message_with_candidates(
                site,
                delegate_ty,
                name,
                this_ref,
                property,
                value,
                candidates.as_slice(),
            ),
        ),
        Err(missing) => Err(missing),
    }
}

/// What is said of a convention that the delegate does not supply. `functions` are those of the
/// name that it offers; `value` is the type of the written value, and there is one for `setValue`
/// alone.
pub fn delegate_convention_message(
    functions: &[FunctionInfo],
    site: &DelegateConventionSite,
    delegate_ty: &Ty,
    name: &str,
    this_ref: &Ty,
    property: Option<&Ty>,
    value: Option<&Ty>,
    results: &Vec<Result<Ty, DiagnosticId>>,
) -> (message: Result<Option<String>, DiagnosticId>)
    requires
        site.well_formed(),
        results@.len() == functions@.len(),
    ensures
        ({
            let written = match value {
                Some(value) => Some(value@),
                None => None,
            };
            if silent(delegate_ty@, this_ref@, written) {
                message == Ok::<Option<String>, DiagnosticId>(None)
            } else {
                match (message, listed_candidates(views(functions@), name@, results@)) {
                    (Ok(message), Ok(listed)) => option_view(message) == convention_message(
                        *site,
                        delegate_ty@,
                        name@,
                        this_ref@,
                        match property {
                            Some(property) => Some(property@),
                            None => None,
                        },
                        written,
                        convention_failure(listed),
                    ),
                    (Err(missing), Err(wanted)) => missing == wanted,
                    _ => false,
                }
            }
        }),
{
    if stays_silent(delegate_ty, this_ref, value) {
        return Ok(None);
    }
    let candidates = match delegate_convention_candidates_from_functions(
        functions,
        name,
        results,
    ) {
        Ok(candidates) => candidates,
        Err(missing) => {
            return Err(missing);
        },
    };
    let failure = if candidates.len() == 0 {
        DelegateConventionFailure::Missing
    } else {
        delegate_convention_candidates_failure(candidates.as_slice())
    };
    Ok(
        render_delegate_convention_failure(
            site,
            delegate_ty,
            name,
            this_ref,
            property,
            value,
            &failure,
        ),
    )
}

} // verus!
