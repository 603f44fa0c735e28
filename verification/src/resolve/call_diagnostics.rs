//! Which rejected candidate owns the complaint about a receiver call whose candidates all rejected
//! the arguments.

use vstd::prelude::*;

use crate::libraries::{FunctionInfo, FunctionInfoView};
use crate::model::{copy_optional, copy_plain, first_place, position};
use crate::text::{option_view, views};
use crate::types::{Ty, TyView};

verus! {

broadcast use {crate::text::group_views, crate::types::group_ty_views};

/// The value parameters of a candidate: those behind the context parameters.
pub open spec fn value_params(candidate: FunctionInfoView) -> Seq<TyView> {
    candidate.semantic_params().skip(contexts(candidate) as int)
}

/// How many parameters of a candidate are context parameters.
pub open spec fn contexts(candidate: FunctionInfoView) -> nat {
    if candidate.context_count <= candidate.semantic_params().len() {
        candidate.context_count as nat
    } else {
        candidate.semantic_params().len()
    }
}

/// The names of the value parameters.
pub open spec fn value_names(candidate: FunctionInfoView) -> Seq<Seq<char>> {
    let names = candidate.call_sig.param_names;
    if contexts(candidate) <= names.len() {
        names.skip(contexts(candidate) as int)
    } else {
        seq![]
    }
}

/// Where the value parameter that collects the remaining arguments stands.
pub open spec fn value_vararg(candidate: FunctionInfoView) -> Option<nat> {
    match candidate.call_sig.vararg_index {
        Some(place) => if contexts(candidate) <= place {
            Some((place - contexts(candidate)) as nat)
        } else {
            None
        },
        None => None,
    }
}

/// How the arguments of a call are written.
#[derive(Debug)]
pub struct CallArguments {
    pub count: usize,
    /// The names that arguments are passed by.
    pub names: Option<Vec<Option<String>>>,
    pub trailing_lambda: bool,
}

impl CallArguments {
    /// The name that an argument is passed by.
    pub open spec fn name_of(self, argument: int) -> Option<Seq<char>> {
        match self.names {
            Some(names) => if 0 <= argument < names@.len() {
                option_view(names@[argument])
            } else {
                None
            },
            None => None,
        }
    }

    /// The value parameter that an argument is for: the one of its name, the last one for a trailing
    /// lambda, the one in its place, or the one that collects the remaining arguments.
    pub open spec fn parameter_of(self, candidate: FunctionInfoView, argument: int) -> Option<nat> {
        let parameters = value_params(candidate);
        match self.name_of(argument) {
            Some(name) => first_place(value_names(candidate), name),
            None => if self.trailing_lambda && argument + 1 == self.count {
                if parameters.len() > 0 {
                    Some((parameters.len() - 1) as nat)
                } else {
                    None
                }
            } else if argument < parameters.len() {
                Some(argument as nat)
            } else {
                value_vararg(candidate)
            },
        }
    }

    /// The types of the value parameters that the first `count` arguments are for, in the order of
    /// the arguments.
    pub open spec fn shape(self, candidate: FunctionInfoView, count: nat) -> Seq<TyView>
        decreases count,
    {
        if count == 0 {
            seq![]
        } else {
            let rest = self.shape(candidate, (count - 1) as nat);
            match self.parameter_of(candidate, count - 1) {
                Some(parameter) if parameter < value_params(candidate).len() => rest.push(
                    value_params(candidate)[parameter as int],
                ),
                _ => rest,
            }
        }
    }
}

fn names_from(names: &Vec<String>, start: usize) -> (out: Vec<String>)
    ensures
        views(out@) == if start <= names@.len() {
            views(names@).skip(start as int)
        } else {
            seq![]
        },
{
    let mut out: Vec<String> = Vec::new();
    let mut next: usize = start;
    if start <= names.len() {
        while next < names.len()
            invariant
                start <= next <= names@.len(),
                views(out@) == views(names@).subrange(start as int, next as int),
            decreases names@.len() - next,
        {
            out.push(names[next].clone());
            assert(views(names@).subrange(start as int, next as int + 1) =~= views(names@).subrange(
                start as int,
                next as int,
            ).push(names@[next as int]@));
            next += 1;
        }
        assert(views(names@).subrange(start as int, next as int) =~= views(names@).skip(
            start as int,
        ));
    }
    out
}

/// The types of the value parameters that the arguments of a call are for, in the order of the
/// arguments. An argument without a parameter is left out.
pub fn rejected_candidate_argument_shape(candidate: &FunctionInfo, arguments: &CallArguments) -> (
    shape: Vec<Ty>)
    ensures
        views(shape@) == arguments.shape(candidate@, arguments.count as nat),
{
    let parameters = candidate.semantic_params();
    let context: usize = if candidate.context_count <= parameters.len() {
        candidate.context_count
    } else {
        parameters.len()
    };
    let names = names_from(&candidate.call_sig.param_names, context);
    let total: usize = parameters.len();
    let values: usize = total - context;
    let ghost shown = value_params(candidate@);
    assert(shown.len() == values);
    let mut shape: Vec<Ty> = Vec::new();
    let mut next: usize = 0;
    assert(views(shape@) =~= seq![]);
    while next < arguments.count
        invariant
            next <= arguments.count,
            context == contexts(candidate@),
            context <= parameters@.len(),
            views(parameters@) == candidate@.semantic_params(),
            views(names@) == value_names(candidate@),
            total == parameters@.len(),
            values == total - context,
            shown == value_params(candidate@),
            shown.len() == values,
            views(shape@) == arguments.shape(candidate@, next as nat),
        decreases arguments.count - next,
    {
        let name: Option<&String> = match &arguments.names {
            Some(names) => if next < names.len() {
                names[next].as_ref()
            } else {
                None
            },
            None => None,
        };
        let parameter: Option<usize> = match name {
            Some(name) => position(names.as_slice(), name),
            None => if arguments.trailing_lambda && next + 1 == arguments.count {
                if values > 0 {
                    Some(values - 1)
                } else {
                    None
                }
            } else if next < values {
                Some(next)
            } else {
                match candidate.call_sig.vararg_index {
                    Some(place) => if context <= place {
                        Some(place - context)
                    } else {
                        None
                    },
                    None => None,
                }
            },
        };
        assert(match parameter {
            Some(place) => arguments.parameter_of(candidate@, next as int) == Some(place as nat),
            None => arguments.parameter_of(candidate@, next as int) is None,
        });
        if let Some(parameter) = parameter {
            if parameter < values {
                assert(shown[parameter as int] == parameters@[context + parameter]@);
                shape.push(parameters[context + parameter].clone());
            }
        }
        next += 1;
    }
    shape
}

/// What a rejected candidate is compared with the others by.
#[derive(Debug)]
pub struct RejectedContender {
    /// The receiver of an extension.
    pub receiver: Option<Ty>,
    /// The types of the parameters that the arguments are for.
    pub shape: Vec<Ty>,
    /// Whether it has type parameters of its own.
    pub generic: bool,
}

pub struct RejectedContenderView {
    pub receiver: Option<TyView>,
    pub shape: Seq<TyView>,
    pub generic: bool,
}

impl View for RejectedContender {
    type V = RejectedContenderView;

    open spec fn view(&self) -> RejectedContenderView {
        RejectedContenderView {
            receiver: option_view(self.receiver),
            shape: views(self.shape@),
            generic: self.generic,
        }
    }
}

/// What a candidate is compared with the others by.
pub open spec fn contender(candidate: FunctionInfoView, arguments: CallArguments) ->
    RejectedContenderView {
    RejectedContenderView {
        receiver: if candidate.is_extension() {
            candidate.receiver
        } else {
            None
        },
        shape: arguments.shape(candidate, arguments.count as nat),
        generic: candidate.generic_sig matches Some(signature) && signature.formals.len() > 0,
    }
}

/// What the candidates are compared by when the most specific of them are looked for.
pub fn rejected_contenders(candidates: &Vec<FunctionInfo>, arguments: &CallArguments) -> (out: Vec<
    RejectedContender,
>)
    ensures
        views(out@) == Seq::new(
            candidates@.len(),
            |k: int| contender(candidates@[k]@, *arguments),
        ),
{
    let mut out: Vec<RejectedContender> = Vec::new();
    while out.len() < candidates.len()
        invariant
            out@.len() <= candidates@.len(),
            forall|k: int|
                0 <= k < out@.len() ==> (#[trigger] out@[k])@ == contender(
                    candidates@[k]@,
                    *arguments,
                ),
        decreases candidates@.len() - out@.len(),
    {
        let candidate = &candidates[out.len()];
        let receiver = if candidate.is_extension() {
            copy_optional(&candidate.receiver)
        } else {
            None
        };
        let generic = match &candidate.generic_sig {
            Some(signature) => signature.formals.len() > 0,
            None => false,
        };
        let shape = rejected_candidate_argument_shape(candidate, arguments);
        out.push(RejectedContender { receiver, shape, generic });
    }
    assert(views(out@) =~= Seq::new(
        candidates@.len(),
        |k: int| contender(candidates@[k]@, *arguments),
    ));
    out
}

/// The rejected candidate that owns a complaint.
#[derive(Debug)]
pub enum RejectedCallOwner {
    Member,
    /// The extension at the place.
    Extension(usize),
    /// The candidates at the places together.
    Joined(Vec<usize>),
}

/// Whether members and extensions stand against each other.
pub open spec fn contested(candidates: Seq<FunctionInfo>, members_join_extensions: bool) -> bool {
    &&& members_join_extensions
    &&& exists|k: int| 0 <= k < candidates.len() && !(#[trigger] candidates[k])@.is_extension()
    &&& exists|k: int| 0 <= k < candidates.len() && (#[trigger] candidates[k])@.is_extension()
}

fn is_contested(candidates: &Vec<FunctionInfo>, members_join_extensions: bool) -> (yes: bool)
    ensures
        yes == contested(candidates@, members_join_extensions),
{
    let mut member = false;
    let mut extension = false;
    let mut next: usize = 0;
    while next < candidates.len()
        invariant
            next <= candidates@.len(),
            member == (exists|k: int|
                0 <= k < next && !(#[trigger] candidates@[k])@.is_extension()),
            extension == (exists|k: int|
                0 <= k < next && (#[trigger] candidates@[k])@.is_extension()),
        decreases candidates@.len() - next,
    {
        let ghost found = candidates@[next as int];
        if candidates[next].is_extension() {
            extension = true;
        } else {
            member = true;
        }
        next += 1;
    }
    members_join_extensions && member && extension
}

/// The rejected candidate that owns the complaint, given the places of the most specific candidates.
/// Where members and extensions do not stand against each other the member owns it.
pub fn rejected_call_owner(
    candidates: &Vec<FunctionInfo>,
    members_join_extensions: bool,
    most_specific: &Vec<usize>,
) -> (owner: RejectedCallOwner)
    requires
        forall|k: int|
            0 <= k < most_specific@.len() ==> (#[trigger] most_specific@[k]) < candidates@.len(),
    ensures
        if !contested(candidates@, members_join_extensions) {
            owner is Member
        } else if most_specific@.len() == 1 {
            if candidates@[most_specific@[0] as int]@.is_extension() {
                owner == RejectedCallOwner::Extension(most_specific@[0])
            } else {
                owner is Member
            }
        } else {
            owner matches RejectedCallOwner::Joined(places) && places@ == most_specific@
        },
{
    if !is_contested(candidates, members_join_extensions) {
        return RejectedCallOwner::Member;
    }
    if most_specific.len() == 1 {
        let only: usize = most_specific[0];
        if candidates[only].is_extension() {
            RejectedCallOwner::Extension(only)
        } else {
            RejectedCallOwner::Member
        }
    } else {
        RejectedCallOwner::Joined(copy_plain(most_specific))
    }
}

/// What is done about a receiver call whose members and extensions all rejected the arguments.
#[derive(Clone, Copy, Debug, PartialEq, Eq, Structural)]
pub enum OwnedFailure {
    /// The extension owns the complaint: the caller goes on with it.
    LeftToExtension,
    /// The failure that the member retained is reported.
    MemberFailure,
    /// The candidates are reported together as not applicable.
    JoinedRejection,
}

/// What is done about a receiver call whose members and extensions all rejected the arguments.
pub fn owned_member_failure(owner: &RejectedCallOwner) -> (failure: OwnedFailure)
    ensures
        failure == match *owner {
            RejectedCallOwner::Extension(_) => OwnedFailure::LeftToExtension,
            RejectedCallOwner::Member => OwnedFailure::MemberFailure,
            RejectedCallOwner::Joined(_) => OwnedFailure::JoinedRejection,
        },
{
    match owner {
        RejectedCallOwner::Extension(_) => OwnedFailure::LeftToExtension,
        RejectedCallOwner::Member => OwnedFailure::MemberFailure,
        RejectedCallOwner::Joined(_) => OwnedFailure::JoinedRejection,
    }
}

} // verus!
