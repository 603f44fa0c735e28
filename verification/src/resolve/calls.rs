//! The facts that overload selection publishes about one call.

use vstd::prelude::*;

use crate::ast::StmtId;
use crate::libraries::{CompilerIntrinsic, GenericSig};
use crate::names::TypeName;
use crate::text::{option_view, same_text};

verus! {

/// The implicit receiver that a name or a call was resolved against.
#[derive(Debug)]
pub struct ImplicitReceiverSelection {
    /// The context binding that supplies the receiver, with its shadow depth.
    pub context_binding: Option<(String, usize)>,
    /// The object that is the receiver.
    pub singleton: Option<TypeName>,
    /// How many receivers stand between the use and this one.
    pub receiver_depth: usize,
    /// Whether this is the innermost receiver.
    pub current: bool,
}

/// The model of an [`ImplicitReceiverSelection`].
pub struct ImplicitReceiverView {
    pub context_binding: Option<(Seq<char>, int)>,
    pub singleton: Option<Seq<char>>,
    pub receiver_depth: int,
    pub current: bool,
}

impl View for ImplicitReceiverSelection {
    type V = ImplicitReceiverView;

    open spec fn view(&self) -> ImplicitReceiverView {
        ImplicitReceiverView {
            context_binding: match self.context_binding {
                Some(binding) => Some((binding.0@, binding.1 as int)),
                None => None,
            },
            singleton: option_view(self.singleton),
            receiver_depth: self.receiver_depth as int,
            current: self.current,
        }
    }
}

impl Clone for ImplicitReceiverSelection {
    fn clone(&self) -> (copy: Self)
        ensures
            copy@ == self@,
    {
        ImplicitReceiverSelection {
            context_binding: match &self.context_binding {
                Some(binding) => Some((binding.0.clone(), binding.1)),
                None => None,
            },
            singleton: match &self.singleton {
                Some(name) => Some(name.clone()),
                None => None,
            },
            receiver_depth: self.receiver_depth,
            current: self.current,
        }
    }
}

impl PartialEq for ImplicitReceiverSelection {
    fn eq(&self, other: &Self) -> (same: bool) {
        let same_binding = match (&self.context_binding, &other.context_binding) {
            (Some(left), Some(right)) => left.1 == right.1 && same_text(
                left.0.as_str(),
                right.0.as_str(),
            ),
            (None, None) => true,
            _ => false,
        };
        let same_singleton = match (&self.singleton, &other.singleton) {
            (Some(left), Some(right)) => left == right,
            (None, None) => true,
            _ => false,
        };
        same_binding && same_singleton && self.receiver_depth == other.receiver_depth
            && self.current == other.current
    }
}

impl vstd::std_specs::cmp::PartialEqSpecImpl for ImplicitReceiverSelection {
    open spec fn obeys_eq_spec() -> bool {
        true
    }

    open spec fn eq_spec(&self, other: &Self) -> bool {
        self@ == other@
    }
}

/// The source of one context argument.
#[derive(Debug)]
pub enum ResolvedContextArgument {
    /// The binding `name`, past `shadow_depth` inner bindings of the same name.
    Binding { name: String, shadow_depth: usize },
    ImplicitReceiver(ImplicitReceiverSelection),
}

/// The model of a [`ResolvedContextArgument`].
pub enum ContextArgumentView {
    Binding { name: Seq<char>, shadow_depth: int },
    ImplicitReceiver(ImplicitReceiverView),
}

impl View for ResolvedContextArgument {
    type V = ContextArgumentView;

    open spec fn view(&self) -> ContextArgumentView {
        match self {
            ResolvedContextArgument::Binding { name, shadow_depth } => {
                ContextArgumentView::Binding { name: name@, shadow_depth: *shadow_depth as int }
            },
            ResolvedContextArgument::ImplicitReceiver(selection) => {
                ContextArgumentView::ImplicitReceiver(selection@)
            },
        }
    }
}

impl PartialEq for ResolvedContextArgument {
    fn eq(&self, other: &Self) -> (same: bool) {
        match (self, other) {
            (
                ResolvedContextArgument::Binding { name: left, shadow_depth: left_depth },
                ResolvedContextArgument::Binding { name: right, shadow_depth: right_depth },
            ) => *left_depth == *right_depth && same_text(left.as_str(), right.as_str()),
            (
                ResolvedContextArgument::ImplicitReceiver(left),
                ResolvedContextArgument::ImplicitReceiver(right),
            ) => left == right,
            _ => false,
        }
    }
}

impl vstd::std_specs::cmp::PartialEqSpecImpl for ResolvedContextArgument {
    open spec fn obeys_eq_spec() -> bool {
        true
    }

    open spec fn eq_spec(&self, other: &Self) -> bool {
        self@ == other@
    }
}

/// What every selected callable carries.
#[derive(Debug)]
pub struct SelectedCallable {
    pub generic_sig: Option<GenericSig>,
    pub intrinsic: Option<CompilerIntrinsic>,
}

/// A call of a local function.
#[derive(Debug)]
pub struct LocalCall {
    pub stmt_id: StmtId,
    pub context_args: Vec<ResolvedContextArgument>,
    pub generic_sig: Option<GenericSig>,
}

/// The callable that a call was resolved to.
#[derive(Debug)]
#[allow(inconsistent_fields)]
pub enum ResolvedCall {
    Member(SelectedCallable),
    Companion(SelectedCallable),
    /// A top-level function. A context argument that the source passes itself has no source here.
    TopLevel { callable: SelectedCallable, context_args: Vec<Option<ResolvedContextArgument>> },
    Extension { callable: SelectedCallable, context_args: Vec<ResolvedContextArgument> },
    MemberExtension {
        callable: SelectedCallable,
        dispatch_receiver: ImplicitReceiverSelection,
        context_args: Vec<Option<ResolvedContextArgument>>,
    },
    LocalFunction(LocalCall),
}

impl ResolvedCall {
    /// The builtin operation that the selected callable stands for.
    pub open spec fn intrinsic(self) -> Option<CompilerIntrinsic> {
        match self {
            ResolvedCall::Member(callable) => callable.intrinsic,
            ResolvedCall::Companion(callable) => callable.intrinsic,
            ResolvedCall::TopLevel { callable, .. } => callable.intrinsic,
            ResolvedCall::Extension { callable, .. } => callable.intrinsic,
            ResolvedCall::MemberExtension { callable, .. } => callable.intrinsic,
            ResolvedCall::LocalFunction(_) => None,
        }
    }

    /// The builtin operation that the selected callable stands for.
    pub fn compiler_intrinsic(&self) -> (intrinsic: Option<CompilerIntrinsic>)
        ensures
            intrinsic == self.intrinsic(),
    {
        match self {
            ResolvedCall::Member(callable) => callable.intrinsic,
            ResolvedCall::Companion(callable) => callable.intrinsic,
            ResolvedCall::TopLevel { callable, .. } => callable.intrinsic,
            ResolvedCall::Extension { callable, .. } => callable.intrinsic,
            ResolvedCall::MemberExtension { callable, .. } => callable.intrinsic,
            ResolvedCall::LocalFunction(_) => None,
        }
    }
}

/// A value that a lifted local function captures.
#[derive(Debug)]
pub struct LocalCapture {
    pub name: String,
}

/// How a statement is lowered.
#[derive(Debug)]
pub enum StmtLowering {
    /// A local function, lifted with its captures.
    LocalFunction(Vec<LocalCapture>),
    Other,
}

} // verus!
