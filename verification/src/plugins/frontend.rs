//! What plugins see of a class, and what they add to it, before bodies are checked.

use vstd::prelude::*;

use crate::ast::ExprId;
use crate::libraries::{GenericSig, GenericSigView, InlineKind, TypeKind, Visibility};
use crate::names::TypeName;
use crate::text::{option_view, views};
use crate::types::{Ty, TyView};

verus! {

/// A stretch of source text.
#[derive(Clone, Copy, Debug, PartialEq, Eq, Structural)]
pub struct Span {
    pub lo: u32,
    pub hi: u32,
}

impl Span {
    pub fn new(lo: u32, hi: u32) -> (span: Span)
        ensures
            span == (Span { lo, hi }),
    {
        Span { lo, hi }
    }
}

/// How a type parameter varies.
#[derive(Clone, Copy, Debug, PartialEq, Eq, Structural)]
pub enum TypeVariance {
    Invariant,
    In,
    Out,
}

/// The type parameters of a class.
#[derive(Debug)]
pub struct TypeParameters {
    pub names: Vec<String>,
    pub bounds: Vec<Ty>,
    pub variances: Vec<TypeVariance>,
}

impl TypeParameters {
    pub fn new(names: Vec<String>, bounds: Vec<Ty>, variances: Vec<TypeVariance>) -> (out: Self)
        ensures
            out == (TypeParameters { names, bounds, variances }),
    {
        TypeParameters { names, bounds, variances }
    }

    /// Whether every parameter has its bound.
    pub open spec fn well_formed(self) -> bool {
        self.names@.len() == self.bounds@.len()
    }
}

impl Default for TypeParameters {
    fn default() -> (out: Self)
        ensures
            out.names@ == Seq::<String>::empty(),
            out.bounds@ == Seq::<Ty>::empty(),
            out.variances@ == Seq::<TypeVariance>::empty(),
    {
        TypeParameters { names: Vec::new(), bounds: Vec::new(), variances: Vec::new() }
    }
}

/// A class as the plugins see it while declarations are generated.
#[derive(Debug)]
pub struct FrontendClassContext<'a> {
    pub classifier: TypeName,
    pub companion: Option<TypeName>,
    pub kind: TypeKind,
    pub is_sealed: bool,
    pub type_parameters: &'a TypeParameters,
    pub annotations: &'a [TypeName],
    /// The class literals among the arguments of annotations, each with the position of its
    /// annotation.
    pub annotation_class_arguments: &'a [(u32, TypeName)],
}

/// A property as the plugins see it while a class is checked.
#[derive(Debug)]
pub struct FrontendPropertyFacts {
    pub annotations: Vec<TypeName>,
    pub has_backing_field: bool,
    pub has_initializer: bool,
    pub is_lateinit: bool,
    pub declaration_span: Span,
}

/// A class as the plugins see it while it is checked.
#[derive(Debug)]
pub struct FrontendClassCheckContext<'a> {
    pub kind: TypeKind,
    pub annotations: &'a [TypeName],
    pub annotation_class_arguments: &'a [(u32, TypeName)],
    pub properties: &'a [FrontendPropertyFacts],
}

/// A complaint of a plugin.
#[derive(Clone, Copy, Debug, PartialEq, Eq)]
pub struct FrontendPluginDiagnostic {
    pub span: Span,
    pub message: &'static str,
}

/// Where a generated member is declared.
#[derive(Clone, Copy, Debug, PartialEq, Eq, Structural)]
pub enum FrontendCallableOwner {
    Classifier,
    Companion,
}

/// An operation of a plugin that calls of a member stand for.
#[derive(Clone, Copy, Debug, PartialEq, Eq)]
pub struct PluginExpressionDeclaration {
    pub plugin: &'static str,
    pub operation: &'static str,
}

/// A call that the frontend has resolved and whose arguments it has mapped to parameters.
#[derive(Debug)]
pub struct FrontendSelectedCall {
    pub owner: TypeName,
    pub name: String,
    pub inline: InlineKind,
    pub generic_sig: Option<GenericSig>,
    pub params: Vec<Ty>,
    pub explicit_receiver: Option<(ExprId, Ty)>,
    pub implicit_receiver: Option<Ty>,
    /// For each parameter, the argument given to it.
    pub argument_slots: Vec<Option<ExprId>>,
    /// For each type parameter, the argument found for it.
    pub type_arguments: Vec<Option<Ty>>,
}

/// An operation of a plugin that stands for a call.
#[derive(Debug)]
pub struct PluginExpressionPlan {
    pub plugin: &'static str,
    pub operation: &'static str,
    pub data: Vec<TypeName>,
    pub types: Vec<Ty>,
    /// Whether the receiver is the implicit one, and not among the operands.
    pub implicit_receiver: bool,
    pub operands: Vec<(ExprId, Ty)>,
}

/// The model of a planned operation.
#[verifier::ext_equal]
pub struct PluginExpressionPlanView {
    pub plugin: Seq<char>,
    pub operation: Seq<char>,
    pub data: Seq<Seq<char>>,
    pub types: Seq<TyView>,
    pub implicit_receiver: bool,
    pub operands: Seq<(ExprId, TyView)>,
}

impl View for PluginExpressionPlan {
    type V = PluginExpressionPlanView;

    open spec fn view(&self) -> PluginExpressionPlanView {
        PluginExpressionPlanView {
            plugin: self.plugin@,
            operation: self.operation@,
            data: views(self.data@),
            types: views(self.types@),
            implicit_receiver: self.implicit_receiver,
            operands: Seq::new(
                self.operands@.len(),
                |k: int| (self.operands@[k].0, self.operands@[k].1@),
            ),
        }
    }
}

/// A generated member.
#[derive(Debug)]
pub struct FrontendCallable {
    pub owner: FrontendCallableOwner,
    pub name: String,
    pub params: Vec<Ty>,
    pub param_names: Vec<String>,
    pub ret: Ty,
    pub generic_sig: Option<GenericSig>,
    pub plugin_expression: Option<PluginExpressionDeclaration>,
}

/// The model of a generated member.
pub struct FrontendCallableView {
    pub owner: FrontendCallableOwner,
    pub name: Seq<char>,
    pub params: Seq<TyView>,
    pub param_names: Seq<Seq<char>>,
    pub ret: TyView,
    pub generic_sig: Option<GenericSigView>,
    pub plugin_expression: Option<(Seq<char>, Seq<char>)>,
}

impl View for FrontendCallable {
    type V = FrontendCallableView;

    open spec fn view(&self) -> FrontendCallableView {
        FrontendCallableView {
            owner: self.owner,
            name: self.name@,
            params: views(self.params@),
            param_names: views(self.param_names@),
            ret: self.ret@,
            generic_sig: option_view(self.generic_sig),
            plugin_expression: match self.plugin_expression {
                Some(declaration) => Some((declaration.plugin@, declaration.operation@)),
                None => None,
            },
        }
    }
}

/// Why a classifier was generated.
#[derive(Clone, Copy, Debug, PartialEq, Eq, Structural)]
pub enum GeneratedClassifierPurpose {
    SerializationSerializer,
}

/// The kind of a generated classifier.
#[derive(Clone, Copy, Debug, PartialEq, Eq, Structural)]
pub enum GeneratedClassifierKind {
    Class,
    Object,
}

/// A generated classifier, published before it exists.
#[derive(Debug, PartialEq)]
pub struct GeneratedClassifierFact {
    pub classifier: TypeName,
    pub lexical_owner: TypeName,
    pub purpose: GeneratedClassifierPurpose,
    pub source_name: String,
    pub visibility: Visibility,
    pub kind: GeneratedClassifierKind,
    pub is_abstract: bool,
    pub is_final: bool,
    pub captures_outer: bool,
    pub compiler_generated: bool,
}

/// The model of a generated classifier.
pub struct GeneratedClassifierFactView {
    pub classifier: Seq<char>,
    pub lexical_owner: Seq<char>,
    pub purpose: GeneratedClassifierPurpose,
    pub source_name: Seq<char>,
    pub visibility: Visibility,
    pub kind: GeneratedClassifierKind,
    pub is_abstract: bool,
    pub is_final: bool,
    pub captures_outer: bool,
    pub compiler_generated: bool,
}

impl View for GeneratedClassifierFact {
    type V = GeneratedClassifierFactView;

    open spec fn view(&self) -> GeneratedClassifierFactView {
        GeneratedClassifierFactView {
            classifier: self.classifier@,
            lexical_owner: self.lexical_owner@,
            purpose: self.purpose,
            source_name: self.source_name@,
            visibility: self.visibility,
            kind: self.kind,
            is_abstract: self.is_abstract,
            is_final: self.is_final,
            captures_outer: self.captures_outer,
            compiler_generated: self.compiler_generated,
        }
    }
}

} // verus!
