//! Declarations as their providers describe them.

use vstd::prelude::*;

use crate::kt_string::KtString;
use crate::model::{
    copy_all, copy_lists, copy_optional, copy_plain, deep_views, same_all, same_flags, same_lists,
    same_optional, Modelled,
};
use crate::names::TypeName;
use crate::text::{option_view, views};
use crate::types::{Ty, TyView};

verus! {

broadcast use crate::text::group_views;

#[derive(Clone, Copy, Debug, PartialEq, Eq, Structural)]
pub enum PrimitiveBinaryIntrinsic {
    Add,
    Subtract,
    Multiply,
    Divide,
    Remainder,
}

/// A builtin operation that a provider ties to a callable.
#[derive(Clone, Copy, Debug, PartialEq, Eq, Structural)]
pub enum CompilerIntrinsic {
    PrimitiveBinary(PrimitiveBinaryIntrinsic),
    PrimitiveCompare,
    StringPlus,
    NumericConversion,
    UnsignedCompare,
}

/// Who may use a declaration.
#[derive(Clone, Copy, Debug, PartialEq, Eq, Structural)]
pub enum Visibility {
    Public,
    Protected,
    Internal,
    Private,
    PackagePrivate,
}

/// How a function is reached.
#[derive(Clone, Copy, Debug, PartialEq, Eq, Structural)]
pub enum FnKind {
    TopLevel,
    Member,
    Extension,
    Constructor,
}

/// How a property is reached.
#[derive(Clone, Copy, Debug, PartialEq, Eq, Structural)]
pub enum PropKind {
    TopLevel,
    Member,
    Extension,
}

/// Whether a function is inlined.
#[derive(Clone, Copy, Debug, PartialEq, Eq, Structural)]
pub enum InlineKind {
    NotInline,
    CanInline,
    MustInline,
}

impl InlineKind {
    /// Whether calls may be replaced by the body.
    pub open spec fn inlines(self) -> bool {
        self != InlineKind::NotInline
    }

    pub fn can_inline(self) -> (yes: bool)
        ensures
            yes == self.inlines(),
    {
        self != InlineKind::NotInline
    }
}

/// How a call of a member reaches it.
#[derive(Clone, Copy, Debug, PartialEq, Eq, Structural)]
pub enum MemberRealization {
    Dispatch,
    Direct,
}

/// How the result of a generic call is read.
#[derive(Clone, Copy, Debug, PartialEq, Eq, Structural)]
pub enum GenericReturnPolicy {
    Exact,
    Flexible,
}

/// What a classifier is declared as.
#[derive(Clone, Copy, Debug, PartialEq, Eq, Structural)]
pub enum TypeKind {
    Class,
    Interface,
    Object,
    Enum,
    Annotation,
}

/// The modifiers of a function.
#[derive(Clone, Copy, Debug, PartialEq, Eq, Structural)]
pub struct FnFlags {
    pub operator: bool,
    pub inline: InlineKind,
    pub suspend: bool,
    pub is_abstract: bool,
}

impl FnFlags {
    /// No modifier.
    pub fn plain() -> (flags: FnFlags)
        ensures
            flags == (FnFlags {
                operator: false,
                inline: InlineKind::NotInline,
                suspend: false,
                is_abstract: false,
            }),
    {
        FnFlags { operator: false, inline: InlineKind::NotInline, suspend: false, is_abstract: false }
    }
}

/// Who declares a callable.
#[derive(Debug)]
pub enum Origin {
    Library,
    Module { facade: TypeName },
}

/// The model of an [`Origin`].
pub enum OriginView {
    Library,
    Module { facade: Seq<char> },
}

impl View for Origin {
    type V = OriginView;

    open spec fn view(&self) -> OriginView {
        match self {
            Origin::Library => OriginView::Library,
            Origin::Module { facade } => OriginView::Module { facade: facade@ },
        }
    }
}

impl Modelled for Origin {
    fn duplicate(&self) -> (copy: Self) {
        match self {
            Origin::Library => Origin::Library,
            Origin::Module { facade } => Origin::Module { facade: facade.duplicate() },
        }
    }

    fn same(&self, other: &Self) -> (same: bool) {
        match (self, other) {
            (Origin::Library, Origin::Library) => true,
            (Origin::Module { facade: left }, Origin::Module { facade: right }) => left.same(right),
            _ => false,
        }
    }
}

/// The value of a compile-time constant. A floating-point value is held by its bits.
#[derive(Debug)]
pub enum LibConst {
    Int(i32),
    Long(i64),
    Float(u32),
    Double(u64),
    Str(KtString),
}

/// The model of a [`LibConst`].
pub enum LibConstView {
    Int(i32),
    Long(i64),
    Float(u32),
    Double(u64),
    Str(Seq<u16>),
}

impl View for LibConst {
    type V = LibConstView;

    open spec fn view(&self) -> LibConstView {
        match self {
            LibConst::Int(value) => LibConstView::Int(*value),
            LibConst::Long(value) => LibConstView::Long(*value),
            LibConst::Float(bits) => LibConstView::Float(*bits),
            LibConst::Double(bits) => LibConstView::Double(*bits),
            LibConst::Str(text) => LibConstView::Str(text@),
        }
    }
}

impl Modelled for LibConst {
    fn duplicate(&self) -> (copy: Self) {
        match self {
            LibConst::Int(value) => LibConst::Int(*value),
            LibConst::Long(value) => LibConst::Long(*value),
            LibConst::Float(bits) => LibConst::Float(*bits),
            LibConst::Double(bits) => LibConst::Double(*bits),
            LibConst::Str(text) => LibConst::Str(text.clone()),
        }
    }

    fn same(&self, other: &Self) -> (same: bool) {
        match (self, other) {
            (LibConst::Int(left), LibConst::Int(right)) => *left == *right,
            (LibConst::Long(left), LibConst::Long(right)) => *left == *right,
            (LibConst::Float(left), LibConst::Float(right)) => *left == *right,
            (LibConst::Double(left), LibConst::Double(right)) => *left == *right,
            (LibConst::Str(left), LibConst::Str(right)) => *left == *right,
            _ => false,
        }
    }
}

/// A compile-time constant with its semantic type.
#[derive(Debug)]
pub struct LibraryConst {
    pub ty: Ty,
    pub value: LibConst,
}

/// The model of a [`LibraryConst`].
pub struct LibraryConstView {
    pub ty: TyView,
    pub value: LibConstView,
}

impl View for LibraryConst {
    type V = LibraryConstView;

    open spec fn view(&self) -> LibraryConstView {
        LibraryConstView {
            ty: self.ty@,
            value: self.value@,
        }
    }
}

impl Modelled for LibraryConst {
    fn duplicate(&self) -> (copy: Self) {
        LibraryConst {
            ty: self.ty.duplicate(),
            value: self.value.duplicate(),
        }
    }

    fn same(&self, other: &Self) -> (same: bool) {
        self.ty.same(&other.ty)
            && self.value.same(&other.value)
    }
}

/// A generic signature with its formals symbolic.
#[derive(Debug)]
pub struct GenericSig {
    pub formals: Vec<String>,
    pub formal_bounds: Vec<Vec<Ty>>,
    pub receiver: Option<Ty>,
    pub params: Vec<Ty>,
    pub ret: Ty,
    pub return_policy: GenericReturnPolicy,
}

/// The model of a [`GenericSig`].
pub struct GenericSigView {
    pub formals: Seq<Seq<char>>,
    pub formal_bounds: Seq<Seq<TyView>>,
    pub receiver: Option<TyView>,
    pub params: Seq<TyView>,
    pub ret: TyView,
    pub return_policy: GenericReturnPolicy,
}

impl View for GenericSig {
    type V = GenericSigView;

    open spec fn view(&self) -> GenericSigView {
        GenericSigView {
            formals: views(self.formals@),
            formal_bounds: deep_views(self.formal_bounds@),
            receiver: option_view(self.receiver),
            params: views(self.params@),
            ret: self.ret@,
            return_policy: self.return_policy,
        }
    }
}

impl Modelled for GenericSig {
    fn duplicate(&self) -> (copy: Self) {
        GenericSig {
            formals: copy_all(&self.formals),
            formal_bounds: copy_lists(&self.formal_bounds),
            receiver: copy_optional(&self.receiver),
            params: copy_all(&self.params),
            ret: self.ret.duplicate(),
            return_policy: self.return_policy,
        }
    }

    fn same(&self, other: &Self) -> (same: bool) {
        same_all(&self.formals, &other.formals)
            && same_lists(&self.formal_bounds, &other.formal_bounds)
            && same_optional(&self.receiver, &other.receiver)
            && same_all(&self.params, &other.params)
            && self.ret.same(&other.ret)
            && self.return_policy == other.return_policy
    }
}

/// What a call site can say about the parameters of a callable.
#[derive(Debug)]
pub struct CallSig {
    pub param_names: Vec<String>,
    /// Which parameters have a default value.
    pub param_defaults: Vec<bool>,
    /// The parameter that takes any number of arguments.
    pub vararg_index: Option<usize>,
}

/// The model of a [`CallSig`].
pub struct CallSigView {
    pub param_names: Seq<Seq<char>>,
    pub param_defaults: Seq<bool>,
    pub vararg_index: Option<usize>,
}

impl View for CallSig {
    type V = CallSigView;

    open spec fn view(&self) -> CallSigView {
        CallSigView {
            param_names: views(self.param_names@),
            param_defaults: self.param_defaults@,
            vararg_index: self.vararg_index,
        }
    }
}

impl Modelled for CallSig {
    fn duplicate(&self) -> (copy: Self) {
        CallSig {
            param_names: copy_all(&self.param_names),
            param_defaults: copy_plain(&self.param_defaults),
            vararg_index: self.vararg_index,
        }
    }

    fn same(&self, other: &Self) -> (same: bool) {
        same_all(&self.param_names, &other.param_names)
            && same_flags(&self.param_defaults, &other.param_defaults)
            && self.vararg_index == other.vararg_index
    }
}

impl CallSigView {
    /// Whether a parameter has a default value.
    pub open spec fn has_default(self, index: int) -> bool {
        0 <= index < self.param_defaults.len() && self.param_defaults[index]
    }
}

impl CallSig {
    /// Whether a parameter has a default value.
    pub fn param_has_default(&self, index: usize) -> (has: bool)
        ensures
            has == self@.has_default(index as int),
    {
        index < self.param_defaults.len() && self.param_defaults[index]
    }

    /// A signature without names, defaults or varargs.
    pub fn plain() -> (sig: CallSig)
        ensures
            sig@ == (CallSigView {
                param_names: Seq::empty(),
                param_defaults: Seq::empty(),
                vararg_index: None,
            }),
    {
        CallSig { param_names: Vec::new(), param_defaults: Vec::new(), vararg_index: None }
    }
}

/// A callable with its physical realization.
#[derive(Debug)]
pub struct LibraryCallable {
    pub owner: TypeName,
    pub name: String,
    pub params: Vec<Ty>,
    pub ret: Ty,
    pub physical_ret: Ty,
    pub descriptor: String,
    pub origin: Origin,
    pub inline: InlineKind,
    pub suspend: bool,
    pub is_abstract: bool,
    pub context_count: usize,
    pub equality_bound: Option<Ty>,
    pub source_receiver: Option<Ty>,
    pub generic_sig: Option<GenericSig>,
    pub intrinsic: Option<CompilerIntrinsic>,
}

/// The model of a [`LibraryCallable`].
pub struct LibraryCallableView {
    pub owner: Seq<char>,
    pub name: Seq<char>,
    pub params: Seq<TyView>,
    pub ret: TyView,
    pub physical_ret: TyView,
    pub descriptor: Seq<char>,
    pub origin: OriginView,
    pub inline: InlineKind,
    pub suspend: bool,
    pub is_abstract: bool,
    pub context_count: usize,
    pub equality_bound: Option<TyView>,
    pub source_receiver: Option<TyView>,
    pub generic_sig: Option<GenericSigView>,
    pub intrinsic: Option<CompilerIntrinsic>,
}

impl View for LibraryCallable {
    type V = LibraryCallableView;

    open spec fn view(&self) -> LibraryCallableView {
        LibraryCallableView {
            owner: self.owner@,
            name: self.name@,
            params: views(self.params@),
            ret: self.ret@,
            physical_ret: self.physical_ret@,
            descriptor: self.descriptor@,
            origin: self.origin@,
            inline: self.inline,
            suspend: self.suspend,
            is_abstract: self.is_abstract,
            context_count: self.context_count,
            equality_bound: option_view(self.equality_bound),
            source_receiver: option_view(self.source_receiver),
            generic_sig: option_view(self.generic_sig),
            intrinsic: self.intrinsic,
        }
    }
}

impl Modelled for LibraryCallable {
    fn duplicate(&self) -> (copy: Self) {
        LibraryCallable {
            owner: self.owner.duplicate(),
            name: self.name.duplicate(),
            params: copy_all(&self.params),
            ret: self.ret.duplicate(),
            physical_ret: self.physical_ret.duplicate(),
            descriptor: self.descriptor.duplicate(),
            origin: self.origin.duplicate(),
            inline: self.inline,
            suspend: self.suspend,
            is_abstract: self.is_abstract,
            context_count: self.context_count,
            equality_bound: copy_optional(&self.equality_bound),
            source_receiver: copy_optional(&self.source_receiver),
            generic_sig: copy_optional(&self.generic_sig),
            intrinsic: self.intrinsic,
        }
    }

    fn same(&self, other: &Self) -> (same: bool) {
        self.owner.same(&other.owner)
            && self.name.same(&other.name)
            && same_all(&self.params, &other.params)
            && self.ret.same(&other.ret)
            && self.physical_ret.same(&other.physical_ret)
            && self.descriptor.same(&other.descriptor)
            && self.origin.same(&other.origin)
            && self.inline == other.inline
            && self.suspend == other.suspend
            && self.is_abstract == other.is_abstract
            && self.context_count == other.context_count
            && same_optional(&self.equality_bound, &other.equality_bound)
            && same_optional(&self.source_receiver, &other.source_receiver)
            && same_optional(&self.generic_sig, &other.generic_sig)
            && self.intrinsic == other.intrinsic
    }
}

impl LibraryCallable {
    /// A callable of a compiled library.
    pub fn library(
        owner: &TypeName,
        name: &str,
        params: Vec<Ty>,
        ret: Ty,
        physical_ret: Ty,
        descriptor: &str,
    ) -> (callable: LibraryCallable)
        ensures
            callable@ == (LibraryCallableView {
                owner: owner@,
                name: name@,
                params: views(params@),
                ret: ret@,
                physical_ret: physical_ret@,
                descriptor: descriptor@,
                origin: OriginView::Library,
                inline: InlineKind::NotInline,
                suspend: false,
                is_abstract: false,
                context_count: 0,
                equality_bound: None,
                source_receiver: None,
                generic_sig: None,
                intrinsic: None,
            }),
    {
        LibraryCallable {
            owner: owner.clone(),
            name: name.to_owned(),
            params,
            ret,
            physical_ret,
            descriptor: descriptor.to_owned(),
            origin: Origin::Library,
            inline: InlineKind::NotInline,
            suspend: false,
            is_abstract: false,
            context_count: 0,
            equality_bound: None,
            source_receiver: None,
            generic_sig: None,
            intrinsic: None,
        }
    }
}

/// A member of a classifier.
#[derive(Debug)]
pub struct LibraryMember {
    pub name: String,
    pub params: Vec<Ty>,
    pub ret: Ty,
    pub descriptor: String,
    pub owner: Option<TypeName>,
    pub visibility: Visibility,
}

/// The model of a [`LibraryMember`].
pub struct LibraryMemberView {
    pub name: Seq<char>,
    pub params: Seq<TyView>,
    pub ret: TyView,
    pub descriptor: Seq<char>,
    pub owner: Option<Seq<char>>,
    pub visibility: Visibility,
}

impl View for LibraryMember {
    type V = LibraryMemberView;

    open spec fn view(&self) -> LibraryMemberView {
        LibraryMemberView {
            name: self.name@,
            params: views(self.params@),
            ret: self.ret@,
            descriptor: self.descriptor@,
            owner: option_view(self.owner),
            visibility: self.visibility,
        }
    }
}

impl Modelled for LibraryMember {
    fn duplicate(&self) -> (copy: Self) {
        LibraryMember {
            name: self.name.duplicate(),
            params: copy_all(&self.params),
            ret: self.ret.duplicate(),
            descriptor: self.descriptor.duplicate(),
            owner: copy_optional(&self.owner),
            visibility: self.visibility,
        }
    }

    fn same(&self, other: &Self) -> (same: bool) {
        self.name.same(&other.name)
            && same_all(&self.params, &other.params)
            && self.ret.same(&other.ret)
            && self.descriptor.same(&other.descriptor)
            && same_optional(&self.owner, &other.owner)
            && self.visibility == other.visibility
    }
}

impl LibraryMember {
    /// A public member.
    pub fn new(name: String, params: Vec<Ty>, ret: Ty, descriptor: String) -> (member: LibraryMember)
        ensures
            member@ == (LibraryMemberView {
                name: name@,
                params: views(params@),
                ret: ret@,
                descriptor: descriptor@,
                owner: None,
                visibility: Visibility::Public,
            }),
    {
        LibraryMember { name, params, ret, descriptor, owner: None, visibility: Visibility::Public }
    }
}

/// One overload of a function.
#[derive(Debug)]
pub struct FunctionInfo {
    pub kind: FnKind,
    pub receiver: Option<Ty>,
    /// How far up the hierarchy of the receiver the function is declared.
    pub receiver_rank: usize,
    pub companion_extension: bool,
    pub flags: FnFlags,
    pub visibility: Visibility,
    pub generic_sig: Option<GenericSig>,
    pub projected_return_hazard: bool,
    pub call_sig: CallSig,
    pub default_values: Vec<LibraryConst>,
    pub context_count: usize,
    pub annotations: Vec<TypeName>,
    pub callable: LibraryCallable,
}

/// The model of a [`FunctionInfo`].
pub struct FunctionInfoView {
    pub kind: FnKind,
    pub receiver: Option<TyView>,
    pub receiver_rank: usize,
    pub companion_extension: bool,
    pub flags: FnFlags,
    pub visibility: Visibility,
    pub generic_sig: Option<GenericSigView>,
    pub projected_return_hazard: bool,
    pub call_sig: CallSigView,
    pub default_values: Seq<LibraryConstView>,
    pub context_count: usize,
    pub annotations: Seq<Seq<char>>,
    pub callable: LibraryCallableView,
}

impl View for FunctionInfo {
    type V = FunctionInfoView;

    open spec fn view(&self) -> FunctionInfoView {
        FunctionInfoView {
            kind: self.kind,
            receiver: option_view(self.receiver),
            receiver_rank: self.receiver_rank,
            companion_extension: self.companion_extension,
            flags: self.flags,
            visibility: self.visibility,
            generic_sig: option_view(self.generic_sig),
            projected_return_hazard: self.projected_return_hazard,
            call_sig: self.call_sig@,
            default_values: views(self.default_values@),
            context_count: self.context_count,
            annotations: views(self.annotations@),
            callable: self.callable@,
        }
    }
}

impl Modelled for FunctionInfo {
    fn duplicate(&self) -> (copy: Self) {
        FunctionInfo {
            kind: self.kind,
            receiver: copy_optional(&self.receiver),
            receiver_rank: self.receiver_rank,
            companion_extension: self.companion_extension,
            flags: self.flags,
            visibility: self.visibility,
            generic_sig: copy_optional(&self.generic_sig),
            projected_return_hazard: self.projected_return_hazard,
            call_sig: self.call_sig.duplicate(),
            default_values: copy_all(&self.default_values),
            context_count: self.context_count,
            annotations: copy_all(&self.annotations),
            callable: self.callable.duplicate(),
        }
    }

    fn same(&self, other: &Self) -> (same: bool) {
        self.kind == other.kind
            && same_optional(&self.receiver, &other.receiver)
            && self.receiver_rank == other.receiver_rank
            && self.companion_extension == other.companion_extension
            && self.flags == other.flags
            && self.visibility == other.visibility
            && same_optional(&self.generic_sig, &other.generic_sig)
            && self.projected_return_hazard == other.projected_return_hazard
            && self.call_sig.same(&other.call_sig)
            && same_all(&self.default_values, &other.default_values)
            && self.context_count == other.context_count
            && same_all(&self.annotations, &other.annotations)
            && self.callable.same(&other.callable)
    }
}

impl FunctionInfoView {
    /// Whether the function is an extension.
    pub open spec fn is_extension(self) -> bool {
        self.kind == FnKind::Extension
    }

    /// The value parameters: those of the callable without the receiver of an extension.
    pub open spec fn semantic_params(self) -> Seq<TyView> {
        if self.is_extension() && self.callable.params.len() > 0 {
            self.callable.params.skip(1)
        } else {
            self.callable.params
        }
    }
}

impl FunctionInfo {
    /// Whether the function is an extension.
    pub fn is_extension(&self) -> (yes: bool)
        ensures
            yes == self@.is_extension(),
    {
        self.kind == FnKind::Extension
    }

    /// The value parameters: those of the callable without the receiver of an extension.
    pub fn semantic_params(&self) -> (params: Vec<Ty>)
        ensures
            views(params@) == self@.semantic_params(),
    {
        let mut params = copy_all(&self.callable.params);
        if self.is_extension() && params.len() > 0 {
            let _ = params.remove(0);
            assert(views(params@) =~= self@.semantic_params());
        }
        params
    }

    /// A member of a classifier as a function.
    pub fn classifier_member(kind: FnKind, owner: &TypeName, member: LibraryMember) -> (function: FunctionInfo)
        ensures
            function@ == (FunctionInfoView {
                kind,
                receiver: Some(TyView::Obj(owner@, Seq::empty())),
                receiver_rank: 0,
                companion_extension: false,
                flags: FnFlags {
                    operator: false,
                    inline: InlineKind::NotInline,
                    suspend: false,
                    is_abstract: false,
                },
                visibility: member.visibility,
                generic_sig: None,
                projected_return_hazard: false,
                call_sig: CallSigView {
                    param_names: Seq::empty(),
                    param_defaults: Seq::empty(),
                    vararg_index: None,
                },
                default_values: Seq::empty(),
                context_count: 0,
                annotations: Seq::empty(),
                callable: LibraryCallableView {
                    owner: match member.owner {
                        Some(declared) => declared@,
                        None => owner@,
                    },
                    name: member.name@,
                    params: views(member.params@),
                    ret: member.ret@,
                    physical_ret: member.ret@,
                    descriptor: member.descriptor@,
                    origin: OriginView::Library,
                    inline: InlineKind::NotInline,
                    suspend: false,
                    is_abstract: false,
                    context_count: 0,
                    equality_bound: None,
                    source_receiver: None,
                    generic_sig: None,
                    intrinsic: None,
                },
            }),
    {
        let declared = match &member.owner {
            Some(name) => name.clone(),
            None => owner.clone(),
        };
        let physical_ret = member.ret.clone();
        FunctionInfo {
            kind,
            receiver: Some(Ty::obj_name(owner)),
            receiver_rank: 0,
            companion_extension: false,
            flags: FnFlags::plain(),
            visibility: member.visibility,
            generic_sig: None,
            projected_return_hazard: false,
            call_sig: CallSig::plain(),
            default_values: Vec::new(),
            context_count: 0,
            annotations: Vec::new(),
            callable: LibraryCallable::library(
                &declared,
                member.name.as_str(),
                member.params,
                member.ret,
                physical_ret,
                member.descriptor.as_str(),
            ),
        }
    }
}

/// One overload of a property.
#[derive(Debug)]
pub struct PropertyInfo {
    pub name: String,
    pub kind: PropKind,
    pub receiver: Option<Ty>,
    pub ty: Ty,
    pub context_count: usize,
    pub getter: LibraryCallable,
    pub setter: Option<LibraryCallable>,
    pub setter_visibility: Visibility,
    pub is_const: bool,
    pub compile_time_constant: Option<LibraryConst>,
    pub visibility: Visibility,
    pub owner: TypeName,
    pub receiver_rank: usize,
}

/// The model of a [`PropertyInfo`].
pub struct PropertyInfoView {
    pub name: Seq<char>,
    pub kind: PropKind,
    pub receiver: Option<TyView>,
    pub ty: TyView,
    pub context_count: usize,
    pub getter: LibraryCallableView,
    pub setter: Option<LibraryCallableView>,
    pub setter_visibility: Visibility,
    pub is_const: bool,
    pub compile_time_constant: Option<LibraryConstView>,
    pub visibility: Visibility,
    pub owner: Seq<char>,
    pub receiver_rank: usize,
}

impl View for PropertyInfo {
    type V = PropertyInfoView;

    open spec fn view(&self) -> PropertyInfoView {
        PropertyInfoView {
            name: self.name@,
            kind: self.kind,
            receiver: option_view(self.receiver),
            ty: self.ty@,
            context_count: self.context_count,
            getter: self.getter@,
            setter: option_view(self.setter),
            setter_visibility: self.setter_visibility,
            is_const: self.is_const,
            compile_time_constant: option_view(self.compile_time_constant),
            visibility: self.visibility,
            owner: self.owner@,
            receiver_rank: self.receiver_rank,
        }
    }
}

impl Modelled for PropertyInfo {
    fn duplicate(&self) -> (copy: Self) {
        PropertyInfo {
            name: self.name.duplicate(),
            kind: self.kind,
            receiver: copy_optional(&self.receiver),
            ty: self.ty.duplicate(),
            context_count: self.context_count,
            getter: self.getter.duplicate(),
            setter: copy_optional(&self.setter),
            setter_visibility: self.setter_visibility,
            is_const: self.is_const,
            compile_time_constant: copy_optional(&self.compile_time_constant),
            visibility: self.visibility,
            owner: self.owner.duplicate(),
            receiver_rank: self.receiver_rank,
        }
    }

    fn same(&self, other: &Self) -> (same: bool) {
        self.name.same(&other.name)
            && self.kind == other.kind
            && same_optional(&self.receiver, &other.receiver)
            && self.ty.same(&other.ty)
            && self.context_count == other.context_count
            && self.getter.same(&other.getter)
            && same_optional(&self.setter, &other.setter)
            && self.setter_visibility == other.setter_visibility
            && self.is_const == other.is_const
            && same_optional(&self.compile_time_constant, &other.compile_time_constant)
            && self.visibility == other.visibility
            && self.owner.same(&other.owner)
            && self.receiver_rank == other.receiver_rank
    }
}

/// The overloads of a function.
#[derive(Debug)]
pub struct FunctionSet {
    pub overloads: Vec<FunctionInfo>,
}

/// The model of a [`FunctionSet`].
pub struct FunctionSetView {
    pub overloads: Seq<FunctionInfoView>,
}

impl View for FunctionSet {
    type V = FunctionSetView;

    open spec fn view(&self) -> FunctionSetView {
        FunctionSetView {
            overloads: views(self.overloads@),
        }
    }
}

impl Modelled for FunctionSet {
    fn duplicate(&self) -> (copy: Self) {
        FunctionSet {
            overloads: copy_all(&self.overloads),
        }
    }

    fn same(&self, other: &Self) -> (same: bool) {
        same_all(&self.overloads, &other.overloads)
    }
}

/// The overloads of a property.
#[derive(Debug)]
pub struct PropertySet {
    pub overloads: Vec<PropertyInfo>,
}

/// The model of a [`PropertySet`].
pub struct PropertySetView {
    pub overloads: Seq<PropertyInfoView>,
}

impl View for PropertySet {
    type V = PropertySetView;

    open spec fn view(&self) -> PropertySetView {
        PropertySetView {
            overloads: views(self.overloads@),
        }
    }
}

impl Modelled for PropertySet {
    fn duplicate(&self) -> (copy: Self) {
        PropertySet {
            overloads: copy_all(&self.overloads),
        }
    }

    fn same(&self, other: &Self) -> (same: bool) {
        same_all(&self.overloads, &other.overloads)
    }
}

/// The functions and properties with one name.
#[derive(Debug)]
pub struct Callables {
    pub functions: FunctionSet,
    pub properties: PropertySet,
}

/// The model of a [`Callables`].
pub struct CallablesView {
    pub functions: FunctionSetView,
    pub properties: PropertySetView,
}

impl View for Callables {
    type V = CallablesView;

    open spec fn view(&self) -> CallablesView {
        CallablesView {
            functions: self.functions@,
            properties: self.properties@,
        }
    }
}

impl Modelled for Callables {
    fn duplicate(&self) -> (copy: Self) {
        Callables {
            functions: self.functions.duplicate(),
            properties: self.properties.duplicate(),
        }
    }

    fn same(&self, other: &Self) -> (same: bool) {
        self.functions.same(&other.functions)
            && self.properties.same(&other.properties)
    }
}

impl CallablesView {
    /// No callable.
    pub open spec fn nothing() -> CallablesView {
        CallablesView {
            functions: FunctionSetView { overloads: Seq::empty() },
            properties: PropertySetView { overloads: Seq::empty() },
        }
    }
}

impl Callables {
    /// No callable.
    pub fn nothing() -> (callables: Callables)
        ensures
            callables@ == CallablesView::nothing(),
    {
        Callables {
            functions: FunctionSet { overloads: Vec::new() },
            properties: PropertySet { overloads: Vec::new() },
        }
    }
}

/// The callables that a classifier declares under one name.
#[derive(Debug)]
pub struct NamedCallables {
    pub name: String,
    pub callables: Callables,
}

/// The model of a [`NamedCallables`].
pub struct NamedCallablesView {
    pub name: Seq<char>,
    pub callables: CallablesView,
}

impl View for NamedCallables {
    type V = NamedCallablesView;

    open spec fn view(&self) -> NamedCallablesView {
        NamedCallablesView {
            name: self.name@,
            callables: self.callables@,
        }
    }
}

impl Modelled for NamedCallables {
    fn duplicate(&self) -> (copy: Self) {
        NamedCallables {
            name: self.name.duplicate(),
            callables: self.callables.duplicate(),
        }
    }

    fn same(&self, other: &Self) -> (same: bool) {
        self.name.same(&other.name)
            && self.callables.same(&other.callables)
    }
}

/// The shape of a classifier.
#[derive(Debug)]
pub struct LibraryType {
    pub is_kotlin: bool,
    pub access: Visibility,
    pub source_file: Option<u32>,
    pub kind: TypeKind,
    pub supertypes: Vec<Ty>,
    pub type_params: Vec<String>,
    pub type_param_bounds: Vec<Vec<Ty>>,
    pub constructors: Vec<LibraryMember>,
    pub members: Vec<LibraryMember>,
    pub companion: Vec<LibraryMember>,
    pub declared_callables: Vec<NamedCallables>,
    pub declared_callable_order: Vec<String>,
    pub companion_object: Option<TypeName>,
    pub value_underlying: Option<Ty>,
    pub alias_target: Option<TypeName>,
    pub enum_entries: Vec<String>,
    pub enum_entries_accessor: Option<LibraryMember>,
}

/// The model of a [`LibraryType`].
pub struct LibraryTypeView {
    pub is_kotlin: bool,
    pub access: Visibility,
    pub source_file: Option<u32>,
    pub kind: TypeKind,
    pub supertypes: Seq<TyView>,
    pub type_params: Seq<Seq<char>>,
    pub type_param_bounds: Seq<Seq<TyView>>,
    pub constructors: Seq<LibraryMemberView>,
    pub members: Seq<LibraryMemberView>,
    pub companion: Seq<LibraryMemberView>,
    pub declared_callables: Seq<NamedCallablesView>,
    pub declared_callable_order: Seq<Seq<char>>,
    pub companion_object: Option<Seq<char>>,
    pub value_underlying: Option<TyView>,
    pub alias_target: Option<Seq<char>>,
    pub enum_entries: Seq<Seq<char>>,
    pub enum_entries_accessor: Option<LibraryMemberView>,
}

impl View for LibraryType {
    type V = LibraryTypeView;

    open spec fn view(&self) -> LibraryTypeView {
        LibraryTypeView {
            is_kotlin: self.is_kotlin,
            access: self.access,
            source_file: self.source_file,
            kind: self.kind,
            supertypes: views(self.supertypes@),
            type_params: views(self.type_params@),
            type_param_bounds: deep_views(self.type_param_bounds@),
            constructors: views(self.constructors@),
            members: views(self.members@),
            companion: views(self.companion@),
            declared_callables: views(self.declared_callables@),
            declared_callable_order: views(self.declared_callable_order@),
            companion_object: option_view(self.companion_object),
            value_underlying: option_view(self.value_underlying),
            alias_target: option_view(self.alias_target),
            enum_entries: views(self.enum_entries@),
            enum_entries_accessor: option_view(self.enum_entries_accessor),
        }
    }
}

impl Modelled for LibraryType {
    fn duplicate(&self) -> (copy: Self) {
        LibraryType {
            is_kotlin: self.is_kotlin,
            access: self.access,
            source_file: self.source_file,
            kind: self.kind,
            supertypes: copy_all(&self.supertypes),
            type_params: copy_all(&self.type_params),
            type_param_bounds: copy_lists(&self.type_param_bounds),
            constructors: copy_all(&self.constructors),
            members: copy_all(&self.members),
            companion: copy_all(&self.companion),
            declared_callables: copy_all(&self.declared_callables),
            declared_callable_order: copy_all(&self.declared_callable_order),
            companion_object: copy_optional(&self.companion_object),
            value_underlying: copy_optional(&self.value_underlying),
            alias_target: copy_optional(&self.alias_target),
            enum_entries: copy_all(&self.enum_entries),
            enum_entries_accessor: copy_optional(&self.enum_entries_accessor),
        }
    }

    fn same(&self, other: &Self) -> (same: bool) {
        self.is_kotlin == other.is_kotlin
            && self.access == other.access
            && self.source_file == other.source_file
            && self.kind == other.kind
            && same_all(&self.supertypes, &other.supertypes)
            && same_all(&self.type_params, &other.type_params)
            && same_lists(&self.type_param_bounds, &other.type_param_bounds)
            && same_all(&self.constructors, &other.constructors)
            && same_all(&self.members, &other.members)
            && same_all(&self.companion, &other.companion)
            && same_all(&self.declared_callables, &other.declared_callables)
            && same_all(&self.declared_callable_order, &other.declared_callable_order)
            && same_optional(&self.companion_object, &other.companion_object)
            && same_optional(&self.value_underlying, &other.value_underlying)
            && same_optional(&self.alias_target, &other.alias_target)
            && same_all(&self.enum_entries, &other.enum_entries)
            && same_optional(&self.enum_entries_accessor, &other.enum_entries_accessor)
    }
}

impl LibraryType {
    /// Whether everyone may use the classifier.
    pub fn is_public(&self) -> (public: bool)
        ensures
            public == (self.access == Visibility::Public),
    {
        self.access == Visibility::Public
    }
}

} // verus!
