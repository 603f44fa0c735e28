//! Kotlin types as the checker sees them.

use vstd::prelude::*;

use crate::names::{qualified, TypeName};
use crate::text::{option_view, same_text, views};

verus! {

/// A semantic type.
#[derive(Debug)]
pub enum Ty {
    Unit,
    Nothing,
    Null,
    Error,
    Pending,
    Boolean,
    Byte,
    Short,
    Int,
    Long,
    UByte,
    UShort,
    UInt,
    ULong,
    Float,
    Double,
    Char,
    String,
    /// A classifier with its type arguments.
    Obj(TypeName, Vec<Ty>),
    /// A type parameter with its upper bound.
    TyParam(Box<String>, Box<Ty>),
    Nullable(Box<Ty>),
    /// A type whose nullability the platform does not say.
    PlatformNullable(Box<Ty>),
    InProjection(Box<Ty>),
    OutProjection(Box<Ty>),
    /// A star projection with the readable upper bound of the argument.
    StarProjection(Box<Ty>),
    Fun(Box<FnSig>),
}

/// The shape of a function type.
#[derive(Debug)]
pub struct FnSig {
    pub params: Vec<Ty>,
    pub ret: Ty,
    /// How many leading parameters are context parameters.
    pub context_count: usize,
    pub has_receiver: bool,
    pub suspend: bool,
}

/// The model of a [`Ty`].
pub enum TyView {
    Unit,
    Nothing,
    Null,
    Error,
    Pending,
    Boolean,
    Byte,
    Short,
    Int,
    Long,
    UByte,
    UShort,
    UInt,
    ULong,
    Float,
    Double,
    Char,
    String,
    Obj(Seq<char>, Seq<TyView>),
    TyParam(Seq<char>, Box<TyView>),
    Nullable(Box<TyView>),
    PlatformNullable(Box<TyView>),
    InProjection(Box<TyView>),
    OutProjection(Box<TyView>),
    StarProjection(Box<TyView>),
    Fun(Box<FnSigView>),
}

/// The model of a [`FnSig`].
pub struct FnSigView {
    pub params: Seq<TyView>,
    pub ret: TyView,
    pub context_count: int,
    pub has_receiver: bool,
    pub suspend: bool,
}

/// The model of a type.
pub open spec fn ty_view(ty: Ty) -> TyView
    decreases ty,
{
    match ty {
        Ty::Unit => TyView::Unit,
        Ty::Nothing => TyView::Nothing,
        Ty::Null => TyView::Null,
        Ty::Error => TyView::Error,
        Ty::Pending => TyView::Pending,
        Ty::Boolean => TyView::Boolean,
        Ty::Byte => TyView::Byte,
        Ty::Short => TyView::Short,
        Ty::Int => TyView::Int,
        Ty::Long => TyView::Long,
        Ty::UByte => TyView::UByte,
        Ty::UShort => TyView::UShort,
        Ty::UInt => TyView::UInt,
        Ty::ULong => TyView::ULong,
        Ty::Float => TyView::Float,
        Ty::Double => TyView::Double,
        Ty::Char => TyView::Char,
        Ty::String => TyView::String,
        Ty::Obj(name, arguments) => TyView::Obj(
            name@,
            Seq::new(
                arguments@.len(),
                |i: int|
                    if 0 <= i < arguments@.len() {
                        ty_view(arguments@[i])
                    } else {
                        TyView::Error
                    },
            ),
        ),
        Ty::TyParam(name, bound) => TyView::TyParam(name@, Box::new(ty_view(*bound))),
        Ty::Nullable(inner) => TyView::Nullable(Box::new(ty_view(*inner))),
        Ty::PlatformNullable(inner) => TyView::PlatformNullable(Box::new(ty_view(*inner))),
        Ty::InProjection(inner) => TyView::InProjection(Box::new(ty_view(*inner))),
        Ty::OutProjection(inner) => TyView::OutProjection(Box::new(ty_view(*inner))),
        Ty::StarProjection(inner) => TyView::StarProjection(Box::new(ty_view(*inner))),
        Ty::Fun(sig) => TyView::Fun(Box::new(fn_sig_view(*sig))),
    }
}

/// The model of a function shape.
pub open spec fn fn_sig_view(sig: FnSig) -> FnSigView
    decreases sig,
{
    FnSigView {
        params: Seq::new(
            sig.params@.len(),
            |i: int|
                if 0 <= i < sig.params@.len() {
                    ty_view(sig.params@[i])
                } else {
                    TyView::Error
                },
        ),
        ret: ty_view(sig.ret),
        context_count: sig.context_count as int,
        has_receiver: sig.has_receiver,
        suspend: sig.suspend,
    }
}

impl View for Ty {
    type V = TyView;

    open spec fn view(&self) -> TyView {
        ty_view(*self)
    }
}

impl View for FnSig {
    type V = FnSigView;

    open spec fn view(&self) -> FnSigView {
        fn_sig_view(*self)
    }
}

/// The model of a classifier type holds the models of its arguments, and the model of a function
/// type is the model of its shape.
pub broadcast proof fn lemma_ty_view(ty: Ty)
    ensures
        #![trigger ty_view(ty)]
        ty matches Ty::Obj(name, arguments) ==> ty_view(ty) == TyView::Obj(
            name@,
            views(arguments@),
        ),
        ty matches Ty::Fun(sig) ==> ty_view(ty) == TyView::Fun(
            Box::new(
                FnSigView {
                    params: views(sig.params@),
                    ret: ty_view(sig.ret),
                    context_count: sig.context_count as int,
                    has_receiver: sig.has_receiver,
                    suspend: sig.suspend,
                },
            ),
        ),
{
    match ty {
        Ty::Obj(_, arguments) => {
            assert(ty_view(ty)->Obj_1 =~= views(arguments@));
        },
        Ty::Fun(sig) => {
            lemma_fn_sig_view(*sig);
        },
        _ => {},
    }
}

/// The model of the parameters of a function type is the sequence of their models.
pub broadcast proof fn lemma_fn_sig_view(sig: FnSig)
    ensures
        #[trigger] fn_sig_view(sig) == (FnSigView {
            params: views(sig.params@),
            ret: ty_view(sig.ret),
            context_count: sig.context_count as int,
            has_receiver: sig.has_receiver,
            suspend: sig.suspend,
        }),
{
    assert(fn_sig_view(sig).params =~= views(sig.params@));
}

pub broadcast group group_ty_views {
    lemma_ty_view,
    lemma_fn_sig_view,
}

broadcast use crate::text::group_views;

impl Clone for Ty {
    fn clone(&self) -> (copy: Self)
        ensures
            copy@ == self@,
        decreases self,
    {
        proof {
            broadcast use group_ty_views;

        }
        match self {
            Ty::Unit => Ty::Unit,
            Ty::Nothing => Ty::Nothing,
            Ty::Null => Ty::Null,
            Ty::Error => Ty::Error,
            Ty::Pending => Ty::Pending,
            Ty::Boolean => Ty::Boolean,
            Ty::Byte => Ty::Byte,
            Ty::Short => Ty::Short,
            Ty::Int => Ty::Int,
            Ty::Long => Ty::Long,
            Ty::UByte => Ty::UByte,
            Ty::UShort => Ty::UShort,
            Ty::UInt => Ty::UInt,
            Ty::ULong => Ty::ULong,
            Ty::Float => Ty::Float,
            Ty::Double => Ty::Double,
            Ty::Char => Ty::Char,
            Ty::String => Ty::String,
            Ty::Obj(name, arguments) => {
                let mut copies: Vec<Ty> = Vec::new();
                let mut index: usize = 0;
                while index < arguments.len()
                    invariant
                        index <= arguments@.len(),
                        copies@.len() == index,
                        forall|k: int| 0 <= k < index ==> copies@[k]@ == arguments@[k]@,
                        decreases_to!(self => arguments),
                    decreases arguments@.len() - index,
                {
                    copies.push(arguments[index].clone());
                    index += 1;
                }
                assert(views(copies@) =~= views(arguments@));
                Ty::Obj(name.clone(), copies)
            },
            Ty::TyParam(name, bound) => Ty::TyParam(Box::new((**name).clone()), Box::new((**bound).clone())),
            Ty::Nullable(inner) => Ty::Nullable(Box::new((**inner).clone())),
            Ty::PlatformNullable(inner) => Ty::PlatformNullable(Box::new((**inner).clone())),
            Ty::InProjection(inner) => Ty::InProjection(Box::new((**inner).clone())),
            Ty::OutProjection(inner) => Ty::OutProjection(Box::new((**inner).clone())),
            Ty::StarProjection(inner) => Ty::StarProjection(Box::new((**inner).clone())),
            Ty::Fun(sig) => Ty::Fun(Box::new((**sig).clone())),
        }
    }
}

impl Clone for FnSig {
    fn clone(&self) -> (copy: Self)
        ensures
            copy@ == self@,
        decreases self,
    {
        proof {
            broadcast use group_ty_views;

        }
        let mut params: Vec<Ty> = Vec::new();
        let mut index: usize = 0;
        while index < self.params.len()
            invariant
                index <= self.params@.len(),
                params@.len() == index,
                forall|k: int| 0 <= k < index ==> params@[k]@ == self.params@[k]@,
            decreases self.params@.len() - index,
        {
            params.push(self.params[index].clone());
            index += 1;
        }
        assert(views(params@) =~= views(self.params@));
        FnSig {
            params,
            ret: self.ret.clone(),
            context_count: self.context_count,
            has_receiver: self.has_receiver,
            suspend: self.suspend,
        }
    }
}

fn same_ty(left: &Ty, right: &Ty) -> (same: bool)
    ensures
        same == (left@ == right@),
    decreases left,
{
    proof {
        broadcast use group_ty_views;

    }
    match (left, right) {
        (Ty::Unit, Ty::Unit) => true,
        (Ty::Nothing, Ty::Nothing) => true,
        (Ty::Null, Ty::Null) => true,
        (Ty::Error, Ty::Error) => true,
        (Ty::Pending, Ty::Pending) => true,
        (Ty::Boolean, Ty::Boolean) => true,
        (Ty::Byte, Ty::Byte) => true,
        (Ty::Short, Ty::Short) => true,
        (Ty::Int, Ty::Int) => true,
        (Ty::Long, Ty::Long) => true,
        (Ty::UByte, Ty::UByte) => true,
        (Ty::UShort, Ty::UShort) => true,
        (Ty::UInt, Ty::UInt) => true,
        (Ty::ULong, Ty::ULong) => true,
        (Ty::Float, Ty::Float) => true,
        (Ty::Double, Ty::Double) => true,
        (Ty::Char, Ty::Char) => true,
        (Ty::String, Ty::String) => true,
        (Ty::Obj(left_name, left_arguments), Ty::Obj(right_name, right_arguments)) => {
            left_name == right_name && same_tys_below(left_arguments, right_arguments)
        },
        (Ty::TyParam(left_name, left_bound), Ty::TyParam(right_name, right_bound)) => {
            same_text(left_name.as_str(), right_name.as_str()) && same_ty(left_bound, right_bound)
        },
        (Ty::Nullable(left_inner), Ty::Nullable(right_inner)) => same_ty(left_inner, right_inner),
        (Ty::PlatformNullable(left_inner), Ty::PlatformNullable(right_inner)) => same_ty(left_inner, right_inner),
        (Ty::InProjection(left_inner), Ty::InProjection(right_inner)) => same_ty(left_inner, right_inner),
        (Ty::OutProjection(left_inner), Ty::OutProjection(right_inner)) => same_ty(left_inner, right_inner),
        (Ty::StarProjection(left_inner), Ty::StarProjection(right_inner)) => same_ty(left_inner, right_inner),
        (Ty::Fun(left_sig), Ty::Fun(right_sig)) => {
            left_sig.context_count == right_sig.context_count && left_sig.has_receiver
                == right_sig.has_receiver && left_sig.suspend == right_sig.suspend && same_ty(
                &left_sig.ret,
                &right_sig.ret,
            ) && same_tys_below(&left_sig.params, &right_sig.params)
        },
        _ => false,
    }
}

fn same_tys_below(left: &Vec<Ty>, right: &Vec<Ty>) -> (same: bool)
    ensures
        same == (views(left@) == views(right@)),
    decreases left,
{
    if left.len() != right.len() {
        assert(views(left@).len() != views(right@).len());
        return false;
    }
    let mut index: usize = 0;
    while index < left.len()
        invariant
            index <= left@.len(),
            left@.len() == right@.len(),
            forall|k: int| 0 <= k < index ==> left@[k]@ == right@[k]@,
        decreases left@.len() - index,
    {
        if !same_ty(&left[index], &right[index]) {
            assert(views(left@)[index as int] != views(right@)[index as int]);
            return false;
        }
        index += 1;
    }
    assert(views(left@) =~= views(right@));
    true
}

impl PartialEq for Ty {
    fn eq(&self, other: &Self) -> (same: bool) {
        same_ty(self, other)
    }
}

impl vstd::std_specs::cmp::PartialEqSpecImpl for Ty {
    open spec fn obeys_eq_spec() -> bool {
        true
    }

    open spec fn eq_spec(&self, other: &Self) -> bool {
        self@ == other@
    }
}

impl PartialEq for FnSig {
    fn eq(&self, other: &Self) -> (same: bool) {
        proof {
            broadcast use group_ty_views;

        }
        self.context_count == other.context_count && self.has_receiver == other.has_receiver
            && self.suspend == other.suspend && self.ret == other.ret && same_tys(
            &self.params,
            &other.params,
        )
    }
}

impl vstd::std_specs::cmp::PartialEqSpecImpl for FnSig {
    open spec fn obeys_eq_spec() -> bool {
        true
    }

    open spec fn eq_spec(&self, other: &Self) -> bool {
        self@ == other@
    }
}

/// Whether two lists hold equal types in the same order.
pub fn same_tys(left: &Vec<Ty>, right: &Vec<Ty>) -> (same: bool)
    ensures
        same == (views(left@) == views(right@)),
{
    same_tys_below(left, right)
}

/// A copy of a list of types.
pub fn copy_tys(types: &[Ty]) -> (out: Vec<Ty>)
    ensures
        views(out@) == views(types@),
{
    let mut out: Vec<Ty> = Vec::new();
    let mut index: usize = 0;
    while index < types.len()
        invariant
            index <= types@.len(),
            out@.len() == index,
            forall|k: int| 0 <= k < index ==> out@[k]@ == types@[k]@,
        decreases types@.len() - index,
    {
        out.push(types[index].clone());
        index += 1;
    }
    assert(views(out@) =~= views(types@));
    out
}

/// A copy of an optional type.
pub fn copy_optional_ty(ty: &Option<Ty>) -> (out: Option<Ty>)
    ensures
        option_view(out) == option_view(*ty),
{
    match ty {
        Some(inner) => Some(inner.clone()),
        None => None,
    }
}

/// Whether two optional types are equal.
pub fn same_optional_ty(left: &Option<Ty>, right: &Option<Ty>) -> (same: bool)
    ensures
        same == (option_view(*left) == option_view(*right)),
{
    match (left, right) {
        (Some(left_ty), Some(right_ty)) => left_ty == right_ty,
        (None, None) => true,
        _ => false,
    }
}

impl TyView {
    /// The type that also admits null.
    pub open spec fn nullable(self) -> TyView {
        match self {
            TyView::Nullable(_) | TyView::Null => self,
            TyView::PlatformNullable(inner) => TyView::Nullable(inner),
            _ => TyView::Nullable(Box::new(self)),
        }
    }

    /// The type without its outer nullability.
    pub open spec fn non_null(self) -> TyView {
        match self {
            TyView::Nullable(inner) | TyView::PlatformNullable(inner) => *inner,
            _ => self,
        }
    }

    /// Whether the type is spelled as one that admits null.
    pub open spec fn is_nullable(self) -> bool {
        self is Nullable || self is Null
    }

    /// Whether a value of the type can be null.
    pub open spec fn admits_null(self) -> bool {
        self is Nullable || self is PlatformNullable || self is Null
    }

    /// The classifier of a classifier type.
    pub open spec fn obj_internal(self) -> Option<Seq<char>> {
        match self {
            TyView::Obj(name, _) => Some(name),
            _ => None,
        }
    }

    /// The type arguments of a classifier type.
    pub open spec fn type_args(self) -> Seq<TyView> {
        match self {
            TyView::Obj(_, arguments) => arguments,
            _ => Seq::empty(),
        }
    }

    /// The name of a type parameter.
    pub open spec fn ty_param_name(self) -> Option<Seq<char>> {
        match self {
            TyView::TyParam(name, _) => Some(name),
            _ => None,
        }
    }

    /// The type inside a projection.
    pub open spec fn projection_inner(self) -> Option<TyView> {
        match self {
            TyView::InProjection(inner) | TyView::OutProjection(inner) | TyView::StarProjection(
                inner,
            ) => Some(*inner),
            _ => None,
        }
    }

    /// Whether the type, or a type inside it, is what is looked for.
    pub open spec fn mentions(self, what: MentionView) -> bool
        decreases self,
    {
        what.holds_of(self) || match self {
            TyView::Obj(_, arguments) => exists|i: int|
                0 <= i < arguments.len() && (#[trigger] arguments[i]).mentions(what),
            TyView::Nullable(inner)
            | TyView::PlatformNullable(inner)
            | TyView::InProjection(inner)
            | TyView::OutProjection(inner)
            | TyView::StarProjection(inner) => inner.mentions(what),
            TyView::Fun(sig) => sig.ret.mentions(what) || exists|i: int|
                0 <= i < sig.params.len() && (#[trigger] sig.params[i]).mentions(what),
            _ => false,
        }
    }

    /// Whether the type holds a type that could not be resolved.
    pub open spec fn mentions_error(self) -> bool {
        self.mentions(MentionView::Error)
    }

    /// Whether the type holds a type that is not known yet.
    pub open spec fn mentions_pending(self) -> bool {
        self.mentions(MentionView::Pending)
    }

    /// Whether the type holds a type parameter.
    pub open spec fn mentions_ty_param(self) -> bool {
        self.mentions(MentionView::AnyParam)
    }

    /// Whether the type holds the type parameter `name`.
    pub open spec fn mentions_param(self, name: Seq<char>) -> bool {
        self.mentions(MentionView::Param(name))
    }
}

/// What [`mentions`] looks for.
pub enum Mention<'a> {
    Error,
    Pending,
    AnyParam,
    Param(&'a str),
}

/// The model of a [`Mention`].
pub enum MentionView {
    Error,
    Pending,
    AnyParam,
    Param(Seq<char>),
}

impl MentionView {
    /// Whether a type itself is what is looked for.
    pub open spec fn holds_of(self, ty: TyView) -> bool {
        match self {
            MentionView::Error => ty is Error,
            MentionView::Pending => ty is Pending,
            MentionView::AnyParam => ty is TyParam,
            MentionView::Param(name) => ty.ty_param_name() == Some(name),
        }
    }
}

impl<'a> View for Mention<'a> {
    type V = MentionView;

    open spec fn view(&self) -> MentionView {
        match self {
            Mention::Error => MentionView::Error,
            Mention::Pending => MentionView::Pending,
            Mention::AnyParam => MentionView::AnyParam,
            Mention::Param(name) => MentionView::Param(name@),
        }
    }
}

/// Whether a type, or a type inside it, is what is looked for.
pub fn mentions(ty: &Ty, what: &Mention<'_>) -> (found: bool)
    ensures
        found == ty@.mentions(what@),
    decreases ty,
{
    proof {
        broadcast use group_ty_views;

    }
    match ty {
        Ty::Error => match what {
            Mention::Error => true,
            _ => false,
        },
        Ty::Pending => match what {
            Mention::Pending => true,
            _ => false,
        },
        Ty::TyParam(name, _) => match what {
            Mention::AnyParam => true,
            Mention::Param(wanted) => same_text(name.as_str(), wanted),
            _ => false,
        },
        Ty::Obj(_, arguments) => {
            assert(ty@->Obj_1 == views(arguments@));
            any_mentions(arguments, what)
        },
        Ty::Nullable(inner)
        | Ty::PlatformNullable(inner)
        | Ty::InProjection(inner)
        | Ty::OutProjection(inner)
        | Ty::StarProjection(inner) => mentions(inner, what),
        Ty::Fun(sig) => {
            assert(ty@->Fun_0.params == views(sig.params@));
            mentions(&sig.ret, what) || any_mentions(&sig.params, what)
        },
        _ => false,
    }
}

fn any_mentions(types: &Vec<Ty>, what: &Mention<'_>) -> (found: bool)
    ensures
        found == (exists|i: int|
            0 <= i < views(types@).len() && (#[trigger] views(types@)[i]).mentions(what@)),
    decreases types,
{
    let mut index: usize = 0;
    while index < types.len()
        invariant
            index <= types@.len(),
            forall|k: int| 0 <= k < index ==> !(#[trigger] views(types@)[k]).mentions(what@),
        decreases types@.len() - index,
    {
        if mentions(&types[index], what) {
            assert(views(types@)[index as int].mentions(what@));
            return true;
        }
        assert(!views(types@)[index as int].mentions(what@));
        index += 1;
    }
    false
}

impl Ty {
    /// A classifier type without arguments.
    pub fn obj(path: &str) -> (ty: Ty)
        ensures
            ty@ == TyView::Obj(path@, Seq::empty()),
    {
        proof {
            broadcast use group_ty_views;

        }
        Ty::Obj(qualified(path), Vec::new())
    }

    /// A classifier type without arguments.
    pub fn obj_name(name: &TypeName) -> (ty: Ty)
        ensures
            ty@ == TyView::Obj(name@, Seq::empty()),
    {
        proof {
            broadcast use group_ty_views;

        }
        Ty::Obj(name.clone(), Vec::new())
    }

    /// A classifier type with its arguments.
    pub fn obj_args(path: &str, arguments: &[Ty]) -> (ty: Ty)
        ensures
            ty@ == TyView::Obj(path@, views(arguments@)),
    {
        proof {
            broadcast use group_ty_views;

        }
        Ty::Obj(qualified(path), copy_tys(arguments))
    }

    /// A classifier type with its arguments.
    pub fn obj_args_name(name: &TypeName, arguments: &[Ty]) -> (ty: Ty)
        ensures
            ty@ == TyView::Obj(name@, views(arguments@)),
    {
        proof {
            broadcast use group_ty_views;

        }
        Ty::Obj(name.clone(), copy_tys(arguments))
    }

    /// A type parameter with its upper bound.
    pub fn ty_param(name: &str, bound: Ty) -> (ty: Ty)
        ensures
            ty@ == TyView::TyParam(name@, Box::new(bound@)),
    {
        Ty::TyParam(Box::new(name.to_owned()), Box::new(bound))
    }

    /// A star projection whose argument reads as `bound`.
    pub fn star_projection(bound: Ty) -> (ty: Ty)
        ensures
            ty@ == TyView::StarProjection(Box::new(bound@)),
    {
        Ty::StarProjection(Box::new(bound))
    }

    /// An ordinary function type.
    pub fn fun(params: Vec<Ty>, ret: Ty) -> (ty: Ty)
        ensures
            ty@ == TyView::Fun(
                Box::new(
                    FnSigView {
                        params: views(params@),
                        ret: ret@,
                        context_count: 0,
                        has_receiver: false,
                        suspend: false,
                    },
                ),
            ),
    {
        Ty::fun_with_shape(params, ret, 0, false, false)
    }

    /// A suspending function type.
    pub fn fun_suspend(params: Vec<Ty>, ret: Ty) -> (ty: Ty)
        ensures
            ty@ == TyView::Fun(
                Box::new(
                    FnSigView {
                        params: views(params@),
                        ret: ret@,
                        context_count: 0,
                        has_receiver: false,
                        suspend: true,
                    },
                ),
            ),
    {
        Ty::fun_with_shape(params, ret, 0, false, true)
    }

    /// A function type with the given shape.
    pub fn fun_with_shape(
        params: Vec<Ty>,
        ret: Ty,
        context_count: usize,
        has_receiver: bool,
        suspend: bool,
    ) -> (ty: Ty)
        ensures
            ty@ == TyView::Fun(
                Box::new(
                    FnSigView {
                        params: views(params@),
                        ret: ret@,
                        context_count: context_count as int,
                        has_receiver,
                        suspend,
                    },
                ),
            ),
    {
        proof {
            broadcast use group_ty_views;

        }
        Ty::Fun(Box::new(FnSig { params, ret, context_count, has_receiver, suspend }))
    }

    /// The type that also admits null.
    pub fn nullable(ty: Ty) -> (out: Ty)
        ensures
            out@ == ty@.nullable(),
    {
        match ty {
            Ty::Nullable(inner) => Ty::Nullable(inner),
            Ty::Null => Ty::Null,
            Ty::PlatformNullable(inner) => Ty::Nullable(inner),
            other => Ty::Nullable(Box::new(other)),
        }
    }

    /// The type without its outer nullability.
    pub fn non_null(&self) -> (out: &Ty)
        ensures
            out@ == self@.non_null(),
    {
        match self {
            Ty::Nullable(inner) => inner,
            Ty::PlatformNullable(inner) => inner,
            _ => self,
        }
    }

    /// Whether the type is spelled as one that admits null.
    pub fn is_nullable(&self) -> (yes: bool)
        ensures
            yes == self@.is_nullable(),
    {
        matches!(self, Ty::Nullable(_) | Ty::Null)
    }

    /// Whether a value of the type can be null.
    pub fn admits_null(&self) -> (yes: bool)
        ensures
            yes == self@.admits_null(),
    {
        matches!(self, Ty::Nullable(_) | Ty::PlatformNullable(_) | Ty::Null)
    }

    /// The classifier of a classifier type.
    pub fn obj_internal(&self) -> (name: Option<&TypeName>)
        ensures
            match name {
                Some(found) => self@.obj_internal() == Some(found@),
                None => self@.obj_internal() is None,
            },
    {
        match self {
            Ty::Obj(name, _) => Some(name),
            _ => None,
        }
    }

    /// The name of a type parameter.
    pub fn ty_param_name(&self) -> (name: Option<&str>)
        ensures
            match name {
                Some(found) => self@.ty_param_name() == Some(found@),
                None => self@.ty_param_name() is None,
            },
    {
        match self {
            Ty::TyParam(name, _) => Some(name.as_str()),
            _ => None,
        }
    }

    /// The type inside a projection.
    pub fn projection_inner(&self) -> (inner: Option<&Ty>)
        ensures
            match inner {
                Some(found) => self@.projection_inner() == Some(found@),
                None => self@.projection_inner() is None,
            },
    {
        match self {
            Ty::InProjection(inner) => Some(inner),
            Ty::OutProjection(inner) => Some(inner),
            Ty::StarProjection(inner) => Some(inner),
            _ => None,
        }
    }

    /// Whether the type holds a type that could not be resolved.
    pub fn mentions_error(&self) -> (found: bool)
        ensures
            found == self@.mentions_error(),
    {
        mentions(self, &Mention::Error)
    }

    /// Whether the type holds a type that is not known yet.
    pub fn mentions_pending(&self) -> (found: bool)
        ensures
            found == self@.mentions_pending(),
    {
        mentions(self, &Mention::Pending)
    }

    /// Whether the type holds a type parameter.
    pub fn mentions_ty_param(&self) -> (found: bool)
        ensures
            found == self@.mentions_ty_param(),
    {
        mentions(self, &Mention::AnyParam)
    }

    /// Whether the type holds the type parameter `name`.
    pub fn mentions_param(&self, name: &str) -> (found: bool)
        ensures
            found == self@.mentions_param(name@),
    {
        mentions(self, &Mention::Param(name))
    }
}

/// The element of the primitive array called `name`.
pub open spec fn primitive_array_element(name: Seq<char>) -> Option<TyView> {
    if name == "kotlin/BooleanArray"@ {
        Some(TyView::Boolean)
    } else if name == "kotlin/ByteArray"@ {
        Some(TyView::Byte)
    } else if name == "kotlin/ShortArray"@ {
        Some(TyView::Short)
    } else if name == "kotlin/IntArray"@ {
        Some(TyView::Int)
    } else if name == "kotlin/LongArray"@ {
        Some(TyView::Long)
    } else if name == "kotlin/FloatArray"@ {
        Some(TyView::Float)
    } else if name == "kotlin/DoubleArray"@ {
        Some(TyView::Double)
    } else if name == "kotlin/CharArray"@ {
        Some(TyView::Char)
    } else if name == "kotlin/UByteArray"@ {
        Some(TyView::UByte)
    } else if name == "kotlin/UShortArray"@ {
        Some(TyView::UShort)
    } else if name == "kotlin/UIntArray"@ {
        Some(TyView::UInt)
    } else if name == "kotlin/ULongArray"@ {
        Some(TyView::ULong)
    } else {
        None
    }
}

fn primitive_element(name: &TypeName) -> (element: Option<Ty>)
    ensures
        option_view(element) == primitive_array_element(name@),
{
    if name.matches("kotlin/BooleanArray") {
        Some(Ty::Boolean)
    } else if name.matches("kotlin/ByteArray") {
        Some(Ty::Byte)
    } else if name.matches("kotlin/ShortArray") {
        Some(Ty::Short)
    } else if name.matches("kotlin/IntArray") {
        Some(Ty::Int)
    } else if name.matches("kotlin/LongArray") {
        Some(Ty::Long)
    } else if name.matches("kotlin/FloatArray") {
        Some(Ty::Float)
    } else if name.matches("kotlin/DoubleArray") {
        Some(Ty::Double)
    } else if name.matches("kotlin/CharArray") {
        Some(Ty::Char)
    } else if name.matches("kotlin/UByteArray") {
        Some(Ty::UByte)
    } else if name.matches("kotlin/UShortArray") {
        Some(Ty::UShort)
    } else if name.matches("kotlin/UIntArray") {
        Some(Ty::UInt)
    } else if name.matches("kotlin/ULongArray") {
        Some(Ty::ULong)
    } else {
        None
    }
}

/// The builtin type that the classifier called `name` is.
pub open spec fn builtin_named(name: Seq<char>) -> Option<TyView> {
    if name == "kotlin/Boolean"@ {
        Some(TyView::Boolean)
    } else if name == "kotlin/Byte"@ {
        Some(TyView::Byte)
    } else if name == "kotlin/Short"@ {
        Some(TyView::Short)
    } else if name == "kotlin/Int"@ {
        Some(TyView::Int)
    } else if name == "kotlin/Long"@ {
        Some(TyView::Long)
    } else if name == "kotlin/Float"@ {
        Some(TyView::Float)
    } else if name == "kotlin/Double"@ {
        Some(TyView::Double)
    } else if name == "kotlin/Char"@ {
        Some(TyView::Char)
    } else if name == "kotlin/UByte"@ {
        Some(TyView::UByte)
    } else if name == "kotlin/UShort"@ {
        Some(TyView::UShort)
    } else if name == "kotlin/UInt"@ {
        Some(TyView::UInt)
    } else if name == "kotlin/ULong"@ {
        Some(TyView::ULong)
    } else if name == "kotlin/String"@ {
        Some(TyView::String)
    } else if name == "kotlin/Unit"@ {
        Some(TyView::Unit)
    } else if name == "kotlin/Nothing"@ {
        Some(TyView::Nothing)
    } else {
        None
    }
}

fn builtin(name: &TypeName) -> (ty: Option<Ty>)
    ensures
        option_view(ty) == builtin_named(name@),
{
    if name.matches("kotlin/Boolean") {
        Some(Ty::Boolean)
    } else if name.matches("kotlin/Byte") {
        Some(Ty::Byte)
    } else if name.matches("kotlin/Short") {
        Some(Ty::Short)
    } else if name.matches("kotlin/Int") {
        Some(Ty::Int)
    } else if name.matches("kotlin/Long") {
        Some(Ty::Long)
    } else if name.matches("kotlin/Float") {
        Some(Ty::Float)
    } else if name.matches("kotlin/Double") {
        Some(Ty::Double)
    } else if name.matches("kotlin/Char") {
        Some(Ty::Char)
    } else if name.matches("kotlin/UByte") {
        Some(Ty::UByte)
    } else if name.matches("kotlin/UShort") {
        Some(Ty::UShort)
    } else if name.matches("kotlin/UInt") {
        Some(Ty::UInt)
    } else if name.matches("kotlin/ULong") {
        Some(Ty::ULong)
    } else if name.matches("kotlin/String") {
        Some(Ty::String)
    } else if name.matches("kotlin/Unit") {
        Some(Ty::Unit)
    } else if name.matches("kotlin/Nothing") {
        Some(Ty::Nothing)
    } else {
        None
    }
}

impl TyView {
    /// The classifier of a type, that of a builtin type among them.
    pub open spec fn kotlin_class_internal(self) -> Option<Seq<char>> {
        match self.non_null() {
            TyView::Obj(name, _) => Some(name),
            TyView::Boolean => Some("kotlin/Boolean"@),
            TyView::Byte => Some("kotlin/Byte"@),
            TyView::Short => Some("kotlin/Short"@),
            TyView::Int => Some("kotlin/Int"@),
            TyView::Long => Some("kotlin/Long"@),
            TyView::Float => Some("kotlin/Float"@),
            TyView::Double => Some("kotlin/Double"@),
            TyView::Char => Some("kotlin/Char"@),
            TyView::UByte => Some("kotlin/UByte"@),
            TyView::UShort => Some("kotlin/UShort"@),
            TyView::UInt => Some("kotlin/UInt"@),
            TyView::ULong => Some("kotlin/ULong"@),
            TyView::String => Some("kotlin/String"@),
            TyView::Unit => Some("kotlin/Unit"@),
            TyView::Nothing => Some("kotlin/Nothing"@),
            _ => None,
        }
    }

    /// The type with a builtin classifier spelled out as the builtin type.
    pub open spec fn canonical_semantic(self) -> TyView
        decreases self,
    {
        match self {
            TyView::Obj(name, arguments) => match builtin_named(name) {
                Some(ty) if arguments.len() == 0 => ty,
                _ => self,
            },
            TyView::Nullable(inner) => TyView::Nullable(Box::new(inner.canonical_semantic())),
            TyView::PlatformNullable(inner) => TyView::PlatformNullable(
                Box::new(inner.canonical_semantic()),
            ),
            _ => self,
        }
    }

    /// Whether the type is a builtin number type.
    pub open spec fn is_numeric(self) -> bool {
        match self {
            TyView::Byte
            | TyView::Short
            | TyView::Int
            | TyView::Long
            | TyView::Float
            | TyView::Double => true,
            _ => self.is_unsigned(),
        }
    }

    /// Whether the type is an unsigned number type.
    pub open spec fn is_unsigned(self) -> bool {
        self is UByte || self is UShort || self is UInt || self is ULong
    }

    /// Whether the type is an array of references.
    pub open spec fn is_reference_array(self) -> bool {
        self matches TyView::Obj(name, arguments) && name == "kotlin/Array"@ && arguments.len() == 1
    }

    /// The element type of an array.
    pub open spec fn array_elem(self) -> Option<TyView> {
        match self {
            TyView::Obj(name, arguments) => if self.is_reference_array() {
                match arguments[0].projection_inner() {
                    Some(inner) => Some(inner),
                    None => Some(arguments[0]),
                }
            } else {
                primitive_array_element(name)
            },
            _ => None,
        }
    }

    /// The type that an element of an array is read with.
    pub open spec fn array_read_elem(self) -> Option<TyView> {
        match self {
            TyView::Obj(name, arguments) if self.is_reference_array() => Some(
                match arguments[0] {
                    TyView::InProjection(_) => any_nullable(),
                    TyView::OutProjection(inner) | TyView::StarProjection(inner) => *inner,
                    _ => arguments[0],
                },
            ),
            _ => self.array_elem(),
        }
    }
}

/// The type `Any?`.
pub open spec fn any_nullable() -> TyView {
    TyView::Nullable(Box::new(TyView::Obj("kotlin/Any"@, Seq::empty())))
}

impl Ty {
    /// The classifier of a type, that of a builtin type among them.
    pub fn kotlin_class_internal(&self) -> (name: Option<TypeName>)
        ensures
            option_view(name) == self@.kotlin_class_internal(),
    {
        proof {
            broadcast use group_ty_views;

        }
        match self.non_null() {
            Ty::Obj(name, _) => Some(name.clone()),
            Ty::Boolean => Some(qualified("kotlin/Boolean")),
            Ty::Byte => Some(qualified("kotlin/Byte")),
            Ty::Short => Some(qualified("kotlin/Short")),
            Ty::Int => Some(qualified("kotlin/Int")),
            Ty::Long => Some(qualified("kotlin/Long")),
            Ty::Float => Some(qualified("kotlin/Float")),
            Ty::Double => Some(qualified("kotlin/Double")),
            Ty::Char => Some(qualified("kotlin/Char")),
            Ty::UByte => Some(qualified("kotlin/UByte")),
            Ty::UShort => Some(qualified("kotlin/UShort")),
            Ty::UInt => Some(qualified("kotlin/UInt")),
            Ty::ULong => Some(qualified("kotlin/ULong")),
            Ty::String => Some(qualified("kotlin/String")),
            Ty::Unit => Some(qualified("kotlin/Unit")),
            Ty::Nothing => Some(qualified("kotlin/Nothing")),
            _ => None,
        }
    }

    /// The type with a builtin classifier spelled out as the builtin type.
    pub fn canonical_semantic(&self) -> (ty: Ty)
        ensures
            ty@ == self@.canonical_semantic(),
        decreases self,
    {
        proof {
            broadcast use group_ty_views;

        }
        match self {
            Ty::Obj(name, arguments) => {
                if arguments.len() == 0 {
                    match builtin(name) {
                        Some(ty) => ty,
                        None => self.clone(),
                    }
                } else {
                    self.clone()
                }
            },
            Ty::Nullable(inner) => Ty::Nullable(Box::new(inner.canonical_semantic())),
            Ty::PlatformNullable(inner) => Ty::PlatformNullable(
                Box::new(inner.canonical_semantic()),
            ),
            _ => self.clone(),
        }
    }

    /// Whether the type is a builtin number type.
    pub fn is_numeric(&self) -> (yes: bool)
        ensures
            yes == self@.is_numeric(),
    {
        match self {
            Ty::Byte | Ty::Short | Ty::Int | Ty::Long | Ty::Float | Ty::Double => true,
            _ => self.is_unsigned(),
        }
    }

    /// Whether the type is an unsigned number type.
    pub fn is_unsigned(&self) -> (yes: bool)
        ensures
            yes == self@.is_unsigned(),
    {
        matches!(self, Ty::UByte | Ty::UShort | Ty::UInt | Ty::ULong)
    }

    /// Whether the type is an array of references.
    pub fn is_reference_array(&self) -> (yes: bool)
        ensures
            yes == self@.is_reference_array(),
    {
        proof {
            broadcast use group_ty_views;

        }
        match self {
            Ty::Obj(name, arguments) => arguments.len() == 1 && name.matches("kotlin/Array"),
            _ => false,
        }
    }

    /// The element type of an array.
    pub fn array_elem(&self) -> (element: Option<Ty>)
        ensures
            option_view(element) == self@.array_elem(),
    {
        proof {
            broadcast use group_ty_views;

        }
        match self {
            Ty::Obj(name, arguments) => {
                if self.is_reference_array() {
                    assert(self@->Obj_1 == views(arguments@));
                    match arguments[0].projection_inner() {
                        Some(inner) => Some(inner.clone()),
                        None => Some(arguments[0].clone()),
                    }
                } else {
                    primitive_element(name)
                }
            },
            _ => None,
        }
    }

    /// The type that an element of an array is read with.
    pub fn array_read_elem(&self) -> (element: Option<Ty>)
        ensures
            option_view(element) == self@.array_read_elem(),
    {
        proof {
            broadcast use group_ty_views;

        }
        match self {
            Ty::Obj(_, arguments) => {
                if self.is_reference_array() {
                    assert(self@->Obj_1 == views(arguments@));
                    assert(self@->Obj_1[0] == arguments@[0]@);
                    match &arguments[0] {
                        Ty::InProjection(_) => Some(Ty::nullable(Ty::obj("kotlin/Any"))),
                        Ty::OutProjection(inner) => Some((**inner).clone()),
                        Ty::StarProjection(inner) => Some((**inner).clone()),
                        other => Some(other.clone()),
                    }
                } else {
                    self.array_elem()
                }
            },
            _ => self.array_elem(),
        }
    }
}

/// Null-admitting is reached once: making a type nullable again changes nothing.
pub proof fn nullable_is_idempotent(ty: TyView)
    ensures
        ty.nullable().nullable() == ty.nullable(),
        ty.nullable().admits_null(),
{
}

} // verus!
