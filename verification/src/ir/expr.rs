//! Expressions of the intermediate representation.

use vstd::prelude::*;

use crate::kt_string::KtString;
use crate::libraries::{InlineKind, MemberRealization};
use crate::names::TypeName;
use crate::text::{option_view, views};
use crate::types::{Ty, TyView};

verus! {

/// The position of an expression in its file.
pub type ExprId = usize;

/// The position of a class in its file.
pub type ClassId = usize;

/// The position of a function in its file.
pub type FunId = usize;

/// A constant. A floating-point constant is held by its bit pattern.
#[derive(Debug)]
pub enum IrConst {
    Null,
    Boolean(bool),
    Byte(i8),
    Short(i16),
    Int(i32),
    Long(i64),
    Float(u32),
    Double(u64),
    Char(u16),
    String(KtString),
}

/// The model of a constant.
pub enum IrConstView {
    Null,
    Boolean(bool),
    Byte(i8),
    Short(i16),
    Int(i32),
    Long(i64),
    Float(u32),
    Double(u64),
    Char(u16),
    String(Seq<u16>),
}

impl View for IrConst {
    type V = IrConstView;

    open spec fn view(&self) -> IrConstView {
        match *self {
            IrConst::Null => IrConstView::Null,
            IrConst::Boolean(value) => IrConstView::Boolean(value),
            IrConst::Byte(value) => IrConstView::Byte(value),
            IrConst::Short(value) => IrConstView::Short(value),
            IrConst::Int(value) => IrConstView::Int(value),
            IrConst::Long(value) => IrConstView::Long(value),
            IrConst::Float(bits) => IrConstView::Float(bits),
            IrConst::Double(bits) => IrConstView::Double(bits),
            IrConst::Char(unit) => IrConstView::Char(unit),
            IrConst::String(text) => IrConstView::String(text@),
        }
    }
}

impl Clone for IrConst {
    fn clone(&self) -> (copy: Self)
        ensures
            copy@ == self@,
    {
        match self {
            IrConst::Null => IrConst::Null,
            IrConst::Boolean(value) => IrConst::Boolean(*value),
            IrConst::Byte(value) => IrConst::Byte(*value),
            IrConst::Short(value) => IrConst::Short(*value),
            IrConst::Int(value) => IrConst::Int(*value),
            IrConst::Long(value) => IrConst::Long(*value),
            IrConst::Float(bits) => IrConst::Float(*bits),
            IrConst::Double(bits) => IrConst::Double(*bits),
            IrConst::Char(unit) => IrConst::Char(*unit),
            IrConst::String(text) => IrConst::String(text.clone()),
        }
    }
}

impl IrConstView {
    /// The value a local of type `ty` holds before anything is stored in it.
    pub open spec fn zero_of(ty: TyView) -> IrConstView {
        match ty {
            TyView::Boolean => IrConstView::Boolean(false),
            TyView::Byte | TyView::UByte => IrConstView::Byte(0),
            TyView::Short | TyView::UShort => IrConstView::Short(0),
            TyView::Int | TyView::UInt => IrConstView::Int(0),
            TyView::Long | TyView::ULong => IrConstView::Long(0),
            TyView::Float => IrConstView::Float(0),
            TyView::Double => IrConstView::Double(0),
            TyView::Char => IrConstView::Char(0),
            _ => IrConstView::Null,
        }
    }
}

impl IrConst {
    /// The value a local of type `ty` holds before anything is stored in it.
    pub fn zero_for_value_type(ty: &Ty) -> (zero: IrConst)
        ensures
            zero@ == IrConstView::zero_of(ty@),
    {
        proof {
            broadcast use crate::types::group_ty_views;
        }
        match ty {
            Ty::Boolean => IrConst::Boolean(false),
            Ty::Byte | Ty::UByte => IrConst::Byte(0),
            Ty::Short | Ty::UShort => IrConst::Short(0),
            Ty::Int | Ty::UInt => IrConst::Int(0),
            Ty::Long | Ty::ULong => IrConst::Long(0),
            Ty::Float => IrConst::Float(0),
            Ty::Double => IrConst::Double(0),
            Ty::Char => IrConst::Char(0),
            _ => IrConst::Null,
        }
    }
}

/// A type operation.
#[derive(Clone, Copy, Debug, PartialEq, Eq, Structural)]
pub enum IrTypeOp {
    Cast,
    SafeCast,
    InstanceOf,
    NotInstanceOf,
}

/// An operation on primitive operands.
#[derive(Clone, Copy, Debug, PartialEq, Eq, Structural)]
pub enum IrBinOp {
    Eq,
    Ne,
    Or,
    And,
    BitAnd,
    BitOr,
}

/// An operation the target realizes itself.
#[derive(Clone, Copy, Debug, PartialEq, Eq, Structural)]
pub enum IrIntrinsic {
    ArrayGet,
    ArraySet,
    ArraySize,
}

/// What a call to an inherited member reaches.
#[derive(Clone, Copy, Debug, PartialEq, Eq, Structural)]
pub enum IrSuperCallKind {
    Function,
    Getter,
    Setter,
}

/// The target of a call.
#[allow(inconsistent_fields)]
#[derive(Debug)]
pub enum Callee {
    Virtual {
        owner: TypeName,
        name: String,
        descriptor: String,
        params: Option<(Vec<Ty>, Ty)>,
        interface: bool,
    },
    Static {
        owner: TypeName,
        name: String,
        descriptor: String,
        inline: InlineKind,
    },
    /// A static member of a class of this file, named by its position.
    ClassStatic {
        owner: TypeName,
        function: FunId,
    },
    Intrinsic {
        operation: IrIntrinsic,
        ret: Ty,
    },
    /// An inherited member, called without virtual dispatch.
    Super {
        owner: TypeName,
        dispatch_owner: TypeName,
        enclosing_dispatch: bool,
        kind: IrSuperCallKind,
        name: String,
        params: Vec<Ty>,
        ret: Ty,
        interface: bool,
        realization: MemberRealization,
        descriptor: String,
    },
    /// A member called through its physical nonvirtual convention.
    Special {
        owner: TypeName,
        name: String,
        descriptor: String,
    },
}

/// The model of a call target.
#[allow(inconsistent_fields)]
#[verifier::ext_equal]
pub enum CalleeView {
    Virtual {
        owner: Seq<char>,
        name: Seq<char>,
        descriptor: Seq<char>,
        params: Option<(Seq<TyView>, TyView)>,
        interface: bool,
    },
    Static {
        owner: Seq<char>,
        name: Seq<char>,
        descriptor: Seq<char>,
        inline: InlineKind,
    },
    ClassStatic {
        owner: Seq<char>,
        function: FunId,
    },
    Intrinsic {
        operation: IrIntrinsic,
        ret: TyView,
    },
    Super {
        owner: Seq<char>,
        dispatch_owner: Seq<char>,
        enclosing_dispatch: bool,
        kind: IrSuperCallKind,
        name: Seq<char>,
        params: Seq<TyView>,
        ret: TyView,
        interface: bool,
        realization: MemberRealization,
        descriptor: Seq<char>,
    },
    Special {
        owner: Seq<char>,
        name: Seq<char>,
        descriptor: Seq<char>,
    },
}

impl View for Callee {
    type V = CalleeView;

    open spec fn view(&self) -> CalleeView {
        match *self {
            Callee::Virtual { owner, name, descriptor, params, interface } => CalleeView::Virtual {
                owner: owner@,
                name: name@,
                descriptor: descriptor@,
                params: match params {
                    Some((inputs, output)) => Some((views(inputs@), output@)),
                    None => None,
                },
                interface,
            },
            Callee::Static { owner, name, descriptor, inline } => CalleeView::Static {
                owner: owner@,
                name: name@,
                descriptor: descriptor@,
                inline,
            },
            Callee::ClassStatic { owner, function } => CalleeView::ClassStatic {
                owner: owner@,
                function,
            },
            Callee::Intrinsic { operation, ret } => CalleeView::Intrinsic { operation, ret: ret@ },
            Callee::Super {
                owner,
                dispatch_owner,
                enclosing_dispatch,
                kind,
                name,
                params,
                ret,
                interface,
                realization,
                descriptor,
            } => CalleeView::Super {
                owner: owner@,
                dispatch_owner: dispatch_owner@,
                enclosing_dispatch,
                kind,
                name: name@,
                params: views(params@),
                ret: ret@,
                interface,
                realization,
                descriptor: descriptor@,
            },
            Callee::Special { owner, name, descriptor } => CalleeView::Special {
                owner: owner@,
                name: name@,
                descriptor: descriptor@,
            },
        }
    }
}

/// A handler of a `try` expression.
#[derive(Debug)]
pub struct IrCatch {
    /// The local that holds the caught exception.
    pub var: u32,
    pub ty: Ty,
    pub body: ExprId,
}

/// An expression. Operands are the positions of other expressions of the same file.
#[allow(inconsistent_fields)]
#[derive(Debug)]
pub enum IrExpr {
    Const(IrConst),
    GetValue(u32),
    SetValue {
        var: u32,
        value: ExprId,
    },
    Variable {
        index: u32,
        ty: Ty,
        init: Option<ExprId>,
        named: bool,
    },
    GetField {
        receiver: ExprId,
        class: ClassId,
        index: u32,
    },
    SetField {
        receiver: ExprId,
        class: ClassId,
        index: u32,
        value: ExprId,
    },
    GetStatic(usize),
    /// A field of a class of this file that holds an instance of one.
    StaticInstance {
        owner: ClassId,
        ty: ClassId,
        field: &'static str,
    },
    /// A field of a named classifier that holds an instance of one.
    ExternalStaticInstance {
        owner: TypeName,
        ty: TypeName,
        field: String,
    },
    ExternalStaticField {
        owner: TypeName,
        name: String,
        descriptor: String,
    },
    EnumEntry {
        classifier: TypeName,
        name: String,
    },
    /// `classifier::class`.
    ClassLiteral {
        classifier: TypeName,
    },
    Call {
        callee: Callee,
        dispatch_receiver: Option<ExprId>,
        args: Vec<ExprId>,
    },
    /// A call of a method by its position in a class of this file.
    MethodCall {
        class: ClassId,
        index: usize,
        receiver: ExprId,
        args: Vec<ExprId>,
    },
    New {
        internal: TypeName,
        args: Vec<ExprId>,
        ctor_params: Option<Vec<Ty>>,
        ctor_desc: Option<String>,
    },
    Vararg {
        array_type: Ty,
        elements: Vec<ExprId>,
        spreads: Vec<bool>,
    },
    TypeOp {
        op: IrTypeOp,
        arg: ExprId,
        type_operand: Ty,
    },
    PrimitiveBinOp {
        op: IrBinOp,
        lhs: ExprId,
        rhs: ExprId,
    },
    /// Branches in order, each behind its condition; one without a condition always applies.
    When {
        branches: Vec<(Option<ExprId>, ExprId)>,
    },
    Block {
        stmts: Vec<ExprId>,
        value: Option<ExprId>,
    },
    While {
        cond: ExprId,
        body: ExprId,
        update: Option<ExprId>,
        post_test: bool,
        label: Option<String>,
    },
    Try {
        body: ExprId,
        catches: Vec<IrCatch>,
        finally: Option<ExprId>,
    },
    Throw {
        operand: ExprId,
    },
    Return(Option<ExprId>),
    Lambda {
        impl_fn: FunId,
        arity: usize,
        captures: Vec<ExprId>,
        inline_body: Option<ExprId>,
    },
    /// An operation a plugin has planned and nothing has realized.
    PluginPlaceholder {
        plugin: &'static str,
        kind: &'static str,
        exprs: Vec<ExprId>,
        data: Vec<TypeName>,
        types: Vec<Ty>,
    },
}

/// What an expression is, apart from its operands.
#[allow(inconsistent_fields)]
#[verifier::ext_equal]
pub enum IrLabel {
    Const(IrConstView),
    GetValue(u32),
    SetValue { var: u32 },
    Variable { index: u32, ty: TyView, initialized: bool, named: bool },
    GetField { class: ClassId, index: u32 },
    SetField { class: ClassId, index: u32 },
    GetStatic(usize),
    StaticInstance { owner: ClassId, ty: ClassId, field: Seq<char> },
    ExternalStaticInstance { owner: Seq<char>, ty: Seq<char>, field: Seq<char> },
    ExternalStaticField { owner: Seq<char>, name: Seq<char>, descriptor: Seq<char> },
    EnumEntry { classifier: Seq<char>, name: Seq<char> },
    ClassLiteral { classifier: Seq<char> },
    Call { callee: CalleeView, has_receiver: bool },
    MethodCall { class: ClassId, index: usize },
    New {
        internal: Seq<char>,
        ctor_params: Option<Seq<TyView>>,
        ctor_desc: Option<Seq<char>>,
    },
    Vararg { array_type: TyView, spreads: Seq<bool> },
    TypeOp { op: IrTypeOp, operand: TyView },
    PrimitiveBinOp(IrBinOp),
    When { guarded: Seq<bool> },
    Block { has_value: bool },
    While { has_update: bool, post_test: bool, label: Option<Seq<char>> },
    Try { catches: Seq<(u32, TyView)>, has_finally: bool },
    Throw,
    Return { has_value: bool },
    Lambda { impl_fn: FunId, arity: usize, captures: nat, has_inline_body: bool },
    PluginPlaceholder {
        plugin: Seq<char>,
        kind: Seq<char>,
        data: Seq<Seq<char>>,
        types: Seq<TyView>,
    },
}

/// An optional operand as a list of operands.
pub open spec fn listed(operand: Option<ExprId>) -> Seq<ExprId> {
    match operand {
        Some(id) => seq![id],
        None => seq![],
    }
}

/// The operands of the branches of a `when`: each condition before its result.
pub open spec fn branch_operands(branches: Seq<(Option<ExprId>, ExprId)>) -> Seq<ExprId>
    decreases branches.len(),
{
    if branches.len() == 0 {
        seq![]
    } else {
        branch_operands(branches.drop_last()) + listed(branches.last().0).push(branches.last().1)
    }
}

impl IrExpr {
    /// What the expression is, apart from its operands.
    pub open spec fn label(self) -> IrLabel {
        match self {
            IrExpr::Const(value) => IrLabel::Const(value@),
            IrExpr::GetValue(slot) => IrLabel::GetValue(slot),
            IrExpr::SetValue { var, value } => IrLabel::SetValue { var },
            IrExpr::Variable { index, ty, init, named } => IrLabel::Variable {
                index,
                ty: ty@,
                initialized: init is Some,
                named,
            },
            IrExpr::GetField { receiver, class, index } => IrLabel::GetField { class, index },
            IrExpr::SetField { receiver, class, index, value } => IrLabel::SetField {
                class,
                index,
            },
            IrExpr::GetStatic(index) => IrLabel::GetStatic(index),
            IrExpr::StaticInstance { owner, ty, field } => IrLabel::StaticInstance {
                owner,
                ty,
                field: field@,
            },
            IrExpr::ExternalStaticInstance { owner, ty, field } => IrLabel::ExternalStaticInstance {
                owner: owner@,
                ty: ty@,
                field: field@,
            },
            IrExpr::ExternalStaticField { owner, name, descriptor } => {
                IrLabel::ExternalStaticField {
                    owner: owner@,
                    name: name@,
                    descriptor: descriptor@,
                }
            },
            IrExpr::EnumEntry { classifier, name } => IrLabel::EnumEntry {
                classifier: classifier@,
                name: name@,
            },
            IrExpr::ClassLiteral { classifier } => IrLabel::ClassLiteral {
                classifier: classifier@,
            },
            IrExpr::Call { callee, dispatch_receiver, args } => IrLabel::Call {
                callee: callee@,
                has_receiver: dispatch_receiver is Some,
            },
            IrExpr::MethodCall { class, index, receiver, args } => IrLabel::MethodCall {
                class,
                index,
            },
            IrExpr::New { internal, args, ctor_params, ctor_desc } => IrLabel::New {
                internal: internal@,
                ctor_params: match ctor_params {
                    Some(types) => Some(views(types@)),
                    None => None,
                },
                ctor_desc: option_view(ctor_desc),
            },
            IrExpr::Vararg { array_type, elements, spreads } => IrLabel::Vararg {
                array_type: array_type@,
                spreads: spreads@,
            },
            IrExpr::TypeOp { op, arg, type_operand } => IrLabel::TypeOp {
                op,
                operand: type_operand@,
            },
            IrExpr::PrimitiveBinOp { op, lhs, rhs } => IrLabel::PrimitiveBinOp(op),
            IrExpr::When { branches } => IrLabel::When {
                guarded: Seq::new(branches@.len(), |k: int| branches@[k].0 is Some),
            },
            IrExpr::Block { stmts, value } => IrLabel::Block { has_value: value is Some },
            IrExpr::While { cond, body, update, post_test, label } => IrLabel::While {
                has_update: update is Some,
                post_test,
                label: option_view(label),
            },
            IrExpr::Try { body, catches, finally } => IrLabel::Try {
                catches: Seq::new(catches@.len(), |k: int| (catches@[k].var, catches@[k].ty@)),
                has_finally: finally is Some,
            },
            IrExpr::Throw { operand } => IrLabel::Throw,
            IrExpr::Return(value) => IrLabel::Return { has_value: value is Some },
            IrExpr::Lambda { impl_fn, arity, captures, inline_body } => IrLabel::Lambda {
                impl_fn,
                arity,
                captures: captures@.len(),
                has_inline_body: inline_body is Some,
            },
            IrExpr::PluginPlaceholder { plugin, kind, exprs, data, types } => {
                IrLabel::PluginPlaceholder {
                    plugin: plugin@,
                    kind: kind@,
                    data: views(data@),
                    types: views(types@),
                }
            },
        }
    }

    /// The operands of the expression, in evaluation order.
    pub open spec fn operands(self) -> Seq<ExprId> {
        match self {
            IrExpr::SetValue { var, value } => seq![value],
            IrExpr::Variable { index, ty, init, named } => listed(init),
            IrExpr::GetField { receiver, class, index } => seq![receiver],
            IrExpr::SetField { receiver, class, index, value } => seq![receiver, value],
            IrExpr::Call { callee, dispatch_receiver, args } => listed(dispatch_receiver) + args@,
            IrExpr::MethodCall { class, index, receiver, args } => seq![receiver] + args@,
            IrExpr::New { internal, args, ctor_params, ctor_desc } => args@,
            IrExpr::Vararg { array_type, elements, spreads } => elements@,
            IrExpr::TypeOp { op, arg, type_operand } => seq![arg],
            IrExpr::PrimitiveBinOp { op, lhs, rhs } => seq![lhs, rhs],
            IrExpr::When { branches } => branch_operands(branches@),
            IrExpr::Block { stmts, value } => stmts@ + listed(value),
            IrExpr::While { cond, body, update, post_test, label } => seq![cond, body]
                + listed(update),
            IrExpr::Try { body, catches, finally } => seq![body] + Seq::new(
                catches@.len(),
                |k: int| catches@[k].body,
            ) + listed(finally),
            IrExpr::Throw { operand } => seq![operand],
            IrExpr::Return(value) => listed(value),
            IrExpr::Lambda { impl_fn, arity, captures, inline_body } => captures@ + listed(
                inline_body,
            ),
            IrExpr::PluginPlaceholder { plugin, kind, exprs, data, types } => exprs@,
            _ => seq![],
        }
    }
}

} // verus!
