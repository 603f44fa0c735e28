//! Evaluation of compile-time constant expressions.
//!
//! The parser contributes the structure of an expression alone. What an operator means comes from
//! the callable that was selected for it, and the constants that are read come from their
//! declarations. Floating-point values are held by their bits: they are negated and compared here,
//! and what else is computed of them is asked for.

use std::collections::HashMap;

use vstd::prelude::*;

use crate::ast::{BinOp, Expr, ExprId, File, Node, TemplatePart, UnOp};
use crate::kt_string::{text_units, KtString, KtStringBuf};
use crate::libraries::{
    CompilerIntrinsic, LibConst, LibConstView, LibraryConst, LibraryConstView,
    PrimitiveBinaryIntrinsic,
};
use crate::model::Modelled;
use crate::text::{decimal, decimal_text, option_view, signed_decimal, signed_decimal_text};
use crate::types::{Ty, TyView};

verus! {

broadcast use {
    crate::text::group_views,
    crate::types::group_ty_views,
};

/// Something that is computed of floating-point values.
#[allow(inconsistent_fields)]
#[derive(Clone, Copy, Debug, PartialEq, Eq, Structural)]
pub enum FloatRequest {
    /// `left op right`, of two single or two double values.
    Arithmetic { double: bool, op: PrimitiveBinaryIntrinsic, left: u64, right: u64 },
    /// The single or double value nearest to an integer.
    FromInteger { double: bool, value: i64 },
    /// The single value nearest to a double one.
    Narrow { bits: u64 },
    /// The double value that a single one is.
    Widen { bits: u32 },
    /// The 32-bit or 64-bit integer that a value is truncated to, as a 64-bit pattern.
    ToInteger { double: bool, bits: u64, wide: bool },
}

/// Who computes with floating-point values. A value that is not answered is not constant.
pub trait FloatFolding {
    /// The bits of what is asked for.
    spec fn answers(&self, request: FloatRequest) -> Option<u64>;

    /// The decimal spelling of a finite double value.
    spec fn spells(&self, bits: u64) -> Option<String>;

    fn fold(&self, request: FloatRequest) -> (bits: Option<u64>)
        ensures
            bits == self.answers(request),
    ;

    fn spell(&self, bits: u64) -> (text: Option<String>)
        ensures
            option_view(text) == option_view(self.spells(bits)),
    ;
}

/// Nobody computes with floating-point values.
#[derive(Clone, Copy, Debug, PartialEq, Eq, Structural)]
pub struct WithoutFloats;

impl FloatFolding for WithoutFloats {
    open spec fn answers(&self, request: FloatRequest) -> Option<u64> {
        None
    }

    open spec fn spells(&self, bits: u64) -> Option<String> {
        None
    }

    fn fold(&self, request: FloatRequest) -> (bits: Option<u64>) {
        None
    }

    fn spell(&self, bits: u64) -> (text: Option<String>) {
        None
    }
}

/// The bits of the negated single value.
pub open spec fn negated32(bits: u32) -> u32 {
    if bits < 0x8000_0000 {
        (bits + 0x8000_0000) as u32
    } else {
        (bits - 0x8000_0000) as u32
    }
}

/// The bits of the negated double value.
pub open spec fn negated64(bits: u64) -> u64 {
    if bits < 0x8000_0000_0000_0000 {
        (bits + 0x8000_0000_0000_0000) as u64
    } else {
        (bits - 0x8000_0000_0000_0000) as u64
    }
}

fn negate32(bits: u32) -> (out: u32)
    ensures
        out == negated32(bits),
{
    if bits < 0x8000_0000 {
        bits + 0x8000_0000
    } else {
        bits - 0x8000_0000
    }
}

fn negate64(bits: u64) -> (out: u64)
    ensures
        out == negated64(bits),
{
    if bits < 0x8000_0000_0000_0000 {
        bits + 0x8000_0000_0000_0000
    } else {
        bits - 0x8000_0000_0000_0000
    }
}

/// Where a single value stands in the order of values. Both zeros stand at one place, and what is
/// not a number at none.
pub open spec fn place32(bits: u32) -> Option<int> {
    let magnitude = if bits < 0x8000_0000 {
        bits as int
    } else {
        bits - 0x8000_0000
    };
    if magnitude > 0x7f80_0000 {
        None
    } else if bits < 0x8000_0000 {
        Some(magnitude)
    } else {
        Some(-magnitude)
    }
}

/// Where a double value stands in the order of values.
pub open spec fn place64(bits: u64) -> Option<int> {
    let magnitude = if bits < 0x8000_0000_0000_0000 {
        bits as int
    } else {
        bits - 0x8000_0000_0000_0000
    };
    if magnitude > 0x7ff0_0000_0000_0000 {
        None
    } else if bits < 0x8000_0000_0000_0000 {
        Some(magnitude)
    } else {
        Some(-magnitude)
    }
}

fn position64(bits: u64) -> (place: Option<i64>)
    ensures
        place64(bits) == match place {
            Some(place) => Some(place as int),
            None => None,
        },
{
    if bits < 0x8000_0000_0000_0000 {
        if bits > 0x7ff0_0000_0000_0000 {
            None
        } else {
            Some(bits as i64)
        }
    } else {
        let magnitude: u64 = bits - 0x8000_0000_0000_0000;
        if magnitude > 0x7ff0_0000_0000_0000 {
            None
        } else {
            Some(-(magnitude as i64))
        }
    }
}

fn position32(bits: u32) -> (place: Option<i64>)
    ensures
        place32(bits) == match place {
            Some(place) => Some(place as int),
            None => None,
        },
{
    if bits < 0x8000_0000 {
        if bits > 0x7f80_0000 {
            None
        } else {
            Some(bits as i64)
        }
    } else {
        let magnitude: u32 = bits - 0x8000_0000;
        if magnitude > 0x7f80_0000 {
            None
        } else {
            Some(-(magnitude as i64))
        }
    }
}

/// The type that a literal has by itself.
pub open spec fn literal_type(file: File, expression: ExprId) -> Option<TyView>
    decreases file.height(Node::Expr(expression)), 0nat,
{
    match file.expr_at(expression) {
        Expr::IntLit(_) => Some(TyView::Int),
        Expr::LongLit(_) => Some(TyView::Long),
        Expr::UIntLit(_) => Some(TyView::UInt),
        Expr::ULongLit(_) => Some(TyView::ULong),
        Expr::FloatLit(_) => Some(TyView::Float),
        Expr::DoubleLit(_) => Some(TyView::Double),
        Expr::BoolLit(_) => Some(TyView::Boolean),
        Expr::CharLit(_) => Some(TyView::Char),
        Expr::StringLit(_) => Some(TyView::String),
        Expr::Unary { op, operand } => if (op == UnOp::Plus || op == UnOp::Neg) && file.below(
            Node::Expr(operand),
            Node::Expr(expression),
        ) {
            match literal(file, operand, TyView::Pending) {
                Some(constant) => Some(constant.ty),
                None => None,
            }
        } else {
            None
        },
        _ => None,
    }
}

/// The value of a literal that stands for a value of the type `ty`.
pub open spec fn literal(file: File, expression: ExprId, ty: TyView) -> Option<LibraryConstView>
    decreases file.height(Node::Expr(expression)), 1nat,
{
    let canonical = ty.canonical_semantic();
    if canonical.mentions_error() {
        None
    } else if canonical.mentions_pending() {
        match literal_type(file, expression) {
            Some(ty) => literal_of(file, expression, ty),
            None => None,
        }
    } else {
        literal_of(file, expression, canonical)
    }
}

/// The negated value, where it can be negated in its type.
pub open spec fn exactly_negated(value: LibConstView) -> Option<LibConstView> {
    match value {
        LibConstView::Int(value) => if value == i32::MIN {
            None
        } else {
            Some(LibConstView::Int((-value) as i32))
        },
        LibConstView::Long(value) => if value == i64::MIN {
            None
        } else {
            Some(LibConstView::Long((-value) as i64))
        },
        LibConstView::Float(bits) => Some(LibConstView::Float(negated32(bits))),
        LibConstView::Double(bits) => Some(LibConstView::Double(negated64(bits))),
        LibConstView::Str(_) => None,
    }
}

/// The value of a literal of the known type `ty`.
pub open spec fn literal_of(file: File, expression: ExprId, ty: TyView) -> Option<
    LibraryConstView,
>
    decreases file.height(Node::Expr(expression)), 0nat,
{
    let inside = Node::Expr(expression);
    let value = match file.expr_at(expression) {
        Expr::IntLit(value) => Some(LibConstView::Int(value as i32)),
        Expr::LongLit(value) => Some(LibConstView::Long(value)),
        Expr::UIntLit(value) => Some(
            if ty == TyView::ULong {
                LibConstView::Long(value)
            } else {
                LibConstView::Int(value as i32)
            },
        ),
        Expr::ULongLit(value) => Some(LibConstView::Long(value)),
        Expr::FloatLit(bits) => Some(LibConstView::Float(bits)),
        Expr::DoubleLit(bits) => Some(LibConstView::Double(bits)),
        Expr::BoolLit(value) => Some(
            LibConstView::Int(
                if value {
                    1
                } else {
                    0
                },
            ),
        ),
        Expr::CharLit(unit) => Some(LibConstView::Int(unit as i32)),
        Expr::StringLit(text) => Some(LibConstView::Str(text@)),
        Expr::Unary { op: UnOp::Neg, operand } => if file.below(Node::Expr(operand), inside) {
            match literal(file, operand, ty) {
                Some(constant) => exactly_negated(constant.value),
                None => None,
            }
        } else {
            None
        },
        _ => None,
    };
    match file.expr_at(expression) {
        Expr::Unary { op: UnOp::Plus, operand } => if ty.non_null().is_numeric() && file.below(
            Node::Expr(operand),
            inside,
        ) {
            literal(file, operand, ty)
        } else {
            None
        },
        _ => match value {
            Some(value) => Some(LibraryConstView { ty, value }),
            None => None,
        },
    }
}

fn type_of_literal(file: &File, expression: ExprId) -> (ty: Option<Ty>)
    requires
        file.well_formed(),
        file.has(Node::Expr(expression)),
    ensures
        option_view(ty) == literal_type(*file, expression),
    decreases file.height(Node::Expr(expression)), 0nat,
{
    proof {
        file.lemma_children(Node::Expr(expression));
        reveal_with_fuel(literal_type, 2);
    }
    match file.expr(expression) {
        Expr::IntLit(_) => Some(Ty::Int),
        Expr::LongLit(_) => Some(Ty::Long),
        Expr::UIntLit(_) => Some(Ty::UInt),
        Expr::ULongLit(_) => Some(Ty::ULong),
        Expr::FloatLit(_) => Some(Ty::Float),
        Expr::DoubleLit(_) => Some(Ty::Double),
        Expr::BoolLit(_) => Some(Ty::Boolean),
        Expr::CharLit(_) => Some(Ty::Char),
        Expr::StringLit(_) => Some(Ty::String),
        Expr::Unary { op, operand } => {
            assert(file.children(Node::Expr(expression))[0] == Node::Expr(*operand));
            if *op == UnOp::Plus || *op == UnOp::Neg {
                match source_literal_constant(file, *operand, &Ty::Pending) {
                    Some(constant) => Some(constant.ty),
                    None => None,
                }
            } else {
                None
            }
        },
        _ => None,
    }
}

/// The value of a literal that stands for a value of the type `ty`. This is less than the value of
/// a constant expression: `2 + 2` is no literal. Where the type is not known yet, the literal has
/// the type that it has by itself.
pub fn source_literal_constant(file: &File, expression: ExprId, ty: &Ty) -> (constant: Option<
    LibraryConst,
>)
    requires
        file.well_formed(),
        file.has(Node::Expr(expression)),
    ensures
        option_view(constant) == literal(*file, expression, ty@),
    decreases file.height(Node::Expr(expression)), 1nat,
{
    proof {
        reveal_with_fuel(literal, 2);
    }
    let canonical = ty.canonical_semantic();
    if canonical.mentions_error() {
        return None;
    }
    if canonical.mentions_pending() {
        match type_of_literal(file, expression) {
            Some(ty) => literal_value(file, expression, ty),
            None => None,
        }
    } else {
        literal_value(file, expression, canonical)
    }
}

fn literal_value(file: &File, expression: ExprId, ty: Ty) -> (constant: Option<LibraryConst>)
    requires
        file.well_formed(),
        file.has(Node::Expr(expression)),
    ensures
        option_view(constant) == literal_of(*file, expression, ty@),
    decreases file.height(Node::Expr(expression)), 0nat,
{
    proof {
        file.lemma_children(Node::Expr(expression));
        reveal_with_fuel(literal_of, 2);
    }
    let value = match file.expr(expression) {
        Expr::IntLit(value) => LibConst::Int(*value as i32),
        Expr::LongLit(value) => LibConst::Long(*value),
        Expr::UIntLit(value) => match ty {
            Ty::ULong => LibConst::Long(*value),
            _ => LibConst::Int(*value as i32),
        },
        Expr::ULongLit(value) => LibConst::Long(*value),
        Expr::FloatLit(bits) => LibConst::Float(*bits),
        Expr::DoubleLit(bits) => LibConst::Double(*bits),
        Expr::BoolLit(value) => LibConst::Int(
            if *value {
                1
            } else {
                0
            },
        ),
        Expr::CharLit(unit) => LibConst::Int(*unit as i32),
        Expr::StringLit(text) => LibConst::Str(text.clone()),
        Expr::Unary { op, operand } => {
            assert(file.children(Node::Expr(expression))[0] == Node::Expr(*operand));
            match op {
                UnOp::Plus => {
                    if ty.non_null().is_numeric() {
                        return source_literal_constant(file, *operand, &ty);
                    }
                    return None;
                },
                UnOp::Neg => {
                    let constant = match source_literal_constant(file, *operand, &ty) {
                        Some(constant) => constant,
                        None => {
                            return None;
                        },
                    };
                    match constant.value {
                        LibConst::Int(value) => {
                            if value == i32::MIN {
                                return None;
                            }
                            LibConst::Int(-value)
                        },
                        LibConst::Long(value) => {
                            if value == i64::MIN {
                                return None;
                            }
                            LibConst::Long(-value)
                        },
                        LibConst::Float(bits) => LibConst::Float(negate32(bits)),
                        LibConst::Double(bits) => LibConst::Double(negate64(bits)),
                        LibConst::Str(_) => {
                            return None;
                        },
                    }
                },
                UnOp::Not => {
                    return None;
                },
            }
        },
        _ => {
            return None;
        },
    };
    Some(LibraryConst { ty, value })
}

/// Whether a value is held in the way that values of a type are held.
pub open spec fn held_as(value: LibConstView, ty: TyView) -> bool {
    match (value, ty) {
        (
            LibConstView::Int(_),
            TyView::Boolean
            | TyView::Byte
            | TyView::Short
            | TyView::Int
            | TyView::Char
            | TyView::UByte
            | TyView::UShort
            | TyView::UInt,
        ) => true,
        (LibConstView::Long(_), TyView::Long | TyView::ULong) => true,
        (LibConstView::Float(_), TyView::Float) => true,
        (LibConstView::Double(_), TyView::Double) => true,
        (LibConstView::Str(_), TyView::String) => true,
        _ => false,
    }
}

/// The constant as one of the type `ty`.
pub open spec fn retyped(constant: LibraryConstView, ty: TyView) -> Option<LibraryConstView> {
    if held_as(constant.value, ty.canonical_semantic().non_null()) {
        Some(LibraryConstView { ty: ty.canonical_semantic(), value: constant.value })
    } else {
        None
    }
}

pub fn retype_constant(constant: LibraryConst, ty: &Ty) -> (out: Option<LibraryConst>)
    ensures
        option_view(out) == retyped(constant@, ty@),
{
    let ty = ty.canonical_semantic();
    let fits = match (&constant.value, ty.non_null()) {
        (
            LibConst::Int(_),
            Ty::Boolean
            | Ty::Byte
            | Ty::Short
            | Ty::Int
            | Ty::Char
            | Ty::UByte
            | Ty::UShort
            | Ty::UInt,
        ) => true,
        (LibConst::Long(_), Ty::Long | Ty::ULong) => true,
        (LibConst::Float(_), Ty::Float) => true,
        (LibConst::Double(_), Ty::Double) => true,
        (LibConst::Str(_), Ty::String) => true,
        _ => false,
    };
    if fits {
        Some(LibraryConst { ty, value: constant.value })
    } else {
        None
    }
}

/// What a prefix operator makes of a value.
pub open spec fn unary_value(operation: UnOp, operand: LibraryConstView) -> Option<LibConstView> {
    match (operation, operand.value) {
        (UnOp::Plus, LibConstView::Str(_)) => None,
        (UnOp::Plus, value) => Some(value),
        (UnOp::Neg, LibConstView::Int(value)) => Some(LibConstView::Int(0i32.wrapping_sub(value))),
        (UnOp::Neg, LibConstView::Long(value)) => Some(
            LibConstView::Long(0i64.wrapping_sub(value)),
        ),
        (UnOp::Neg, LibConstView::Float(bits)) => Some(LibConstView::Float(negated32(bits))),
        (UnOp::Neg, LibConstView::Double(bits)) => Some(LibConstView::Double(negated64(bits))),
        (UnOp::Not, LibConstView::Int(value)) if operand.ty.non_null() == TyView::Boolean => Some(
            LibConstView::Int(
                if value == 0 {
                    1
                } else {
                    0
                },
            ),
        ),
        _ => None,
    }
}

/// A value with its type, where there is one.
pub open spec fn typed(value: Option<LibConstView>, ty: TyView) -> Option<LibraryConstView> {
    match value {
        Some(value) => Some(LibraryConstView { ty, value }),
        None => None,
    }
}

pub fn evaluate_unary(operation: UnOp, operand: LibraryConst, ty: Ty) -> (out: Option<LibraryConst>)
    ensures
        option_view(out) == typed(unary_value(operation, operand@), ty@),
{
    let value = match (operation, operand.value) {
        (UnOp::Plus, LibConst::Int(value)) => LibConst::Int(value),
        (UnOp::Plus, LibConst::Long(value)) => LibConst::Long(value),
        (UnOp::Plus, LibConst::Float(bits)) => LibConst::Float(bits),
        (UnOp::Plus, LibConst::Double(bits)) => LibConst::Double(bits),
        (UnOp::Neg, LibConst::Int(value)) => LibConst::Int(0i32.wrapping_sub(value)),
        (UnOp::Neg, LibConst::Long(value)) => LibConst::Long(0i64.wrapping_sub(value)),
        (UnOp::Neg, LibConst::Float(bits)) => LibConst::Float(negate32(bits)),
        (UnOp::Neg, LibConst::Double(bits)) => LibConst::Double(negate64(bits)),
        (UnOp::Not, LibConst::Int(value)) => {
            if !matches!(operand.ty.non_null(), Ty::Boolean) {
                return None;
            }
            LibConst::Int(
                if value == 0 {
                    1
                } else {
                    0
                },
            )
        },
        _ => {
            return None;
        },
    };
    Some(LibraryConst { ty, value })
}

/// The 32-bit integer that a value is converted to.
pub open spec fn as_int<F: FloatFolding>(floats: F, value: LibConstView) -> Option<i32> {
    match value {
        LibConstView::Int(value) => Some(value),
        LibConstView::Long(value) => Some(value as i32),
        LibConstView::Float(bits) => match floats.answers(
            FloatRequest::ToInteger { double: false, bits: bits as u64, wide: false },
        ) {
            Some(answer) => Some(answer as i32),
            None => None,
        },
        LibConstView::Double(bits) => match floats.answers(
            FloatRequest::ToInteger { double: true, bits, wide: false },
        ) {
            Some(answer) => Some(answer as i32),
            None => None,
        },
        LibConstView::Str(_) => None,
    }
}

fn to_int<F: FloatFolding>(floats: &F, value: &LibConst) -> (out: Option<i32>)
    ensures
        out == as_int(*floats, value@),
{
    match value {
        LibConst::Int(value) => Some(*value),
        LibConst::Long(value) => Some(*value as i32),
        LibConst::Float(bits) => match floats.fold(
            FloatRequest::ToInteger { double: false, bits: *bits as u64, wide: false },
        ) {
            Some(answer) => Some(answer as i32),
            None => None,
        },
        LibConst::Double(bits) => match floats.fold(
            FloatRequest::ToInteger { double: true, bits: *bits, wide: false },
        ) {
            Some(answer) => Some(answer as i32),
            None => None,
        },
        LibConst::Str(_) => None,
    }
}

/// The 64-bit integer that a value is converted to.
pub open spec fn as_long<F: FloatFolding>(floats: F, value: LibConstView) -> Option<i64> {
    match value {
        LibConstView::Int(value) => Some(value as i64),
        LibConstView::Long(value) => Some(value),
        LibConstView::Float(bits) => match floats.answers(
            FloatRequest::ToInteger { double: false, bits: bits as u64, wide: true },
        ) {
            Some(answer) => Some(answer as i64),
            None => None,
        },
        LibConstView::Double(bits) => match floats.answers(
            FloatRequest::ToInteger { double: true, bits, wide: true },
        ) {
            Some(answer) => Some(answer as i64),
            None => None,
        },
        LibConstView::Str(_) => None,
    }
}

fn to_long<F: FloatFolding>(floats: &F, value: &LibConst) -> (out: Option<i64>)
    ensures
        out == as_long(*floats, value@),
{
    match value {
        LibConst::Int(value) => Some(*value as i64),
        LibConst::Long(value) => Some(*value),
        LibConst::Float(bits) => match floats.fold(
            FloatRequest::ToInteger { double: false, bits: *bits as u64, wide: true },
        ) {
            Some(answer) => Some(answer as i64),
            None => None,
        },
        LibConst::Double(bits) => match floats.fold(
            FloatRequest::ToInteger { double: true, bits: *bits, wide: true },
        ) {
            Some(answer) => Some(answer as i64),
            None => None,
        },
        LibConst::Str(_) => None,
    }
}

/// The bits of the single value that a number is converted to.
pub open spec fn as_float<F: FloatFolding>(floats: F, value: LibConstView) -> Option<u32> {
    let answer = match value {
        LibConstView::Int(value) => floats.answers(
            FloatRequest::FromInteger { double: false, value: value as i64 },
        ),
        LibConstView::Long(value) => floats.answers(
            FloatRequest::FromInteger { double: false, value },
        ),
        LibConstView::Float(bits) => Some(bits as u64),
        LibConstView::Double(bits) => floats.answers(FloatRequest::Narrow { bits }),
        LibConstView::Str(_) => None,
    };
    match answer {
        Some(bits) => Some(bits as u32),
        None => None,
    }
}

fn to_float<F: FloatFolding>(floats: &F, value: &LibConst) -> (out: Option<u32>)
    ensures
        out == as_float(*floats, value@),
{
    let answer: Option<u64> = match value {
        LibConst::Int(value) => floats.fold(
            FloatRequest::FromInteger { double: false, value: *value as i64 },
        ),
        LibConst::Long(value) => floats.fold(
            FloatRequest::FromInteger { double: false, value: *value },
        ),
        LibConst::Float(bits) => Some(*bits as u64),
        LibConst::Double(bits) => floats.fold(FloatRequest::Narrow { bits: *bits }),
        LibConst::Str(_) => None,
    };
    match answer {
        Some(bits) => Some(bits as u32),
        None => None,
    }
}

/// The bits of the double value that a number is converted to.
pub open spec fn as_double<F: FloatFolding>(floats: F, value: LibConstView) -> Option<u64> {
    match value {
        LibConstView::Int(value) => floats.answers(
            FloatRequest::FromInteger { double: true, value: value as i64 },
        ),
        LibConstView::Long(value) => floats.answers(
            FloatRequest::FromInteger { double: true, value },
        ),
        LibConstView::Float(bits) => floats.answers(FloatRequest::Widen { bits }),
        LibConstView::Double(bits) => Some(bits),
        LibConstView::Str(_) => None,
    }
}

fn to_double<F: FloatFolding>(floats: &F, value: &LibConst) -> (out: Option<u64>)
    ensures
        out == as_double(*floats, value@),
{
    match value {
        LibConst::Int(value) => floats.fold(
            FloatRequest::FromInteger { double: true, value: *value as i64 },
        ),
        LibConst::Long(value) => floats.fold(
            FloatRequest::FromInteger { double: true, value: *value },
        ),
        LibConst::Float(bits) => floats.fold(FloatRequest::Widen { bits: *bits }),
        LibConst::Double(bits) => Some(*bits),
        LibConst::Str(_) => None,
    }
}

/// A kind of number. Bytes and shorts are held alike whether they are signed or not.
#[derive(Clone, Copy, Debug, PartialEq, Eq, Structural)]
pub enum NumberKind {
    Byte,
    Short,
    Char,
    Int,
    UInt,
    Long,
    ULong,
    Float,
    Double,
}

/// The kind of number that a type is.
pub open spec fn number_kind(ty: TyView) -> Option<NumberKind> {
    match ty {
        TyView::Byte | TyView::UByte => Some(NumberKind::Byte),
        TyView::Short | TyView::UShort => Some(NumberKind::Short),
        TyView::Char => Some(NumberKind::Char),
        TyView::Int => Some(NumberKind::Int),
        TyView::UInt => Some(NumberKind::UInt),
        TyView::Long => Some(NumberKind::Long),
        TyView::ULong => Some(NumberKind::ULong),
        TyView::Float => Some(NumberKind::Float),
        TyView::Double => Some(NumberKind::Double),
        _ => None,
    }
}

fn kind_of_number(ty: &Ty) -> (kind: Option<NumberKind>)
    ensures
        kind == number_kind(ty@),
{
    match ty {
        Ty::Byte | Ty::UByte => Some(NumberKind::Byte),
        Ty::Short | Ty::UShort => Some(NumberKind::Short),
        Ty::Char => Some(NumberKind::Char),
        Ty::Int => Some(NumberKind::Int),
        Ty::UInt => Some(NumberKind::UInt),
        Ty::Long => Some(NumberKind::Long),
        Ty::ULong => Some(NumberKind::ULong),
        Ty::Float => Some(NumberKind::Float),
        Ty::Double => Some(NumberKind::Double),
        _ => None,
    }
}

/// A 32-bit value narrowed to a kind.
pub open spec fn narrowed(value: i32, kind: NumberKind) -> i32 {
    match kind {
        NumberKind::Byte => (value as i8) as i32,
        NumberKind::Short => (value as i16) as i32,
        NumberKind::Char => (value as u16) as i32,
        _ => value,
    }
}

fn narrow(value: i32, kind: NumberKind) -> (out: i32)
    ensures
        out == narrowed(value, kind),
{
    match kind {
        NumberKind::Byte => (value as i8) as i32,
        NumberKind::Short => (value as i16) as i32,
        NumberKind::Char => (value as u16) as i32,
        _ => value,
    }
}

/// A value converted to a kind of number.
pub open spec fn converted<F: FloatFolding>(
    floats: F,
    value: LibConstView,
    kind: NumberKind,
) -> Option<LibConstView> {
    match kind {
        NumberKind::Long | NumberKind::ULong => match as_long(floats, value) {
            Some(value) => Some(LibConstView::Long(value)),
            None => None,
        },
        NumberKind::Float => match as_float(floats, value) {
            Some(bits) => Some(LibConstView::Float(bits)),
            None => None,
        },
        NumberKind::Double => match as_double(floats, value) {
            Some(bits) => Some(LibConstView::Double(bits)),
            None => None,
        },
        _ => match as_int(floats, value) {
            Some(value) => Some(LibConstView::Int(narrowed(value, kind))),
            None => None,
        },
    }
}

/// A value converted to the type `ty`.
pub open spec fn conversion<F: FloatFolding>(
    floats: F,
    value: LibConstView,
    ty: TyView,
) -> Option<LibraryConstView> {
    match number_kind(ty.non_null()) {
        Some(kind) => typed(converted(floats, value, kind), ty),
        None => None,
    }
}

/// Convert a constant to the type `ty`.
pub fn evaluate_numeric_conversion<F: FloatFolding>(
    floats: &F,
    operand: &LibraryConst,
    ty: Ty,
) -> (out: Option<LibraryConst>)
    ensures
        option_view(out) == conversion(*floats, operand.value@, ty@),
{
    let kind = match kind_of_number(ty.non_null()) {
        Some(kind) => kind,
        None => {
            return None;
        },
    };
    let value = match kind {
        NumberKind::Long | NumberKind::ULong => match to_long(floats, &operand.value) {
            Some(value) => LibConst::Long(value),
            None => {
                return None;
            },
        },
        NumberKind::Float => match to_float(floats, &operand.value) {
            Some(bits) => LibConst::Float(bits),
            None => {
                return None;
            },
        },
        NumberKind::Double => match to_double(floats, &operand.value) {
            Some(bits) => LibConst::Double(bits),
            None => {
                return None;
            },
        },
        _ => match to_int(floats, &operand.value) {
            Some(value) => LibConst::Int(narrow(value, kind)),
            None => {
                return None;
            },
        },
    };
    Some(LibraryConst { ty, value })
}

/// The 32-bit value of a constant that is held as one.
pub open spec fn int_of(value: LibConstView) -> Option<i32> {
    match value {
        LibConstView::Int(value) => Some(value),
        _ => None,
    }
}

/// The value of an integer constant.
pub open spec fn long_of(value: LibConstView) -> Option<i64> {
    match value {
        LibConstView::Int(value) => Some(value as i64),
        LibConstView::Long(value) => Some(value),
        _ => None,
    }
}

/// The bits of the single value of a constant that is no double one.
pub open spec fn float_of<F: FloatFolding>(floats: F, value: LibConstView) -> Option<u32> {
    match value {
        LibConstView::Double(_) => None,
        _ => as_float(floats, value),
    }
}

fn constant_i32(value: &LibConst) -> (out: Option<i32>)
    ensures
        out == int_of(value@),
{
    match value {
        LibConst::Int(value) => Some(*value),
        _ => None,
    }
}

fn constant_i64(value: &LibConst) -> (out: Option<i64>)
    ensures
        out == long_of(value@),
{
    match value {
        LibConst::Int(value) => Some(*value as i64),
        LibConst::Long(value) => Some(*value),
        _ => None,
    }
}

fn constant_f32<F: FloatFolding>(floats: &F, value: &LibConst) -> (out: Option<u32>)
    ensures
        out == float_of(*floats, value@),
{
    match value {
        LibConst::Double(_) => None,
        _ => to_float(floats, value),
    }
}

/// 32-bit arithmetic: it wraps, and division by zero has no value.
pub open spec fn int_arithmetic(
    operation: PrimitiveBinaryIntrinsic,
    left: i32,
    right: i32,
    unsigned: bool,
) -> Option<i32> {
    match operation {
        PrimitiveBinaryIntrinsic::Add => Some(left.wrapping_add(right)),
        PrimitiveBinaryIntrinsic::Subtract => Some(left.wrapping_sub(right)),
        PrimitiveBinaryIntrinsic::Multiply => Some(left.wrapping_mul(right)),
        PrimitiveBinaryIntrinsic::Divide => if unsigned {
            match (left as u32).checked_div(right as u32) {
                Some(value) => Some(value as i32),
                None => None,
            }
        } else if left == i32::MIN && right == -1 {
            Some(i32::MIN)
        } else {
            left.checked_div(right)
        },
        PrimitiveBinaryIntrinsic::Remainder => if unsigned {
            match (left as u32).checked_rem(right as u32) {
                Some(value) => Some(value as i32),
                None => None,
            }
        } else if left == i32::MIN && right == -1 {
            Some(0)
        } else {
            left.checked_rem(right)
        },
    }
}

fn compute_int(operation: PrimitiveBinaryIntrinsic, left: i32, right: i32, unsigned: bool) -> (out:
    Option<i32>)
    ensures
        out == int_arithmetic(operation, left, right, unsigned),
{
    match operation {
        PrimitiveBinaryIntrinsic::Add => Some(left.wrapping_add(right)),
        PrimitiveBinaryIntrinsic::Subtract => Some(left.wrapping_sub(right)),
        PrimitiveBinaryIntrinsic::Multiply => Some(left.wrapping_mul(right)),
        PrimitiveBinaryIntrinsic::Divide => {
            if unsigned {
                match (left as u32).checked_div(right as u32) {
                    Some(value) => Some(value as i32),
                    None => None,
                }
            } else if left == i32::MIN && right == -1 {
                Some(i32::MIN)
            } else {
                left.checked_div(right)
            }
        },
        PrimitiveBinaryIntrinsic::Remainder => {
            if unsigned {
                match (left as u32).checked_rem(right as u32) {
                    Some(value) => Some(value as i32),
                    None => None,
                }
            } else if left == i32::MIN && right == -1 {
                Some(0)
            } else {
                left.checked_rem(right)
            }
        },
    }
}

/// 64-bit arithmetic: it wraps, and division by zero has no value.
pub open spec fn long_arithmetic(
    operation: PrimitiveBinaryIntrinsic,
    left: i64,
    right: i64,
    unsigned: bool,
) -> Option<i64> {
    match operation {
        PrimitiveBinaryIntrinsic::Add => Some(left.wrapping_add(right)),
        PrimitiveBinaryIntrinsic::Subtract => Some(left.wrapping_sub(right)),
        PrimitiveBinaryIntrinsic::Multiply => Some(left.wrapping_mul(right)),
        PrimitiveBinaryIntrinsic::Divide => if unsigned {
            match (left as u64).checked_div(right as u64) {
                Some(value) => Some(value as i64),
                None => None,
            }
        } else if left == i64::MIN && right == -1 {
            Some(i64::MIN)
        } else {
            left.checked_div(right)
        },
        PrimitiveBinaryIntrinsic::Remainder => if unsigned {
            match (left as u64).checked_rem(right as u64) {
                Some(value) => Some(value as i64),
                None => None,
            }
        } else if left == i64::MIN && right == -1 {
            Some(0)
        } else {
            left.checked_rem(right)
        },
    }
}

fn compute_long(operation: PrimitiveBinaryIntrinsic, left: i64, right: i64, unsigned: bool) -> (out:
    Option<i64>)
    ensures
        out == long_arithmetic(operation, left, right, unsigned),
{
    match operation {
        PrimitiveBinaryIntrinsic::Add => Some(left.wrapping_add(right)),
        PrimitiveBinaryIntrinsic::Subtract => Some(left.wrapping_sub(right)),
        PrimitiveBinaryIntrinsic::Multiply => Some(left.wrapping_mul(right)),
        PrimitiveBinaryIntrinsic::Divide => {
            if unsigned {
                match (left as u64).checked_div(right as u64) {
                    Some(value) => Some(value as i64),
                    None => None,
                }
            } else if left == i64::MIN && right == -1 {
                Some(i64::MIN)
            } else {
                left.checked_div(right)
            }
        },
        PrimitiveBinaryIntrinsic::Remainder => {
            if unsigned {
                match (left as u64).checked_rem(right as u64) {
                    Some(value) => Some(value as i64),
                    None => None,
                }
            } else if left == i64::MIN && right == -1 {
                Some(0)
            } else {
                left.checked_rem(right)
            }
        },
    }
}

/// What an operator makes of two values, as a number of a kind. A single value is computed of
/// numbers that are no double values.
pub open spec fn arithmetic_value<F: FloatFolding>(
    floats: F,
    operation: PrimitiveBinaryIntrinsic,
    left: LibConstView,
    right: LibConstView,
    kind: NumberKind,
) -> Option<LibConstView> {
    match kind {
        NumberKind::Long | NumberKind::ULong => match (long_of(left), long_of(right)) {
            (Some(left), Some(right)) => match long_arithmetic(
                operation,
                left,
                right,
                kind == NumberKind::ULong,
            ) {
                Some(value) => Some(LibConstView::Long(value)),
                None => None,
            },
            _ => None,
        },
        NumberKind::Float => match (float_of(floats, left), float_of(floats, right)) {
            (Some(left), Some(right)) => match floats.answers(
                FloatRequest::Arithmetic {
                    double: false,
                    op: operation,
                    left: left as u64,
                    right: right as u64,
                },
            ) {
                Some(bits) => Some(LibConstView::Float(bits as u32)),
                None => None,
            },
            _ => None,
        },
        NumberKind::Double => match (as_double(floats, left), as_double(floats, right)) {
            (Some(left), Some(right)) => match floats.answers(
                FloatRequest::Arithmetic { double: true, op: operation, left, right },
            ) {
                Some(bits) => Some(LibConstView::Double(bits)),
                None => None,
            },
            _ => None,
        },
        _ => match (int_of(left), int_of(right)) {
            (Some(left), Some(right)) => match int_arithmetic(
                operation,
                left,
                right,
                kind == NumberKind::UInt,
            ) {
                Some(value) => Some(LibConstView::Int(value)),
                None => None,
            },
            _ => None,
        },
    }
}

/// What an operator makes of two constants, as a constant of the type `ty`.
pub open spec fn arithmetic<F: FloatFolding>(
    floats: F,
    operation: PrimitiveBinaryIntrinsic,
    left: LibConstView,
    right: LibConstView,
    ty: TyView,
) -> Option<LibraryConstView> {
    match number_kind(ty.non_null()) {
        Some(kind) => typed(arithmetic_value(floats, operation, left, right, kind), ty),
        None => None,
    }
}

/// Compute with two constants.
pub fn arithmetic_numeric<F: FloatFolding>(
    floats: &F,
    operation: PrimitiveBinaryIntrinsic,
    left: &LibraryConst,
    right: &LibraryConst,
    ty: Ty,
) -> (out: Option<LibraryConst>)
    ensures
        option_view(out) == arithmetic(*floats, operation, left.value@, right.value@, ty@),
{
    let kind = match kind_of_number(ty.non_null()) {
        Some(kind) => kind,
        None => {
            return None;
        },
    };
    let value = match kind {
        NumberKind::Long | NumberKind::ULong => match (
            constant_i64(&left.value),
            constant_i64(&right.value),
        ) {
            (Some(left), Some(right)) => match compute_long(
                operation,
                left,
                right,
                kind == NumberKind::ULong,
            ) {
                Some(value) => LibConst::Long(value),
                None => {
                    return None;
                },
            },
            _ => {
                return None;
            },
        },
        NumberKind::Float => match (
            constant_f32(floats, &left.value),
            constant_f32(floats, &right.value),
        ) {
            (Some(left), Some(right)) => match floats.fold(
                FloatRequest::Arithmetic {
                    double: false,
                    op: operation,
                    left: left as u64,
                    right: right as u64,
                },
            ) {
                Some(bits) => LibConst::Float(bits as u32),
                None => {
                    return None;
                },
            },
            _ => {
                return None;
            },
        },
        NumberKind::Double => match (
            to_double(floats, &left.value),
            to_double(floats, &right.value),
        ) {
            (Some(left), Some(right)) => match floats.fold(
                FloatRequest::Arithmetic { double: true, op: operation, left, right },
            ) {
                Some(bits) => LibConst::Double(bits),
                None => {
                    return None;
                },
            },
            _ => {
                return None;
            },
        },
        _ => match (constant_i32(&left.value), constant_i32(&right.value)) {
            (Some(left), Some(right)) => match compute_int(
                operation,
                left,
                right,
                kind == NumberKind::UInt,
            ) {
                Some(value) => LibConst::Int(value),
                None => {
                    return None;
                },
            },
            _ => {
                return None;
            },
        },
    };
    Some(LibraryConst { ty, value })
}

/// A truth value as a constant.
pub open spec fn truth(value: bool) -> LibraryConstView {
    LibraryConstView {
        ty: TyView::Boolean,
        value: LibConstView::Int(
            if value {
                1
            } else {
                0
            },
        ),
    }
}

fn boolean_constant(value: bool) -> (out: LibraryConst)
    ensures
        out@ == truth(value),
{
    LibraryConst {
        ty: Ty::Boolean,
        value: LibConst::Int(
            if value {
                1
            } else {
                0
            },
        ),
    }
}

/// Where two values stand in the order of their kind, where they are of one kind and have a place.
pub open spec fn places(left: LibConstView, right: LibConstView) -> Option<(int, int)> {
    match (left, right) {
        (LibConstView::Int(left), LibConstView::Int(right)) => Some((left as int, right as int)),
        (LibConstView::Long(left), LibConstView::Long(right)) => Some((left as int, right as int)),
        (LibConstView::Float(left), LibConstView::Float(right)) => match (
            place32(left),
            place32(right),
        ) {
            (Some(left), Some(right)) => Some((left, right)),
            _ => None,
        },
        (LibConstView::Double(left), LibConstView::Double(right)) => match (
            place64(left),
            place64(right),
        ) {
            (Some(left), Some(right)) => Some((left, right)),
            _ => None,
        },
        _ => None,
    }
}

fn positions(left: &LibConst, right: &LibConst) -> (found: Option<(i64, i64)>)
    ensures
        places(left@, right@) == match found {
            Some((left, right)) => Some((left as int, right as int)),
            None => None,
        },
{
    match (left, right) {
        (LibConst::Int(left), LibConst::Int(right)) => Some((*left as i64, *right as i64)),
        (LibConst::Long(left), LibConst::Long(right)) => Some((*left, *right)),
        (LibConst::Float(left), LibConst::Float(right)) => match (
            position32(*left),
            position32(*right),
        ) {
            (Some(left), Some(right)) => Some((left, right)),
            _ => None,
        },
        (LibConst::Double(left), LibConst::Double(right)) => match (
            position64(*left),
            position64(*right),
        ) {
            (Some(left), Some(right)) => Some((left, right)),
            _ => None,
        },
        _ => None,
    }
}

/// What a comparison says of two values.
pub open spec fn comparison(operation: BinOp, left: LibConstView, right: LibConstView) -> Option<
    LibraryConstView,
> {
    match places(left, right) {
        None => None,
        Some((left, right)) => match operation {
            BinOp::Lt => Some(truth(left < right)),
            BinOp::Le => Some(truth(left <= right)),
            BinOp::Gt => Some(truth(left > right)),
            BinOp::Ge => Some(truth(left >= right)),
            _ => None,
        },
    }
}

/// Compare two constants.
pub fn compare_numeric(operation: BinOp, left: &LibraryConst, right: &LibraryConst) -> (out: Option<
    LibraryConst,
>)
    ensures
        option_view(out) == comparison(operation, left.value@, right.value@),
{
    let (left, right) = match positions(&left.value, &right.value) {
        Some(found) => found,
        None => {
            return None;
        },
    };
    match operation {
        BinOp::Lt => Some(boolean_constant(left < right)),
        BinOp::Le => Some(boolean_constant(left <= right)),
        BinOp::Gt => Some(boolean_constant(left > right)),
        BinOp::Ge => Some(boolean_constant(left >= right)),
        _ => None,
    }
}

/// Whether two values are equal: of one kind, and at one place where they are numbers. What is not
/// a number is equal to nothing.
pub open spec fn equal_values(left: LibConstView, right: LibConstView) -> bool {
    match (left, right) {
        (LibConstView::Str(left), LibConstView::Str(right)) => left == right,
        _ => places(left, right) matches Some((left, right)) && left == right,
    }
}

fn values_equal(left: &LibConst, right: &LibConst) -> (equal: bool)
    ensures
        equal == equal_values(left@, right@),
{
    match (left, right) {
        (LibConst::Str(left), LibConst::Str(right)) => *left == *right,
        _ => match positions(left, right) {
            Some((left, right)) => left == right,
            None => false,
        },
    }
}

/// What an operator that is no call makes of two constants.
pub open spec fn connective(
    operation: BinOp,
    left: LibraryConstView,
    right: LibraryConstView,
) -> Option<LibraryConstView> {
    match operation {
        BinOp::And | BinOp::Or => if left.ty.non_null() == TyView::Boolean && right.ty.non_null()
            == TyView::Boolean {
            match (int_of(left.value), int_of(right.value)) {
                (Some(left), Some(right)) => Some(
                    truth(
                        if operation == BinOp::And {
                            left != 0 && right != 0
                        } else {
                            left != 0 || right != 0
                        },
                    ),
                ),
                _ => None,
            }
        } else {
            None
        },
        BinOp::Eq => Some(truth(equal_values(left.value, right.value))),
        BinOp::Ne => Some(truth(!equal_values(left.value, right.value))),
        _ => None,
    }
}

pub fn evaluate_non_call_binary(
    operation: BinOp,
    left: &LibraryConst,
    right: &LibraryConst,
) -> (out: Option<LibraryConst>)
    ensures
        option_view(out) == connective(operation, left@, right@),
{
    match operation {
        BinOp::And | BinOp::Or => {
            if !matches!(left.ty.non_null(), Ty::Boolean) || !matches!(
                right.ty.non_null(),
                Ty::Boolean
            ) {
                return None;
            }
            match (constant_i32(&left.value), constant_i32(&right.value)) {
                (Some(left), Some(right)) => Some(
                    boolean_constant(
                        if operation == BinOp::And {
                            left != 0 && right != 0
                        } else {
                            left != 0 || right != 0
                        },
                    ),
                ),
                _ => None,
            }
        },
        BinOp::Eq => Some(boolean_constant(values_equal(&left.value, &right.value))),
        BinOp::Ne => Some(boolean_constant(!values_equal(&left.value, &right.value))),
        _ => None,
    }
}

/// How a double value is spelled in a string.
pub open spec fn double_text<F: FloatFolding>(floats: F, bits: u64) -> Option<Seq<char>> {
    if place64(bits) is None {
        Some("NaN"@)
    } else if bits == 0x7ff0_0000_0000_0000 {
        Some("Infinity"@)
    } else if bits == 0xfff0_0000_0000_0000 {
        Some("-Infinity"@)
    } else {
        option_view(floats.spells(bits))
    }
}

fn spell_double<F: FloatFolding>(floats: &F, bits: u64) -> (text: Option<String>)
    ensures
        option_view(text) == double_text(*floats, bits),
{
    if position64(bits).is_none() {
        Some("NaN".to_owned())
    } else if bits == 0x7ff0_0000_0000_0000 {
        Some("Infinity".to_owned())
    } else if bits == 0xfff0_0000_0000_0000 {
        Some("-Infinity".to_owned())
    } else {
        floats.spell(bits)
    }
}

/// How a constant is spelled in a string.
pub open spec fn constant_text<F: FloatFolding>(
    floats: F,
    constant: LibraryConstView,
) -> Option<Seq<u16>> {
    match constant.value {
        LibConstView::Str(text) => Some(text),
        LibConstView::Int(value) => match constant.ty.non_null() {
            TyView::Boolean => Some(
                text_units(
                    if value == 0 {
                        "false"@
                    } else {
                        "true"@
                    },
                ),
            ),
            TyView::Char => if 0 <= value <= u16::MAX {
                Some(seq![value as u16])
            } else {
                None
            },
            TyView::UInt => Some(text_units(decimal((value as u32) as nat))),
            _ => Some(text_units(signed_decimal(value as int))),
        },
        LibConstView::Long(value) => Some(
            text_units(
                if constant.ty.non_null() == TyView::ULong {
                    decimal((value as u64) as nat)
                } else {
                    signed_decimal(value as int)
                },
            ),
        ),
        LibConstView::Float(bits) => match floats.answers(FloatRequest::Widen { bits }) {
            Some(wide) => match double_text(floats, wide) {
                Some(text) => Some(text_units(text)),
                None => None,
            },
            None => None,
        },
        LibConstView::Double(bits) => match double_text(floats, bits) {
            Some(text) => Some(text_units(text)),
            None => None,
        },
    }
}

/// Append a constant to a string. The result says whether it could be spelled.
fn push_constant_string<F: FloatFolding>(
    floats: &F,
    constant: &LibraryConst,
    output: &mut KtStringBuf,
) -> (spelled: bool)
    ensures
        match constant_text(*floats, constant@) {
            Some(text) => spelled && final(output)@ == old(output)@ + text,
            None => !spelled,
        },
{
    match &constant.value {
        LibConst::Str(text) => output.push_kt(text),
        LibConst::Int(value) => match constant.ty.non_null() {
            Ty::Boolean => output.push_str(
                if *value == 0 {
                    "false"
                } else {
                    "true"
                },
            ),
            Ty::Char => {
                if *value < 0 || *value > 0xffff {
                    return false;
                }
                let ghost before = output@;
                output.push_unit(*value as u16);
                assert(output@ =~= before + seq![*value as u16]);
            },
            Ty::UInt => output.push_str(decimal_text((*value as u32) as u64).as_str()),
            _ => output.push_str(signed_decimal_text(*value as i64).as_str()),
        },
        LibConst::Long(value) => {
            if matches!(constant.ty.non_null(), Ty::ULong) {
                output.push_str(decimal_text(*value as u64).as_str());
            } else {
                output.push_str(signed_decimal_text(*value).as_str());
            }
        },
        LibConst::Float(bits) => match floats.fold(FloatRequest::Widen { bits: *bits }) {
            Some(wide) => match spell_double(floats, wide) {
                Some(text) => output.push_str(text.as_str()),
                None => {
                    return false;
                },
            },
            None => {
                return false;
            },
        },
        LibConst::Double(bits) => match spell_double(floats, *bits) {
            Some(text) => output.push_str(text.as_str()),
            None => {
                return false;
            },
        },
    }
    true
}

/// A call that an operator stands for.
#[derive(Clone, Copy, Debug, PartialEq, Eq, Structural)]
pub enum SyntheticOperatorCall {
    Plus,
    Minus,
    Times,
    Div,
    Rem,
    CompareTo,
}

/// The call that a binary operator stands for, where it stands for one.
pub open spec fn operator_call(operation: BinOp) -> Option<SyntheticOperatorCall> {
    match operation {
        BinOp::Add => Some(SyntheticOperatorCall::Plus),
        BinOp::Sub => Some(SyntheticOperatorCall::Minus),
        BinOp::Mul => Some(SyntheticOperatorCall::Times),
        BinOp::Div => Some(SyntheticOperatorCall::Div),
        BinOp::Rem => Some(SyntheticOperatorCall::Rem),
        BinOp::Lt | BinOp::Le | BinOp::Gt | BinOp::Ge => Some(SyntheticOperatorCall::CompareTo),
        _ => None,
    }
}

/// The builtin operation that an arithmetic call is.
pub open spec fn expected_intrinsic(call: SyntheticOperatorCall) -> Option<
    PrimitiveBinaryIntrinsic,
> {
    match call {
        SyntheticOperatorCall::Plus => Some(PrimitiveBinaryIntrinsic::Add),
        SyntheticOperatorCall::Minus => Some(PrimitiveBinaryIntrinsic::Subtract),
        SyntheticOperatorCall::Times => Some(PrimitiveBinaryIntrinsic::Multiply),
        SyntheticOperatorCall::Div => Some(PrimitiveBinaryIntrinsic::Divide),
        SyntheticOperatorCall::Rem => Some(PrimitiveBinaryIntrinsic::Remainder),
        SyntheticOperatorCall::CompareTo => None,
    }
}

fn call_of_operator(operation: BinOp) -> (call: Option<SyntheticOperatorCall>)
    ensures
        call == operator_call(operation),
{
    match operation {
        BinOp::Add => Some(SyntheticOperatorCall::Plus),
        BinOp::Sub => Some(SyntheticOperatorCall::Minus),
        BinOp::Mul => Some(SyntheticOperatorCall::Times),
        BinOp::Div => Some(SyntheticOperatorCall::Div),
        BinOp::Rem => Some(SyntheticOperatorCall::Rem),
        BinOp::Lt | BinOp::Le | BinOp::Gt | BinOp::Ge => Some(SyntheticOperatorCall::CompareTo),
        _ => None,
    }
}

fn intrinsic_of_call(call: SyntheticOperatorCall) -> (intrinsic: Option<PrimitiveBinaryIntrinsic>)
    ensures
        intrinsic == expected_intrinsic(call),
{
    match call {
        SyntheticOperatorCall::Plus => Some(PrimitiveBinaryIntrinsic::Add),
        SyntheticOperatorCall::Minus => Some(PrimitiveBinaryIntrinsic::Subtract),
        SyntheticOperatorCall::Times => Some(PrimitiveBinaryIntrinsic::Multiply),
        SyntheticOperatorCall::Div => Some(PrimitiveBinaryIntrinsic::Divide),
        SyntheticOperatorCall::Rem => Some(PrimitiveBinaryIntrinsic::Remainder),
        SyntheticOperatorCall::CompareTo => None,
    }
}

/// Whether a selected callable, where one was selected, is the builtin operation `wanted`.
pub open spec fn is_builtin(
    selected: Option<Option<CompilerIntrinsic>>,
    wanted: CompilerIntrinsic,
) -> bool {
    match selected {
        None => true,
        Some(intrinsic) => intrinsic == Some(wanted),
    }
}

fn selects_builtin(selected: Option<Option<CompilerIntrinsic>>, wanted: CompilerIntrinsic) -> (yes:
    bool)
    ensures
        yes == is_builtin(selected, wanted),
{
    match selected {
        None => true,
        Some(None) => false,
        Some(Some(intrinsic)) => intrinsic == wanted,
    }
}

/// What a binary operator makes of two constants. An operator whose selected callable is not the
/// builtin operation has no constant value.
pub open spec fn binary<F: FloatFolding>(
    floats: F,
    operation: BinOp,
    selected: Option<Option<CompilerIntrinsic>>,
    left: LibraryConstView,
    right: LibraryConstView,
    ty: TyView,
) -> Option<LibraryConstView> {
    match operator_call(operation) {
        None => connective(operation, left, right),
        Some(call) => if operation == BinOp::Add && ty.non_null() == TyView::String && is_builtin(
            selected,
            CompilerIntrinsic::StringPlus,
        ) {
            match (constant_text(floats, left), constant_text(floats, right)) {
                (Some(left), Some(right)) => Some(
                    LibraryConstView { ty, value: LibConstView::Str(left + right) },
                ),
                _ => None,
            }
        } else {
            match expected_intrinsic(call) {
                None => if is_builtin(selected, CompilerIntrinsic::PrimitiveCompare) {
                    comparison(operation, left.value, right.value)
                } else {
                    None
                },
                Some(expected) => if is_builtin(
                    selected,
                    CompilerIntrinsic::PrimitiveBinary(expected),
                ) {
                    arithmetic(floats, expected, left.value, right.value, ty)
                } else {
                    None
                },
            }
        },
    }
}

/// Compute a binary operator of two constants.
pub fn evaluate_binary<F: FloatFolding>(
    floats: &F,
    operation: BinOp,
    selected: Option<Option<CompilerIntrinsic>>,
    left: &LibraryConst,
    right: &LibraryConst,
    ty: Ty,
) -> (out: Option<LibraryConst>)
    ensures
        option_view(out) == binary(*floats, operation, selected, left@, right@, ty@),
{
    let call = match call_of_operator(operation) {
        Some(call) => call,
        None => {
            return evaluate_non_call_binary(operation, left, right);
        },
    };
    if operation == BinOp::Add && matches!(ty.non_null(), Ty::String) && selects_builtin(
        selected,
        CompilerIntrinsic::StringPlus,
    ) {
        let mut output = KtStringBuf::new();
        if !push_constant_string(floats, left, &mut output) {
            return None;
        }
        if !push_constant_string(floats, right, &mut output) {
            return None;
        }
        let text = output.finish();
        proof {
            let first = constant_text(*floats, left@)->0;
            let second = constant_text(*floats, right@)->0;
            assert(text@ =~= first + second);
        }
        return Some(LibraryConst { ty, value: LibConst::Str(text) });
    }
    match intrinsic_of_call(call) {
        None => {
            if selects_builtin(selected, CompilerIntrinsic::PrimitiveCompare) {
                compare_numeric(operation, left, right)
            } else {
                None
            }
        },
        Some(expected) => {
            if selects_builtin(selected, CompilerIntrinsic::PrimitiveBinary(expected)) {
                arithmetic_numeric(floats, expected, left, right, ty)
            } else {
                None
            }
        },
    }
}

/// What is known of an expression that may be constant.
#[derive(Debug)]
pub struct CheckedConstantExpression<'a> {
    pub file: &'a File,
    pub expression_types: &'a Vec<Ty>,
    /// The constants that expressions read.
    pub resolved_constants: &'a HashMap<u32, LibraryConst>,
    /// The builtin operations that the called functions are, where they are.
    pub resolved_calls: &'a HashMap<u32, Option<CompilerIntrinsic>>,
    /// The builtin operations that the functions called by operators are, where they are.
    pub resolved_operator_calls: &'a Vec<
        (u32, SyntheticOperatorCall, Option<CompilerIntrinsic>),
    >,
}

/// The builtin operation of the function that was selected for an operator of an expression.
pub open spec fn selected_operation(
    calls: Seq<(u32, SyntheticOperatorCall, Option<CompilerIntrinsic>)>,
    expression: u32,
    operator: SyntheticOperatorCall,
) -> Option<Option<CompilerIntrinsic>>
    decreases calls.len(),
{
    if calls.len() == 0 {
        None
    } else if calls[0].0 == expression && calls[0].1 == operator {
        Some(calls[0].2)
    } else {
        selected_operation(calls.skip(1), expression, operator)
    }
}

impl<'a> CheckedConstantExpression<'a> {
    /// Whether the expressions of the file are those that are known.
    pub open spec fn well_formed(self) -> bool {
        self.file.well_formed()
    }

    /// The type of an expression, where it is known: the requested one, or its own.
    pub open spec fn type_of(self, expression: ExprId, requested: Option<TyView>) -> Option<
        TyView,
    > {
        let ty = match requested {
            Some(ty) => Some(ty),
            None => if (expression.0 as int) < self.expression_types@.len() {
                Some(self.expression_types@[expression.0 as int]@)
            } else {
                None
            },
        };
        match ty {
            Some(ty) if (expression.0 as int) < self.expression_types@.len() && !ty.mentions_error()
                && !ty.mentions_pending() => Some(ty.canonical_semantic()),
            _ => None,
        }
    }

    /// The value of an expression, at most `fuel` expressions deep.
    pub open spec fn value<F: FloatFolding>(
        self,
        floats: F,
        expression: ExprId,
        requested: Option<TyView>,
        fuel: nat,
    ) -> Option<LibraryConstView>
        decreases fuel, 0nat, 0nat,
    {
        if fuel == 0 {
            None
        } else {
            match self.type_of(expression, requested) {
                None => None,
                Some(ty) => if self.resolved_constants@.contains_key(expression.0) {
                    retyped(self.resolved_constants@[expression.0]@, ty)
                } else {
                    match literal(*self.file, expression, ty) {
                        Some(constant) => Some(constant),
                        None => self.composed(floats, expression, ty, (fuel - 1) as nat),
                    }
                },
            }
        }
    }

    /// The value of an expression that is made of others.
    pub open spec fn composed<F: FloatFolding>(
        self,
        floats: F,
        expression: ExprId,
        ty: TyView,
        fuel: nat,
    ) -> Option<LibraryConstView>
        decreases fuel, 2nat, 0nat,
    {
        match self.file.expr_at(expression) {
            Expr::Unary { op, operand } => match self.value(floats, operand, None, fuel) {
                Some(operand) => typed(unary_value(op, operand), ty),
                None => None,
            },
            Expr::Binary { op, lhs, rhs } => match (
                self.value(floats, lhs, None, fuel),
                self.value(floats, rhs, None, fuel),
            ) {
                (Some(left), Some(right)) => binary(
                    floats,
                    op,
                    match operator_call(op) {
                        Some(call) => selected_operation(
                            self.resolved_operator_calls@,
                            expression.0,
                            call,
                        ),
                        None => None,
                    },
                    left,
                    right,
                    ty,
                ),
                _ => None,
            },
            Expr::Template(parts) => match self.template(floats, parts, parts@.len(), fuel) {
                Some(text) => Some(LibraryConstView { ty, value: LibConstView::Str(text) }),
                None => None,
            },
            Expr::Call { callee, args } => if args@.len() == 0
                && self.resolved_calls@.contains_key(expression.0)
                && self.resolved_calls@[expression.0] == Some(
                CompilerIntrinsic::NumericConversion,
            ) {
                match self.file.expr_at(callee) {
                    Expr::Member { receiver, .. } => match self.value(
                        floats,
                        receiver,
                        None,
                        fuel,
                    ) {
                        Some(operand) => conversion(floats, operand.value, ty),
                        None => None,
                    },
                    _ => None,
                }
            } else {
                None
            },
            _ => None,
        }
    }

    /// The text of the first `count` parts of a template.
    pub open spec fn template<F: FloatFolding>(
        self,
        floats: F,
        parts: Vec<TemplatePart>,
        count: nat,
        fuel: nat,
    ) -> Option<Seq<u16>>
        decreases fuel, 1nat, count,
    {
        if count == 0 {
            Some(seq![])
        } else {
            match (
                self.template(floats, parts, (count - 1) as nat, fuel),
                match parts@[count - 1] {
                    TemplatePart::Str(text) => Some(text@),
                    TemplatePart::Expr(inner) => match self.value(floats, inner, None, fuel) {
                        Some(constant) => constant_text(floats, constant),
                        None => None,
                    },
                },
            ) {
                (Some(before), Some(text)) => Some(before + text),
                _ => None,
            }
        }
    }
}

impl<'a> CheckedConstantExpression<'a> {
    fn expression_ty(&self, expression: ExprId, requested: Option<&Ty>) -> (ty: Option<Ty>)
        ensures
            option_view(ty) == self.type_of(
                expression,
                match requested {
                    Some(ty) => Some(ty@),
                    None => None,
                },
            ),
    {
        let index: usize = expression.0 as usize;
        if index >= self.expression_types.len() {
            return None;
        }
        let ty = match requested {
            Some(ty) => ty,
            None => &self.expression_types[index],
        };
        if ty.mentions_error() || ty.mentions_pending() {
            return None;
        }
        Some(ty.canonical_semantic())
    }

    fn selected_intrinsic(&self, expression: ExprId, operator: SyntheticOperatorCall) -> (selected:
        Option<Option<CompilerIntrinsic>>)
        ensures
            selected == selected_operation(
                self.resolved_operator_calls@,
                expression.0,
                operator,
            ),
    {
        let calls = self.resolved_operator_calls;
        let mut index: usize = 0;
        assert(calls@.skip(0) =~= calls@);
        while index < calls.len()
            invariant
                index <= calls@.len(),
                *calls == *self.resolved_operator_calls,
                selected_operation(calls@.skip(index as int), expression.0, operator)
                    == selected_operation(calls@, expression.0, operator),
            decreases calls@.len() - index,
        {
            assert(calls@.skip(index as int).skip(1) =~= calls@.skip(index as int + 1));
            if calls[index].0 == expression.0 && calls[index].1 == operator {
                return Some(calls[index].2);
            }
            index += 1;
        }
        None
    }

    fn evaluate<F: FloatFolding>(
        &self,
        floats: &F,
        expression: ExprId,
        requested: Option<&Ty>,
        fuel: u32,
    ) -> (constant: Option<LibraryConst>)
        requires
            self.well_formed(),
            self.file.has(Node::Expr(expression)),
        ensures
            option_view(constant) == self.value(
                *floats,
                expression,
                match requested {
                    Some(ty) => Some(ty@),
                    None => None,
                },
                fuel as nat,
            ),
        decreases fuel, 0nat, 0nat,
    {
        if fuel == 0 {
            return None;
        }
        let ty = match self.expression_ty(expression, requested) {
            Some(ty) => ty,
            None => {
                return None;
            },
        };
        if let Some(constant) = self.resolved_constants.get(&expression.0) {
            return retype_constant(constant.duplicate(), &ty);
        }
        if let Some(constant) = source_literal_constant(self.file, expression, &ty) {
            return Some(constant);
        }
        self.compose(floats, expression, ty, fuel - 1)
    }

    fn compose<F: FloatFolding>(&self, floats: &F, expression: ExprId, ty: Ty, fuel: u32) -> (
    constant: Option<LibraryConst>)
        requires
            self.well_formed(),
            self.file.has(Node::Expr(expression)),
        ensures
            option_view(constant) == self.composed(*floats, expression, ty@, fuel as nat),
        decreases fuel, 2nat, 0nat,
    {
        let ghost children = self.file.children(Node::Expr(expression));
        proof {
            self.file.lemma_children(Node::Expr(expression));
        }
        match self.file.expr(expression) {
            Expr::Unary { op, operand } => {
                assert(children[0] == Node::Expr(*operand));
                match self.evaluate(floats, *operand, None, fuel) {
                    Some(operand) => evaluate_unary(*op, operand, ty),
                    None => None,
                }
            },
            Expr::Binary { op, lhs, rhs } => {
                assert(children[0] == Node::Expr(*lhs));
                assert(children[1] == Node::Expr(*rhs));
                let left = self.evaluate(floats, *lhs, None, fuel);
                let right = self.evaluate(floats, *rhs, None, fuel);
                let selected = match call_of_operator(*op) {
                    Some(call) => self.selected_intrinsic(expression, call),
                    None => None,
                };
                match (left, right) {
                    (Some(left), Some(right)) => evaluate_binary(
                        floats,
                        *op,
                        selected,
                        &left,
                        &right,
                        ty,
                    ),
                    _ => None,
                }
            },
            Expr::Template(parts) => match self.evaluate_template(floats, expression, parts, fuel) {
                Some(text) => Some(LibraryConst { ty, value: LibConst::Str(text) }),
                None => None,
            },
            Expr::Call { callee, args } => {
                if args.len() != 0 {
                    return None;
                }
                match self.resolved_calls.get(&expression.0) {
                    Some(Some(CompilerIntrinsic::NumericConversion)) => {},
                    _ => {
                        return None;
                    },
                }
                assert(children[0] == Node::Expr(*callee));
                match self.file.expr(*callee) {
                    Expr::Member { receiver, .. } => {
                        proof {
                            self.file.lemma_children(Node::Expr(*callee));
                            assert(self.file.children(Node::Expr(*callee))[0] == Node::Expr(
                                *receiver,
                            ));
                        }
                        match self.evaluate(floats, *receiver, None, fuel) {
                            Some(operand) => evaluate_numeric_conversion(floats, &operand, ty),
                            None => None,
                        }
                    },
                    _ => None,
                }
            },
            _ => None,
        }
    }

    fn evaluate_template<F: FloatFolding>(
        &self,
        floats: &F,
        expression: ExprId,
        parts: &Vec<TemplatePart>,
        fuel: u32,
    ) -> (text: Option<KtString>)
        requires
            self.well_formed(),
            self.file.has(Node::Expr(expression)),
            self.file.expr_at(expression) matches Expr::Template(own) && own == *parts,
        ensures
            option_view(text) == self.template(*floats, *parts, parts@.len(), fuel as nat),
        decreases fuel, 1nat, parts@.len(),
    {
        let mut output = KtStringBuf::new();
        let mut index: usize = 0;
        while index < parts.len()
            invariant
                index <= parts@.len(),
                self.well_formed(),
                self.file.has(Node::Expr(expression)),
                self.file.expr_at(expression) matches Expr::Template(own) && own == *parts,
                self.template(*floats, *parts, index as nat, fuel as nat) == Some(output@),
            decreases parts@.len() - index,
        {
            let ghost before = output@;
            match &parts[index] {
                TemplatePart::Str(text) => {
                    output.push_kt(text);
                },
                TemplatePart::Expr(inner) => {
                    proof {
                        lemma_template_part(*self.file, expression, *parts, index as int);
                    }
                    let spelled = match self.evaluate(floats, *inner, None, fuel) {
                        Some(constant) => push_constant_string(floats, &constant, &mut output),
                        None => false,
                    };
                    if !spelled {
                        proof {
                            self.lemma_template_fails(
                                *floats,
                                *parts,
                                (index + 1) as nat,
                                parts@.len(),
                                fuel as nat,
                            );
                        }
                        return None;
                    }
                },
            }
            index += 1;
        }
        Some(output.finish())
    }

    /// A template fails where a part of it fails.
    proof fn lemma_template_fails<F: FloatFolding>(
        self,
        floats: F,
        parts: Vec<TemplatePart>,
        seen: nat,
        count: nat,
        fuel: nat,
    )
        requires
            seen <= count,
            self.template(floats, parts, seen, fuel) is None,
        ensures
            self.template(floats, parts, count, fuel) is None,
        decreases count - seen,
    {
        if seen < count {
            self.lemma_template_fails(floats, parts, seen + 1, count, fuel);
        }
    }
}

proof fn lemma_template_part(file: File, expression: ExprId, parts: Vec<TemplatePart>, index: int)
    requires
        file.well_formed(),
        file.has(Node::Expr(expression)),
        file.expr_at(expression) == Expr::Template(parts),
        0 <= index < parts@.len(),
        parts@[index] is Expr,
    ensures
        file.has(Node::Expr(parts@[index]->Expr_0)),
{
    let inner = parts@[index]->Expr_0;
    let piece = |part: TemplatePart|
        match part {
            TemplatePart::Expr(expression) => seq![expression],
            TemplatePart::Str(_) => Seq::empty(),
        };
    assert(piece(parts@[index])[0] == inner);
    crate::ast::lemma_gathered_contains(parts@, piece, index, 0);
    let all = crate::ast::template_exprs(parts@);
    assert(all.contains(inner));
    let at = choose|k: int| 0 <= k < all.len() && all[k] == inner;
    assert(file.children(Node::Expr(expression))[at] == Node::Expr(inner));
    file.lemma_inside(Node::Expr(expression), Node::Expr(inner));
}

/// The value of the initializer of a constant of the type `declared_ty`. The expressions inside it
/// have the types that checking gave them.
pub fn checked_constant_expression<F: FloatFolding>(
    context: &CheckedConstantExpression<'_>,
    floats: &F,
    expression: ExprId,
    declared_ty: &Ty,
) -> (constant: Option<LibraryConst>)
    requires
        context.well_formed(),
        context.file.has(Node::Expr(expression)),
    ensures
        option_view(constant) == context.value(*floats, expression, Some(declared_ty@), 65),
{
    context.evaluate(floats, expression, Some(declared_ty), 65)
}

/// Negating twice gives the value back.
pub proof fn negation_undoes_itself(bits: u32, wide: u64)
    ensures
        negated32(negated32(bits)) == bits,
        negated64(negated64(wide)) == wide,
{
}

/// Negating a number mirrors it in the order of numbers, and leaves what is no number none.
pub proof fn negation_mirrors(bits: u32, wide: u64)
    ensures
        place32(negated32(bits)) == match place32(bits) {
            Some(place) => Some(-place),
            None => None,
        },
        place64(negated64(wide)) == match place64(wide) {
            Some(place) => Some(-place),
            None => None,
        },
{
}

proof fn lemma_quotient(value: int, divisor: int)
    by (nonlinear_arith)
    requires
        value >= 0,
        divisor >= 1,
    ensures
        0 <= value / divisor <= value,
        divisor >= 2 ==> 2 * (value / divisor) <= value,
{
}

/// An integer without its sign.
spec fn magnitude(value: int) -> int {
    if value < 0 {
        -value
    } else {
        value
    }
}

/// Integer division and remainder have a value for every divisor but zero.
pub proof fn only_division_by_zero_has_no_value(left: i32, right: i32, wide: i64, by: i64)
    ensures
        int_arithmetic(PrimitiveBinaryIntrinsic::Divide, left, right, false) is None <==> right
            == 0,
        int_arithmetic(PrimitiveBinaryIntrinsic::Remainder, left, right, false) is None <==> right
            == 0,
        long_arithmetic(PrimitiveBinaryIntrinsic::Divide, wide, by, false) is None <==> by == 0,
        long_arithmetic(PrimitiveBinaryIntrinsic::Remainder, wide, by, false) is None <==> by == 0,
{
    if right != 0 {
        lemma_quotient(magnitude(left as int), magnitude(right as int));
    }
    if by != 0 {
        lemma_quotient(magnitude(wide as int), magnitude(by as int));
    }
}

/// Of two values that can be compared, exactly one is less than the other, or they are equal.
pub proof fn comparisons_are_consistent(left: LibConstView, right: LibConstView)
    requires
        places(left, right) is Some,
    ensures
        comparison(BinOp::Le, left, right) == comparison(BinOp::Ge, right, left),
        comparison(BinOp::Lt, left, right) == comparison(BinOp::Gt, right, left),
        comparison(BinOp::Lt, left, right) == Some(truth(true)) <==> comparison(
            BinOp::Ge,
            left,
            right,
        ) == Some(truth(false)),
        equal_values(left, right) <==> comparison(BinOp::Le, left, right) == Some(truth(true))
            && comparison(BinOp::Ge, left, right) == Some(truth(true)),
{
}

/// A literal is its own value: whatever a constant expression may be made of, a literal initializer
/// has the value of the literal.
pub proof fn a_literal_is_its_own_value<F: FloatFolding>(
    context: CheckedConstantExpression<'_>,
    floats: F,
    expression: ExprId,
    ty: TyView,
)
    requires
        context.type_of(expression, Some(ty)) is Some,
        !context.resolved_constants@.contains_key(expression.0),
        literal(*context.file, expression, ty.canonical_semantic()) is Some,
    ensures
        context.value(floats, expression, Some(ty), 65) == literal(
            *context.file,
            expression,
            ty.canonical_semantic(),
        ),
{
}

} // verus!
