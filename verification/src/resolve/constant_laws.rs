//! What constant evaluation computes, in terms of the integers and of the texts that constants
//! stand for.

use vstd::prelude::*;

use crate::ast::{BinOp, Expr, ExprId, TemplatePart, UnOp};
use crate::kt_string::text_units;
use crate::libraries::{CompilerIntrinsic, LibConstView, LibraryConstView};
use crate::resolve::constant_evaluation::{
    comparison, equal_values, expected_intrinsic, int_arithmetic, literal, long_arithmetic, long_of,
    operator_call, selected_operation, CheckedConstantExpression, FloatFolding,
    SyntheticOperatorCall,
};
use crate::text::{an_integer_is_read_back_from_its_spelling, signed_decimal, spelled_integer};
use crate::types::TyView;

verus! {

/// The integer that a value is held as.
pub open spec fn whole(value: LibConstView) -> Option<int> {
    match value {
        LibConstView::Int(value) => Some(value as int),
        LibConstView::Long(value) => Some(value as int),
        _ => None,
    }
}

/// Whether a type is one of 32-bit integers.
pub open spec fn is_word(ty: TyView) -> bool {
    ty is Int || ty is UInt
}

/// Whether a type is one of 64-bit integers.
pub open spec fn is_wide(ty: TyView) -> bool {
    ty is Long || ty is ULong
}

/// How many values an integer type has.
pub open spec fn modulus(ty: TyView) -> int {
    if is_wide(ty) {
        0x1_0000_0000_0000_0000
    } else {
        0x1_0000_0000
    }
}

/// Whether two integers differ by a multiple of `by`.
pub open spec fn congruent(left: int, right: int, by: int) -> bool {
    (left - right) % by == 0
}

/// Whether `found` is a constant of an integer type, held in its width, and stands for `n`.
pub open spec fn is_integer(found: Option<LibraryConstView>, ty: TyView, n: int) -> bool {
    found matches Some(constant) && constant.ty == ty && whole(constant.value) == Some(n) && (
    is_word(ty) ==> constant.value is Int) && (is_wide(ty) ==> constant.value is Long)
}

/// An integer without its sign.
pub open spec fn size(value: int) -> int {
    if value < 0 {
        -value
    } else {
        value
    }
}

/// What `found` has to be for the operator `op` of integers `a` and `b` that are held as values of
/// the type `ty`. Sums, differences and products wrap around. A quotient is rounded towards zero,
/// and a remainder has the sign of the dividend; of unsigned numbers both are those of the numbers
/// from zero on. Nothing is divided by zero.
pub open spec fn computes(op: BinOp, a: int, b: int, ty: TyView, found: Option<LibraryConstView>) -> bool {
    let m = modulus(ty);
    let n = whole(found->0.value)->0;
    match op {
        BinOp::Add => is_integer(found, ty, n) && congruent(n, a + b, m),
        BinOp::Sub => is_integer(found, ty, n) && congruent(n + b, a, m),
        BinOp::Mul => is_integer(found, ty, n) && congruent(n, a * b, m),
        BinOp::Div => if b == 0 {
            found is None
        } else if ty is Int || ty is Long {
            &&& is_integer(found, ty, n)
            &&& !(a == -(m / 2) && b == -1) ==> size(a - n * b) < size(b) && (a - n * b) * a >= 0
            &&& a == -(m / 2) && b == -1 ==> n == a
        } else {
            &&& is_integer(found, ty, n)
            &&& 0 <= a % m - (n % m) * (b % m) < b % m
        },
        BinOp::Rem => if b == 0 {
            found is None
        } else if ty is Int || ty is Long {
            &&& is_integer(found, ty, n)
            &&& size(n) < size(b)
            &&& n * a >= 0
            &&& congruent(a, n, size(b))
        } else {
            &&& is_integer(found, ty, n)
            &&& 0 <= n % m < b % m
            &&& congruent(a % m, n % m, b % m)
        },
        _ => true,
    }
}

proof fn lemma_unsigned_word(value: i32)
    ensures
        (value as u32) as int == (value as int) % 0x1_0000_0000,
        ((value as u32) as i32) == value,
{
    assert((value as u32) as i64 == (if value < 0 {
        (value as i64 + 0x1_0000_0000i64) as i64
    } else {
        value as i64
    })) by (bit_vector);
    assert((value as u32) as i32 == value) by (bit_vector);
}

proof fn lemma_signed_word(value: u32)
    ensures
        ((value as i32) as int) % 0x1_0000_0000 == value as int,
{
    assert((value as i32) as u32 == value) by (bit_vector);
    lemma_unsigned_word(value as i32);
}

proof fn lemma_unsigned_wide(value: i64)
    ensures
        (value as u64) as int == (value as int) % 0x1_0000_0000_0000_0000,
{
    assert((value as u64) as i128 == (if value < 0 {
        (value as i128 + 0x1_0000_0000_0000_0000i128) as i128
    } else {
        value as i128
    })) by (bit_vector);
}

proof fn lemma_signed_wide(value: u64)
    ensures
        ((value as i64) as int) % 0x1_0000_0000_0000_0000 == value as int,
{
    assert((value as i64) as u64 == value) by (bit_vector);
    lemma_unsigned_wide(value as i64);
}

proof fn lemma_quotient(x: int, d: int)
    requires
        x >= 0,
        d > 0,
    ensures
        0 <= x - (x / d) * d < d,
        x - (x / d) * d == x % d,
        0 <= x / d <= x,
        d >= 2 ==> 2 * (x / d) <= x,
{
    vstd::arithmetic::div_mod::lemma_fundamental_div_mod(x, d);
    assert(d * (x / d) == (x / d) * d) by (nonlinear_arith);
    assert(0 <= x / d <= x && (d >= 2 ==> 2 * (x / d) <= x)) by (nonlinear_arith)
        requires
            x >= 0,
            d > 0,
    ;
}

/// The quotient rounded towards zero, and what is left over.
spec fn divides(x: int, d: int, quotient: int, rest: int) -> bool {
    &&& x == quotient * d + rest
    &&& size(rest) < size(d)
    &&& rest * x >= 0
    &&& size(quotient) <= size(x)
    &&& size(d) >= 2 ==> 2 * size(quotient) <= size(x)
}

proof fn lemma_truncated(x: int, d: int)
    requires
        d != 0,
    ensures
        x >= 0 && d > 0 ==> divides(x, d, x / d, x % d),
        x < 0 && d < 0 ==> divides(x, d, (x * -1) / (d * -1), ((x * -1) % (d * -1)) * -1),
        x < 0 && d > 0 ==> divides(x, d, ((x * -1) / d) * -1, ((x * -1) % d) * -1),
        x >= 0 && d < 0 ==> divides(x, d, (x / (d * -1)) * -1, x % (d * -1)),
{
    lemma_quotient(size(x), size(d));
    let q = size(x) / size(d);
    let r = size(x) % size(d);
    assert(size(x) == q * size(d) + r);
    assert((-q) * (-size(d)) == q * size(d)) by (nonlinear_arith);
    assert((-q) * size(d) == -(q * size(d))) by (nonlinear_arith);
    assert(q * (-size(d)) == -(q * size(d))) by (nonlinear_arith);
    assert(r * size(x) >= 0 && (-r) * (-size(x)) >= 0) by (nonlinear_arith)
        requires
            r >= 0,
            size(x) >= 0,
    ;
}

proof fn lemma_rest(a: int, b: int, quotient: int, n: int)
    requires
        b != 0,
        a == quotient * b + n,
    ensures
        congruent(a, n, size(b)),
{
    let times = if b < 0 {
        -quotient
    } else {
        quotient
    };
    assert(a - n == times * size(b)) by (nonlinear_arith)
        requires
            a == quotient * b + n,
            times == (if b < 0 {
                -quotient
            } else {
                quotient
            }),
            size(b) == (if b < 0 {
                -b
            } else {
                b
            }),
    ;
    vstd::arithmetic::div_mod::lemma_mod_multiples_basic(times, size(b));
}

proof fn lemma_word_arithmetic(op: BinOp, left: i32, right: i32, unsigned: bool)
    ensures
        operator_call(op) matches Some(call) ==> (expected_intrinsic(call) matches Some(operation)
            ==> ({
            let ty = if unsigned {
                TyView::UInt
            } else {
                TyView::Int
            };
            computes(
                op,
                left as int,
                right as int,
                ty,
                match int_arithmetic(operation, left, right, unsigned) {
                    Some(value) => Some(LibraryConstView { ty, value: LibConstView::Int(value) }),
                    None => None,
                },
            )
        })),
{
    let a = left as int;
    let b = right as int;
    let m: int = 0x1_0000_0000;
    if op == BinOp::Mul {
        vstd::arithmetic::div_mod::lemma_fundamental_div_mod(a * b, m);
        let n = left.wrapping_mul(right) as int;
        let times = if (a * b) % m > i32::MAX {
            -1 - (a * b) / m
        } else {
            -((a * b) / m)
        };
        assert(n - a * b == times * m);
        vstd::arithmetic::div_mod::lemma_mod_multiples_basic(times, m);
    }
    if right != 0 && (op == BinOp::Div || op == BinOp::Rem) {
        if unsigned {
            lemma_unsigned_word(left);
            lemma_unsigned_word(right);
            assert(b % m != 0);
            lemma_quotient(a % m, b % m);
            lemma_signed_word(((left as u32) / (right as u32)) as u32);
            lemma_signed_word(((left as u32) % (right as u32)) as u32);
            lemma_rest(a % m, b % m, (a % m) / (b % m), (a % m) % (b % m));
        } else {
            lemma_truncated(a, b);
            if !(left == i32::MIN && right == -1) {
                let quotient = left.checked_div(right)->0 as int;
                let rest = left.checked_rem(right)->0 as int;
                assert(divides(a, b, quotient, rest));
                lemma_rest(a, b, quotient, rest);
            } else {
                assert(congruent(a, 0, 1));
            }
        }
    }
}

proof fn lemma_wide_arithmetic(op: BinOp, left: i64, right: i64, unsigned: bool)
    ensures
        operator_call(op) matches Some(call) ==> (expected_intrinsic(call) matches Some(operation)
            ==> ({
            let ty = if unsigned {
                TyView::ULong
            } else {
                TyView::Long
            };
            computes(
                op,
                left as int,
                right as int,
                ty,
                match long_arithmetic(operation, left, right, unsigned) {
                    Some(value) => Some(LibraryConstView { ty, value: LibConstView::Long(value) }),
                    None => None,
                },
            )
        })),
{
    let a = left as int;
    let b = right as int;
    let m: int = 0x1_0000_0000_0000_0000;
    if op == BinOp::Mul {
        vstd::arithmetic::div_mod::lemma_fundamental_div_mod(a * b, m);
        let n = left.wrapping_mul(right) as int;
        let times = if (a * b) % m > i64::MAX {
            -1 - (a * b) / m
        } else {
            -((a * b) / m)
        };
        assert(n - a * b == times * m);
        vstd::arithmetic::div_mod::lemma_mod_multiples_basic(times, m);
    }
    if right != 0 && (op == BinOp::Div || op == BinOp::Rem) {
        if unsigned {
            lemma_unsigned_wide(left);
            lemma_unsigned_wide(right);
            assert(b % m != 0);
            lemma_quotient(a % m, b % m);
            lemma_signed_wide(((left as u64) / (right as u64)) as u64);
            lemma_signed_wide(((left as u64) % (right as u64)) as u64);
            lemma_rest(a % m, b % m, (a % m) / (b % m), (a % m) % (b % m));
        } else {
            lemma_truncated(a, b);
            if !(left == i64::MIN && right == -1) {
                let quotient = left.checked_div(right)->0 as int;
                let rest = left.checked_rem(right)->0 as int;
                assert(divides(a, b, quotient, rest));
                lemma_rest(a, b, quotient, rest);
            } else {
                assert(congruent(a, 0, 1));
            }
        }
    }
}

proof fn lemma_nothing_selected(
    calls: Seq<(u32, SyntheticOperatorCall, Option<CompilerIntrinsic>)>,
    expression: u32,
    operator: SyntheticOperatorCall,
)
    requires
        forall|k: int| 0 <= k < calls.len() ==> (#[trigger] calls[k]).0 != expression,
    ensures
        selected_operation(calls, expression, operator) is None,
    decreases calls.len(),
{
    if calls.len() > 0 {
        assert(calls[0].0 != expression);
        assert forall|k: int| 0 <= k < calls.skip(1).len() implies (#[trigger] calls.skip(1)[k]).0
            != expression by {
            assert(calls.skip(1)[k] == calls[k + 1]);
        }
        lemma_nothing_selected(calls.skip(1), expression, operator);
    }
}

/// Whether an expression is one that constant evaluation computes from its parts: its type is
/// known, it reads no constant, and no function was selected for its operator.
pub open spec fn computed(
    context: CheckedConstantExpression<'_>,
    expression: ExprId,
    requested: Option<TyView>,
    ty: TyView,
) -> bool {
    &&& context.type_of(expression, requested) == Some(ty)
    &&& !ty.mentions_error() && !ty.mentions_pending() && ty.canonical_semantic() == ty
    &&& !context.resolved_constants@.contains_key(expression.0)
    &&& forall|k: int|
        0 <= k < context.resolved_operator_calls@.len() ==> (
        #[trigger] context.resolved_operator_calls@[k]).0 != expression.0
}

/// An arithmetic operator of integer constants has the value of the operation on the integers that
/// its operands stand for, the left one first.
pub proof fn an_operator_computes_with_integers<F: FloatFolding>(
    context: CheckedConstantExpression<'_>,
    floats: F,
    expression: ExprId,
    op: BinOp,
    lhs: ExprId,
    rhs: ExprId,
    requested: Option<TyView>,
    ty: TyView,
    fuel: nat,
)
    requires
        context.file.expr_at(expression) == (Expr::Binary { op, lhs, rhs }),
        is_word(ty) || is_wide(ty),
        computed(context, expression, requested, ty),
        context.value(floats, lhs, None, fuel) matches Some(left) && (left.value is Int || is_wide(
            ty,
        ) && left.value is Long),
        context.value(floats, rhs, None, fuel) matches Some(right) && (right.value is Int
            || is_wide(ty) && right.value is Long),
    ensures
        computes(
            op,
            whole(context.value(floats, lhs, None, fuel)->0.value)->0,
            whole(context.value(floats, rhs, None, fuel)->0.value)->0,
            ty,
            context.value(floats, expression, requested, fuel + 1),
        ),
{
    let left = context.value(floats, lhs, None, fuel)->0;
    let right = context.value(floats, rhs, None, fuel)->0;
    if let Some(call) = operator_call(op) {
        lemma_nothing_selected(context.resolved_operator_calls@, expression.0, call);
        if let Some(operation) = expected_intrinsic(call) {
            if is_word(ty) {
                lemma_word_arithmetic(op, left.value->Int_0, right.value->Int_0, ty is UInt);
            } else {
                lemma_wide_arithmetic(
                    op,
                    long_of(left.value)->0,
                    long_of(right.value)->0,
                    ty is ULong,
                );
            }
        }
    }
    assert(literal(*context.file, expression, ty) is None);
    assert(context.value(floats, expression, requested, fuel + 1) == context.composed(
        floats,
        expression,
        ty,
        fuel,
    ));
}

/// Whether `found` is a truth value and says `answer`.
pub open spec fn says(found: Option<LibraryConstView>, answer: bool) -> bool {
    found matches Some(constant) && constant.ty == TyView::Boolean && constant.value
        == LibConstView::Int(
        if answer {
            1
        } else {
            0
        },
    )
}

/// Whether a constant is the truth value `held`.
pub open spec fn is_truth(constant: LibraryConstView, held: bool) -> bool {
    &&& constant.ty == TyView::Boolean
    &&& constant.value matches LibConstView::Int(value)
    &&& (value != 0) == held
}

proof fn lemma_composed<F: FloatFolding>(
    context: CheckedConstantExpression<'_>,
    floats: F,
    expression: ExprId,
    requested: Option<TyView>,
    ty: TyView,
    fuel: nat,
)
    requires
        computed(context, expression, requested, ty),
        context.file.expr_at(expression) is Binary || context.file.expr_at(expression) is Call
            || context.file.expr_at(expression) is Template || context.file.expr_at(
            expression,
        ) is Unary && literal(*context.file, expression, ty) is None,
    ensures
        context.value(floats, expression, requested, fuel + 1) == context.composed(
            floats,
            expression,
            ty,
            fuel,
        ),
        operator_call(BinOp::Lt) matches Some(call) ==> selected_operation(
            context.resolved_operator_calls@,
            expression.0,
            call,
        ) is None,
        operator_call(BinOp::Add) matches Some(call) ==> selected_operation(
            context.resolved_operator_calls@,
            expression.0,
            call,
        ) is None,
{
    assert(literal(*context.file, expression, ty) is None);
    if let Some(call) = operator_call(BinOp::Lt) {
        lemma_nothing_selected(context.resolved_operator_calls@, expression.0, call);
    }
    if let Some(call) = operator_call(BinOp::Add) {
        lemma_nothing_selected(context.resolved_operator_calls@, expression.0, call);
    }
}

/// Integer constants of one width compare as the integers that they are held as, and an equality
/// says whether these are the same.
pub proof fn a_comparison_is_that_of_the_integers<F: FloatFolding>(
    context: CheckedConstantExpression<'_>,
    floats: F,
    expression: ExprId,
    op: BinOp,
    lhs: ExprId,
    rhs: ExprId,
    requested: Option<TyView>,
    ty: TyView,
    fuel: nat,
)
    requires
        context.file.expr_at(expression) == (Expr::Binary { op, lhs, rhs }),
        computed(context, expression, requested, ty),
        context.value(floats, lhs, None, fuel) is Some,
        context.value(floats, rhs, None, fuel) is Some,
        ({
            let left = context.value(floats, lhs, None, fuel)->0.value;
            let right = context.value(floats, rhs, None, fuel)->0.value;
            left is Int && right is Int || left is Long && right is Long
        }),
    ensures
        ({
            let a = whole(context.value(floats, lhs, None, fuel)->0.value)->0;
            let b = whole(context.value(floats, rhs, None, fuel)->0.value)->0;
            let found = context.value(floats, expression, requested, fuel + 1);
            &&& op == BinOp::Lt ==> says(found, a < b)
            &&& op == BinOp::Le ==> says(found, a <= b)
            &&& op == BinOp::Gt ==> says(found, a > b)
            &&& op == BinOp::Ge ==> says(found, a >= b)
            &&& op == BinOp::Eq ==> says(found, a == b)
            &&& op == BinOp::Ne ==> says(found, a != b)
        }),
{
    lemma_composed(context, floats, expression, requested, ty, fuel);
}

/// Strings are equal where they hold the same characters, and are appended to each other in the
/// order of the operands.
pub proof fn strings_are_compared_and_appended<F: FloatFolding>(
    context: CheckedConstantExpression<'_>,
    floats: F,
    expression: ExprId,
    op: BinOp,
    lhs: ExprId,
    rhs: ExprId,
    requested: Option<TyView>,
    ty: TyView,
    fuel: nat,
    first: Seq<u16>,
    second: Seq<u16>,
)
    requires
        context.file.expr_at(expression) == (Expr::Binary { op, lhs, rhs }),
        computed(context, expression, requested, ty),
        context.value(floats, lhs, None, fuel) matches Some(left) && left.value
            == LibConstView::Str(first),
        context.value(floats, rhs, None, fuel) matches Some(right) && right.value
            == LibConstView::Str(second),
    ensures
        ({
            let found = context.value(floats, expression, requested, fuel + 1);
            &&& op == BinOp::Eq ==> says(found, first == second)
            &&& op == BinOp::Ne ==> says(found, first != second)
            &&& op == BinOp::Add && ty is String ==> found == Some(
                LibraryConstView { ty, value: LibConstView::Str(first + second) },
            )
        }),
{
    lemma_composed(context, floats, expression, requested, ty, fuel);
}

/// `&&` holds where both operands hold, and `||` where one of them does.
pub proof fn connectives_are_those_of_logic<F: FloatFolding>(
    context: CheckedConstantExpression<'_>,
    floats: F,
    expression: ExprId,
    op: BinOp,
    lhs: ExprId,
    rhs: ExprId,
    requested: Option<TyView>,
    ty: TyView,
    fuel: nat,
    first: bool,
    second: bool,
)
    requires
        context.file.expr_at(expression) == (Expr::Binary { op, lhs, rhs }),
        computed(context, expression, requested, ty),
        context.value(floats, lhs, None, fuel) matches Some(left) && is_truth(left, first),
        context.value(floats, rhs, None, fuel) matches Some(right) && is_truth(right, second),
    ensures
        ({
            let found = context.value(floats, expression, requested, fuel + 1);
            &&& op == BinOp::And ==> says(found, first && second)
            &&& op == BinOp::Or ==> says(found, first || second)
        }),
{
    lemma_composed(context, floats, expression, requested, ty, fuel);
}

/// A prefix operator that is not part of a literal: a sign gives the number or its negative, modulo
/// the number of values, and `!` the other truth value.
pub proof fn a_prefix_operator_negates_or_keeps<F: FloatFolding>(
    context: CheckedConstantExpression<'_>,
    floats: F,
    expression: ExprId,
    op: UnOp,
    operand: ExprId,
    requested: Option<TyView>,
    ty: TyView,
    fuel: nat,
)
    requires
        context.file.expr_at(expression) == (Expr::Unary { op, operand }),
        computed(context, expression, requested, ty),
        literal(*context.file, expression, ty) is None,
        context.value(floats, operand, None, fuel) is Some,
    ensures
        ({
            let held = context.value(floats, operand, None, fuel)->0;
            let found = context.value(floats, expression, requested, fuel + 1);
            let n = whole(found->0.value)->0;
            &&& op == UnOp::Neg && whole(held.value) is Some ==> found is Some && found->0.ty == ty
                && whole(found->0.value) is Some && (held.value is Int ==> found->0.value is Int
                && congruent(n + whole(held.value)->0, 0, 0x1_0000_0000)) && (held.value is Long
                ==> found->0.value is Long && congruent(
                n + whole(held.value)->0,
                0,
                0x1_0000_0000_0000_0000,
            ))
            &&& op == UnOp::Plus && !(held.value is Str) ==> found == Some(
                LibraryConstView { ty, value: held.value },
            )
            &&& op == UnOp::Not && ty is Boolean && is_truth(held, true) ==> says(found, false)
            &&& op == UnOp::Not && ty is Boolean && is_truth(held, false) ==> says(found, true)
        }),
{
    lemma_composed(context, floats, expression, requested, ty, fuel);
}

/// A literal stands for what it spells: an integer for that integer, `true` and `false` for
/// themselves, a character for its code, and a string for its characters. A sign in front of an
/// integer literal negates it.
pub proof fn a_literal_stands_for_what_it_spells(
    context: CheckedConstantExpression<'_>,
    expression: ExprId,
    ty: TyView,
)
    requires
        ty.canonical_semantic() == ty,
        !ty.mentions_error(),
        !ty.mentions_pending(),
    ensures
        ({
            let found = literal(*context.file, expression, ty);
            match context.file.expr_at(expression) {
                Expr::IntLit(value) => i32::MIN <= value <= i32::MAX ==> found == Some(
                    LibraryConstView { ty, value: LibConstView::Int(value as i32) },
                ) && whole(found->0.value) == Some(value as int),
                Expr::LongLit(value) => found is Some && found->0.ty == ty && found->0.value is Long
                    && whole(found->0.value) == Some(value as int),
                Expr::ULongLit(value) => found is Some && found->0.ty == ty
                    && found->0.value is Long && whole(found->0.value) == Some(value as int),
                Expr::UIntLit(value) => found is Some && found->0.ty == ty && (ty is ULong
                    ==> found->0.value is Long && whole(found->0.value) == Some(value as int)) && (
                ty is UInt && 0 <= value < 0x1_0000_0000 ==> found->0.value is Int && whole(
                    found->0.value,
                )->0 % 0x1_0000_0000 == value),
                Expr::BoolLit(value) => ty is Boolean ==> says(found, value),
                Expr::CharLit(unit) => found is Some && found->0.ty == ty && found->0.value is Int
                    && whole(found->0.value) == Some(unit as int),
                Expr::StringLit(text) => found == Some(
                    LibraryConstView { ty, value: LibConstView::Str(text@) },
                ),
                Expr::FloatLit(bits) => found == Some(
                    LibraryConstView { ty, value: LibConstView::Float(bits) },
                ),
                Expr::DoubleLit(bits) => found == Some(
                    LibraryConstView { ty, value: LibConstView::Double(bits) },
                ),
                Expr::Unary { op: UnOp::Neg, operand } => found is Some && whole(
                    found->0.value,
                ) is Some ==> literal(*context.file, operand, ty) is Some && whole(
                    literal(*context.file, operand, ty)->0.value,
                ) == Some(-whole(found->0.value)->0),
                Expr::Unary { op: UnOp::Plus, operand } => found is Some ==> found == literal(
                    *context.file,
                    operand,
                    ty,
                ),
                _ => found is None,
            }
        }),
{
    if let Expr::UIntLit(value) = context.file.expr_at(expression) {
        assert(0 <= value < 0x1_0000_0000i64 ==> (((value as i32) as u32) as i64 == value)) by (bit_vector);
        lemma_unsigned_word(value as i32);
    }
}

/// A conversion keeps the integer where the type has it, and wraps around where it has not. A
/// character has no sign.
pub proof fn a_conversion_wraps_around<F: FloatFolding>(
    context: CheckedConstantExpression<'_>,
    floats: F,
    expression: ExprId,
    callee: ExprId,
    receiver: ExprId,
    requested: Option<TyView>,
    ty: TyView,
    fuel: nat,
)
    requires
        context.file.expr_at(expression) matches Expr::Call { callee: called, args } && called
            == callee && args@.len() == 0,
        context.file.expr_at(callee) matches Expr::Member { receiver: found, .. } && found
            == receiver,
        context.resolved_calls@.contains_key(expression.0),
        context.resolved_calls@[expression.0] == Some(CompilerIntrinsic::NumericConversion),
        computed(context, expression, requested, ty),
        context.value(floats, receiver, None, fuel) matches Some(held) && whole(held.value) is Some,
    ensures
        ({
            let a = whole(context.value(floats, receiver, None, fuel)->0.value)->0;
            let found = context.value(floats, expression, requested, fuel + 1);
            let n = whole(found->0.value)->0;
            let converts = |low: int, high: int|
                found is Some && found->0.ty == ty && whole(found->0.value) == Some(n) && low <= n
                    <= high && congruent(n, a, high - low + 1);
            &&& ty is Byte ==> converts(-0x80, 0x7f) && found->0.value is Int
            &&& ty is Short ==> converts(-0x8000, 0x7fff) && found->0.value is Int
            &&& ty is Char ==> converts(0, 0xffff) && found->0.value is Int
            &&& ty is Int ==> converts(-0x8000_0000, 0x7fff_ffff) && found->0.value is Int
            &&& ty is Long ==> converts(-0x8000_0000_0000_0000, 0x7fff_ffff_ffff_ffff)
                && found->0.value is Long
        }),
{
    lemma_composed(context, floats, expression, requested, ty, fuel);
    let held = context.value(floats, receiver, None, fuel)->0;
    let word: i32 = match held.value {
        LibConstView::Int(value) => value,
        LibConstView::Long(value) => value as i32,
        _ => 0,
    };
    if let LibConstView::Long(value) = held.value {
        lemma_low_word(value);
    }
    lemma_narrowed(word);
    let m: int = 0x1_0000_0000;
    let a = whole(held.value)->0;
    assert(congruent(word as int, a, m));
    lemma_coarser(word as int, a, m, 0x100, 0x100_0000);
    lemma_coarser(word as int, a, m, 0x1_0000, 0x1_0000);
    let byte = (word as i8) as int;
    let short = (word as i16) as int;
    let char_code = (word as u16) as int;
    lemma_chained(byte, word as int, a, 0x100);
    lemma_chained(short, word as int, a, 0x1_0000);
    lemma_chained(char_code, word as int, a, 0x1_0000);
}

proof fn lemma_chained(first: int, second: int, third: int, by: int)
    requires
        by > 0,
        congruent(first, second, by),
        congruent(second, third, by),
    ensures
        congruent(first, third, by),
{
    vstd::arithmetic::div_mod::lemma_fundamental_div_mod(first - second, by);
    vstd::arithmetic::div_mod::lemma_fundamental_div_mod(second - third, by);
    let times = (first - second) / by + (second - third) / by;
    assert(first - third == times * by) by (nonlinear_arith)
        requires
            first - second == by * ((first - second) / by),
            second - third == by * ((second - third) / by),
            times == (first - second) / by + (second - third) / by,
    ;
    vstd::arithmetic::div_mod::lemma_mod_multiples_basic(times, by);
}

proof fn lemma_coarser(left: int, right: int, fine: int, by: int, ratio: int)
    requires
        congruent(left, right, fine),
        fine == by * ratio,
        by > 0,
        ratio > 0,
    ensures
        congruent(left, right, by),
{
    assert(fine > 0) by (nonlinear_arith)
        requires
            fine == by * ratio,
            by > 0,
            ratio > 0,
    ;
    vstd::arithmetic::div_mod::lemma_fundamental_div_mod(left - right, fine);
    let times = ratio * ((left - right) / fine);
    assert(left - right == times * by) by (nonlinear_arith)
        requires
            left - right == fine * ((left - right) / fine),
            fine == by * ratio,
            times == ratio * ((left - right) / fine),
    ;
    vstd::arithmetic::div_mod::lemma_mod_multiples_basic(times, by);
}

proof fn lemma_low_word(value: i64)
    ensures
        congruent((value as i32) as int, value as int, 0x1_0000_0000),
{
    let high = value >> 32u64;
    assert(-0x8000_0000i64 <= high <= 0x7fff_ffffi64) by (bit_vector)
        requires
            high == value >> 32u64,
    ;
    assert(value == ((((high * 0x1_0000_0000i64) as i64) + ((value as u32) as i64)) as i64)) by (bit_vector)
        requires
            high == value >> 32u64,
    ;
    assert((value as i32) as u32 == value as u32) by (bit_vector);
    lemma_unsigned_word(value as i32);
    let low = (value as i32) as int;
    assert(value == high * 0x1_0000_0000 + low % 0x1_0000_0000);
}

proof fn lemma_narrowed(value: i32)
    ensures
        congruent((value as i8) as int, value as int, 0x100),
        congruent((value as i16) as int, value as int, 0x1_0000),
        congruent((value as u16) as int, value as int, 0x1_0000),
{
    let above_byte = value >> 8u32;
    let above_short = value >> 16u32;
    assert(-0x80_0000i32 <= above_byte <= 0x7f_ffffi32) by (bit_vector)
        requires
            above_byte == value >> 8u32,
    ;
    assert(-0x8000i32 <= above_short <= 0x7fffi32) by (bit_vector)
        requires
            above_short == value >> 16u32,
    ;
    assert(value == ((((above_byte * 0x100i32) as i32) + ((value as u8) as i32)) as i32)) by (bit_vector)
        requires
            above_byte == value >> 8u32,
    ;
    assert(value == ((((above_short * 0x1_0000i32) as i32) + ((value as u16) as i32)) as i32)) by (bit_vector)
        requires
            above_short == value >> 16u32,
    ;
    assert((value as i8) as i32 == (value as u8) as i32 || ((value as i8) as i32) + 0x100i32
        == (value as u8) as i32) by (bit_vector);
    assert((value as i16) as i32 == (value as u16) as i32 || ((value as i16) as i32) + 0x1_0000i32
        == (value as u16) as i32) by (bit_vector);
}

/// The parts of a template follow each other in its text, each as the text of its own.
pub proof fn the_parts_of_a_template_stand_in_order<F: FloatFolding>(
    context: CheckedConstantExpression<'_>,
    floats: F,
    parts: Vec<TemplatePart>,
    place: nat,
    count: nat,
    fuel: nat,
)
    requires
        place < count,
        context.template(floats, parts, count, fuel) is Some,
    ensures
        ({
            let text = context.template(floats, parts, count, fuel)->0;
            let before = context.template(floats, parts, place, fuel);
            let behind = context.template(floats, parts, place + 1, fuel);
            &&& before is Some && behind is Some
            &&& before->0.len() <= behind->0.len() <= text.len()
            &&& text.take(before->0.len() as int) == before->0
            &&& text.take(behind->0.len() as int) == behind->0
            &&& parts@[place as int] matches TemplatePart::Str(own) ==> text.subrange(
                before->0.len() as int,
                behind->0.len() as int,
            ) == own@
            &&& parts@[place as int] matches TemplatePart::Expr(inner) ==> (context.value(
                floats,
                inner,
                None,
                fuel,
            ) matches Some(constant) && (constant.value matches LibConstView::Str(own)
                ==> text.subrange(before->0.len() as int, behind->0.len() as int) == own))
        }),
    decreases count,
{
    if place + 1 < count {
        the_parts_of_a_template_stand_in_order(
            context,
            floats,
            parts,
            place,
            (count - 1) as nat,
            fuel,
        );
        let shorter = context.template(floats, parts, (count - 1) as nat, fuel)->0;
        let text = context.template(floats, parts, count, fuel)->0;
        let before = context.template(floats, parts, place, fuel)->0;
        let behind = context.template(floats, parts, place + 1, fuel)->0;
        assert(text.take(shorter.len() as int) =~= shorter);
        assert(text.take(before.len() as int) =~= shorter.take(before.len() as int));
        assert(text.take(behind.len() as int) =~= shorter.take(behind.len() as int));
        assert(text.subrange(before.len() as int, behind.len() as int) =~= shorter.subrange(
            before.len() as int,
            behind.len() as int,
        ));
    } else {
        let text = context.template(floats, parts, count, fuel)->0;
        let before = context.template(floats, parts, place, fuel)->0;
        assert(text.take(before.len() as int) =~= before);
        assert(text.take(text.len() as int) =~= text);
        assert(before + text.subrange(before.len() as int, text.len() as int) =~= text);
    }
}

/// A number that is appended to a string is spelled in it: the text behind the string is that of
/// the integer, which for a type without signs is the one from zero on. A truth value is spelled as
/// it is written.
pub proof fn an_appended_number_is_spelled<F: FloatFolding>(
    context: CheckedConstantExpression<'_>,
    floats: F,
    expression: ExprId,
    lhs: ExprId,
    rhs: ExprId,
    requested: Option<TyView>,
    fuel: nat,
    first: Seq<u16>,
)
    requires
        context.file.expr_at(expression) == (Expr::Binary { op: BinOp::Add, lhs, rhs }),
        computed(context, expression, requested, TyView::String),
        context.value(floats, lhs, None, fuel) matches Some(left) && left.value
            == LibConstView::Str(first),
        context.value(floats, rhs, None, fuel) is Some,
    ensures
        ({
            let right = context.value(floats, rhs, None, fuel)->0;
            let found = context.value(floats, expression, requested, fuel + 1);
            let n = whole(right.value)->0;
            let spells = |text: Seq<char>|
                found == Some(
                    LibraryConstView {
                        ty: TyView::String,
                        value: LibConstView::Str(first + text_units(text)),
                    },
                );
            &&& right.ty is Int && right.value is Int ==> exists|text: Seq<char>| #[trigger]
                spells(text) && spelled_integer(text) == Some(n)
            &&& right.ty is Long && right.value is Long ==> exists|text: Seq<char>| #[trigger]
                spells(text) && spelled_integer(text) == Some(n)
            &&& right.ty is UInt && right.value is Int ==> exists|text: Seq<char>| #[trigger]
                spells(text) && spelled_integer(text) == Some(n % 0x1_0000_0000)
            &&& right.ty is ULong && right.value is Long ==> exists|text: Seq<char>| #[trigger]
                spells(text) && spelled_integer(text) == Some(n % 0x1_0000_0000_0000_0000)
            &&& is_truth(right, true) ==> spells("true"@)
            &&& is_truth(right, false) ==> spells("false"@)
            &&& right.ty is Char && right.value is Int && 0 <= n <= 0xffff ==> found == Some(
                LibraryConstView {
                    ty: TyView::String,
                    value: LibConstView::Str(first.push(n as u16)),
                },
            )
        }),
{
    lemma_composed(context, floats, expression, requested, TyView::String, fuel);
    let right = context.value(floats, rhs, None, fuel)->0;
    let found = context.value(floats, expression, requested, fuel + 1);
    let n = whole(right.value)->0;
    let spells = |text: Seq<char>|
        found == Some(
            LibraryConstView {
                ty: TyView::String,
                value: LibConstView::Str(first + text_units(text)),
            },
        );
    an_integer_is_read_back_from_its_spelling(n);
    if right.ty is Int && right.value is Int || right.ty is Long && right.value is Long {
        assert(spells(signed_decimal(n)));
    }
    if let LibConstView::Int(value) = right.value {
        lemma_unsigned_word(value);
        if right.ty is UInt {
            an_integer_is_read_back_from_its_spelling(n % 0x1_0000_0000);
            assert(spells(signed_decimal(n % 0x1_0000_0000)));
        }
        assert(first.push(value as u16) =~= first + seq![value as u16]);
    }
    if let LibConstView::Long(value) = right.value {
        lemma_unsigned_wide(value);
        if right.ty is ULong {
            an_integer_is_read_back_from_its_spelling(n % 0x1_0000_0000_0000_0000);
            assert(spells(signed_decimal(n % 0x1_0000_0000_0000_0000)));
        }
    }
}

/// Floating-point constants compare as the numbers do: without a sign by their bits, with signs the
/// other way round, and what has a sign stands below what has none. The two zeros are equal, and
/// what is no number is equal to nothing.
pub proof fn floating_point_constants_compare_as_numbers(left: u32, right: u32)
    requires
        left <= 0x7f80_0000,
        right <= 0x7f80_0000,
    ensures
        says(comparison(BinOp::Lt, LibConstView::Float(left), LibConstView::Float(right)), left < right),
        equal_values(LibConstView::Float(left), LibConstView::Float(right)) == (left == right),
        says(
            comparison(
                BinOp::Lt,
                LibConstView::Float((left + 0x8000_0000) as u32),
                LibConstView::Float((right + 0x8000_0000) as u32),
            ),
            right < left,
        ),
        says(
            comparison(
                BinOp::Lt,
                LibConstView::Float((left + 0x8000_0000) as u32),
                LibConstView::Float(right),
            ),
            left > 0 || right > 0,
        ),
        equal_values(LibConstView::Float(0x8000_0000), LibConstView::Float(0)),
        forall|bits: u32|
            0x7f80_0000 < bits < 0x8000_0000 || bits > 0xff80_0000 ==> !(#[trigger] equal_values(
                LibConstView::Float(bits),
                LibConstView::Float(bits),
            )),
{
}

/// Double constants compare as single ones do.
pub proof fn double_constants_compare_as_numbers(left: u64, right: u64)
    requires
        left <= 0x7ff0_0000_0000_0000,
        right <= 0x7ff0_0000_0000_0000,
    ensures
        says(
            comparison(BinOp::Lt, LibConstView::Double(left), LibConstView::Double(right)),
            left < right,
        ),
        equal_values(LibConstView::Double(left), LibConstView::Double(right)) == (left == right),
        says(
            comparison(
                BinOp::Lt,
                LibConstView::Double((left + 0x8000_0000_0000_0000) as u64),
                LibConstView::Double((right + 0x8000_0000_0000_0000) as u64),
            ),
            right < left,
        ),
        says(
            comparison(
                BinOp::Lt,
                LibConstView::Double((left + 0x8000_0000_0000_0000) as u64),
                LibConstView::Double(right),
            ),
            left > 0 || right > 0,
        ),
        equal_values(LibConstView::Double(0x8000_0000_0000_0000), LibConstView::Double(0)),
        forall|bits: u64|
            0x7ff0_0000_0000_0000 < bits < 0x8000_0000_0000_0000 || bits > 0xfff0_0000_0000_0000
                ==> !(#[trigger] equal_values(
                LibConstView::Double(bits),
                LibConstView::Double(bits),
            )),
{
}

/// An expression that reads a constant has the value of that constant.
pub proof fn a_read_constant_is_its_value<F: FloatFolding>(
    context: CheckedConstantExpression<'_>,
    floats: F,
    expression: ExprId,
    requested: Option<TyView>,
    ty: TyView,
    fuel: nat,
)
    requires
        context.type_of(expression, requested) == Some(ty),
        ty.canonical_semantic() == ty,
        context.resolved_constants@.contains_key(expression.0),
    ensures
        ({
            let held = context.resolved_constants@[expression.0]@.value;
            let found = context.value(floats, expression, requested, fuel + 1);
            &&& found is Some ==> found == Some(LibraryConstView { ty, value: held })
            &&& is_word(ty) || ty is Byte || ty is Short || ty is Char || ty is Boolean
                ==> (found is Some <==> held is Int)
            &&& is_wide(ty) ==> (found is Some <==> held is Long)
            &&& ty is Float ==> (found is Some <==> held is Float)
            &&& ty is Double ==> (found is Some <==> held is Double)
            &&& ty is String ==> (found is Some <==> held is Str)
        }),
{
}

} // verus!
