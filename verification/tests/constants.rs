//! Compile-time constants.

use std::collections::HashMap;

use krusty::ast::{BinOp, Expr, ExprId, File, UnOp};
use krusty::libraries::{
    CompilerIntrinsic, LibConst, LibraryConst, PrimitiveBinaryIntrinsic,
};
use krusty::resolve::constant_evaluation::{
    checked_constant_expression, evaluate_numeric_conversion, source_literal_constant,
    CheckedConstantExpression, FloatFolding, FloatRequest, SyntheticOperatorCall,
    WithoutFloats,
};
use krusty::types::Ty;

/// The floating point of the machine.
struct Machine;

impl FloatFolding for Machine {
    fn answers(&self, request: FloatRequest) -> Option<u64> {
        self.fold(request)
    }

    fn spells(&self, bits: u64) -> Option<String> {
        self.spell(bits)
    }

    fn fold(&self, request: FloatRequest) -> Option<u64> {
        match request {
            FloatRequest::Narrow { bits } => {
                Some(u64::from((f64::from_bits(bits) as f32).to_bits()))
            }
            FloatRequest::Widen { bits } => Some(f64::from(f32::from_bits(bits)).to_bits()),
            FloatRequest::FromInteger { double, value } => Some(if double {
                (value as f64).to_bits()
            } else {
                u64::from((value as f32).to_bits())
            }),
            _ => None,
        }
    }

    fn spell(&self, bits: u64) -> Option<String> {
        Some(format!("{}", f64::from_bits(bits)))
    }
}

fn file(exprs: Vec<Expr>) -> File {
    File {
        exprs,
        stmts: vec![],
        declarations: vec![],
        decls: vec![],
        anon_fun_lambdas: vec![],
        anon_fun_context_count: HashMap::new(),
        local_class_decls: HashMap::new(),
    }
}

fn shown(constant: &Option<LibraryConst>) -> String {
    format!("{:?}", constant)
}

#[test]
fn literal_extraction_remains_narrow() {
    let file = file(vec![
        Expr::IntLit(2),
        Expr::IntLit(2),
        Expr::Binary {
            op: BinOp::Add,
            lhs: ExprId(0),
            rhs: ExprId(1),
        },
    ]);
    assert!(source_literal_constant(&file, ExprId(2), &Ty::Int).is_none());
}

#[test]
fn numeric_constant_conversion_uses_kotlin_narrowing() {
    assert_eq!(
        shown(&evaluate_numeric_conversion(
            &Machine,
            &LibraryConst {
                ty: Ty::Int,
                value: LibConst::Int(0x1_0002),
            },
            Ty::Short,
        )),
        shown(&Some(LibraryConst {
            ty: Ty::Short,
            value: LibConst::Int(2),
        })),
    );
    assert_eq!(
        shown(&evaluate_numeric_conversion(
            &Machine,
            &LibraryConst {
                ty: Ty::Double,
                value: LibConst::Double(2.75f64.to_bits()),
            },
            Ty::Float,
        )),
        shown(&Some(LibraryConst {
            ty: Ty::Float,
            value: LibConst::Float(2.75f32.to_bits()),
        })),
    );
}

#[test]
fn a_literal_is_read_as_the_declared_type() {
    let file = file(vec![Expr::IntLit(7)]);
    assert_eq!(
        shown(&source_literal_constant(&file, ExprId(0), &Ty::Int)),
        shown(&Some(LibraryConst {
            ty: Ty::Int,
            value: LibConst::Int(7),
        })),
    );
}

#[test]
fn a_negated_literal_is_a_literal() {
    let file = file(vec![
        Expr::IntLit(7),
        Expr::Unary {
            op: UnOp::Neg,
            operand: ExprId(0),
        },
    ]);
    assert_eq!(
        shown(&source_literal_constant(&file, ExprId(1), &Ty::Int)),
        shown(&Some(LibraryConst {
            ty: Ty::Int,
            value: LibConst::Int(-7),
        })),
    );
}

#[test]
fn nothing_is_computed_of_floats_that_nobody_answers_for() {
    assert!(evaluate_numeric_conversion(
        &WithoutFloats,
        &LibraryConst {
            ty: Ty::Double,
            value: LibConst::Double(2.75f64.to_bits()),
        },
        Ty::Float,
    )
    .is_none());
}

fn evaluated(
    op: BinOp,
    operator: SyntheticOperatorCall,
    intrinsic: PrimitiveBinaryIntrinsic,
    left: i64,
    right: i64,
) -> Option<LibraryConst> {
    let file = file(vec![
        Expr::IntLit(left),
        Expr::IntLit(right),
        Expr::Binary {
            op,
            lhs: ExprId(0),
            rhs: ExprId(1),
        },
    ]);
    let types = vec![Ty::Int, Ty::Int, Ty::Int];
    let constants = HashMap::new();
    let calls = HashMap::new();
    let operators = vec![(
        2u32,
        operator,
        Some(CompilerIntrinsic::PrimitiveBinary(intrinsic)),
    )];
    let context = CheckedConstantExpression {
        file: &file,
        expression_types: &types,
        resolved_constants: &constants,
        resolved_calls: &calls,
        resolved_operator_calls: &operators,
    };
    checked_constant_expression(&context, &Machine, ExprId(2), &Ty::Int)
}

#[test]
fn integer_arithmetic_wraps_and_division_by_zero_has_no_value() {
    assert_eq!(
        shown(&evaluated(
            BinOp::Add,
            SyntheticOperatorCall::Plus,
            PrimitiveBinaryIntrinsic::Add,
            2_147_483_647,
            1
        )),
        shown(&Some(LibraryConst {
            ty: Ty::Int,
            value: LibConst::Int(-2_147_483_648),
        })),
    );
    assert!(evaluated(
        BinOp::Div,
        SyntheticOperatorCall::Div,
        PrimitiveBinaryIntrinsic::Divide,
        1,
        0
    )
    .is_none());
}
