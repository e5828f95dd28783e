use ssl_core::ast::expr::{BinOp, Expr, ExprKind, UnaryOp};
use ssl_core::lexer::{NumericBase, NumericLiteral};
use ssl_core::sema::{ConstEval, ConstValue};
use ssl_core::span::{Span, Spanned};

fn uint_expr(v: u128) -> Expr {
    Spanned::new(
        ExprKind::IntLiteral(NumericLiteral::Decimal(v)),
        Span::new(0, 1),
    )
}

fn bool_expr(b: bool) -> Expr {
    Spanned::new(ExprKind::BoolLiteral(b), Span::new(0, 1))
}

#[test]
fn literal_decimal() {
    let ev = ConstEval::new();
    assert_eq!(ev.eval_expr(&uint_expr(0)), Ok(ConstValue::UInt(0)));
    assert_eq!(ev.eval_expr(&uint_expr(255)), Ok(ConstValue::UInt(255)));
}

#[test]
fn literal_hex() {
    let ev = ConstEval::new();
    let expr = Spanned::new(
        ExprKind::IntLiteral(NumericLiteral::Hex(0xFF)),
        Span::new(0, 4),
    );
    assert_eq!(ev.eval_expr(&expr), Ok(ConstValue::UInt(255)));
}

#[test]
fn literal_binary() {
    let ev = ConstEval::new();
    let expr = Spanned::new(
        ExprKind::IntLiteral(NumericLiteral::Binary(0b1010)),
        Span::new(0, 6),
    );
    assert_eq!(ev.eval_expr(&expr), Ok(ConstValue::UInt(0b1010)));
}

#[test]
fn literal_sized() {
    let ev = ConstEval::new();
    let expr = Spanned::new(
        ExprKind::IntLiteral(NumericLiteral::Sized {
            width: 8,
            value: 200,
            base: NumericBase::Decimal,
            dont_care_mask: 0,
        }),
        Span::new(0, 5),
    );
    assert_eq!(ev.eval_expr(&expr), Ok(ConstValue::UInt(200)));
}

#[test]
fn paren_passthrough() {
    let ev = ConstEval::new();
    let expr = Spanned::new(
        ExprKind::Paren(Box::new(uint_expr(7))),
        Span::new(0, 3),
    );
    assert_eq!(ev.eval_expr(&expr), Ok(ConstValue::UInt(7)));
}

#[test]
fn ident_bound() {
    let mut ev = ConstEval::new();
    ev.bind("N".into(), ConstValue::UInt(8));
    let expr = Spanned::new(ExprKind::Ident("N".into()), Span::new(0, 1));
    assert_eq!(ev.eval_expr(&expr), Ok(ConstValue::UInt(8)));
}

#[test]
fn ident_unbound_error() {
    let ev = ConstEval::new();
    let expr = Spanned::new(ExprKind::Ident("x".into()), Span::new(0, 1));
    assert!(ev.eval_expr(&expr).is_err());
}

#[test]
fn binary_sub() {
    let ev = ConstEval::new();
    let expr = Spanned::new(
        ExprKind::Binary {
            op: BinOp::Sub,
            lhs: Box::new(uint_expr(100)),
            rhs: Box::new(uint_expr(58)),
        },
        Span::new(0, 5),
    );
    assert_eq!(ev.eval_expr(&expr), Ok(ConstValue::UInt(42)));
}

#[test]
fn binary_div() {
    let ev = ConstEval::new();
    let expr = Spanned::new(
        ExprKind::Binary {
            op: BinOp::Div,
            lhs: Box::new(uint_expr(84)),
            rhs: Box::new(uint_expr(2)),
        },
        Span::new(0, 5),
    );
    assert_eq!(ev.eval_expr(&expr), Ok(ConstValue::UInt(42)));
}

#[test]
fn binary_div_by_zero_error() {
    let ev = ConstEval::new();
    let expr = Spanned::new(
        ExprKind::Binary {
            op: BinOp::Div,
            lhs: Box::new(uint_expr(1)),
            rhs: Box::new(uint_expr(0)),
        },
        Span::new(0, 3),
    );
    assert!(ev.eval_expr(&expr).is_err());
}

#[test]
fn binary_logical_and() {
    let ev = ConstEval::new();
    let expr = Spanned::new(
        ExprKind::Binary {
            op: BinOp::And,
            lhs: Box::new(bool_expr(true)),
            rhs: Box::new(bool_expr(false)),
        },
        Span::new(0, 5),
    );
    assert_eq!(ev.eval_expr(&expr), Ok(ConstValue::Bool(false)));
}

#[test]
fn unary_neg_uint() {
    let ev = ConstEval::new();
    let expr = Spanned::new(
        ExprKind::Unary {
            op: UnaryOp::Neg,
            operand: Box::new(uint_expr(5)),
        },
        Span::new(0, 2),
    );
    assert_eq!(ev.eval_expr(&expr), Ok(ConstValue::Int(-5)));
}

#[test]
fn unary_logical_not() {
    let ev = ConstEval::new();
    let expr = Spanned::new(
        ExprKind::Unary {
            op: UnaryOp::LogicalNot,
            operand: Box::new(bool_expr(false)),
        },
        Span::new(0, 2),
    );
    assert_eq!(ev.eval_expr(&expr), Ok(ConstValue::Bool(true)));
}

#[test]
fn unary_bitnot_unsupported() {
    let ev = ConstEval::new();
    let expr = Spanned::new(
        ExprKind::Unary {
            op: UnaryOp::BitNot,
            operand: Box::new(uint_expr(0xFF)),
        },
        Span::new(0, 2),
    );
    assert!(ev.eval_expr(&expr).is_err());
}

#[test]
fn if_expr_false_branch() {
    let ev = ConstEval::new();
    let expr = Spanned::new(
        ExprKind::IfExpr {
            condition: Box::new(bool_expr(false)),
            then_expr: Box::new(uint_expr(1)),
            else_expr: Box::new(uint_expr(2)),
        },
        Span::new(0, 10),
    );
    assert_eq!(ev.eval_expr(&expr), Ok(ConstValue::UInt(2)));
}

#[test]
fn with_bindings_constructor() {
    let bindings = vec![("WIDTH".to_string(), ConstValue::UInt(32))];
    let ev = ConstEval::with_bindings(bindings);
    let expr = Spanned::new(ExprKind::Ident("WIDTH".into()), Span::new(0, 5));
    assert_eq!(ev.eval_expr(&expr), Ok(ConstValue::UInt(32)));
}

#[test]
fn unsupported_op_error() {
    let ev = ConstEval::new();
    // Concat is not supported in const context
    let expr = Spanned::new(
        ExprKind::Binary {
            op: BinOp::Concat,
            lhs: Box::new(uint_expr(1)),
            rhs: Box::new(uint_expr(2)),
        },
        Span::new(0, 5),
    );
    assert!(ev.eval_expr(&expr).is_err());
}

