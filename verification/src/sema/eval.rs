//! Compile-time evaluation of constant expressions.

use vstd::prelude::*;
use vstd::arithmetic::power::pow;
use vstd::string::StringExecFns;

use super::SemaError;
use crate::ast::expr::{BinOp, Expr, ExprKind, UnaryOp};
use crate::lexer::NumericLiteral;
use crate::span::Span;
use crate::text::{concat, debug_quote, debug_text, decimal, decimal_text};

verus! {

/// A compile-time constant value.
#[derive(Debug, Clone, PartialEq)]
pub enum ConstValue {
    UInt(u128),
    Int(i128),
    Bool(bool),
    String(String),
}

/// A signed integer in decimal.
pub open spec fn signed_text(i: int) -> Seq<char> {
    if i < 0 {
        "-"@ + decimal_text((-i) as nat)
    } else {
        decimal_text(i as nat)
    }
}

/// A constant as `{:?}` writes it.
pub open spec fn const_debug(v: ConstValue) -> Seq<char> {
    match v {
        ConstValue::UInt(n) => "UInt("@ + decimal_text(n as nat) + ")"@,
        ConstValue::Int(i) => "Int("@ + signed_text(i as int) + ")"@,
        ConstValue::Bool(b) => if b { "Bool(true)"@ } else { "Bool(false)"@ },
        ConstValue::String(s) => "String("@ + debug_text(s@) + ")"@,
    }
}

/// A constant as `{:?}` writes it.
pub fn const_debug_text(v: &ConstValue) -> (r: String)
    ensures
        r@ == const_debug(*v),
{
    match v {
        ConstValue::UInt(n) => concat(concat("UInt(", decimal(*n).as_str()).as_str(), ")"),
        ConstValue::Int(i) => {
            let body = if *i < 0 {
                let m: u128 = if *i == i128::MIN {
                    0x8000_0000_0000_0000_0000_0000_0000_0000u128
                } else {
                    (-*i) as u128
                };
                concat("-", decimal(m).as_str())
            } else {
                decimal(*i as u128)
            };
            concat(concat("Int(", body.as_str()).as_str(), ")")
        },
        ConstValue::Bool(b) => if *b {
            String::from_str("Bool(true)")
        } else {
            String::from_str("Bool(false)")
        },
        ConstValue::String(s) => string_value_text(debug_quote(s.as_str()).as_str()),
    }
}

/// A string constant as `{:?}` writes it, from the string's own quoted form.
pub fn string_value_text(quoted: &str) -> (r: String)
    ensures
        r@ == "String("@ + quoted@ + ")"@,
{
    concat(concat("String(", quoted).as_str(), ")")
}

impl ConstValue {
    /// A copy of the value.
    pub fn duplicate(&self) -> (r: ConstValue)
        ensures
            r == *self,
    {
        match self {
            ConstValue::UInt(n) => ConstValue::UInt(*n),
            ConstValue::Int(i) => ConstValue::Int(*i),
            ConstValue::Bool(b) => ConstValue::Bool(*b),
            ConstValue::String(s) => ConstValue::String(s.clone()),
        }
    }
}

/// The value bound to `name`: the last binding of it wins.
pub open spec fn last_binding(v: Seq<(String, ConstValue)>, name: Seq<char>) -> Option<ConstValue>
    decreases v.len(),
{
    if v.len() == 0 {
        None
    } else if v.last().0@ == name {
        Some(v.last().1)
    } else {
        last_binding(v.drop_last(), name)
    }
}

/// The name of a binary operator, as `{:?}` writes it.
pub open spec fn binop_name(op: BinOp) -> Seq<char> {
    match op {
        BinOp::Add => "Add"@,
        BinOp::Sub => "Sub"@,
        BinOp::Mul => "Mul"@,
        BinOp::Div => "Div"@,
        BinOp::Mod => "Mod"@,
        BinOp::Pow => "Pow"@,
        BinOp::BitAnd => "BitAnd"@,
        BinOp::BitOr => "BitOr"@,
        BinOp::BitXor => "BitXor"@,
        BinOp::Shl => "Shl"@,
        BinOp::Shr => "Shr"@,
        BinOp::ArithShr => "ArithShr"@,
        BinOp::Eq => "Eq"@,
        BinOp::Ne => "Ne"@,
        BinOp::Lt => "Lt"@,
        BinOp::Gt => "Gt"@,
        BinOp::Le => "Le"@,
        BinOp::Ge => "Ge"@,
        BinOp::And => "And"@,
        BinOp::Or => "Or"@,
        BinOp::Implies => "Implies"@,
        BinOp::Concat => "Concat"@,
    }
}

fn binop_text(op: BinOp) -> (r: &'static str)
    ensures
        r@ == binop_name(op),
{
    match op {
        BinOp::Add => "Add",
        BinOp::Sub => "Sub",
        BinOp::Mul => "Mul",
        BinOp::Div => "Div",
        BinOp::Mod => "Mod",
        BinOp::Pow => "Pow",
        BinOp::BitAnd => "BitAnd",
        BinOp::BitOr => "BitOr",
        BinOp::BitXor => "BitXor",
        BinOp::Shl => "Shl",
        BinOp::Shr => "Shr",
        BinOp::ArithShr => "ArithShr",
        BinOp::Eq => "Eq",
        BinOp::Ne => "Ne",
        BinOp::Lt => "Lt",
        BinOp::Gt => "Gt",
        BinOp::Le => "Le",
        BinOp::Ge => "Ge",
        BinOp::And => "And",
        BinOp::Or => "Or",
        BinOp::Implies => "Implies",
        BinOp::Concat => "Concat",
    }
}

/// The value of a numeric literal.
pub open spec fn literal_value(lit: NumericLiteral) -> u128 {
    match lit {
        NumericLiteral::Decimal(v) => v,
        NumericLiteral::Hex(v) => v,
        NumericLiteral::Binary(v) => v,
        NumericLiteral::Sized { value, .. } => value,
    }
}

/// Two's complement negation, wrapping at the smallest value.
pub open spec fn neg_wrapping(x: i128) -> i128 {
    if x == i128::MIN {
        i128::MIN
    } else {
        (-x) as i128
    }
}

/// An operator message `PREFIX op SUFFIX` with the operator's name.
pub open spec fn op_message(op: BinOp, suffix: Seq<char>) -> Seq<char> {
    "operator `"@ + binop_name(op) + suffix
}

/// The result of a binary operator on two evaluated operands; an error is
/// its message and span.
pub open spec fn binary_spec(span: Span, op: BinOp, l: ConstValue, r: ConstValue) -> Result<
    ConstValue,
    (Seq<char>, Span),
> {
    let int_err = Err((op_message(op, "` requires integer operands in const context"@), span));
    let bool_err = Err((op_message(op, "` requires boolean operands in const context"@), span));
    match op {
        BinOp::Add | BinOp::Sub | BinOp::Mul | BinOp::Div | BinOp::Mod | BinOp::Pow | BinOp::Eq
        | BinOp::Ne | BinOp::Lt | BinOp::Gt | BinOp::Le | BinOp::Ge => match (l, r) {
            (ConstValue::UInt(a), ConstValue::UInt(b)) => match op {
                BinOp::Add => Ok(ConstValue::UInt(vstd::wrapping::u128_specs::wrapping_add(a, b))),
                BinOp::Sub => Ok(ConstValue::UInt(vstd::wrapping::u128_specs::wrapping_sub(a, b))),
                BinOp::Mul => Ok(ConstValue::UInt(vstd::wrapping::u128_specs::wrapping_mul(a, b))),
                BinOp::Div => if b == 0 {
                    Err(("division by zero in const expression"@, span))
                } else {
                    Ok(ConstValue::UInt((a / b) as u128))
                },
                BinOp::Mod => if b == 0 {
                    Err(("modulo by zero in const expression"@, span))
                } else {
                    Ok(ConstValue::UInt((a % b) as u128))
                },
                BinOp::Pow => if b > u32::MAX {
                    Err(
                        (
                            "exponent "@ + decimal_text(b as nat) + " is too large for const pow (max 4294967295)"@,
                            span,
                        ),
                    )
                } else if pow(a as int, b as nat) > u128::MAX {
                    Err(("overflow in const pow expression"@, span))
                } else {
                    Ok(ConstValue::UInt(pow(a as int, b as nat) as u128))
                },
                BinOp::Eq => Ok(ConstValue::Bool(a == b)),
                BinOp::Ne => Ok(ConstValue::Bool(a != b)),
                BinOp::Lt => Ok(ConstValue::Bool(a < b)),
                BinOp::Gt => Ok(ConstValue::Bool(a > b)),
                BinOp::Le => Ok(ConstValue::Bool(a <= b)),
                _ => Ok(ConstValue::Bool(a >= b)),
            },
            _ => int_err,
        },
        BinOp::And | BinOp::Or => match (l, r) {
            (ConstValue::Bool(a), ConstValue::Bool(b)) => if op == BinOp::And {
                Ok(ConstValue::Bool(a && b))
            } else {
                Ok(ConstValue::Bool(a || b))
            },
            _ => bool_err,
        },
        _ => Err((op_message(op, "` is not supported in const context"@), span)),
    }
}

/// The result of a unary operator on an evaluated operand.
pub open spec fn unary_spec(span: Span, op: UnaryOp, v: ConstValue) -> Result<ConstValue, (Seq<char>, Span)> {
    match op {
        UnaryOp::Neg => match v {
            ConstValue::UInt(n) => Ok(ConstValue::Int(neg_wrapping(n as i128))),
            ConstValue::Int(i) => Ok(ConstValue::Int(neg_wrapping(i))),
            _ => Err(("unary negation requires a numeric operand"@, span)),
        },
        UnaryOp::LogicalNot => match v {
            ConstValue::Bool(b) => Ok(ConstValue::Bool(!b)),
            _ => Err(("logical not requires a boolean operand"@, span)),
        },
        UnaryOp::BitNot => Err(("bitwise not is not supported in const context"@, span)),
    }
}

/// The value of an expression under the bindings `env`; an error is its
/// message and span.
pub open spec fn eval_spec(env: Seq<(String, ConstValue)>, e: Expr) -> Result<ConstValue, (Seq<char>, Span)>
    decreases e,
{
    let span = e.span;
    match e.node {
        ExprKind::IntLiteral(lit) => Ok(ConstValue::UInt(literal_value(lit))),
        ExprKind::BoolLiteral(b) => Ok(ConstValue::Bool(b)),
        ExprKind::StringLiteral(s) => Ok(ConstValue::String(s)),
        ExprKind::Ident(name) => match last_binding(env, name@) {
            Some(v) => Ok(v),
            None => Err(("name `"@ + name@ + "` is not a compile-time constant"@, span)),
        },
        ExprKind::Paren(inner) => eval_spec(env, *inner),
        ExprKind::Binary { op, lhs, rhs } => match eval_spec(env, *lhs) {
            Err(x) => Err(x),
            Ok(l) => match eval_spec(env, *rhs) {
                Err(x) => Err(x),
                Ok(r) => binary_spec(span, op, l, r),
            },
        },
        ExprKind::Unary { op, operand } => match eval_spec(env, *operand) {
            Err(x) => Err(x),
            Ok(v) => unary_spec(span, op, v),
        },
        ExprKind::IfExpr { condition, then_expr, else_expr } => match eval_spec(env, *condition) {
            Err(x) => Err(x),
            Ok(ConstValue::Bool(true)) => eval_spec(env, *then_expr),
            Ok(ConstValue::Bool(false)) => eval_spec(env, *else_expr),
            Ok(_) => Err(("if-expression condition must be a boolean"@, condition.span)),
        },
        _ => Err(("expression not supported in const context"@, span)),
    }
}

/// `r` is a constant-evaluation error with the given message and span, or
/// the value.
pub open spec fn matches_outcome(r: Result<ConstValue, SemaError>, o: Result<ConstValue, (Seq<char>, Span)>) -> bool {
    match o {
        Ok(v) => r == Ok::<ConstValue, SemaError>(v),
        Err((m, sp)) => r matches Err(SemaError::ConstEvalError { message, span }) && message@ == m && span == sp,
    }
}

fn eval_error(message: String, span: Span) -> (r: Result<ConstValue, SemaError>)
    ensures
        r matches Err(SemaError::ConstEvalError { message: m, span: s }) && m@ == message@ && s == span,
{
    Err(SemaError::ConstEvalError { message, span })
}

/// Evaluates expressions to compile-time constants, under bindings of names
/// to values.
pub struct ConstEval {
    bindings: Vec<(String, ConstValue)>,
}

impl ConstEval {
    /// The bindings in the order they were made.
    pub closed spec fn bindings_view(&self) -> Seq<(String, ConstValue)> {
        self.bindings@
    }

    /// An evaluator without bindings.
    pub fn new() -> (r: Self)
        ensures
            r.bindings_view().len() == 0,
    {
        ConstEval { bindings: Vec::new() }
    }

    /// An evaluator with the given bindings; of two bindings of one name the
    /// later one wins.
    pub fn with_bindings(bindings: Vec<(String, ConstValue)>) -> (r: Self)
        ensures
            r.bindings_view() == bindings@,
    {
        ConstEval { bindings }
    }

    /// Bind `name` to `value`, replacing an earlier binding of it.
    pub fn bind(&mut self, name: String, value: ConstValue)
        ensures
            final(self).bindings_view() == old(self).bindings_view().push((name, value)),
            last_binding(final(self).bindings_view(), name@) == Some(value),
    {
        self.bindings.push((name, value));
        proof {
            assert(self.bindings@.drop_last() == old(self).bindings@);
        }
    }

    /// The value bound to `name`.
    fn binding(&self, name: &str) -> (r: Option<ConstValue>)
        ensures
            r == last_binding(self.bindings_view(), name@),
    {
        let mut i = self.bindings.len();
        proof {
            assert(self.bindings@.take(i as int) =~= self.bindings@);
        }
        while i > 0
            invariant
                i <= self.bindings@.len(),
                last_binding(self.bindings@, name@) == last_binding(self.bindings@.take(i as int), name@),
            decreases i,
        {
            proof {
                assert(self.bindings@.take(i as int).drop_last() =~= self.bindings@.take(i - 1));
                assert(self.bindings@.take(i as int).last() == self.bindings@[i - 1]);
            }
            if crate::text::str_eq(self.bindings[i - 1].0.as_str(), name) {
                return Some(self.bindings[i - 1].1.duplicate());
            }
            i = i - 1;
        }
        proof {
            assert(self.bindings@.take(0) =~= Seq::<(String, ConstValue)>::empty());
        }
        None
    }

    /// Evaluate an expression to a compile-time constant: literals, bound
    /// names, parentheses, `if`, arithmetic, comparisons and logic on
    /// constants; anything else is a `ConstEvalError`.
    pub fn eval_expr(&self, expr: &Expr) -> (r: Result<ConstValue, SemaError>)
        ensures
            matches_outcome(r, eval_spec(self.bindings_view(), *expr)),
        decreases expr,
    {
        let span = expr.span;
        match &expr.node {
            ExprKind::IntLiteral(lit) => Ok(eval_numeric_literal(lit)),
            ExprKind::BoolLiteral(b) => Ok(ConstValue::Bool(*b)),
            ExprKind::StringLiteral(s) => Ok(ConstValue::String(s.clone())),
            ExprKind::Ident(name) => match self.binding(name.as_str()) {
                Some(v) => Ok(v),
                None => {
                    let m = concat(concat("name `", name.as_str()).as_str(), "` is not a compile-time constant");
                    eval_error(m, span)
                },
            },
            ExprKind::Paren(inner) => self.eval_expr(inner),
            ExprKind::Binary { op, lhs, rhs } => {
                let lval = match self.eval_expr(lhs) {
                    Ok(v) => v,
                    Err(e) => {
                        return Err(e);
                    },
                };
                let rval = match self.eval_expr(rhs) {
                    Ok(v) => v,
                    Err(e) => {
                        return Err(e);
                    },
                };
                eval_binary(span, *op, &lval, &rval)
            },
            ExprKind::Unary { op, operand } => {
                let val = match self.eval_expr(operand) {
                    Ok(v) => v,
                    Err(e) => {
                        return Err(e);
                    },
                };
                eval_unary(span, *op, val)
            },
            ExprKind::IfExpr { condition, then_expr, else_expr } => {
                let cond = match self.eval_expr(condition) {
                    Ok(v) => v,
                    Err(e) => {
                        return Err(e);
                    },
                };
                match cond {
                    ConstValue::Bool(true) => self.eval_expr(then_expr),
                    ConstValue::Bool(false) => self.eval_expr(else_expr),
                    _ => eval_error(String::from_str("if-expression condition must be a boolean"), condition.span),
                }
            },
            _ => eval_error(String::from_str("expression not supported in const context"), span),
        }
    }
}

fn eval_numeric_literal(lit: &NumericLiteral) -> (r: ConstValue)
    ensures
        r == ConstValue::UInt(literal_value(*lit)),
{
    match lit {
        NumericLiteral::Decimal(v) => ConstValue::UInt(*v),
        NumericLiteral::Hex(v) => ConstValue::UInt(*v),
        NumericLiteral::Binary(v) => ConstValue::UInt(*v),
        NumericLiteral::Sized { value, .. } => ConstValue::UInt(*value),
    }
}

/// `base` to the power `exp`, or `None` when it does not fit.
fn checked_pow(base: u128, exp: u32) -> (r: Option<u128>)
    ensures
        pow(base as int, exp as nat) <= u128::MAX ==> r == Some(pow(base as int, exp as nat) as u128),
        pow(base as int, exp as nat) > u128::MAX ==> r is None,
{
    reveal(pow);
    if base == 0 {
        proof {
            if exp > 0 {
                vstd::arithmetic::power::lemma0_pow(exp as nat);
            }
        }
        return if exp == 0 { Some(1) } else { Some(0) };
    }
    if base == 1 {
        proof {
            vstd::arithmetic::power::lemma1_pow(exp as nat);
        }
        return Some(1);
    }
    let mut acc: u128 = 1;
    let mut i: u32 = 0;
    while i < exp
        invariant
            base >= 2,
            i <= exp,
            acc == pow(base as int, i as nat),
        decreases exp - i,
    {
        match acc.checked_mul(base) {
            Some(next) => {
                proof {
                    reveal(pow);
                    assert(pow(base as int, (i + 1) as nat) == base * pow(base as int, i as nat));
                }
                acc = next;
                i = i + 1;
            },
            None => {
                proof {
                    reveal(pow);
                    assert(pow(base as int, (i + 1) as nat) == base * pow(base as int, i as nat));
                    vstd::arithmetic::power::lemma_pow_increases(base as nat, (i + 1) as nat, exp as nat);
                }
                return None;
            },
        }
    }
    Some(acc)
}

fn op_error(op: BinOp, suffix: &str, span: Span) -> (r: Result<ConstValue, SemaError>)
    ensures
        r matches Err(SemaError::ConstEvalError { message, span: s }) && message@ == op_message(op, suffix@) && s == span,
{
    let m = concat(concat("operator `", binop_text(op)).as_str(), suffix);
    Err(SemaError::ConstEvalError { message: m, span })
}

fn eval_binary(span: Span, op: BinOp, lval: &ConstValue, rval: &ConstValue) -> (r: Result<ConstValue, SemaError>)
    ensures
        matches_outcome(r, binary_spec(span, op, *lval, *rval)),
{
    match op {
        BinOp::Add | BinOp::Sub | BinOp::Mul | BinOp::Div | BinOp::Mod | BinOp::Pow | BinOp::Eq
        | BinOp::Ne | BinOp::Lt | BinOp::Gt | BinOp::Le | BinOp::Ge => {
            let (l, r) = match (lval, rval) {
                (ConstValue::UInt(l), ConstValue::UInt(r)) => (*l, *r),
                _ => {
                    return op_error(op, "` requires integer operands in const context", span);
                },
            };
            match op {
                BinOp::Add => Ok(ConstValue::UInt(l.wrapping_add(r))),
                BinOp::Sub => Ok(ConstValue::UInt(l.wrapping_sub(r))),
                BinOp::Mul => Ok(ConstValue::UInt(l.wrapping_mul(r))),
                BinOp::Div => {
                    if r == 0 {
                        return eval_error(String::from_str("division by zero in const expression"), span);
                    }
                    Ok(ConstValue::UInt(l / r))
                },
                BinOp::Mod => {
                    if r == 0 {
                        return eval_error(String::from_str("modulo by zero in const expression"), span);
                    }
                    Ok(ConstValue::UInt(l % r))
                },
                BinOp::Pow => {
                    if r > 4294967295u128 {
                        let m = concat(
                            concat("exponent ", decimal(r).as_str()).as_str(),
                            " is too large for const pow (max 4294967295)",
                        );
                        return eval_error(m, span);
                    }
                    match checked_pow(l, r as u32) {
                        Some(v) => Ok(ConstValue::UInt(v)),
                        None => eval_error(String::from_str("overflow in const pow expression"), span),
                    }
                },
                BinOp::Eq => Ok(ConstValue::Bool(l == r)),
                BinOp::Ne => Ok(ConstValue::Bool(l != r)),
                BinOp::Lt => Ok(ConstValue::Bool(l < r)),
                BinOp::Gt => Ok(ConstValue::Bool(l > r)),
                BinOp::Le => Ok(ConstValue::Bool(l <= r)),
                _ => Ok(ConstValue::Bool(l >= r)),
            }
        },
        BinOp::And | BinOp::Or => {
            let (l, r) = match (lval, rval) {
                (ConstValue::Bool(l), ConstValue::Bool(r)) => (*l, *r),
                _ => {
                    return op_error(op, "` requires boolean operands in const context", span);
                },
            };
            match op {
                BinOp::And => Ok(ConstValue::Bool(l && r)),
                _ => Ok(ConstValue::Bool(l || r)),
            }
        },
        _ => op_error(op, "` is not supported in const context", span),
    }
}

fn eval_unary(span: Span, op: UnaryOp, val: ConstValue) -> (r: Result<ConstValue, SemaError>)
    ensures
        matches_outcome(r, unary_spec(span, op, val)),
{
    match op {
        UnaryOp::Neg => match val {
            ConstValue::UInt(v) => {
                let x = v as i128;
                Ok(ConstValue::Int(if x == i128::MIN { i128::MIN } else { -x }))
            },
            ConstValue::Int(v) => Ok(ConstValue::Int(if v == i128::MIN { i128::MIN } else { -v })),
            _ => eval_error(String::from_str("unary negation requires a numeric operand"), span),
        },
        UnaryOp::LogicalNot => match val {
            ConstValue::Bool(b) => Ok(ConstValue::Bool(!b)),
            _ => eval_error(String::from_str("logical not requires a boolean operand"), span),
        },
        UnaryOp::BitNot => eval_error(String::from_str("bitwise not is not supported in const context"), span),
    }
}

/// After `name` is bound to `value`, the name evaluates to `value`; names
/// other than `name` evaluate as before.
pub proof fn law_bind_then_eval(env: Seq<(String, ConstValue)>, name: String, value: ConstValue, e: Expr)
    requires
        e.node is Ident,
    ensures
        e.node->Ident_0@ == name@ ==> eval_spec(env.push((name, value)), e) == Ok::<ConstValue, (Seq<char>, Span)>(value),
        e.node->Ident_0@ != name@ ==> eval_spec(env.push((name, value)), e) == eval_spec(env, e),
{
    assert(env.push((name, value)).drop_last() == env);
}


impl Default for ConstEval {
    /// An evaluator without bindings, as [`ConstEval::new`].
    fn default() -> (r: Self)
        ensures
            r.bindings_view().len() == 0,
    {
        Self::new()
    }
}

} // verus!
