//! The expression grammar: what parsing an expression from a position of a
//! token list gives, as functions of the source, the tokens and the position.
//!
//! Expressions are compared by their view, in which names and literals are
//! character sequences and lists are sequences.

use vstd::prelude::*;
use vstd::utf8::decode_utf8;

use crate::ast::expr::{BinOp, CallArg, Expr, ExprKind, UnaryOp};
use crate::lexer::{opt_token_debug, token_debug, token_kind, NumericLiteral, Token};
use crate::span::{Span, Spanned};

use super::expected_message;
use super::expr::{binding_power, closes_angle, prefix_op, starts_postfix, Assoc};

verus! {

/// A name with its span, by its text.
pub struct NameView {
    pub name: Seq<char>,
    pub span: Span,
}

/// A call argument, by its view.
pub struct ArgView {
    pub name: Option<NameView>,
    pub value: ExprView,
}

/// An expression, by its view.
pub struct ExprView {
    pub node: NodeView,
    pub span: Span,
}

/// The kind of an expression, by its view; `Other` stands for the kinds
/// that parsing never builds (casts and struct literals).
pub enum NodeView {
    IntLiteral(NumericLiteral),
    StringLiteral(Seq<char>),
    BoolLiteral(bool),
    Ident(Seq<char>),
    Binary { op: BinOp, lhs: Box<ExprView>, rhs: Box<ExprView> },
    Unary { op: UnaryOp, operand: Box<ExprView> },
    FieldAccess { object: Box<ExprView>, field: NameView },
    MethodCall { object: Box<ExprView>, method: NameView, args: Seq<ArgView> },
    Call { callee: Box<ExprView>, args: Seq<ArgView> },
    Index { array: Box<ExprView>, index: Box<ExprView> },
    BitSlice { value: Box<ExprView>, high: Box<ExprView>, low: Box<ExprView> },
    Pipe { input: Box<ExprView>, callee: Box<ExprView>, args: Seq<ArgView> },
    IfExpr { condition: Box<ExprView>, then_expr: Box<ExprView>, else_expr: Box<ExprView> },
    Range { start: Box<ExprView>, end: Box<ExprView>, inclusive: bool },
    ArrayLiteral(Seq<ExprView>),
    Paren(Box<ExprView>),
    Next { expr: Box<ExprView>, count: Option<Box<ExprView>> },
    Eventually { expr: Box<ExprView>, depth: Box<ExprView> },
    Unchecked(Box<ExprView>),
    Other,
}

/// The view of a name.
pub open spec fn name_view(n: Spanned<String>) -> NameView {
    NameView { name: n.node@, span: n.span }
}

/// The view of an expression.
pub open spec fn expr_view(e: Expr) -> ExprView
    decreases e, 1nat,
{
    ExprView {
        node: match e.node {
            ExprKind::IntLiteral(n) => NodeView::IntLiteral(n),
            ExprKind::StringLiteral(s) => NodeView::StringLiteral(s@),
            ExprKind::BoolLiteral(b) => NodeView::BoolLiteral(b),
            ExprKind::Ident(n) => NodeView::Ident(n@),
            ExprKind::Binary { op, lhs, rhs } => NodeView::Binary {
                op,
                lhs: Box::new(expr_view(*lhs)),
                rhs: Box::new(expr_view(*rhs)),
            },
            ExprKind::Unary { op, operand } => NodeView::Unary { op, operand: Box::new(expr_view(*operand)) },
            ExprKind::FieldAccess { object, field } => NodeView::FieldAccess {
                object: Box::new(expr_view(*object)),
                field: name_view(field),
            },
            ExprKind::MethodCall { object, method, args } => NodeView::MethodCall {
                object: Box::new(expr_view(*object)),
                method: name_view(method),
                args: args_view(args@),
            },
            ExprKind::Call { callee, args } => NodeView::Call { callee: Box::new(expr_view(*callee)), args: args_view(args@) },
            ExprKind::Index { array, index } => NodeView::Index {
                array: Box::new(expr_view(*array)),
                index: Box::new(expr_view(*index)),
            },
            ExprKind::BitSlice { value, high, low } => NodeView::BitSlice {
                value: Box::new(expr_view(*value)),
                high: Box::new(expr_view(*high)),
                low: Box::new(expr_view(*low)),
            },
            ExprKind::Pipe { input, callee, args } => NodeView::Pipe {
                input: Box::new(expr_view(*input)),
                callee: Box::new(expr_view(*callee)),
                args: args_view(args@),
            },
            ExprKind::IfExpr { condition, then_expr, else_expr } => NodeView::IfExpr {
                condition: Box::new(expr_view(*condition)),
                then_expr: Box::new(expr_view(*then_expr)),
                else_expr: Box::new(expr_view(*else_expr)),
            },
            ExprKind::Range { start, end, inclusive } => NodeView::Range {
                start: Box::new(expr_view(*start)),
                end: Box::new(expr_view(*end)),
                inclusive,
            },
            ExprKind::ArrayLiteral(v) => NodeView::ArrayLiteral(exprs_view(v@)),
            ExprKind::Paren(inner) => NodeView::Paren(Box::new(expr_view(*inner))),
            ExprKind::Next { expr, count } => NodeView::Next {
                expr: Box::new(expr_view(*expr)),
                count: match count {
                    Some(c) => Some(Box::new(expr_view(*c))),
                    None => None,
                },
            },
            ExprKind::Eventually { expr, depth } => NodeView::Eventually {
                expr: Box::new(expr_view(*expr)),
                depth: Box::new(expr_view(*depth)),
            },
            ExprKind::Unchecked(inner) => NodeView::Unchecked(Box::new(expr_view(*inner))),
            _ => NodeView::Other,
        },
        span: e.span,
    }
}

/// The views of a list of expressions.
pub open spec fn exprs_view(v: Seq<Expr>) -> Seq<ExprView>
    decreases v, 0nat,
{
    if v.len() == 0 {
        seq![]
    } else {
        exprs_view(v.subrange(0, v.len() - 1)).push(expr_view(v[v.len() - 1]))
    }
}

/// The views of a list of call arguments.
pub open spec fn args_view(v: Seq<CallArg>) -> Seq<ArgView>
    decreases v, 0nat,
{
    if v.len() == 0 {
        seq![]
    } else {
        args_view(v.subrange(0, v.len() - 1)).push(arg_view(v[v.len() - 1]))
    }
}

/// The view of a call argument.
pub open spec fn arg_view(a: CallArg) -> ArgView
    decreases a, 0nat,
{
    ArgView {
        name: match a.name {
            Some(n) => Some(name_view(n)),
            None => None,
        },
        value: expr_view(a.value),
    }
}

/// What parsing gives from a position: a value and the position after it,
/// or an error's message and span.
pub type Outcome<T> = Result<(T, int), (Seq<char>, Span)>;

/// The token at position `i`, if any.
pub open spec fn tok_at(toks: Seq<Spanned<Token>>, i: int) -> Option<Token> {
    if 0 <= i < toks.len() {
        Some(toks[i].node)
    } else {
        None
    }
}

/// The span of the token at `i`, or an empty span at the end of the source.
pub open spec fn span_at(src: Seq<u8>, toks: Seq<Spanned<Token>>, i: int) -> Span {
    if 0 <= i < toks.len() {
        toks[i].span
    } else {
        Span { start: (src.len() as usize) as u32, end: (src.len() as usize) as u32 }
    }
}

/// The token at `i` has the variant of `t`.
pub open spec fn kind_at(toks: Seq<Spanned<Token>>, i: int, t: Token) -> bool {
    tok_at(toks, i) matches Some(x) && token_kind(x) == token_kind(t)
}

/// The first position from `i` on that holds no line break.
pub open spec fn skip_nl(toks: Seq<Spanned<Token>>, i: int) -> int
    decreases toks.len() - i,
{
    if 0 <= i < toks.len() && toks[i].node == Token::Newline {
        skip_nl(toks, i + 1)
    } else {
        i
    }
}

/// The source text of a span.
pub open spec fn span_text(src: Seq<u8>, sp: Span) -> Seq<char> {
    decode_utf8(src.subrange(sp.start as int, sp.end as int))
}

/// The end of the token before position `i` (of the first token at 0), or
/// `default` when there is none.
pub open spec fn end_before_spec(toks: Seq<Spanned<Token>>, i: int, default: u32) -> u32 {
    if i == 0 {
        if toks.len() > 0 { toks[0].span.end } else { default }
    } else if i - 1 < toks.len() {
        toks[i - 1].span.end
    } else {
        default
    }
}

/// A token of the variant of `t` at `i`.
pub open spec fn expect_rule(src: Seq<u8>, toks: Seq<Spanned<Token>>, i: int, t: Token) -> Outcome<Spanned<Token>> {
    if kind_at(toks, i, t) {
        Ok((toks[i], i + 1))
    } else {
        Err((expected_message(token_debug(t), tok_at(toks, i)), span_at(src, toks, i)))
    }
}

/// An identifier at `i`, by its text.
pub open spec fn ident_rule(src: Seq<u8>, toks: Seq<Spanned<Token>>, i: int) -> Outcome<NameView> {
    if tok_at(toks, i) == Some(Token::Ident) {
        Ok((NameView { name: span_text(src, toks[i].span), span: toks[i].span }, i + 1))
    } else {
        Err((expected_message("identifier"@, tok_at(toks, i)), span_at(src, toks, i)))
    }
}

/// An expression view of a kind and span.
pub open spec fn mk(node: NodeView, span: Span) -> ExprView {
    ExprView { node, span }
}

/// `p` is a position past `i` within the tokens: where parsing goes on
/// after a part that consumed input.
pub open spec fn fwd(toks: Seq<Spanned<Token>>, i: int, p: int) -> bool {
    i < p <= toks.len()
}

/// The error that no real parse reaches: a part that consumed nothing.
pub open spec fn stuck<T>(src: Seq<u8>, toks: Seq<Spanned<Token>>, i: int) -> Outcome<T> {
    Err(("no progress"@, span_at(src, toks, i)))
}

/// An expression from `i`: pipe expressions, the loosest level. Inside a
/// generic argument list (`g`), tokens that begin with `>` end it.
pub open spec fn expr_rule(src: Seq<u8>, toks: Seq<Spanned<Token>>, i: int, g: bool) -> Outcome<ExprView>
    decreases toks.len() - i, 9nat,
{
    match pratt_rule(src, toks, i, 0, g) {
        Err(e) => Err(e),
        Ok((lhs, j)) => if fwd(toks, i, j) {
            pipe_loop(src, toks, j, lhs, g)
        } else {
            stuck(src, toks, i)
        },
    }
}

/// One `|> f(args)` stage after `lhs`, from `i`: `None` when there is none.
pub open spec fn pipe_step(src: Seq<u8>, toks: Seq<Spanned<Token>>, i: int, lhs: ExprView, g: bool) -> Option<Outcome<ExprView>>
    decreases toks.len() - i, 7nat,
{
    if !kind_at(toks, i, Token::PipeOp) || i < 0 {
        None
    } else {
        Some(
            match pratt_rule(src, toks, i + 1, 0, g) {
                Err(e) => Err(e),
                Ok((rhs, j)) => {
                    let span = lhs.span.spec_merge(rhs.span);
                    match rhs.node {
                        NodeView::Call { callee, args } => Ok((mk(NodeView::Pipe { input: Box::new(lhs), callee, args }, span), j)),
                        NodeView::Ident(_) => Ok(
                            (mk(NodeView::Pipe { input: Box::new(lhs), callee: Box::new(rhs), args: seq![] }, span), j),
                        ),
                        _ => Err(("pipe operator RHS must be a function call or identifier"@, span)),
                    }
                },
            },
        )
    }
}

/// Further `|> f(args)` stages after `lhs`, from `i`.
pub open spec fn pipe_loop(src: Seq<u8>, toks: Seq<Spanned<Token>>, i: int, lhs: ExprView, g: bool) -> Outcome<ExprView>
    decreases toks.len() - i, 8nat,
{
    match pipe_step(src, toks, i, lhs, g) {
        None => Ok((lhs, i)),
        Some(Err(e)) => Err(e),
        Some(Ok((next, j))) => if fwd(toks, i, j) {
            pipe_loop(src, toks, j, next, g)
        } else {
            stuck(src, toks, i)
        },
    }
}

/// Binary operators of precedence at least `min` by precedence climbing,
/// from `i`.
pub open spec fn pratt_rule(src: Seq<u8>, toks: Seq<Spanned<Token>>, i: int, min: u8, g: bool) -> Outcome<ExprView>
    decreases toks.len() - i, 7nat,
{
    match unary_rule(src, toks, i) {
        Err(e) => Err(e),
        Ok((u, j)) => if fwd(toks, i, j) {
            match postfix_loop(src, toks, j, u) {
                Err(e) => Err(e),
                Ok((lhs, k)) => if fwd(toks, i, k) {
                    pratt_loop(src, toks, k, lhs, min, g)
                } else {
                    stuck(src, toks, i)
                },
            }
        } else {
            stuck(src, toks, i)
        },
    }
}

/// The binary operator at `i` that binds at precedence `min` or more (not
/// one that closes a generic argument list, inside one): the token, the
/// operator, its precedence and associativity.
pub open spec fn operator_at(toks: Seq<Spanned<Token>>, i: int, min: u8, g: bool) -> Option<(Token, BinOp, u8, Assoc)> {
    match tok_at(toks, i) {
        None => None,
        Some(t) => if g && closes_angle(t) {
            None
        } else {
            match binding_power(t) {
                None => None,
                Some((op, prec, assoc)) => if prec < min {
                    None
                } else {
                    Some((t, op, prec, assoc))
                },
            }
        },
    }
}

/// One binary operator of precedence at least `min` after `lhs`, with its
/// right operand, from `i`: `None` when the next token is no such operator.
pub open spec fn pratt_step(src: Seq<u8>, toks: Seq<Spanned<Token>>, i: int, lhs: ExprView, min: u8, g: bool) -> Option<
    Outcome<ExprView>,
>
    decreases toks.len() - i, 5nat,
{
    match operator_at(toks, i, min, g) {
        None => None,
        Some((t, op, prec, assoc)) => {
            let next_min: u8 = match assoc {
                Assoc::Right => prec,
                Assoc::Left => (prec + 1) as u8,
            };
            if !(0 <= i < toks.len()) {
                None
            } else {
                Some(
                    match pratt_rule(src, toks, i + 1, next_min, g) {
                        Err(e) => Err(e),
                        Ok((rhs, j)) => {
                            let span = lhs.span.spec_merge(rhs.span);
                            let node = if t == Token::RangeExclusive {
                                NodeView::Range { start: Box::new(lhs), end: Box::new(rhs), inclusive: false }
                            } else if t == Token::RangeInclusive {
                                NodeView::Range { start: Box::new(lhs), end: Box::new(rhs), inclusive: true }
                            } else {
                                NodeView::Binary { op, lhs: Box::new(lhs), rhs: Box::new(rhs) }
                            };
                            Ok((mk(node, span), j))
                        },
                    },
                )
            }
        },
    }
}

/// Further binary operators of precedence at least `min` after `lhs`, from `i`.
pub open spec fn pratt_loop(src: Seq<u8>, toks: Seq<Spanned<Token>>, i: int, lhs: ExprView, min: u8, g: bool) -> Outcome<
    ExprView,
>
    decreases toks.len() - i, 6nat,
{
    match pratt_step(src, toks, i, lhs, min, g) {
        None => Ok((lhs, i)),
        Some(Err(e)) => Err(e),
        Some(Ok((next, j))) => if fwd(toks, i, j) {
            pratt_loop(src, toks, j, next, min, g)
        } else {
            stuck(src, toks, i)
        },
    }
}

/// Prefix operators `not`, `~`, `-` over an atom, from `i`.
pub open spec fn unary_rule(src: Seq<u8>, toks: Seq<Spanned<Token>>, i: int) -> Outcome<ExprView>
    decreases toks.len() - i, 5nat,
{
    match prefix_op(tok_at(toks, i)) {
        Some(op) => match unary_rule(src, toks, i + 1) {
            Err(e) => Err(e),
            Ok((o, j)) => Ok((mk(NodeView::Unary { op, operand: Box::new(o) }, span_at(src, toks, i).spec_merge(o.span)), j)),
        },
        None => atom_rule(src, toks, i),
    }
}

/// `.field` or `.method(args)` on `lhs`, from the `.` at `i`.
pub open spec fn dot_step(src: Seq<u8>, toks: Seq<Spanned<Token>>, i: int, lhs: ExprView) -> Outcome<ExprView>
    decreases toks.len() - i, 3nat,
{
    if !(0 <= i < toks.len()) {
        stuck(src, toks, i)
    } else {
        match ident_rule(src, toks, i + 1) {
            Err(e) => Err(e),
            Ok((field, j)) => if kind_at(toks, j, Token::LParen) && fwd(toks, i, j) {
                match call_args_rule(src, toks, j + 1) {
                    Err(e) => Err(e),
                    Ok((args, k)) => {
                        let end = end_before_spec(toks, k, lhs.span.end);
                        Ok(
                            (
                                mk(
                                    NodeView::MethodCall { object: Box::new(lhs), method: field, args },
                                    lhs.span.spec_merge(Span { start: end, end }),
                                ),
                                k,
                            ),
                        )
                    },
                }
            } else {
                Ok((mk(NodeView::FieldAccess { object: Box::new(lhs), field }, lhs.span.spec_merge(field.span)), j))
            },
        }
    }
}

/// `[index]` or `[high:low]` on `lhs`, from the `[` at `i`.
pub open spec fn index_step(src: Seq<u8>, toks: Seq<Spanned<Token>>, i: int, lhs: ExprView) -> Outcome<ExprView>
    decreases toks.len() - i, 3nat,
{
    if !(0 <= i < toks.len()) {
        stuck(src, toks, i)
    } else {
        match expr_rule(src, toks, i + 1, false) {
            Err(e) => Err(e),
            Ok((index, j)) => if kind_at(toks, j, Token::Colon) && fwd(toks, i, j) {
                match expr_rule(src, toks, j + 1, false) {
                    Err(e) => Err(e),
                    Ok((low, k)) => match expect_rule(src, toks, k, Token::RBracket) {
                        Err(e) => Err(e),
                        Ok((close, m)) => Ok(
                            (
                                mk(
                                    NodeView::BitSlice { value: Box::new(lhs), high: Box::new(index), low: Box::new(low) },
                                    lhs.span.spec_merge(close.span),
                                ),
                                m,
                            ),
                        ),
                    },
                }
            } else {
                match expect_rule(src, toks, j, Token::RBracket) {
                    Err(e) => Err(e),
                    Ok((close, m)) => Ok(
                        (mk(NodeView::Index { array: Box::new(lhs), index: Box::new(index) }, lhs.span.spec_merge(close.span)), m),
                    ),
                }
            },
        }
    }
}

/// `(args)` on `lhs`, from the `(` at `i`.
pub open spec fn call_step(src: Seq<u8>, toks: Seq<Spanned<Token>>, i: int, lhs: ExprView) -> Outcome<ExprView>
    decreases toks.len() - i, 3nat,
{
    if !(0 <= i < toks.len()) {
        stuck(src, toks, i)
    } else {
        match call_args_rule(src, toks, i + 1) {
            Err(e) => Err(e),
            Ok((args, k)) => {
                let end = end_before_spec(toks, k, lhs.span.end);
                Ok((mk(NodeView::Call { callee: Box::new(lhs), args }, lhs.span.spec_merge(Span { start: end, end })), k))
            },
        }
    }
}

/// One postfix access or call on `lhs` from `i`: `None` when the next token
/// starts none.
pub open spec fn postfix_step(src: Seq<u8>, toks: Seq<Spanned<Token>>, i: int, lhs: ExprView) -> Option<Outcome<ExprView>>
    decreases toks.len() - i, 4nat,
{
    if tok_at(toks, i) == Some(Token::Dot) {
        Some(dot_step(src, toks, i, lhs))
    } else if tok_at(toks, i) == Some(Token::LBracket) {
        Some(index_step(src, toks, i, lhs))
    } else if tok_at(toks, i) == Some(Token::LParen) {
        Some(call_step(src, toks, i, lhs))
    } else {
        None
    }
}

/// Postfix accesses and calls on `lhs`, left to right, from `i`.
pub open spec fn postfix_loop(src: Seq<u8>, toks: Seq<Spanned<Token>>, i: int, lhs: ExprView) -> Outcome<ExprView>
    decreases toks.len() - i, 5nat,
{
    match postfix_step(src, toks, i, lhs) {
        None => Ok((lhs, i)),
        Some(Err(e)) => Err(e),
        Some(Ok((next, j))) => if fwd(toks, i, j) {
            postfix_loop(src, toks, j, next)
        } else {
            stuck(src, toks, i)
        },
    }
}

/// `next(expr)` or `next(expr, count)` from `i`.
pub open spec fn next_rule(src: Seq<u8>, toks: Seq<Spanned<Token>>, i: int) -> Outcome<ExprView>
    decreases toks.len() - i, 2nat,
{
    if !(0 <= i < toks.len()) {
        stuck(src, toks, i)
    } else {
        match expect_rule(src, toks, i + 1, Token::LParen) {
            Err(e) => Err(e),
            Ok((_, j)) => if !fwd(toks, i, j) {
                stuck(src, toks, i)
            } else {
                match expr_rule(src, toks, j, false) {
                    Err(e) => Err(e),
                    Ok((e, k)) => if !fwd(toks, i, k) {
                        stuck(src, toks, i)
                    } else {
                        let count: Outcome<Option<Box<ExprView>>> = if kind_at(toks, k, Token::Comma) {
                            match expr_rule(src, toks, k + 1, false) {
                                Err(x) => Err(x),
                                Ok((c, m)) => Ok((Some(Box::new(c)), m)),
                            }
                        } else {
                            Ok((None, k))
                        };
                        match count {
                            Err(x) => Err(x),
                            Ok((c, m)) => match expect_rule(src, toks, m, Token::RParen) {
                                Err(x) => Err(x),
                                Ok((close, q)) => Ok(
                                    (mk(NodeView::Next { expr: Box::new(e), count: c }, toks[i].span.spec_merge(close.span)), q),
                                ),
                            },
                        }
                    },
                }
            },
        }
    }
}

/// Where the depth of `eventually(..)` starts, from `i`: after `name =`
/// where one stands first.
pub open spec fn depth_start(toks: Seq<Spanned<Token>>, i: int) -> int {
    if tok_at(toks, i) == Some(Token::Ident) && kind_at(toks, i + 1, Token::Eq) {
        i + 2
    } else {
        i
    }
}

/// `eventually(expr, depth)` or `eventually(expr, name = depth)` from `i`.
pub open spec fn eventually_rule(src: Seq<u8>, toks: Seq<Spanned<Token>>, i: int) -> Outcome<ExprView>
    decreases toks.len() - i, 2nat,
{
    if !(0 <= i < toks.len()) {
        stuck(src, toks, i)
    } else {
        match expect_rule(src, toks, i + 1, Token::LParen) {
            Err(e) => Err(e),
            Ok((_, j)) => if !fwd(toks, i, j) {
                stuck(src, toks, i)
            } else {
                match expr_rule(src, toks, j, false) {
                    Err(e) => Err(e),
                    Ok((e, k)) => match expect_rule(src, toks, k, Token::Comma) {
                        Err(x) => Err(x),
                        Ok((_, k2)) => {
                            let at = depth_start(toks, k2);
                            if !fwd(toks, i, at) {
                                stuck(src, toks, i)
                            } else {
                                match expr_rule(src, toks, at, false) {
                                    Err(x) => Err(x),
                                    Ok((d, m)) => match expect_rule(src, toks, m, Token::RParen) {
                                        Err(x) => Err(x),
                                        Ok((close, q)) => Ok(
                                            (
                                                mk(
                                                    NodeView::Eventually { expr: Box::new(e), depth: Box::new(d) },
                                                    toks[i].span.spec_merge(close.span),
                                                ),
                                                q,
                                            ),
                                        ),
                                    },
                                }
                            }
                        },
                    },
                }
            },
        }
    }
}

/// `if cond then a else b` from `i`.
pub open spec fn if_rule(src: Seq<u8>, toks: Seq<Spanned<Token>>, i: int) -> Outcome<ExprView>
    decreases toks.len() - i, 2nat,
{
    if !(0 <= i < toks.len()) {
        stuck(src, toks, i)
    } else {
        match expr_rule(src, toks, i + 1, false) {
            Err(e) => Err(e),
            Ok((c, j)) => match expect_rule(src, toks, j, Token::KwThen) {
                Err(x) => Err(x),
                Ok((_, j2)) => if !fwd(toks, i, j2) {
                    stuck(src, toks, i)
                } else {
                    match expr_rule(src, toks, j2, false) {
                        Err(x) => Err(x),
                        Ok((a, k)) => match expect_rule(src, toks, k, Token::KwElse) {
                            Err(x) => Err(x),
                            Ok((_, k2)) => if !fwd(toks, i, k2) {
                                stuck(src, toks, i)
                            } else {
                                match expr_rule(src, toks, k2, false) {
                                    Err(x) => Err(x),
                                    Ok((b, m)) => Ok(
                                        (
                                            mk(
                                                NodeView::IfExpr {
                                                    condition: Box::new(c),
                                                    then_expr: Box::new(a),
                                                    else_expr: Box::new(b),
                                                },
                                                toks[i].span.spec_merge(b.span),
                                            ),
                                            m,
                                        ),
                                    ),
                                }
                            },
                        },
                    }
                },
            },
        }
    }
}

/// An atom from `i`: a literal, a name, `next(..)`, `eventually(..)`,
/// `if .. then .. else ..`, a parenthesized expression or an array literal.
pub open spec fn atom_rule(src: Seq<u8>, toks: Seq<Spanned<Token>>, i: int) -> Outcome<ExprView>
    decreases toks.len() - i, 3nat,
{
    let start = span_at(src, toks, i);
    match tok_at(toks, i) {
        Some(Token::Numeric(n)) => Ok((mk(NodeView::IntLiteral(n), toks[i].span), i + 1)),
        Some(Token::StringLit(s)) => Ok((mk(NodeView::StringLiteral(s@), toks[i].span), i + 1)),
        Some(Token::KwTrue) => Ok((mk(NodeView::BoolLiteral(true), toks[i].span), i + 1)),
        Some(Token::KwFalse) => Ok((mk(NodeView::BoolLiteral(false), toks[i].span), i + 1)),
        Some(Token::Ident) => Ok((mk(NodeView::Ident(span_text(src, toks[i].span)), toks[i].span), i + 1)),
        Some(Token::KwNext) => next_rule(src, toks, i),
        Some(Token::KwEventually) => eventually_rule(src, toks, i),
        Some(Token::KwIf) => if_rule(src, toks, i),
        Some(Token::LParen) => {
            let j0 = skip_nl(toks, i + 1);
            if !fwd(toks, i, j0) {
                stuck(src, toks, i)
            } else {
                match expr_rule(src, toks, j0, false) {
                    Err(e) => Err(e),
                    Ok((e, j)) => match expect_rule(src, toks, skip_nl(toks, j), Token::RParen) {
                        Err(x) => Err(x),
                        Ok((close, k)) => Ok((mk(NodeView::Paren(Box::new(e)), start.spec_merge(close.span)), k)),
                    },
                }
            }
        },
        Some(Token::LBracket) => {
            let j0 = skip_nl(toks, i + 1);
            if !fwd(toks, i, j0) {
                stuck(src, toks, i)
            } else {
                match array_items(src, toks, j0, seq![]) {
                    Err(e) => Err(e),
                    Ok((items, j)) => match expect_rule(src, toks, j, Token::RBracket) {
                        Err(x) => Err(x),
                        Ok((close, k)) => Ok((mk(NodeView::ArrayLiteral(items), start.spec_merge(close.span)), k)),
                    },
                }
            }
        },
        other => Err(("expected expression, found "@ + opt_token_debug(other), start)),
    }
}

/// One element of an array literal at `i`, then line breaks, and whether a
/// comma follows (after which line breaks are skipped too).
pub open spec fn array_elem(src: Seq<u8>, toks: Seq<Spanned<Token>>, i: int) -> Outcome<(ExprView, bool)>
    decreases toks.len() - i, 10nat,
{
    match expr_rule(src, toks, i, false) {
        Err(e) => Err(e),
        Ok((e, j)) => {
            let j2 = skip_nl(toks, j);
            if kind_at(toks, j2, Token::Comma) {
                Ok(((e, true), skip_nl(toks, j2 + 1)))
            } else {
                Ok(((e, false), j2))
            }
        },
    }
}

/// The elements of an array literal from `i`, after those in `acc`: up to
/// a `]` or the end, separated by commas, line breaks skipped.
pub open spec fn array_items(src: Seq<u8>, toks: Seq<Spanned<Token>>, i: int, acc: Seq<ExprView>) -> Outcome<Seq<ExprView>>
    decreases toks.len() - i, 11nat,
{
    if kind_at(toks, i, Token::RBracket) || i >= toks.len() || i < 0 {
        Ok((acc, i))
    } else {
        match array_elem(src, toks, i) {
            Err(e) => Err(e),
            Ok(((e, more), j)) => if !more {
                Ok((acc.push(e), j))
            } else if fwd(toks, i, j) {
                array_items(src, toks, j, acc.push(e))
            } else {
                stuck(src, toks, i)
            },
        }
    }
}

/// One call argument at `i` (`name=value` or `value`), then line breaks,
/// and whether a comma follows (after which line breaks are skipped too).
pub open spec fn call_elem(src: Seq<u8>, toks: Seq<Spanned<Token>>, i: int) -> Outcome<(ArgView, bool)>
    decreases toks.len() - i, 10nat,
{
    if !(0 <= i < toks.len()) {
        stuck(src, toks, i)
    } else {
        let named = tok_at(toks, i) == Some(Token::Ident) && kind_at(toks, i + 1, Token::Eq);
        let name = if named {
            Some(NameView { name: span_text(src, toks[i].span), span: toks[i].span })
        } else {
            None
        };
        match expr_rule(src, toks, if named { i + 2 } else { i }, false) {
            Err(e) => Err(e),
            Ok((v, j)) => {
                let arg = ArgView { name, value: v };
                let j2 = skip_nl(toks, j);
                if kind_at(toks, j2, Token::Comma) {
                    Ok(((arg, true), skip_nl(toks, j2 + 1)))
                } else {
                    Ok(((arg, false), j2))
                }
            },
        }
    }
}

/// The arguments of a call from `i`, after those in `acc`: each `name=value`
/// or `value`, up to a `)` or the end, separated by commas, line breaks skipped.
pub open spec fn call_items(src: Seq<u8>, toks: Seq<Spanned<Token>>, i: int, acc: Seq<ArgView>) -> Outcome<Seq<ArgView>>
    decreases toks.len() - i, 11nat,
{
    if kind_at(toks, i, Token::RParen) || i >= toks.len() || i < 0 {
        Ok((acc, i))
    } else {
        match call_elem(src, toks, i) {
            Err(e) => Err(e),
            Ok(((a, more), j)) => if !more {
                Ok((acc.push(a), j))
            } else if fwd(toks, i, j) {
                call_items(src, toks, j, acc.push(a))
            } else {
                stuck(src, toks, i)
            },
        }
    }
}

/// The arguments of a call and the closing `)`, from `i` (after the `(`).
pub open spec fn call_args_rule(src: Seq<u8>, toks: Seq<Spanned<Token>>, i: int) -> Outcome<Seq<ArgView>>
    decreases toks.len() - i, 12nat,
{
    let j0 = skip_nl(toks, i);
    if !(i <= j0 <= toks.len()) {
        stuck(src, toks, i)
    } else {
        match call_items(src, toks, j0, seq![]) {
            Err(e) => Err(e),
            Ok((args, j)) => match expect_rule(src, toks, j, Token::RParen) {
                Err(x) => Err(x),
                Ok((_, k)) => Ok((args, k)),
            },
        }
    }
}

/// A parsed expression, ending at `pos`, agrees with the outcome `o`.
pub open spec fn expr_outcome(r: Result<Expr, super::ParseError>, pos: int, o: Outcome<ExprView>) -> bool {
    match r {
        Ok(x) => o == Ok::<(ExprView, int), (Seq<char>, Span)>((expr_view(x), pos)),
        Err(e) => o == Err::<(ExprView, int), (Seq<char>, Span)>((e.message@, e.span)),
    }
}

/// A parsed step, ending at `pos`, agrees with the step outcome `o`, which
/// is not `None`.
pub open spec fn step_outcome(r: Result<Expr, super::ParseError>, pos: int, o: Option<Outcome<ExprView>>) -> bool {
    o matches Some(x) && expr_outcome(r, pos, x)
}

/// Parsed call arguments, ending at `pos`, agree with the outcome `o`.
pub open spec fn args_outcome(r: Result<Vec<CallArg>, super::ParseError>, pos: int, o: Outcome<Seq<ArgView>>) -> bool {
    match r {
        Ok(x) => o == Ok::<(Seq<ArgView>, int), (Seq<char>, Span)>((args_view(x@), pos)),
        Err(e) => o == Err::<(Seq<ArgView>, int), (Seq<char>, Span)>((e.message@, e.span)),
    }
}

/// Where the tokens from `i` up to `j` are line breaks and the one at `j`
/// is not, skipping line breaks from `i` stops at `j`.
pub proof fn lemma_skip_nl(toks: Seq<Spanned<Token>>, i: int, j: int)
    requires
        0 <= i <= j <= toks.len(),
        forall|k: int| i <= k < j ==> (#[trigger] toks[k]).node == Token::Newline,
        j == toks.len() || toks[j].node != Token::Newline,
    ensures
        skip_nl(toks, i) == j,
    decreases j - i,
{
    if i < j {
        lemma_skip_nl(toks, i + 1, j);
    }
}

/// The views of a list with one more expression.
pub proof fn lemma_exprs_view_push(v: Seq<Expr>, x: Expr)
    ensures
        exprs_view(v.push(x)) == exprs_view(v).push(expr_view(x)),
{
    assert(v.push(x).subrange(0, v.len() as int) =~= v);
}

/// The views of a list with one more call argument.
pub proof fn lemma_args_view_push(v: Seq<CallArg>, x: CallArg)
    ensures
        args_view(v.push(x)) == args_view(v).push(arg_view(x)),
{
    assert(v.push(x).subrange(0, v.len() as int) =~= v);
}

} // verus!
