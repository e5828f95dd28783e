//! Expressions: a Pratt parser for binary operators, over prefix operators,
//! postfix accesses and calls, and atoms.

use vstd::prelude::*;

use crate::ast::expr::{BinOp, CallArg, Expr, ExprKind, UnaryOp};
use crate::lexer::{opt_token_debug, opt_token_text, token_kind, Token};
use crate::span::{Span, Spanned};
use crate::text::concat;

use super::{ParseError, Parser};
use super::grammar::{
    args_outcome, args_view, array_elem, array_items, atom_rule, call_args_rule, call_elem, call_items, call_step,
    depth_start, dot_step, eventually_rule, expr_outcome, expr_rule, expr_view, exprs_view, if_rule, index_step, lemma_args_view_push, lemma_exprs_view_push,
    lemma_skip_nl, name_view, operator_at, pipe_loop, pipe_step, postfix_loop, postfix_step, pratt_loop, pratt_rule,
    pratt_step, skip_nl, step_outcome, tok_at, unary_rule, ArgView, ExprView,
};

verus! {

broadcast use super::lemma_moved_on_progress;

/// How a binary operator groups with operators of its own precedence.
#[derive(Debug, Clone, Copy, PartialEq, Eq, Structural)]
pub enum Assoc {
    Left,
    Right,
}

/// The operator, precedence and associativity of an infix token; the range
/// tokens carry `Concat` and become range expressions.
pub open spec fn binding_power(t: Token) -> Option<(BinOp, u8, Assoc)> {
    match t {
        Token::KwImplies => Some((BinOp::Implies, 1, Assoc::Right)),
        Token::KwOr => Some((BinOp::Or, 2, Assoc::Left)),
        Token::KwAnd => Some((BinOp::And, 3, Assoc::Left)),
        Token::Pipe => Some((BinOp::BitOr, 4, Assoc::Left)),
        Token::Caret => Some((BinOp::BitXor, 5, Assoc::Left)),
        Token::Ampersand => Some((BinOp::BitAnd, 6, Assoc::Left)),
        Token::EqEq => Some((BinOp::Eq, 7, Assoc::Left)),
        Token::NotEq => Some((BinOp::Ne, 7, Assoc::Left)),
        Token::Less => Some((BinOp::Lt, 8, Assoc::Left)),
        Token::Greater => Some((BinOp::Gt, 8, Assoc::Left)),
        Token::LessEq => Some((BinOp::Le, 8, Assoc::Left)),
        Token::GreaterEq => Some((BinOp::Ge, 8, Assoc::Left)),
        Token::RangeExclusive => Some((BinOp::Concat, 9, Assoc::Left)),
        Token::RangeInclusive => Some((BinOp::Concat, 9, Assoc::Left)),
        Token::ShiftLeft => Some((BinOp::Shl, 10, Assoc::Left)),
        Token::ShiftRight => Some((BinOp::Shr, 10, Assoc::Left)),
        Token::ArithShiftRight => Some((BinOp::ArithShr, 10, Assoc::Left)),
        Token::Concat => Some((BinOp::Concat, 11, Assoc::Left)),
        Token::Plus => Some((BinOp::Add, 12, Assoc::Left)),
        Token::Minus => Some((BinOp::Sub, 12, Assoc::Left)),
        Token::Star => Some((BinOp::Mul, 13, Assoc::Left)),
        Token::Slash => Some((BinOp::Div, 13, Assoc::Left)),
        Token::Percent => Some((BinOp::Mod, 13, Assoc::Left)),
        Token::StarStar => Some((BinOp::Pow, 14, Assoc::Right)),
        _ => None,
    }
}

/// Binary operators bind at fourteen levels, from `implies` (1) to `**`
/// (14), and only `implies` and `**` group to the right.
pub proof fn law_binding_power_levels(t: Token)
    ensures
        binding_power(t) matches Some((_, level, assoc)) ==> 1 <= level <= 14 && (assoc == Assoc::Right <==> (t
            == Token::KwImplies || t == Token::StarStar)),
        t == Token::KwImplies ==> (binding_power(t) matches Some((_, level, _)) && level == 1),
        t == Token::StarStar ==> (binding_power(t) matches Some((_, level, _)) && level == 14),
{
}

/// The level at which a token binds as a binary operator (0 for none).
pub open spec fn level_of(t: Token) -> int {
    match binding_power(t) {
        Some((_, level, _)) => level as int,
        None => 0,
    }
}

/// The operator a token stands for as a binary operator.
pub open spec fn op_of(t: Token) -> Option<BinOp> {
    match binding_power(t) {
        Some((op, _, _)) => Some(op),
        None => None,
    }
}

/// Precedence, from loosest to tightest: `implies`, `or`, `and`, `|`, `^`,
/// `&`, equality, ordering, ranges, shifts, `++`, additive, multiplicative,
/// `**`; operators of one line bind alike. Each token stands for its
/// operator, and tokens that are no binary operator do not bind.
pub proof fn law_precedence_order()
    ensures
        0 < level_of(Token::KwImplies) < level_of(Token::KwOr) < level_of(Token::KwAnd) < level_of(Token::Pipe) < level_of(
            Token::Caret,
        ) < level_of(Token::Ampersand) < level_of(Token::EqEq) < level_of(Token::Less) < level_of(Token::RangeExclusive)
            < level_of(Token::ShiftLeft) < level_of(Token::Concat) < level_of(Token::Plus) < level_of(Token::Star)
            < level_of(Token::StarStar),
        level_of(Token::NotEq) == level_of(Token::EqEq),
        level_of(Token::Greater) == level_of(Token::Less) && level_of(Token::LessEq) == level_of(Token::Less)
            && level_of(Token::GreaterEq) == level_of(Token::Less),
        level_of(Token::RangeInclusive) == level_of(Token::RangeExclusive),
        level_of(Token::ShiftRight) == level_of(Token::ShiftLeft) && level_of(Token::ArithShiftRight) == level_of(
            Token::ShiftLeft,
        ),
        level_of(Token::Minus) == level_of(Token::Plus),
        level_of(Token::Slash) == level_of(Token::Star) && level_of(Token::Percent) == level_of(Token::Star),
        op_of(Token::Plus) == Some(BinOp::Add) && op_of(Token::Minus) == Some(BinOp::Sub) && op_of(Token::Star) == Some(
            BinOp::Mul,
        ) && op_of(Token::Slash) == Some(BinOp::Div) && op_of(Token::Percent) == Some(BinOp::Mod) && op_of(
            Token::StarStar,
        ) == Some(BinOp::Pow),
        op_of(Token::EqEq) == Some(BinOp::Eq) && op_of(Token::NotEq) == Some(BinOp::Ne) && op_of(Token::Less) == Some(
            BinOp::Lt,
        ) && op_of(Token::Greater) == Some(BinOp::Gt) && op_of(Token::LessEq) == Some(BinOp::Le) && op_of(
            Token::GreaterEq,
        ) == Some(BinOp::Ge),
        op_of(Token::KwAnd) == Some(BinOp::And) && op_of(Token::KwOr) == Some(BinOp::Or) && op_of(Token::KwImplies)
            == Some(BinOp::Implies),
        op_of(Token::Ampersand) == Some(BinOp::BitAnd) && op_of(Token::Pipe) == Some(BinOp::BitOr) && op_of(
            Token::Caret,
        ) == Some(BinOp::BitXor),
        op_of(Token::ShiftLeft) == Some(BinOp::Shl) && op_of(Token::ShiftRight) == Some(BinOp::Shr) && op_of(
            Token::ArithShiftRight,
        ) == Some(BinOp::ArithShr) && op_of(Token::Concat) == Some(BinOp::Concat),
        level_of(Token::Eq) == 0 && level_of(Token::Comma) == 0 && level_of(Token::Ident) == 0 && level_of(Token::LParen) == 0,
{
}

fn infix_binding_power(token: &Token) -> (r: Option<(BinOp, u8, Assoc)>)
    ensures
        r == binding_power(*token),
{
    match token {
        Token::KwImplies => Some((BinOp::Implies, 1, Assoc::Right)),
        Token::KwOr => Some((BinOp::Or, 2, Assoc::Left)),
        Token::KwAnd => Some((BinOp::And, 3, Assoc::Left)),
        Token::Pipe => Some((BinOp::BitOr, 4, Assoc::Left)),
        Token::Caret => Some((BinOp::BitXor, 5, Assoc::Left)),
        Token::Ampersand => Some((BinOp::BitAnd, 6, Assoc::Left)),
        Token::EqEq => Some((BinOp::Eq, 7, Assoc::Left)),
        Token::NotEq => Some((BinOp::Ne, 7, Assoc::Left)),
        Token::Less => Some((BinOp::Lt, 8, Assoc::Left)),
        Token::Greater => Some((BinOp::Gt, 8, Assoc::Left)),
        Token::LessEq => Some((BinOp::Le, 8, Assoc::Left)),
        Token::GreaterEq => Some((BinOp::Ge, 8, Assoc::Left)),
        Token::RangeExclusive => Some((BinOp::Concat, 9, Assoc::Left)),
        Token::RangeInclusive => Some((BinOp::Concat, 9, Assoc::Left)),
        Token::ShiftLeft => Some((BinOp::Shl, 10, Assoc::Left)),
        Token::ShiftRight => Some((BinOp::Shr, 10, Assoc::Left)),
        Token::ArithShiftRight => Some((BinOp::ArithShr, 10, Assoc::Left)),
        Token::Concat => Some((BinOp::Concat, 11, Assoc::Left)),
        Token::Plus => Some((BinOp::Add, 12, Assoc::Left)),
        Token::Minus => Some((BinOp::Sub, 12, Assoc::Left)),
        Token::Star => Some((BinOp::Mul, 13, Assoc::Left)),
        Token::Slash => Some((BinOp::Div, 13, Assoc::Left)),
        Token::Percent => Some((BinOp::Mod, 13, Assoc::Left)),
        Token::StarStar => Some((BinOp::Pow, 14, Assoc::Right)),
        _ => None,
    }
}

/// A token that closes a generic argument list (`>`, `>=`, `>>`, `>>>`),
/// so that it is no operator inside one.
pub open spec fn closes_angle(t: Token) -> bool {
    t == Token::Greater || t == Token::GreaterEq || t == Token::ShiftRight || t == Token::ArithShiftRight
}

fn is_angle_close(t: &Token) -> (r: bool)
    ensures
        r == closes_angle(*t),
{
    match t {
        Token::Greater | Token::GreaterEq | Token::ShiftRight | Token::ArithShiftRight => true,
        _ => false,
    }
}

/// Parse an expression, as [`expr_rule`] describes.
pub fn parse_expr(p: &mut Parser<'_>) -> (r: Result<Expr, ParseError>)
    requires
        old(p).wf(),
    ensures
        final(p).moved_on(*old(p)),
        r is Ok ==> final(p).spec_pos() > old(p).spec_pos(),
        final(p).progressed(*old(p)),
        r is Ok ==> final(p).measure() < old(p).measure(),
        expr_outcome(r, final(p).spec_pos(), expr_rule(old(p).spec_source(), old(p).spec_tokens(), old(p).spec_pos(), false)),
    decreases old(p).spec_tokens().len() - old(p).spec_pos(), 6nat,
{
    let r = parse_pipe_expr(p, false);
    proof {
        super::lemma_moved_on_progress(*p, *old(p));
    }
    r
}

/// Parse an expression inside a generic argument list, where `>` and the
/// tokens that begin with it close the list instead of being operators.
pub fn parse_expr_in_generic(p: &mut Parser<'_>) -> (r: Result<Expr, ParseError>)
    requires
        old(p).wf(),
    ensures
        final(p).moved_on(*old(p)),
        r is Ok ==> final(p).spec_pos() > old(p).spec_pos(),
        final(p).progressed(*old(p)),
        r is Ok ==> final(p).measure() < old(p).measure(),
        expr_outcome(r, final(p).spec_pos(), expr_rule(old(p).spec_source(), old(p).spec_tokens(), old(p).spec_pos(), true)),
    decreases old(p).spec_tokens().len() - old(p).spec_pos(), 6nat,
{
    let r = parse_pipe_expr(p, true);
    proof {
        super::lemma_moved_on_progress(*p, *old(p));
    }
    r
}

/// Pipe expressions `lhs |> f(args)` (or `lhs |> f`): the lowest precedence;
/// the left side becomes the first input of the call.
fn parse_pipe_expr(p: &mut Parser<'_>, in_generic: bool) -> (r: Result<Expr, ParseError>)
    requires
        old(p).wf(),
    ensures
        final(p).moved_on(*old(p)),
        r is Ok ==> final(p).spec_pos() > old(p).spec_pos(),
        expr_outcome(r, final(p).spec_pos(), expr_rule(old(p).spec_source(), old(p).spec_tokens(), old(p).spec_pos(), in_generic)),
    decreases old(p).spec_tokens().len() - old(p).spec_pos(), 5nat,
{
    let ghost src = p.spec_source();
    let ghost toks = p.spec_tokens();
    let ghost start = p.spec_pos();
    let mut lhs = match parse_pratt(p, 0, in_generic) {
        Ok(x) => x,
        Err(e) => {
            return Err(e);
        },
    };
    loop
        invariant
            old(p).wf(),
            p.moved_on(*old(p)),
            p.spec_pos() > start,
            start == old(p).spec_pos(),
            src == old(p).spec_source(),
            toks == old(p).spec_tokens(),
            expr_rule(src, toks, start, in_generic) == pipe_loop(src, toks, p.spec_pos(), expr_view(lhs), in_generic),
        ensures
            p.spec_pos() > start,
            expr_rule(src, toks, start, in_generic) == Ok::<(ExprView, int), (Seq<char>, Span)>(
                (expr_view(lhs), p.spec_pos()),
            ),
        decreases p.spec_tokens().len() - p.spec_pos(),
    {
        if !p.check(Token::PipeOp) {
            proof {
                assert(pipe_step(src, toks, p.spec_pos(), expr_view(lhs), in_generic) is None);
            }
            break;
        }
        let ghost here = p.spec_pos();
        let ghost vl = expr_view(lhs);
        match pipe_stage(p, lhs, in_generic) {
            Ok(next) => {
                lhs = next;
            },
            Err(e) => {
                proof {
                    assert(pipe_loop(src, toks, here, vl, in_generic) == Err::<(ExprView, int), (Seq<char>, Span)>(
                        (e.message@, e.span),
                    ));
                }
                return Err(e);
            },
        }
    }
    Ok(lhs)
}

/// One `|> f(args)` stage after `lhs`, at a `|>`.
fn pipe_stage(p: &mut Parser<'_>, lhs: Expr, in_generic: bool) -> (r: Result<Expr, ParseError>)
    requires
        old(p).wf(),
        old(p).checks(Token::PipeOp),
    ensures
        final(p).moved_on(*old(p)),
        r is Ok ==> final(p).spec_pos() > old(p).spec_pos(),
        step_outcome(
            r,
            final(p).spec_pos(),
            pipe_step(old(p).spec_source(), old(p).spec_tokens(), old(p).spec_pos(), expr_view(lhs), in_generic),
        ),
    decreases old(p).spec_tokens().len() - old(p).spec_pos(), 4nat,
{
    p.advance();
    let rhs = parse_pratt(p, 0, in_generic)?;
    let span = lhs.span.merge(rhs.span);
    let ghost rv = expr_view(rhs);
    match rhs.node {
        ExprKind::Call { callee, args } => Ok(Spanned::new(ExprKind::Pipe { input: Box::new(lhs), callee, args }, span)),
        ExprKind::Ident(name) => {
            let callee = Spanned::new(ExprKind::Ident(name), rhs.span);
            proof {
                assert(args_view(Seq::<CallArg>::empty()) =~= Seq::<ArgView>::empty());
            }
            Ok(Spanned::new(ExprKind::Pipe { input: Box::new(lhs), callee: Box::new(callee), args: Vec::new() }, span))
        },
        _ => {
            proof {
                reveal_strlit("pipe operator RHS must be a function call or identifier");
            }
            Err(ParseError { message: String::from_str("pipe operator RHS must be a function call or identifier"), span })
        },
    }
}

/// Binary operators by precedence climbing: operators of precedence below
/// `min_prec` are left to the caller.
fn parse_pratt(p: &mut Parser<'_>, min_prec: u8, in_generic: bool) -> (r: Result<Expr, ParseError>)
    requires
        old(p).wf(),
    ensures
        final(p).moved_on(*old(p)),
        r is Ok ==> final(p).spec_pos() > old(p).spec_pos(),
        expr_outcome(
            r,
            final(p).spec_pos(),
            pratt_rule(old(p).spec_source(), old(p).spec_tokens(), old(p).spec_pos(), min_prec, in_generic),
        ),
    decreases old(p).spec_tokens().len() - old(p).spec_pos(), 4nat,
{
    let ghost src = p.spec_source();
    let ghost toks = p.spec_tokens();
    let ghost start = p.spec_pos();
    let lhs0 = match parse_unary(p) {
        Ok(x) => x,
        Err(e) => {
            return Err(e);
        },
    };
    let mut lhs = match parse_postfix(p, lhs0) {
        Ok(x) => x,
        Err(e) => {
            return Err(e);
        },
    };
    loop
        invariant
            old(p).wf(),
            p.moved_on(*old(p)),
            p.spec_pos() > start,
            start == old(p).spec_pos(),
            src == old(p).spec_source(),
            toks == old(p).spec_tokens(),
            pratt_rule(src, toks, start, min_prec, in_generic) == pratt_loop(
                src,
                toks,
                p.spec_pos(),
                expr_view(lhs),
                min_prec,
                in_generic,
            ),
        ensures
            p.spec_pos() > start,
            pratt_rule(src, toks, start, min_prec, in_generic) == Ok::<(ExprView, int), (Seq<char>, Span)>(
                (expr_view(lhs), p.spec_pos()),
            ),
        decreases p.spec_tokens().len() - p.spec_pos(),
    {
        let (tok, op, prec, assoc) = match operator_here(p, min_prec, in_generic) {
            Some(info) => info,
            None => {
                proof {
                    assert(pratt_step(src, toks, p.spec_pos(), expr_view(lhs), min_prec, in_generic) is None);
                }
                break;
            },
        };
        let ghost here = p.spec_pos();
        let ghost vl = expr_view(lhs);
        match pratt_apply(p, lhs, tok, op, prec, assoc, min_prec, in_generic) {
            Ok(next) => {
                lhs = next;
            },
            Err(e) => {
                proof {
                    assert(pratt_loop(src, toks, here, vl, min_prec, in_generic) == Err::<(ExprView, int), (Seq<char>, Span)>(
                        (e.message@, e.span),
                    ));
                }
                return Err(e);
            },
        }
    }
    Ok(lhs)
}

/// The binary operator at the next token that binds at precedence
/// `min_prec` or more, as [`operator_at`] describes.
fn operator_here(p: &Parser<'_>, min_prec: u8, in_generic: bool) -> (r: Option<(Token, BinOp, u8, Assoc)>)
    ensures
        r == operator_at(p.spec_tokens(), p.spec_pos(), min_prec, in_generic),
{
    let tok = match p.peek_token() {
        Some(t) => t,
        None => {
            return None;
        },
    };
    if in_generic && is_angle_close(&tok) {
        return None;
    }
    match infix_binding_power(&tok) {
        Some((op, prec, assoc)) => if prec < min_prec {
            None
        } else {
            Some((tok, op, prec, assoc))
        },
        None => None,
    }
}

/// The operator `tok` at the next token and its right operand, applied to `lhs`.
fn pratt_apply(
    p: &mut Parser<'_>,
    lhs: Expr,
    tok: Token,
    op: BinOp,
    prec: u8,
    assoc: Assoc,
    min_prec: u8,
    in_generic: bool,
) -> (r: Result<Expr, ParseError>)
    requires
        old(p).wf(),
        operator_at(old(p).spec_tokens(), old(p).spec_pos(), min_prec, in_generic) == Some((tok, op, prec, assoc)),
    ensures
        final(p).moved_on(*old(p)),
        r is Ok ==> final(p).spec_pos() > old(p).spec_pos(),
        step_outcome(
            r,
            final(p).spec_pos(),
            pratt_step(old(p).spec_source(), old(p).spec_tokens(), old(p).spec_pos(), expr_view(lhs), min_prec, in_generic),
        ),
    decreases old(p).spec_tokens().len() - old(p).spec_pos(), 3nat,
{
    p.advance();
    proof {
        assert(binding_power(tok) == Some((op, prec, assoc)));
        assert(prec <= 14);
    }
    let next_min = match assoc {
        Assoc::Right => prec,
        Assoc::Left => prec + 1,
    };
    let rhs = parse_pratt(p, next_min, in_generic)?;
    let span = lhs.span.merge(rhs.span);
    let node = match tok {
        Token::RangeExclusive => ExprKind::Range { start: Box::new(lhs), end: Box::new(rhs), inclusive: false },
        Token::RangeInclusive => ExprKind::Range { start: Box::new(lhs), end: Box::new(rhs), inclusive: true },
        _ => ExprKind::Binary { op, lhs: Box::new(lhs), rhs: Box::new(rhs) },
    };
    Ok(Spanned::new(node, span))
}

/// The unary operator that a prefix token stands for.
pub open spec fn prefix_op(t: Option<Token>) -> Option<UnaryOp> {
    match t {
        Some(Token::KwNot) => Some(UnaryOp::LogicalNot),
        Some(Token::Tilde) => Some(UnaryOp::BitNot),
        Some(Token::Minus) => Some(UnaryOp::Neg),
        _ => None,
    }
}

/// Prefix operators `not`, `~` and `-`, which bind tighter than any binary
/// operator; otherwise an atom.
fn parse_unary(p: &mut Parser<'_>) -> (r: Result<Expr, ParseError>)
    requires
        old(p).wf(),
    ensures
        final(p).moved_on(*old(p)),
        r is Ok ==> final(p).spec_pos() > old(p).spec_pos(),
        expr_outcome(r, final(p).spec_pos(), unary_rule(old(p).spec_source(), old(p).spec_tokens(), old(p).spec_pos())),
    decreases old(p).spec_tokens().len() - old(p).spec_pos(), 3nat,
{
    let start = p.peek_span();
    let op = match p.peek() {
        Some(Token::KwNot) => UnaryOp::LogicalNot,
        Some(Token::Tilde) => UnaryOp::BitNot,
        Some(Token::Minus) => UnaryOp::Neg,
        _ => {
            return parse_atom(p);
        },
    };
    p.advance();
    let operand = parse_unary(p)?;
    let span = start.merge(operand.span);
    Ok(Spanned::new(ExprKind::Unary { op, operand: Box::new(operand) }, span))
}

/// A token that begins a postfix access or call (`.`, `[`, `(`).
pub open spec fn starts_postfix(t: Option<Token>) -> bool {
    t == Some(Token::Dot) || t == Some(Token::LBracket) || t == Some(Token::LParen)
}

/// Postfix accesses and calls on `lhs`: `.field`, `.method(args)`,
/// `[index]`, `[high:low]` and `(args)`, left to right.
fn parse_postfix(p: &mut Parser<'_>, base: Expr) -> (r: Result<Expr, ParseError>)
    requires
        old(p).wf(),
    ensures
        final(p).moved_on(*old(p)),
        !starts_postfix(old(p).peek_spec()) ==> r == Ok::<Expr, ParseError>(base) && final(p).same(*old(p)),
        expr_outcome(
            r,
            final(p).spec_pos(),
            postfix_loop(old(p).spec_source(), old(p).spec_tokens(), old(p).spec_pos(), expr_view(base)),
        ),
    decreases old(p).spec_tokens().len() - old(p).spec_pos(), 2nat,
{
    let ghost src = p.spec_source();
    let ghost toks = p.spec_tokens();
    let ghost start = p.spec_pos();
    let ghost lhs_view0 = expr_view(base);
    let ghost lhs_orig = base;
    let mut lhs = base;
    loop
        invariant
            old(p).wf(),
            p.moved_on(*old(p)),
            src == old(p).spec_source(),
            toks == old(p).spec_tokens(),
            start == old(p).spec_pos(),
            lhs_orig == base,
            lhs_view0 == expr_view(base),
            postfix_loop(src, toks, start, lhs_view0) == postfix_loop(src, toks, p.spec_pos(), expr_view(lhs)),
            !starts_postfix(old(p).peek_spec()) ==> p.same(*old(p)) && lhs == lhs_orig,
        ensures
            postfix_loop(src, toks, start, lhs_view0) == Ok::<(ExprView, int), (Seq<char>, Span)>(
                (expr_view(lhs), p.spec_pos()),
            ),
        decreases p.spec_tokens().len() - p.spec_pos(),
    {
        let first = p.peek_token();
        match first {
            Some(Token::Dot) | Some(Token::LBracket) | Some(Token::LParen) => {},
            _ => {
                proof {
                    assert(tok_at(toks, p.spec_pos()) == first);
                    assert(postfix_step(src, toks, p.spec_pos(), expr_view(lhs)) is None);
                }
                break;
            },
        }
        let ghost here = p.spec_pos();
        let ghost vl = expr_view(lhs);
        match postfix_stage(p, lhs) {
            Ok(next) => {
                lhs = next;
            },
            Err(e) => {
                proof {
                    assert(postfix_loop(src, toks, here, vl) == Err::<(ExprView, int), (Seq<char>, Span)>((e.message@, e.span)));
                }
                return Err(e);
            },
        }
    }
    Ok(lhs)
}

/// One postfix access or call on `lhs`, at a `.`, `[` or `(`.
fn postfix_stage(p: &mut Parser<'_>, lhs: Expr) -> (r: Result<Expr, ParseError>)
    requires
        old(p).wf(),
        starts_postfix(old(p).peek_spec()),
    ensures
        final(p).moved_on(*old(p)),
        r is Ok ==> final(p).spec_pos() > old(p).spec_pos(),
        step_outcome(r, final(p).spec_pos(), postfix_step(old(p).spec_source(), old(p).spec_tokens(), old(p).spec_pos(), expr_view(lhs))),
    decreases old(p).spec_tokens().len() - old(p).spec_pos(), 1nat,
{
    match p.peek_token() {
        Some(Token::Dot) => parse_dot(p, lhs),
        Some(Token::LBracket) => parse_index(p, lhs),
        _ => parse_call(p, lhs),
    }
}

/// `.field` or `.method(args)` on `lhs`, at a `.`.
fn parse_dot(p: &mut Parser<'_>, lhs: Expr) -> (r: Result<Expr, ParseError>)
    requires
        old(p).wf(),
        old(p).peek_spec() == Some(Token::Dot),
    ensures
        final(p).moved_on(*old(p)),
        r is Ok ==> final(p).spec_pos() > old(p).spec_pos(),
        expr_outcome(r, final(p).spec_pos(), dot_step(old(p).spec_source(), old(p).spec_tokens(), old(p).spec_pos(), expr_view(lhs))),
    decreases old(p).spec_tokens().len() - old(p).spec_pos(), 0nat,
{
    p.advance();
    let field = p.expect_ident()?;
    if p.check(Token::LParen) {
        p.advance();
        let args = parse_call_args(p)?;
        let end = p.end_before(lhs.span.end);
        let span = lhs.span.merge(Span::new(end, end));
        Ok(Spanned::new(ExprKind::MethodCall { object: Box::new(lhs), method: field, args }, span))
    } else {
        let span = lhs.span.merge(field.span);
        Ok(Spanned::new(ExprKind::FieldAccess { object: Box::new(lhs), field }, span))
    }
}

/// `[index]` or `[high:low]` on `lhs`, at a `[`.
fn parse_index(p: &mut Parser<'_>, lhs: Expr) -> (r: Result<Expr, ParseError>)
    requires
        old(p).wf(),
        old(p).peek_spec() == Some(Token::LBracket),
    ensures
        final(p).moved_on(*old(p)),
        r is Ok ==> final(p).spec_pos() > old(p).spec_pos(),
        expr_outcome(r, final(p).spec_pos(), index_step(old(p).spec_source(), old(p).spec_tokens(), old(p).spec_pos(), expr_view(lhs))),
    decreases old(p).spec_tokens().len() - old(p).spec_pos(), 0nat,
{
    p.advance();
    let index_expr = parse_expr(p)?;
    if p.eat(Token::Colon).is_some() {
        let low = parse_expr(p)?;
        let close = p.expect_token(Token::RBracket)?;
        let span = lhs.span.merge(close.span);
        Ok(Spanned::new(ExprKind::BitSlice { value: Box::new(lhs), high: Box::new(index_expr), low: Box::new(low) }, span))
    } else {
        let close = p.expect_token(Token::RBracket)?;
        let span = lhs.span.merge(close.span);
        Ok(Spanned::new(ExprKind::Index { array: Box::new(lhs), index: Box::new(index_expr) }, span))
    }
}

/// `(args)` on `lhs`, at a `(`.
fn parse_call(p: &mut Parser<'_>, lhs: Expr) -> (r: Result<Expr, ParseError>)
    requires
        old(p).wf(),
        old(p).peek_spec() == Some(Token::LParen),
    ensures
        final(p).moved_on(*old(p)),
        r is Ok ==> final(p).spec_pos() > old(p).spec_pos(),
        expr_outcome(r, final(p).spec_pos(), call_step(old(p).spec_source(), old(p).spec_tokens(), old(p).spec_pos(), expr_view(lhs))),
    decreases old(p).spec_tokens().len() - old(p).spec_pos(), 0nat,
{
    p.advance();
    let args = parse_call_args(p)?;
    let end = p.end_before(lhs.span.end);
    let span = lhs.span.merge(Span::new(end, end));
    Ok(Spanned::new(ExprKind::Call { callee: Box::new(lhs), args }, span))
}

/// Parse an atom, as [`atom_rule`] describes: a literal, an identifier,
/// `next(..)`, `eventually(..)`, `if .. then .. else ..`, a parenthesized
/// expression or an array literal.
fn parse_atom(p: &mut Parser<'_>) -> (r: Result<Expr, ParseError>)
    requires
        old(p).wf(),
    ensures
        final(p).moved_on(*old(p)),
        r is Ok ==> final(p).spec_pos() > old(p).spec_pos(),
        expr_outcome(r, final(p).spec_pos(), atom_rule(old(p).spec_source(), old(p).spec_tokens(), old(p).spec_pos())),
    decreases old(p).spec_tokens().len() - old(p).spec_pos(), 2nat,
{
    let start = p.peek_span();
    let cur = p.peek_token();
    match cur {
        Some(Token::Numeric(n)) => {
            let tok = p.advance();
            Ok(Spanned::new(ExprKind::IntLiteral(n), tok.span))
        },
        Some(Token::StringLit(s)) => {
            let tok = p.advance();
            Ok(Spanned::new(ExprKind::StringLiteral(s), tok.span))
        },
        Some(Token::KwTrue) => {
            let tok = p.advance();
            Ok(Spanned::new(ExprKind::BoolLiteral(true), tok.span))
        },
        Some(Token::KwFalse) => {
            let tok = p.advance();
            Ok(Spanned::new(ExprKind::BoolLiteral(false), tok.span))
        },
        Some(Token::KwNext) => parse_next(p),
        Some(Token::KwEventually) => parse_eventually(p),
        Some(Token::KwIf) => parse_if_expr(p),
        Some(Token::Ident) => {
            let tok = p.advance();
            proof {
                assert(p.spec_tokens()[p.spec_pos() - 1].node == Token::Ident);
            }
            let text = p.text(tok.span).to_owned();
            Ok(Spanned::new(ExprKind::Ident(text), tok.span))
        },
        Some(Token::LParen) => parse_paren(p),
        Some(Token::LBracket) => parse_array_literal(p),
        other => {
            let message = concat("expected expression, found ", opt_token_text(other.as_ref()).as_str());
            Err(ParseError { message, span: start })
        },
    }
}

/// `next(expr)` or `next(expr, count)`, as [`next_rule`] describes.
fn parse_next(p: &mut Parser<'_>) -> (r: Result<Expr, ParseError>)
    requires
        old(p).wf(),
        old(p).peek_spec() == Some(Token::KwNext),
    ensures
        final(p).moved_on(*old(p)),
        r is Ok ==> final(p).spec_pos() > old(p).spec_pos(),
        expr_outcome(r, final(p).spec_pos(), atom_rule(old(p).spec_source(), old(p).spec_tokens(), old(p).spec_pos())),
    decreases old(p).spec_tokens().len() - old(p).spec_pos(), 1nat,
{
    let tok = p.advance();
    p.expect_token(Token::LParen)?;
    let expr = parse_expr(p)?;
    let count = if p.eat(Token::Comma).is_some() {
        Some(Box::new(parse_expr(p)?))
    } else {
        None
    };
    let close = p.expect_token(Token::RParen)?;
    let span = tok.span.merge(close.span);
    Ok(Spanned::new(ExprKind::Next { expr: Box::new(expr), count }, span))
}

/// `eventually(expr, depth)` or `eventually(expr, name = depth)`, as
/// [`eventually_rule`] describes.
fn parse_eventually(p: &mut Parser<'_>) -> (r: Result<Expr, ParseError>)
    requires
        old(p).wf(),
        old(p).peek_spec() == Some(Token::KwEventually),
    ensures
        final(p).moved_on(*old(p)),
        r is Ok ==> final(p).spec_pos() > old(p).spec_pos(),
        expr_outcome(r, final(p).spec_pos(), eventually_rule(old(p).spec_source(), old(p).spec_tokens(), old(p).spec_pos())),
    decreases old(p).spec_tokens().len() - old(p).spec_pos(), 1nat,
{
    let tok = p.advance();
    p.expect_token(Token::LParen)?;
    let expr = parse_expr(p)?;
    p.expect_token(Token::Comma)?;
    let depth = parse_depth(p)?;
    let close = p.expect_token(Token::RParen)?;
    let span = tok.span.merge(close.span);
    Ok(Spanned::new(ExprKind::Eventually { expr: Box::new(expr), depth: Box::new(depth) }, span))
}

/// The depth of `eventually(..)`: an expression, after `name =` where one
/// stands first.
fn parse_depth(p: &mut Parser<'_>) -> (r: Result<Expr, ParseError>)
    requires
        old(p).wf(),
    ensures
        final(p).moved_on(*old(p)),
        r is Ok ==> final(p).spec_pos() > old(p).spec_pos(),
        expr_outcome(
            r,
            final(p).spec_pos(),
            expr_rule(old(p).spec_source(), old(p).spec_tokens(), depth_start(old(p).spec_tokens(), old(p).spec_pos()), false),
        ),
    decreases old(p).spec_tokens().len() - old(p).spec_pos(), 7nat,
{
    if p.check_ident() {
        let saved = p.position();
        p.advance();
        if p.eat(Token::Eq).is_some() {
            parse_expr(p)
        } else {
            p.rewind(saved);
            parse_expr(p)
        }
    } else {
        parse_expr(p)
    }
}

/// `if cond then a else b`, as [`if_rule`] describes.
fn parse_if_expr(p: &mut Parser<'_>) -> (r: Result<Expr, ParseError>)
    requires
        old(p).wf(),
        old(p).peek_spec() == Some(Token::KwIf),
    ensures
        final(p).moved_on(*old(p)),
        r is Ok ==> final(p).spec_pos() > old(p).spec_pos(),
        expr_outcome(r, final(p).spec_pos(), if_rule(old(p).spec_source(), old(p).spec_tokens(), old(p).spec_pos())),
    decreases old(p).spec_tokens().len() - old(p).spec_pos(), 1nat,
{
    let tok = p.advance();
    let condition = parse_expr(p)?;
    p.expect_token(Token::KwThen)?;
    let then_expr = parse_expr(p)?;
    p.expect_token(Token::KwElse)?;
    let else_expr = parse_expr(p)?;
    let span = tok.span.merge(else_expr.span);
    Ok(
        Spanned::new(
            ExprKind::IfExpr {
                condition: Box::new(condition),
                then_expr: Box::new(then_expr),
                else_expr: Box::new(else_expr),
            },
            span,
        ),
    )
}

/// A parenthesized expression; line breaks inside the parentheses are skipped.
fn parse_paren(p: &mut Parser<'_>) -> (r: Result<Expr, ParseError>)
    requires
        old(p).wf(),
        old(p).peek_spec() == Some(Token::LParen),
    ensures
        final(p).moved_on(*old(p)),
        r is Ok ==> final(p).spec_pos() > old(p).spec_pos(),
        expr_outcome(r, final(p).spec_pos(), atom_rule(old(p).spec_source(), old(p).spec_tokens(), old(p).spec_pos())),
    decreases old(p).spec_tokens().len() - old(p).spec_pos(), 1nat,
{
    let ghost toks = p.spec_tokens();
    let start = p.peek_span();
    p.advance();
    let ghost a = p.spec_pos();
    p.skip_newlines();
    proof {
        lemma_skip_nl(toks, a, p.spec_pos());
    }
    let expr = parse_expr(p)?;
    let ghost b = p.spec_pos();
    p.skip_newlines();
    proof {
        lemma_skip_nl(toks, b, p.spec_pos());
    }
    let close = p.expect_token(Token::RParen)?;
    let span = start.merge(close.span);
    Ok(Spanned::new(ExprKind::Paren(Box::new(expr)), span))
}

/// An array literal `[a, b, ...]`; line breaks inside are skipped.
fn parse_array_literal(p: &mut Parser<'_>) -> (r: Result<Expr, ParseError>)
    requires
        old(p).wf(),
        old(p).peek_spec() == Some(Token::LBracket),
    ensures
        final(p).moved_on(*old(p)),
        r is Ok ==> final(p).spec_pos() > old(p).spec_pos(),
        expr_outcome(r, final(p).spec_pos(), atom_rule(old(p).spec_source(), old(p).spec_tokens(), old(p).spec_pos())),
    decreases old(p).spec_tokens().len() - old(p).spec_pos(), 1nat,
{
    let ghost src = p.spec_source();
    let ghost toks = p.spec_tokens();
    let start = p.peek_span();
    p.advance();
    let ghost a = p.spec_pos();
    p.skip_newlines();
    proof {
        lemma_skip_nl(toks, a, p.spec_pos());
    }
    let ghost j0 = p.spec_pos();
    let mut elements: Vec<Expr> = Vec::new();
    proof {
        assert(exprs_view(elements@) =~= Seq::<ExprView>::empty());
    }
    loop
        invariant_except_break
            old(p).wf(),
            p.moved_on(*old(p)),
            p.spec_pos() > old(p).spec_pos(),
            src == old(p).spec_source(),
            toks == old(p).spec_tokens(),
            array_items(src, toks, j0, seq![]) == array_items(src, toks, p.spec_pos(), exprs_view(elements@)),
            j0 == skip_nl(toks, old(p).spec_pos() + 1),
            old(p).spec_pos() < j0 <= toks.len(),
            old(p).peek_spec() == Some(Token::LBracket),
        ensures
            p.moved_on(*old(p)),
            p.spec_pos() > old(p).spec_pos(),
            array_items(src, toks, j0, seq![]) == Ok::<(Seq<ExprView>, int), (Seq<char>, Span)>(
                (exprs_view(elements@), p.spec_pos()),
            ),
        decreases p.spec_tokens().len() - p.spec_pos(),
    {
        if p.check(Token::RBracket) || p.is_at_end() {
            break;
        }
        let ghost here = p.spec_pos();
        let (e, more) = match parse_array_elem(p) {
            Ok(x) => x,
            Err(err) => {
                proof {
                    assert(array_items(src, toks, here, exprs_view(elements@)) == Err::<(Seq<ExprView>, int), (Seq<char>, Span)>(
                        (err.message@, err.span),
                    ));
                }
                return Err(err);
            },
        };
        proof {
            lemma_exprs_view_push(elements@, e);
        }
        elements.push(e);
        if !more {
            break;
        }
    }
    let close = p.expect_token(Token::RBracket)?;
    let span = start.merge(close.span);
    Ok(Spanned::new(ExprKind::ArrayLiteral(elements), span))
}

/// One element of an array literal, the line breaks after it, and whether a
/// comma follows (the line breaks after which are skipped too).
fn parse_array_elem(p: &mut Parser<'_>) -> (r: Result<(Expr, bool), ParseError>)
    requires
        old(p).wf(),
    ensures
        final(p).moved_on(*old(p)),
        r is Ok ==> final(p).spec_pos() > old(p).spec_pos(),
        match r {
            Ok((e, more)) => array_elem(old(p).spec_source(), old(p).spec_tokens(), old(p).spec_pos()) == Ok::<
                ((ExprView, bool), int),
                (Seq<char>, Span),
            >(((expr_view(e), more), final(p).spec_pos())),
            Err(e) => array_elem(old(p).spec_source(), old(p).spec_tokens(), old(p).spec_pos()) == Err::<
                ((ExprView, bool), int),
                (Seq<char>, Span),
            >((e.message@, e.span)),
        },
    decreases old(p).spec_tokens().len() - old(p).spec_pos(), 7nat,
{
    let ghost toks = p.spec_tokens();
    let e = parse_expr(p)?;
    let ghost b = p.spec_pos();
    p.skip_newlines();
    proof {
        lemma_skip_nl(toks, b, p.spec_pos());
    }
    if p.eat(Token::Comma).is_none() {
        return Ok((e, false));
    }
    let ghost c = p.spec_pos();
    p.skip_newlines();
    proof {
        lemma_skip_nl(toks, c, p.spec_pos());
    }
    Ok((e, true))
}

/// One call argument (`name=value` or `value`), the line breaks after it,
/// and whether a comma follows (the line breaks after which are skipped too).
#[verifier::spinoff_prover]
#[verifier::rlimit(40)]
fn parse_call_elem(p: &mut Parser<'_>) -> (r: Result<(CallArg, bool), ParseError>)
    requires
        old(p).wf(),
        old(p).spec_pos() < old(p).spec_tokens().len(),
    ensures
        final(p).moved_on(*old(p)),
        r is Ok ==> final(p).spec_pos() > old(p).spec_pos(),
        match r {
            Ok((a, more)) => call_elem(old(p).spec_source(), old(p).spec_tokens(), old(p).spec_pos()) == Ok::<
                ((ArgView, bool), int),
                (Seq<char>, Span),
            >(
                (
                    (
                        ArgView {
                            name: match a.name {
                                Some(n) => Some(name_view(n)),
                                None => None,
                            },
                            value: expr_view(a.value),
                        },
                        more,
                    ),
                    final(p).spec_pos(),
                ),
            ),
            Err(e) => call_elem(old(p).spec_source(), old(p).spec_tokens(), old(p).spec_pos()) == Err::<
                ((ArgView, bool), int),
                (Seq<char>, Span),
            >((e.message@, e.span)),
        },
    decreases old(p).spec_tokens().len() - old(p).spec_pos(), 7nat,
{
    let ghost toks = p.spec_tokens();
    let arg = if p.check_ident() {
        let saved = p.position();
        let maybe_name = p.advance();
        if p.eat(Token::Eq).is_some() {
            proof {
                assert(p.spec_tokens()[saved as int].node == Token::Ident);
            }
            let name_text = p.text(maybe_name.span).to_owned();
            let value = parse_expr(p)?;
            CallArg { name: Some(Spanned::new(name_text, maybe_name.span)), value }
        } else {
            p.rewind(saved);
            let value = parse_expr(p)?;
            CallArg { name: None, value }
        }
    } else {
        let value = parse_expr(p)?;
        CallArg { name: None, value }
    };
    let ghost b = p.spec_pos();
    p.skip_newlines();
    proof {
        lemma_skip_nl(toks, b, p.spec_pos());
    }
    if p.eat(Token::Comma).is_none() {
        return Ok((arg, false));
    }
    let ghost c = p.spec_pos();
    p.skip_newlines();
    proof {
        lemma_skip_nl(toks, c, p.spec_pos());
    }
    Ok((arg, true))
}

/// Parse call arguments `[name=]expr, ...` up to and including `)`, as
/// [`call_args_rule`] describes; the opening `(` is already consumed.
#[verifier::spinoff_prover]
#[verifier::rlimit(40)]
pub fn parse_call_args(p: &mut Parser<'_>) -> (r: Result<Vec<CallArg>, ParseError>)
    requires
        old(p).wf(),
    ensures
        final(p).moved_on(*old(p)),
        r is Ok ==> final(p).spec_pos() > old(p).spec_pos() && final(p).spec_tokens()[final(p).spec_pos() - 1].node == Token::RParen,
        final(p).progressed(*old(p)),
        r is Ok ==> final(p).measure() < old(p).measure(),
        args_outcome(r, final(p).spec_pos(), call_args_rule(old(p).spec_source(), old(p).spec_tokens(), old(p).spec_pos())),
    decreases old(p).spec_tokens().len() - old(p).spec_pos(), 8nat,
{
    let ghost src = p.spec_source();
    let ghost toks = p.spec_tokens();
    let mut args: Vec<CallArg> = Vec::new();
    let ghost a = p.spec_pos();
    p.skip_newlines();
    proof {
        lemma_skip_nl(toks, a, p.spec_pos());
        assert(args_view(args@) =~= Seq::<ArgView>::empty());
    }
    let ghost j0 = p.spec_pos();
    loop
        invariant_except_break
            old(p).wf(),
            p.moved_on(*old(p)),
            src == old(p).spec_source(),
            toks == old(p).spec_tokens(),
            old(p).spec_pos() <= j0 <= p.spec_pos(),
            j0 == skip_nl(toks, old(p).spec_pos()),
            call_items(src, toks, j0, seq![]) == call_items(src, toks, p.spec_pos(), args_view(args@)),
        ensures
            p.moved_on(*old(p)),
            old(p).spec_pos() <= j0 <= p.spec_pos(),
            j0 == skip_nl(toks, old(p).spec_pos()),
            call_items(src, toks, j0, seq![]) == Ok::<(Seq<ArgView>, int), (Seq<char>, Span)>(
                (args_view(args@), p.spec_pos()),
            ),
        decreases p.spec_tokens().len() - p.spec_pos(),
    {
        if p.check(Token::RParen) || p.is_at_end() {
            break;
        }
        let (arg, more) = parse_call_elem(p)?;
        proof {
            lemma_args_view_push(args@, arg);
        }
        args.push(arg);
        if !more {
            break;
        }
    }
    let close = p.expect_token(Token::RParen)?;
    proof {
        assert(token_kind(close.node) == token_kind(Token::RParen));
        super::lemma_moved_on_progress(*p, *old(p));
    }
    Ok(args)
}

} // verus!
