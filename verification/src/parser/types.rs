//! Type expressions and generic parameter lists.

use vstd::prelude::*;
use vstd::string::StringExecFns;

use crate::ast::expr::CallArg;
use crate::ast::types::{
    ClockEdge, Direction, GenericArg, GenericKind, GenericParam, ResetPolarity, TypeExpr,
    TypeExprKind,
};
use crate::lexer::{opt_token_text, token_debug, token_text, Token};
use crate::span::{Span, Spanned};
use crate::text::{concat, str_eq};

use super::expr::{parse_expr, parse_expr_in_generic};
use super::grammar::{arg_view, args_view, lemma_args_view_push, lemma_skip_nl, name_view, skip_nl, ArgView, ExprView, NameView};
use super::type_grammar::{
    array_suffix, base_rule, clock_rule, close_rule, garg_items, garg_list_rule, garg_rule, garg_view, gargs_view,
    gparam_items, gparam_rule, gparam_view, gparams_rule, gparams_view, ident_items, ident_list_rule,
    lemma_gargs_view_push, lemma_gparams_view_push, lemma_names_view_push, mem_params, memory_rule, names_view,
    mem_param, mem_tail, meas, reset_rule, type_expr_rule, type_outcome, type_starts_at, type_view, with_domain_rule, GArgView, GParamView, TyView,
};
use super::{expected_message, ParseError, Parser};

verus! {

broadcast use super::lemma_moved_on_progress;

/// Consume the `>` that closes a generic argument list; a `>>` is split in
/// two `>`, of which the first is consumed.
fn expect_close_angle(p: &mut Parser<'_>) -> (r: Result<Spanned<Token>, ParseError>)
    requires
        old(p).wf(),
    ensures
        final(p).progressed(*old(p)),
        r is Ok ==> final(p).measure() < old(p).measure(),
        match r {
            Ok(t) => close_rule(old(p).spec_source(), old(p).spec_tokens(), old(p).spec_pos()) == Ok::<
                (Span, Seq<Spanned<Token>>, int),
                (Seq<char>, Span),
            >((t.span, final(p).spec_tokens(), final(p).spec_pos())),
            Err(e) => close_rule(old(p).spec_source(), old(p).spec_tokens(), old(p).spec_pos()) == Err::<
                (Span, Seq<Spanned<Token>>, int),
                (Seq<char>, Span),
            >((e.message@, e.span)),
        },
{
    if p.check(Token::Greater) {
        return Ok(p.advance());
    }
    if p.check(Token::ShiftRight) {
        return Ok(p.take_half_shift());
    }
    let s = concat("expected ", token_text(&Token::Greater).as_str());
    let s = concat(s.as_str(), ", found ");
    let message = concat(s.as_str(), opt_token_text(p.peek()).as_str());
    Err(ParseError { message, span: p.peek_span() })
}

/// Parse a type: a base type followed by any number of `[size]` array suffixes.
pub fn parse_type_expr(p: &mut Parser<'_>) -> (r: Result<TypeExpr, ParseError>)
    requires
        old(p).wf(),
    ensures
        final(p).progressed(*old(p)),
        r is Ok ==> final(p).measure() < old(p).measure(),
        type_outcome(
            r,
            final(p).spec_tokens(),
            final(p).spec_pos(),
            type_expr_rule(old(p).spec_source(), old(p).spec_tokens(), old(p).spec_pos()),
        ),
    decreases old(p).measure(), 8nat,
{
    let ghost src = p.spec_source();
    let ghost toks = p.spec_tokens();
    let ghost i = p.spec_pos();
    let mut ty = match parse_base_type(p) {
        Ok(t) => t,
        Err(e) => {
            return Err(e);
        },
    };
    loop
        invariant
            old(p).wf(),
            p.progressed(*old(p)),
            p.measure() < old(p).measure(),
            src == old(p).spec_source(),
            toks == old(p).spec_tokens(),
            i == old(p).spec_pos(),
            type_expr_rule(src, toks, i) == array_suffix(src, p.spec_tokens(), p.spec_pos(), type_view(ty)),
        ensures
            p.progressed(*old(p)),
            p.measure() < old(p).measure(),
            type_expr_rule(src, toks, i) == Ok::<(TyView, Seq<Spanned<Token>>, int), (Seq<char>, Span)>(
                (type_view(ty), p.spec_tokens(), p.spec_pos()),
            ),
        decreases p.measure(),
    {
        if !p.check(Token::LBracket) {
            break;
        }
        let ghost tk = p.spec_tokens();
        let ghost here = p.spec_pos();
        let ghost vt = type_view(ty);
        p.advance();
        let size = match parse_expr(p) {
            Ok(x) => x,
            Err(e) => {
                proof {
                    assert(array_suffix(src, tk, here, vt) == Err::<(TyView, Seq<Spanned<Token>>, int), (Seq<char>, Span)>(
                        (e.message@, e.span),
                    ));
                }
                return Err(e);
            },
        };
        let close = match p.expect_token(Token::RBracket) {
            Ok(c) => c,
            Err(e) => {
                proof {
                    assert(array_suffix(src, tk, here, vt) == Err::<(TyView, Seq<Spanned<Token>>, int), (Seq<char>, Span)>(
                        (e.message@, e.span),
                    ));
                }
                return Err(e);
            },
        };
        let ty_span = ty.span;
        ty = Spanned::new(TypeExprKind::Array { element: Box::new(ty), size: Box::new(size) }, ty_span.merge(close.span));
    }
    Ok(ty)
}

/// Parse a type with an optional `@ domain` annotation.
pub fn parse_type_expr_with_domain(p: &mut Parser<'_>) -> (r: Result<TypeExpr, ParseError>)
    requires
        old(p).wf(),
    ensures
        final(p).progressed(*old(p)),
        r is Ok ==> final(p).measure() < old(p).measure(),
        type_outcome(
            r,
            final(p).spec_tokens(),
            final(p).spec_pos(),
            with_domain_rule(old(p).spec_source(), old(p).spec_tokens(), old(p).spec_pos()),
        ),
    decreases old(p).measure(), 9nat,
{
    let start = p.peek_span();
    let mut ty = parse_type_expr(p)?;
    if p.eat(Token::At).is_some() {
        let domain = p.expect_ident()?;
        let span = start.merge(domain.span);
        ty = Spanned::new(TypeExprKind::DomainAnnotated { ty: Box::new(ty), domain }, span);
    }
    Ok(ty)
}

/// The direction keyword at the next token when a `<` follows it.
pub open spec fn direction_at(t0: Option<Token>, t1: Option<Token>) -> Option<Direction> {
    if t1 == Some(Token::Less) {
        match t0 {
            Some(Token::KwIn) => Some(Direction::In),
            Some(Token::KwOut) => Some(Direction::Out),
            Some(Token::KwInout) => Some(Direction::InOut),
            _ => None,
        }
    } else {
        None
    }
}

/// The token after the next one, if any.
pub open spec fn second_token<'a>(p: Parser<'a>) -> Option<Token> {
    if 0 <= p.spec_pos() + 1 < p.spec_tokens().len() {
        Some(p.spec_tokens()[p.spec_pos() + 1].node)
    } else {
        None
    }
}

fn try_direction_keyword(p: &Parser<'_>) -> (r: Option<Direction>)
    ensures
        r == direction_at(p.peek_spec(), second_token(*p)),
{
    let dir = match p.peek() {
        Some(Token::KwIn) => Direction::In,
        Some(Token::KwOut) => Direction::Out,
        Some(Token::KwInout) => Direction::InOut,
        _ => {
            return None;
        },
    };
    match p.peek_ahead(1) {
        Some(Token::Less) => Some(dir),
        _ => None,
    }
}

/// Parse a base type: a direction wrapper `in<T>`, `Flip<T>`, a clock,
/// reset or memory type, a generic `Name<args>`, a partial interface
/// `Name.{groups}` or a plain name.
fn parse_base_type(p: &mut Parser<'_>) -> (r: Result<TypeExpr, ParseError>)
    requires
        old(p).wf(),
    ensures
        final(p).progressed(*old(p)),
        r is Ok ==> final(p).measure() < old(p).measure(),
        type_outcome(r, final(p).spec_tokens(), final(p).spec_pos(), base_rule(old(p).spec_source(), old(p).spec_tokens(), old(p).spec_pos())),
    decreases old(p).measure(), 7nat,
{
    let start = p.peek_span();
    if let Some(dir) = try_direction_keyword(p) {
        p.advance();
        p.expect_token(Token::Less)?;
        let inner = parse_type_expr(p)?;
        let close = expect_close_angle(p)?;
        return Ok(Spanned::new(TypeExprKind::DirectionWrapper { dir, inner: Box::new(inner) }, start.merge(close.span)));
    }
    let name = p.expect_ident()?;
    let name_str = name.node;
    if str_eq(name_str.as_str(), "Flip") && p.check(Token::Less) {
        p.advance();
        let inner = parse_type_expr(p)?;
        let close = expect_close_angle(p)?;
        return Ok(Spanned::new(TypeExprKind::Flip(Box::new(inner)), start.merge(close.span)));
    }
    if str_eq(name_str.as_str(), "Clock") && p.check(Token::Less) {
        return parse_clock_type(p, start);
    }
    if str_eq(name_str.as_str(), "SyncReset") {
        return if p.check(Token::Less) {
            parse_reset_type(p, start, true)
        } else {
            Ok(Spanned::new(TypeExprKind::SyncReset { polarity: None }, name.span))
        };
    }
    if str_eq(name_str.as_str(), "AsyncReset") {
        return if p.check(Token::Less) {
            parse_reset_type(p, start, false)
        } else {
            Ok(Spanned::new(TypeExprKind::AsyncReset { polarity: None }, name.span))
        };
    }
    if str_eq(name_str.as_str(), "Memory") && p.check(Token::Less) {
        return parse_memory_type(p, start, false);
    }
    if str_eq(name_str.as_str(), "DualPortMemory") && p.check(Token::Less) {
        return parse_memory_type(p, start, true);
    }
    if p.check(Token::Less) {
        p.advance();
        let params = parse_generic_arg_list(p)?;
        return Ok(Spanned::new(TypeExprKind::Generic { name: name_str, params }, start.merge(p.prev_span())));
    }
    if p.check(Token::Dot) {
        let saved = p.position();
        p.advance();
        if p.check(Token::LBrace) {
            p.advance();
            let groups = parse_ident_list(p, Token::RBrace)?;
            return Ok(
                Spanned::new(TypeExprKind::PartialInterface { name: name_str, groups }, start.merge(p.prev_span())),
            );
        } else {
            p.rewind(saved);
        }
    }
    Ok(Spanned::new(TypeExprKind::Named(name_str), name.span))
}

/// Identifiers separated by commas, up to and including `close`.
fn parse_ident_list(p: &mut Parser<'_>, close: Token) -> (r: Result<Vec<Spanned<String>>, ParseError>)
    requires
        old(p).wf(),
    ensures
        final(p).progressed(*old(p)),
        final(p).moved_on(*old(p)),
        r is Ok ==> final(p).measure() < old(p).measure(),
        match r {
            Ok(v) => ident_list_rule(old(p).spec_source(), old(p).spec_tokens(), old(p).spec_pos(), close) == Ok::<
                (Seq<NameView>, int),
                (Seq<char>, Span),
            >((names_view(v@), final(p).spec_pos())),
            Err(e) => ident_list_rule(old(p).spec_source(), old(p).spec_tokens(), old(p).spec_pos(), close) == Err::<
                (Seq<NameView>, int),
                (Seq<char>, Span),
            >((e.message@, e.span)),
        },
{
    let ghost src = p.spec_source();
    let ghost toks = p.spec_tokens();
    let mut items: Vec<Spanned<String>> = Vec::new();
    let ghost a = p.spec_pos();
    p.skip_newlines();
    proof {
        lemma_skip_nl(toks, a, p.spec_pos());
        assert(names_view(items@) =~= Seq::<NameView>::empty());
    }
    let ghost j0 = p.spec_pos();
    loop
        invariant_except_break
            old(p).wf(),
            p.progressed(*old(p)),
            p.moved_on(*old(p)),
            src == old(p).spec_source(),
            toks == old(p).spec_tokens(),
            j0 == skip_nl(toks, old(p).spec_pos()),
            ident_items(src, toks, j0, close, seq![]) == ident_items(src, toks, p.spec_pos(), close, names_view(items@)),
        ensures
            p.progressed(*old(p)),
            p.moved_on(*old(p)),
            j0 == skip_nl(toks, old(p).spec_pos()),
            ident_items(src, toks, j0, close, seq![]) == Ok::<(Seq<NameView>, int), (Seq<char>, Span)>(
                (names_view(items@), p.spec_pos()),
            ),
        decreases p.measure(),
    {
        if p.check(close.duplicate()) || p.is_at_end() {
            break;
        }
        let ghost here = p.spec_pos();
        let id = match p.expect_ident() {
            Ok(x) => x,
            Err(e) => {
                proof {
                    assert(ident_items(src, toks, here, close, names_view(items@)) == Err::<(Seq<NameView>, int), (Seq<char>, Span)>(
                        (e.message@, e.span),
                    ));
                }
                return Err(e);
            },
        };
        proof {
            lemma_names_view_push(items@, id);
        }
        items.push(id);
        let ghost b = p.spec_pos();
        p.skip_newlines();
        proof {
            lemma_skip_nl(toks, b, p.spec_pos());
        }
        if p.eat(Token::Comma).is_none() {
            break;
        }
        let ghost c = p.spec_pos();
        p.skip_newlines();
        proof {
            lemma_skip_nl(toks, c, p.spec_pos());
        }
    }
    p.expect_token(close)?;
    Ok(items)
}

/// Generic arguments separated by commas, closed by `>` (or the first half of `>>`).
fn parse_generic_arg_list(p: &mut Parser<'_>) -> (r: Result<Vec<GenericArg>, ParseError>)
    requires
        old(p).wf(),
    ensures
        final(p).progressed(*old(p)),
        r is Ok ==> final(p).measure() < old(p).measure(),
        match r {
            Ok(v) => garg_list_rule(old(p).spec_source(), old(p).spec_tokens(), old(p).spec_pos()) == Ok::<
                (Seq<GArgView>, Seq<Spanned<Token>>, int),
                (Seq<char>, Span),
            >((gargs_view(v@), final(p).spec_tokens(), final(p).spec_pos())),
            Err(e) => garg_list_rule(old(p).spec_source(), old(p).spec_tokens(), old(p).spec_pos()) == Err::<
                (Seq<GArgView>, Seq<Spanned<Token>>, int),
                (Seq<char>, Span),
            >((e.message@, e.span)),
        },
    decreases old(p).measure(), 10nat,
{
    let ghost src = p.spec_source();
    let ghost toks = p.spec_tokens();
    let ghost i = p.spec_pos();
    let mut items: Vec<GenericArg> = Vec::new();
    p.skip_newlines();
    proof {
        lemma_skip_nl(toks, i, p.spec_pos());
        assert(gargs_view(items@) =~= Seq::<GArgView>::empty());
    }
    let ghost j0 = p.spec_pos();
    loop
        invariant_except_break
            old(p).wf(),
            p.progressed(*old(p)),
            src == old(p).spec_source(),
            toks == old(p).spec_tokens(),
            i == old(p).spec_pos(),
            j0 == skip_nl(toks, i),
            i <= j0 <= toks.len(),
            meas(toks, j0) <= meas(toks, i),
            garg_items(src, toks, j0, seq![]) == garg_items(src, p.spec_tokens(), p.spec_pos(), gargs_view(items@)),
        ensures
            p.progressed(*old(p)),
            j0 == skip_nl(toks, i),
            i <= j0 <= toks.len(),
            meas(toks, j0) <= meas(toks, i),
            garg_items(src, toks, j0, seq![]) == Ok::<(Seq<GArgView>, Seq<Spanned<Token>>, int), (Seq<char>, Span)>(
                (gargs_view(items@), p.spec_tokens(), p.spec_pos()),
            ),
        decreases p.measure(),
    {
        if p.check(Token::Greater) || p.check(Token::ShiftRight) || p.is_at_end() {
            break;
        }
        let ghost tk = p.spec_tokens();
        let ghost here = p.spec_pos();
        let arg = match parse_generic_arg(p) {
            Ok(x) => x,
            Err(e) => {
                proof {
                    assert(garg_items(src, tk, here, gargs_view(items@)) == Err::<
                        (Seq<GArgView>, Seq<Spanned<Token>>, int),
                        (Seq<char>, Span),
                    >((e.message@, e.span)));
                }
                return Err(e);
            },
        };
        proof {
            lemma_gargs_view_push(items@, arg);
        }
        items.push(arg);
        let ghost t1 = p.spec_tokens();
        let ghost b = p.spec_pos();
        p.skip_newlines();
        proof {
            lemma_skip_nl(t1, b, p.spec_pos());
        }
        if p.eat(Token::Comma).is_none() {
            break;
        }
        let ghost c = p.spec_pos();
        p.skip_newlines();
        proof {
            lemma_skip_nl(t1, c, p.spec_pos());
        }
    }
    let ghost t2 = p.spec_tokens();
    let ghost d = p.spec_pos();
    p.skip_newlines();
    proof {
        lemma_skip_nl(t2, d, p.spec_pos());
    }
    expect_close_angle(p)?;
    Ok(items)
}

/// A generic argument: a type when one starts here, else an expression.
fn parse_generic_arg(p: &mut Parser<'_>) -> (r: Result<GenericArg, ParseError>)
    requires
        old(p).wf(),
    ensures
        final(p).progressed(*old(p)),
        r is Ok ==> final(p).measure() < old(p).measure(),
        match r {
            Ok(a) => garg_rule(old(p).spec_source(), old(p).spec_tokens(), old(p).spec_pos()) == Ok::<
                (GArgView, Seq<Spanned<Token>>, int),
                (Seq<char>, Span),
            >((garg_view(a), final(p).spec_tokens(), final(p).spec_pos())),
            Err(e) => garg_rule(old(p).spec_source(), old(p).spec_tokens(), old(p).spec_pos()) == Err::<
                (GArgView, Seq<Spanned<Token>>, int),
                (Seq<char>, Span),
            >((e.message@, e.span)),
        },
    decreases old(p).measure(), 9nat,
{
    if is_type_start(p) {
        Ok(GenericArg::Type(parse_type_expr(p)?))
    } else {
        Ok(GenericArg::Expr(parse_expr_in_generic(p)?))
    }
}

fn is_type_start(p: &Parser<'_>) -> (r: bool)
    requires
        p.wf(),
    ensures
        r == type_starts_at(p.spec_source(), p.spec_tokens(), p.spec_pos()),
{
    match p.peek() {
        Some(Token::KwIn) | Some(Token::KwOut) | Some(Token::KwInout) => {
            match p.peek_ahead(1) {
                Some(Token::Less) => true,
                _ => false,
            }
        },
        Some(Token::Ident) => {
            let sp = p.peek_span();
            proof {
                assert(p.spec_tokens()[p.spec_pos()].node == Token::Ident);
            }
            let t = p.text(sp);
            let b = t.as_bytes();
            b.len() > 0 && b[0] >= 65u8 && b[0] <= 90u8
        },
        _ => false,
    }
}

/// `Clock<freq[, edge]>`; the `<` is the next token.
fn parse_clock_type(p: &mut Parser<'_>, start: Span) -> (r: Result<TypeExpr, ParseError>)
    requires
        old(p).wf(),
        old(p).peek_spec() is Some,
    ensures
        final(p).progressed(*old(p)),
        r is Ok ==> final(p).measure() < old(p).measure(),
        type_outcome(
            r,
            final(p).spec_tokens(),
            final(p).spec_pos(),
            clock_rule(old(p).spec_source(), old(p).spec_tokens(), old(p).spec_pos(), start),
        ),
{
    p.advance();
    let freq = Some(parse_expr_in_generic(p)?);
    let edge = if p.eat(Token::Comma).is_some() {
        let e = p.expect_ident()?;
        if str_eq(e.node.as_str(), "rising") {
            Some(ClockEdge::Rising)
        } else if str_eq(e.node.as_str(), "falling") {
            Some(ClockEdge::Falling)
        } else if str_eq(e.node.as_str(), "dual") {
            Some(ClockEdge::Dual)
        } else {
            let s = concat("expected clock edge, found '", e.node.as_str());
            return Err(ParseError { message: concat(s.as_str(), "'"), span: e.span });
        }
    } else {
        None
    };
    let close = expect_close_angle(p)?;
    Ok(Spanned::new(TypeExprKind::Clock { freq, edge }, start.merge(close.span)))
}

/// `SyncReset<polarity>` or `AsyncReset<polarity>`; the `<` is the next token.
fn parse_reset_type(p: &mut Parser<'_>, start: Span, is_sync: bool) -> (r: Result<TypeExpr, ParseError>)
    requires
        old(p).wf(),
        old(p).peek_spec() is Some,
    ensures
        final(p).progressed(*old(p)),
        r is Ok ==> final(p).measure() < old(p).measure(),
        type_outcome(
            r,
            final(p).spec_tokens(),
            final(p).spec_pos(),
            reset_rule(old(p).spec_source(), old(p).spec_tokens(), old(p).spec_pos(), start, is_sync),
        ),
{
    p.advance();
    let pi = p.expect_ident()?;
    let polarity = if str_eq(pi.node.as_str(), "active_high") {
        Some(ResetPolarity::ActiveHigh)
    } else if str_eq(pi.node.as_str(), "active_low") {
        Some(ResetPolarity::ActiveLow)
    } else {
        let s = concat("expected polarity, found '", pi.node.as_str());
        return Err(ParseError { message: concat(s.as_str(), "'"), span: pi.span });
    };
    let close = expect_close_angle(p)?;
    let span = start.merge(close.span);
    Ok(
        Spanned::new(
            if is_sync {
                TypeExprKind::SyncReset { polarity }
            } else {
                TypeExprKind::AsyncReset { polarity }
            },
            span,
        ),
    )
}

/// `Memory<T, name=value, ...>` or `DualPortMemory<...>`; the `<` is the next token.
fn parse_memory_type(p: &mut Parser<'_>, start: Span, dual: bool) -> (r: Result<TypeExpr, ParseError>)
    requires
        old(p).wf(),
        old(p).peek_spec() is Some,
    ensures
        final(p).progressed(*old(p)),
        r is Ok ==> final(p).measure() < old(p).measure(),
        type_outcome(
            r,
            final(p).spec_tokens(),
            final(p).spec_pos(),
            memory_rule(old(p).spec_source(), old(p).spec_tokens(), old(p).spec_pos(), start, dual),
        ),
    decreases old(p).measure(), 0nat,
{
    p.advance();
    let element = parse_type_expr(p)?;
    parse_memory_tail(p, element, start, dual)
}

/// The `, name=value` parameters and the closing `>` of a memory type
/// whose element type is `element`.
fn parse_memory_tail(p: &mut Parser<'_>, element: TypeExpr, start: Span, dual: bool) -> (r: Result<TypeExpr, ParseError>)
    requires
        old(p).wf(),
    ensures
        final(p).progressed(*old(p)),
        type_outcome(
            r,
            final(p).spec_tokens(),
            final(p).spec_pos(),
            mem_tail(old(p).spec_source(), old(p).spec_tokens(), old(p).spec_pos(), type_view(element), start, dual),
        ),
{
    let ghost src = p.spec_source();
    let ghost t1 = p.spec_tokens();
    let ghost j = p.spec_pos();
    let mut params: Vec<CallArg> = Vec::new();
    proof {
        assert(args_view(params@) =~= Seq::<ArgView>::empty());
    }
    loop
        invariant
            old(p).wf(),
            p.progressed(*old(p)),
            p.moved_on(*old(p)),
            src == old(p).spec_source(),
            t1 == old(p).spec_tokens(),
            j == old(p).spec_pos(),
            mem_params(src, t1, j, seq![]) == mem_params(src, t1, p.spec_pos(), args_view(params@)),
        ensures
            p.progressed(*old(p)),
            p.moved_on(*old(p)),
            mem_params(src, t1, j, seq![]) == Ok::<(Seq<ArgView>, int), (Seq<char>, Span)>(
                (args_view(params@), p.spec_pos()),
            ),
        decreases p.measure(),
    {
        if !p.check(Token::Comma) {
            break;
        }
        let ghost here = p.spec_pos();
        let arg = match parse_memory_param(p) {
            Ok(x) => x,
            Err(e) => {
                proof {
                    assert(mem_params(src, t1, here, args_view(params@)) == Err::<(Seq<ArgView>, int), (Seq<char>, Span)>(
                        (e.message@, e.span),
                    ));
                }
                return Err(e);
            },
        };
        proof {
            lemma_args_view_push(params@, arg);
        }
        params.push(arg);
    }
    let close = expect_close_angle(p)?;
    let span = start.merge(close.span);
    let kind = if dual {
        TypeExprKind::DualPortMemory { element: Box::new(element), params }
    } else {
        TypeExprKind::Memory { element: Box::new(element), params }
    };
    Ok(Spanned::new(kind, span))
}

/// One `, name=value` parameter of a memory type; the comma is the next token.
fn parse_memory_param(p: &mut Parser<'_>) -> (r: Result<CallArg, ParseError>)
    requires
        old(p).wf(),
        old(p).checks(Token::Comma),
    ensures
        final(p).progressed(*old(p)),
        final(p).moved_on(*old(p)),
        r is Ok ==> final(p).measure() < old(p).measure() && final(p).spec_pos() > old(p).spec_pos(),
        match r {
            Ok(a) => mem_param(old(p).spec_source(), old(p).spec_tokens(), old(p).spec_pos()) == Ok::<
                (ArgView, int),
                (Seq<char>, Span),
            >((arg_view(a), final(p).spec_pos())),
            Err(e) => mem_param(old(p).spec_source(), old(p).spec_tokens(), old(p).spec_pos()) == Err::<
                (ArgView, int),
                (Seq<char>, Span),
            >((e.message@, e.span)),
        },
{
    let ghost toks = p.spec_tokens();
    p.advance();
    let ghost a = p.spec_pos();
    p.skip_newlines();
    proof {
        lemma_skip_nl(toks, a, p.spec_pos());
    }
    let pn = p.expect_ident()?;
    p.expect_token(Token::Eq)?;
    let value = parse_expr_in_generic(p)?;
    Ok(CallArg { name: Some(pn), value })
}

/// The kind named by a generic parameter's kind word.
pub open spec fn generic_kind_of(w: Seq<char>) -> Option<GenericKind> {
    if w == "uint"@ {
        Some(GenericKind::Uint)
    } else if w == "int"@ {
        Some(GenericKind::Int)
    } else if w == "bool"@ {
        Some(GenericKind::Bool)
    } else if w == "float"@ {
        Some(GenericKind::Float)
    } else if w == "string"@ {
        Some(GenericKind::StringKind)
    } else if w == "type"@ {
        Some(GenericKind::Type)
    } else {
        None
    }
}

fn generic_kind(w: &str) -> (r: Option<GenericKind>)
    ensures
        r == generic_kind_of(w@),
{
    if str_eq(w, "uint") {
        Some(GenericKind::Uint)
    } else if str_eq(w, "int") {
        Some(GenericKind::Int)
    } else if str_eq(w, "bool") {
        Some(GenericKind::Bool)
    } else if str_eq(w, "float") {
        Some(GenericKind::Float)
    } else if str_eq(w, "string") {
        Some(GenericKind::StringKind)
    } else if str_eq(w, "type") {
        Some(GenericKind::Type)
    } else {
        None
    }
}

/// One generic parameter `name: kind [= default]`.
fn parse_generic_param(p: &mut Parser<'_>) -> (r: Result<GenericParam, ParseError>)
    requires
        old(p).wf(),
    ensures
        final(p).progressed(*old(p)),
        final(p).moved_on(*old(p)),
        r is Ok ==> final(p).measure() < old(p).measure(),
        match r {
            Ok(g) => gparam_rule(old(p).spec_source(), old(p).spec_tokens(), old(p).spec_pos()) == Ok::<
                (GParamView, int),
                (Seq<char>, Span),
            >((gparam_view(g), final(p).spec_pos())),
            Err(e) => gparam_rule(old(p).spec_source(), old(p).spec_tokens(), old(p).spec_pos()) == Err::<
                (GParamView, int),
                (Seq<char>, Span),
            >((e.message@, e.span)),
        },
{
    let name = p.expect_ident()?;
    p.expect_token(Token::Colon)?;
    let ki = p.expect_ident()?;
    let kind = match generic_kind(ki.node.as_str()) {
        Some(k) => k,
        None => {
            let s = concat("expected generic kind, found '", ki.node.as_str());
            return Err(ParseError { message: concat(s.as_str(), "'"), span: ki.span });
        },
    };
    let default = if p.eat(Token::Eq).is_some() {
        Some(parse_expr(p)?)
    } else {
        None
    };
    Ok(GenericParam { name, kind, default })
}

/// An optional generic parameter list `<name: kind [= default], ...>`: no
/// parameters when the next token is not `<`.
pub fn parse_generic_params(p: &mut Parser<'_>) -> (r: Result<Vec<GenericParam>, ParseError>)
    requires
        old(p).wf(),
    ensures
        final(p).progressed(*old(p)),
        final(p).moved_on(*old(p)),
        !old(p).checks(Token::Less) ==> (r matches Ok(v) && v@.len() == 0 && final(p).same(*old(p))),
        match r {
            Ok(v) => gparams_rule(old(p).spec_source(), old(p).spec_tokens(), old(p).spec_pos()) == Ok::<
                (Seq<GParamView>, int),
                (Seq<char>, Span),
            >((gparams_view(v@), final(p).spec_pos())),
            Err(e) => gparams_rule(old(p).spec_source(), old(p).spec_tokens(), old(p).spec_pos()) == Err::<
                (Seq<GParamView>, int),
                (Seq<char>, Span),
            >((e.message@, e.span)),
        },
{
    let ghost src = p.spec_source();
    let ghost toks = p.spec_tokens();
    let mut items: Vec<GenericParam> = Vec::new();
    proof {
        assert(gparams_view(items@) =~= Seq::<GParamView>::empty());
    }
    if p.eat(Token::Less).is_none() {
        return Ok(items);
    }
    let ghost a = p.spec_pos();
    p.skip_newlines();
    proof {
        lemma_skip_nl(toks, a, p.spec_pos());
    }
    let ghost j0 = p.spec_pos();
    loop
        invariant_except_break
            old(p).wf(),
            p.progressed(*old(p)),
            p.moved_on(*old(p)),
            src == old(p).spec_source(),
            toks == old(p).spec_tokens(),
            old(p).checks(Token::Less),
            j0 == skip_nl(toks, old(p).spec_pos() + 1),
            gparam_items(src, toks, j0, seq![]) == gparam_items(src, toks, p.spec_pos(), gparams_view(items@)),
        ensures
            p.progressed(*old(p)),
            p.moved_on(*old(p)),
            old(p).checks(Token::Less),
            j0 == skip_nl(toks, old(p).spec_pos() + 1),
            gparam_items(src, toks, j0, seq![]) == Ok::<(Seq<GParamView>, int), (Seq<char>, Span)>(
                (gparams_view(items@), p.spec_pos()),
            ),
        decreases p.measure(),
    {
        if p.check(Token::Greater) || p.is_at_end() {
            break;
        }
        let ghost here = p.spec_pos();
        let g = match parse_generic_param(p) {
            Ok(x) => x,
            Err(e) => {
                proof {
                    assert(gparam_items(src, toks, here, gparams_view(items@)) == Err::<(Seq<GParamView>, int), (Seq<char>, Span)>(
                        (e.message@, e.span),
                    ));
                }
                return Err(e);
            },
        };
        proof {
            lemma_gparams_view_push(items@, g);
        }
        items.push(g);
        let ghost b = p.spec_pos();
        p.skip_newlines();
        proof {
            lemma_skip_nl(toks, b, p.spec_pos());
        }
        if p.eat(Token::Comma).is_none() {
            break;
        }
        let ghost c = p.spec_pos();
        p.skip_newlines();
        proof {
            lemma_skip_nl(toks, c, p.spec_pos());
        }
    }
    p.expect_token(Token::Greater)?;
    Ok(items)
}

} // verus!
