//! The type grammar: what parsing a type or a generic parameter list from a
//! position of a token list gives. Closing a generic argument list may split
//! a `>>` token in two `>`, so the type rules give the tokens after parsing
//! along with the position.

use vstd::prelude::*;

use crate::ast::types::{
    ClockEdge, Direction, GenericArg, GenericKind, GenericParam, ResetPolarity, TypeExpr, TypeExprKind,
};
use crate::lexer::{token_debug, Token};
use crate::span::{Span, Spanned};

use super::{expected_message, weight};
use super::grammar::{
    args_view, expect_rule, expr_rule, expr_view, fwd, ident_rule, kind_at, name_view, skip_nl, span_at, stuck,
    tok_at, ArgView, ExprView, NameView, Outcome,
};
use super::types::{direction_at, generic_kind_of};

verus! {

/// A type, by its view.
pub struct TyView {
    pub node: TyNode,
    pub span: Span,
}

/// The kind of a type, by its view.
pub enum TyNode {
    Named(Seq<char>),
    Generic { name: Seq<char>, params: Seq<GArgView> },
    Array { element: Box<TyView>, size: ExprView },
    Clock { freq: Option<ExprView>, edge: Option<ClockEdge> },
    SyncReset { polarity: Option<ResetPolarity> },
    AsyncReset { polarity: Option<ResetPolarity> },
    DirectionWrapper { dir: Direction, inner: Box<TyView> },
    Flip(Box<TyView>),
    DomainAnnotated { ty: Box<TyView>, domain: NameView },
    PartialInterface { name: Seq<char>, groups: Seq<NameView> },
    Memory { element: Box<TyView>, params: Seq<ArgView> },
    DualPortMemory { element: Box<TyView>, params: Seq<ArgView> },
}

/// A generic argument, by its view.
pub enum GArgView {
    Expr(ExprView),
    Type(TyView),
}

/// A generic parameter, by its view.
pub struct GParamView {
    pub name: NameView,
    pub kind: GenericKind,
    pub default: Option<ExprView>,
}

/// What parsing a type gives from a position: a value, the tokens after
/// parsing and the position after it, or an error's message and span.
pub type TOutcome<T> = Result<(T, Seq<Spanned<Token>>, int), (Seq<char>, Span)>;

/// The view of a type.
pub open spec fn type_view(t: TypeExpr) -> TyView
    decreases t, 0nat,
{
    TyView {
        node: match t.node {
            TypeExprKind::Named(s) => TyNode::Named(s@),
            TypeExprKind::Generic { name, params } => TyNode::Generic { name: name@, params: gargs_view(params@) },
            TypeExprKind::Array { element, size } => TyNode::Array {
                element: Box::new(type_view(*element)),
                size: expr_view(*size),
            },
            TypeExprKind::Clock { freq, edge } => TyNode::Clock {
                freq: match freq {
                    Some(f) => Some(expr_view(f)),
                    None => None,
                },
                edge,
            },
            TypeExprKind::SyncReset { polarity } => TyNode::SyncReset { polarity },
            TypeExprKind::AsyncReset { polarity } => TyNode::AsyncReset { polarity },
            TypeExprKind::DirectionWrapper { dir, inner } => TyNode::DirectionWrapper {
                dir,
                inner: Box::new(type_view(*inner)),
            },
            TypeExprKind::Flip(inner) => TyNode::Flip(Box::new(type_view(*inner))),
            TypeExprKind::DomainAnnotated { ty, domain } => TyNode::DomainAnnotated {
                ty: Box::new(type_view(*ty)),
                domain: name_view(domain),
            },
            TypeExprKind::PartialInterface { name, groups } => TyNode::PartialInterface {
                name: name@,
                groups: names_view(groups@),
            },
            TypeExprKind::Memory { element, params } => TyNode::Memory {
                element: Box::new(type_view(*element)),
                params: args_view(params@),
            },
            TypeExprKind::DualPortMemory { element, params } => TyNode::DualPortMemory {
                element: Box::new(type_view(*element)),
                params: args_view(params@),
            },
        },
        span: t.span,
    }
}

/// The view of a generic argument.
pub open spec fn garg_view(a: GenericArg) -> GArgView
    decreases a, 0nat,
{
    match a {
        GenericArg::Expr(e) => GArgView::Expr(expr_view(e)),
        GenericArg::Type(t) => GArgView::Type(type_view(t)),
    }
}

/// The views of a list of generic arguments.
pub open spec fn gargs_view(v: Seq<GenericArg>) -> Seq<GArgView>
    decreases v, 0nat,
{
    if v.len() == 0 {
        seq![]
    } else {
        gargs_view(v.subrange(0, v.len() - 1)).push(garg_view(v[v.len() - 1]))
    }
}

/// The views of a list of names.
pub open spec fn names_view(v: Seq<Spanned<String>>) -> Seq<NameView> {
    v.map_values(|n: Spanned<String>| name_view(n))
}

/// The view of a generic parameter.
pub open spec fn gparam_view(g: GenericParam) -> GParamView {
    GParamView {
        name: name_view(g.name),
        kind: g.kind,
        default: match g.default {
            Some(d) => Some(expr_view(d)),
            None => None,
        },
    }
}

/// The views of a list of generic parameters.
pub open spec fn gparams_view(v: Seq<GenericParam>) -> Seq<GParamView> {
    v.map_values(|g: GenericParam| gparam_view(g))
}

/// The input left from `i`: one unit per token, two for `>>`.
pub open spec fn meas(toks: Seq<Spanned<Token>>, i: int) -> nat {
    weight(toks.subrange(i, toks.len() as int))
}

/// Position `j` of tokens `t2` lies within them and has less input left than
/// position `i` of `toks`: where parsing goes on after a part that consumed
/// input.
pub open spec fn dec(t2: Seq<Spanned<Token>>, j: int, toks: Seq<Spanned<Token>>, i: int) -> bool {
    0 <= j <= t2.len() && 0 <= i <= toks.len() && meas(t2, j) < meas(toks, i)
}

/// The error that no real parse of a type reaches: a part that consumed
/// nothing.
pub open spec fn tstuck<T>(src: Seq<u8>, toks: Seq<Spanned<Token>>, i: int) -> TOutcome<T> {
    Err(("no progress"@, span_at(src, toks, i)))
}

/// The span of the token before `i`, or an empty span at the end of the
/// source.
pub open spec fn prev_span_at(src: Seq<u8>, toks: Seq<Spanned<Token>>, i: int) -> Span {
    if 1 <= i <= toks.len() {
        toks[i - 1].span
    } else {
        Span { start: (src.len() as usize) as u32, end: (src.len() as usize) as u32 }
    }
}

/// The first half of the span of a `>>`.
pub open spec fn half_span(sr: Span) -> Span {
    Span { start: sr.start, end: ((sr.start + sr.end) / 2) as u32 }
}

/// The tokens with the `>>` at `i` split in two `>`, each with its half of
/// the span.
pub open spec fn split_shift(toks: Seq<Spanned<Token>>, i: int) -> Seq<Spanned<Token>> {
    let sr = toks[i].span;
    let mid = ((sr.start + sr.end) / 2) as u32;
    toks.update(i, Spanned { node: Token::Greater, span: Span { start: mid, end: sr.end } }).insert(
        i,
        Spanned { node: Token::Greater, span: Span { start: sr.start, end: mid } },
    )
}

/// The `>` that closes a generic argument list at `i`, by its span: a `>>`
/// is split, and its first half closes the list.
pub open spec fn close_rule(src: Seq<u8>, toks: Seq<Spanned<Token>>, i: int) -> TOutcome<Span> {
    if kind_at(toks, i, Token::Greater) {
        Ok((toks[i].span, toks, i + 1))
    } else if kind_at(toks, i, Token::ShiftRight) {
        Ok((half_span(toks[i].span), split_shift(toks, i), i + 1))
    } else {
        Err((expected_message(token_debug(Token::Greater), tok_at(toks, i)), span_at(src, toks, i)))
    }
}

/// A type starts at `i`: a direction keyword followed by `<`, or an
/// identifier whose first letter is an ASCII capital.
pub open spec fn type_starts_at(src: Seq<u8>, toks: Seq<Spanned<Token>>, i: int) -> bool {
    match tok_at(toks, i) {
        Some(Token::KwIn) | Some(Token::KwOut) | Some(Token::KwInout) => tok_at(toks, i + 1) == Some(Token::Less),
        Some(Token::Ident) => {
            let sp = toks[i].span;
            sp.start < sp.end && 65 <= src[sp.start as int] <= 90
        },
        _ => false,
    }
}

/// A type from `i`: a base type and any number of `[size]` suffixes.
pub open spec fn type_expr_rule(src: Seq<u8>, toks: Seq<Spanned<Token>>, i: int) -> TOutcome<TyView>
    decreases meas(toks, i), 2nat,
{
    match base_rule(src, toks, i) {
        Err(e) => Err(e),
        Ok((t, t1, j)) => if dec(t1, j, toks, i) {
            array_suffix(src, t1, j, t)
        } else {
            tstuck(src, toks, i)
        },
    }
}

/// The `[size]` suffixes after the type `ty`, from `i`.
pub open spec fn array_suffix(src: Seq<u8>, toks: Seq<Spanned<Token>>, i: int, ty: TyView) -> TOutcome<TyView>
    decreases meas(toks, i), 0nat,
{
    if !kind_at(toks, i, Token::LBracket) || i < 0 {
        Ok((ty, toks, i))
    } else {
        match expr_rule(src, toks, i + 1, false) {
            Err(e) => Err(e),
            Ok((size, j)) => match expect_rule(src, toks, j, Token::RBracket) {
                Err(x) => Err(x),
                Ok((close, k)) => if dec(toks, k, toks, i) {
                    array_suffix(
                        src,
                        toks,
                        k,
                        TyView { node: TyNode::Array { element: Box::new(ty), size }, span: ty.span.spec_merge(close.span) },
                    )
                } else {
                    tstuck(src, toks, i)
                },
            },
        }
    }
}

/// A base type from `i`: a direction wrapper `in<T>`, `Flip<T>`, a clock,
/// reset or memory type, a generic `Name<args>`, a partial interface
/// `Name.{groups}` or a plain name.
pub open spec fn base_rule(src: Seq<u8>, toks: Seq<Spanned<Token>>, i: int) -> TOutcome<TyView>
    decreases meas(toks, i), 1nat,
{
    let start = span_at(src, toks, i);
    match direction_at(tok_at(toks, i), tok_at(toks, i + 1)) {
        Some(dir) => match expect_rule(src, toks, i + 1, Token::Less) {
            Err(e) => Err(e),
            Ok((_, j)) => if !dec(toks, j, toks, i) {
                tstuck(src, toks, i)
            } else {
                match type_expr_rule(src, toks, j) {
                    Err(e) => Err(e),
                    Ok((inner, t1, k)) => match close_rule(src, t1, k) {
                        Err(e) => Err(e),
                        Ok((cs, t2, m)) => Ok(
                            (
                                TyView { node: TyNode::DirectionWrapper { dir, inner: Box::new(inner) }, span: start.spec_merge(cs) },
                                t2,
                                m,
                            ),
                        ),
                    },
                }
            },
        },
        None => match ident_rule(src, toks, i) {
            Err(e) => Err(e),
            Ok((name, j)) => {
                let n = name.name;
                let lt = kind_at(toks, j, Token::Less);
                if n == "Flip"@ && lt {
                    if !dec(toks, j + 1, toks, i) {
                        tstuck(src, toks, i)
                    } else {
                        match type_expr_rule(src, toks, j + 1) {
                            Err(e) => Err(e),
                            Ok((inner, t1, k)) => match close_rule(src, t1, k) {
                                Err(e) => Err(e),
                                Ok((cs, t2, m)) => Ok(
                                    (TyView { node: TyNode::Flip(Box::new(inner)), span: start.spec_merge(cs) }, t2, m),
                                ),
                            },
                        }
                    }
                } else if n == "Clock"@ && lt {
                    clock_rule(src, toks, j, start)
                } else if n == "SyncReset"@ {
                    if lt {
                        reset_rule(src, toks, j, start, true)
                    } else {
                        Ok((TyView { node: TyNode::SyncReset { polarity: None }, span: name.span }, toks, j))
                    }
                } else if n == "AsyncReset"@ {
                    if lt {
                        reset_rule(src, toks, j, start, false)
                    } else {
                        Ok((TyView { node: TyNode::AsyncReset { polarity: None }, span: name.span }, toks, j))
                    }
                } else if n == "Memory"@ && lt {
                    if !dec(toks, j, toks, i) {
                        tstuck(src, toks, i)
                    } else {
                        memory_rule(src, toks, j, start, false)
                    }
                } else if n == "DualPortMemory"@ && lt {
                    if !dec(toks, j, toks, i) {
                        tstuck(src, toks, i)
                    } else {
                        memory_rule(src, toks, j, start, true)
                    }
                } else if lt {
                    if !dec(toks, j + 1, toks, i) {
                        tstuck(src, toks, i)
                    } else {
                        match garg_list_rule(src, toks, j + 1) {
                            Err(e) => Err(e),
                            Ok((ps, t1, k)) => Ok(
                                (
                                    TyView {
                                        node: TyNode::Generic { name: n, params: ps },
                                        span: start.spec_merge(prev_span_at(src, t1, k)),
                                    },
                                    t1,
                                    k,
                                ),
                            ),
                        }
                    }
                } else if kind_at(toks, j, Token::Dot) && kind_at(toks, j + 1, Token::LBrace) {
                    match ident_list_rule(src, toks, j + 2, Token::RBrace) {
                        Err(e) => Err(e),
                        Ok((gs, k)) => Ok(
                            (
                                TyView {
                                    node: TyNode::PartialInterface { name: n, groups: gs },
                                    span: start.spec_merge(prev_span_at(src, toks, k)),
                                },
                                toks,
                                k,
                            ),
                        ),
                    }
                } else {
                    Ok((TyView { node: TyNode::Named(n), span: name.span }, toks, j))
                }
            },
        },
    }
}

/// The clock edge that a word names.
pub open spec fn clock_edge_of(w: Seq<char>) -> Option<ClockEdge> {
    if w == "rising"@ {
        Some(ClockEdge::Rising)
    } else if w == "falling"@ {
        Some(ClockEdge::Falling)
    } else if w == "dual"@ {
        Some(ClockEdge::Dual)
    } else {
        None
    }
}

/// The reset polarity that a word names.
pub open spec fn polarity_of(w: Seq<char>) -> Option<ResetPolarity> {
    if w == "active_high"@ {
        Some(ResetPolarity::ActiveHigh)
    } else if w == "active_low"@ {
        Some(ResetPolarity::ActiveLow)
    } else {
        None
    }
}

/// The optional `, edge` of a clock type, from `i`.
pub open spec fn edge_rule(src: Seq<u8>, toks: Seq<Spanned<Token>>, i: int) -> Outcome<Option<ClockEdge>> {
    if kind_at(toks, i, Token::Comma) {
        match ident_rule(src, toks, i + 1) {
            Err(x) => Err(x),
            Ok((e, k)) => match clock_edge_of(e.name) {
                Some(edge) => Ok((Some(edge), k)),
                None => Err(("expected clock edge, found '"@ + e.name + "'"@, e.span)),
            },
        }
    } else {
        Ok((None, i))
    }
}

/// `<freq[, edge]>` of `Clock`, from the `<` at `i`; `start` is where the
/// type began.
pub open spec fn clock_rule(src: Seq<u8>, toks: Seq<Spanned<Token>>, i: int, start: Span) -> TOutcome<TyView> {
    match expr_rule(src, toks, i + 1, true) {
        Err(e) => Err(e),
        Ok((f, j)) => match edge_rule(src, toks, j) {
            Err(x) => Err(x),
            Ok((edge, k)) => match close_rule(src, toks, k) {
                Err(x) => Err(x),
                Ok((cs, t1, m)) => Ok(
                    (TyView { node: TyNode::Clock { freq: Some(f), edge }, span: start.spec_merge(cs) }, t1, m),
                ),
            },
        },
    }
}

/// `<polarity>` of `SyncReset` (`sync`) or `AsyncReset`, from the `<` at `i`.
pub open spec fn reset_rule(src: Seq<u8>, toks: Seq<Spanned<Token>>, i: int, start: Span, sync: bool) -> TOutcome<TyView> {
    match ident_rule(src, toks, i + 1) {
        Err(e) => Err(e),
        Ok((pi, j)) => match polarity_of(pi.name) {
            None => Err(("expected polarity, found '"@ + pi.name + "'"@, pi.span)),
            Some(pol) => match close_rule(src, toks, j) {
                Err(x) => Err(x),
                Ok((cs, t1, k)) => Ok(
                    (
                        TyView {
                            node: if sync {
                                TyNode::SyncReset { polarity: Some(pol) }
                            } else {
                                TyNode::AsyncReset { polarity: Some(pol) }
                            },
                            span: start.spec_merge(cs),
                        },
                        t1,
                        k,
                    ),
                ),
            },
        },
    }
}

/// One `, name=value` parameter of a memory type, from the comma at `i`.
pub open spec fn mem_param(src: Seq<u8>, toks: Seq<Spanned<Token>>, i: int) -> Outcome<ArgView> {
    match ident_rule(src, toks, skip_nl(toks, i + 1)) {
        Err(e) => Err(e),
        Ok((pn, b)) => match expect_rule(src, toks, b, Token::Eq) {
            Err(x) => Err(x),
            Ok((_, c)) => match expr_rule(src, toks, c, true) {
                Err(x) => Err(x),
                Ok((v, d)) => Ok((ArgView { name: Some(pn), value: v }, d)),
            },
        },
    }
}

/// The `, name=value` parameters of a memory type, from `i`, after those in
/// `acc`.
pub open spec fn mem_params(src: Seq<u8>, toks: Seq<Spanned<Token>>, i: int, acc: Seq<ArgView>) -> Outcome<Seq<ArgView>>
    decreases toks.len() - i,
{
    if !kind_at(toks, i, Token::Comma) || i < 0 {
        Ok((acc, i))
    } else {
        match mem_param(src, toks, i) {
            Err(e) => Err(e),
            Ok((a, d)) => if fwd(toks, i, d) {
                mem_params(src, toks, d, acc.push(a))
            } else {
                stuck(src, toks, i)
            },
        }
    }
}

/// The parameters and closing `>` of a memory type whose element type `el`
/// ends at `i`.
pub open spec fn mem_tail(src: Seq<u8>, toks: Seq<Spanned<Token>>, i: int, el: TyView, start: Span, dual: bool) -> TOutcome<
    TyView,
> {
    match mem_params(src, toks, i, seq![]) {
        Err(x) => Err(x),
        Ok((ps, k)) => match close_rule(src, toks, k) {
            Err(x) => Err(x),
            Ok((cs, t2, m)) => Ok(
                (
                    TyView {
                        node: if dual {
                            TyNode::DualPortMemory { element: Box::new(el), params: ps }
                        } else {
                            TyNode::Memory { element: Box::new(el), params: ps }
                        },
                        span: start.spec_merge(cs),
                    },
                    t2,
                    m,
                ),
            ),
        },
    }
}

/// `<T, name=value, ...>` of `Memory` or (`dual`) `DualPortMemory`, from
/// the `<` at `i`.
pub open spec fn memory_rule(src: Seq<u8>, toks: Seq<Spanned<Token>>, i: int, start: Span, dual: bool) -> TOutcome<TyView>
    decreases meas(toks, i), 0nat,
{
    if !dec(toks, i + 1, toks, i) {
        tstuck(src, toks, i)
    } else {
        match type_expr_rule(src, toks, i + 1) {
            Err(e) => Err(e),
            Ok((el, t1, j)) => mem_tail(src, t1, j, el, start, dual),
        }
    }
}

/// The identifiers of a list from `i`, after those in `acc`: up to `close`
/// or the end, separated by commas, line breaks skipped.
pub open spec fn ident_items(src: Seq<u8>, toks: Seq<Spanned<Token>>, i: int, close: Token, acc: Seq<NameView>) -> Outcome<
    Seq<NameView>,
>
    decreases toks.len() - i,
{
    if kind_at(toks, i, close) || i >= toks.len() || i < 0 {
        Ok((acc, i))
    } else {
        match ident_rule(src, toks, i) {
            Err(e) => Err(e),
            Ok((id, j)) => {
                let j2 = skip_nl(toks, j);
                if kind_at(toks, j2, Token::Comma) {
                    let j3 = skip_nl(toks, j2 + 1);
                    if fwd(toks, i, j3) {
                        ident_items(src, toks, j3, close, acc.push(id))
                    } else {
                        stuck(src, toks, i)
                    }
                } else {
                    Ok((acc.push(id), j2))
                }
            },
        }
    }
}

/// Identifiers separated by commas from `i`, and the `close` after them.
pub open spec fn ident_list_rule(src: Seq<u8>, toks: Seq<Spanned<Token>>, i: int, close: Token) -> Outcome<Seq<NameView>> {
    match ident_items(src, toks, skip_nl(toks, i), close, seq![]) {
        Err(e) => Err(e),
        Ok((ids, j)) => match expect_rule(src, toks, j, close) {
            Err(x) => Err(x),
            Ok((_, k)) => Ok((ids, k)),
        },
    }
}

/// A generic argument at `i`: a type when one starts there, else an
/// expression in which `>` ends the list.
pub open spec fn garg_rule(src: Seq<u8>, toks: Seq<Spanned<Token>>, i: int) -> TOutcome<GArgView>
    decreases meas(toks, i), 3nat,
{
    if type_starts_at(src, toks, i) {
        match type_expr_rule(src, toks, i) {
            Err(e) => Err(e),
            Ok((t, t1, j)) => Ok((GArgView::Type(t), t1, j)),
        }
    } else {
        match expr_rule(src, toks, i, true) {
            Err(e) => Err(e),
            Ok((e, j)) => Ok((GArgView::Expr(e), toks, j)),
        }
    }
}

/// The generic arguments from `i`, after those in `acc`: up to a `>`, a
/// `>>` or the end, separated by commas, line breaks skipped.
pub open spec fn garg_items(src: Seq<u8>, toks: Seq<Spanned<Token>>, i: int, acc: Seq<GArgView>) -> TOutcome<Seq<GArgView>>
    decreases meas(toks, i), 4nat,
{
    if kind_at(toks, i, Token::Greater) || kind_at(toks, i, Token::ShiftRight) || i >= toks.len() || i < 0 {
        Ok((acc, toks, i))
    } else {
        match garg_rule(src, toks, i) {
            Err(e) => Err(e),
            Ok((a, t1, j)) => {
                let j2 = skip_nl(t1, j);
                if kind_at(t1, j2, Token::Comma) {
                    let j3 = skip_nl(t1, j2 + 1);
                    if dec(t1, j3, toks, i) {
                        garg_items(src, t1, j3, acc.push(a))
                    } else {
                        tstuck(src, toks, i)
                    }
                } else {
                    Ok((acc.push(a), t1, j2))
                }
            },
        }
    }
}

/// The generic arguments from `i` (after the `<`) and the `>` that closes
/// them.
pub open spec fn garg_list_rule(src: Seq<u8>, toks: Seq<Spanned<Token>>, i: int) -> TOutcome<Seq<GArgView>>
    decreases meas(toks, i), 5nat,
{
    let j0 = skip_nl(toks, i);
    if !(0 <= i <= j0 <= toks.len() && meas(toks, j0) <= meas(toks, i)) {
        tstuck(src, toks, i)
    } else {
        match garg_items(src, toks, j0, seq![]) {
            Err(e) => Err(e),
            Ok((args, t1, j)) => match close_rule(src, t1, skip_nl(t1, j)) {
                Err(e) => Err(e),
                Ok((_, t2, k)) => Ok((args, t2, k)),
            },
        }
    }
}

/// A type from `i` with an optional `@ domain` annotation.
pub open spec fn with_domain_rule(src: Seq<u8>, toks: Seq<Spanned<Token>>, i: int) -> TOutcome<TyView> {
    let start = span_at(src, toks, i);
    match type_expr_rule(src, toks, i) {
        Err(e) => Err(e),
        Ok((t, t1, j)) => if kind_at(t1, j, Token::At) {
            match ident_rule(src, t1, j + 1) {
                Err(e) => Err(e),
                Ok((d, k)) => Ok(
                    (TyView { node: TyNode::DomainAnnotated { ty: Box::new(t), domain: d }, span: start.spec_merge(d.span) }, t1, k),
                ),
            }
        } else {
            Ok((t, t1, j))
        },
    }
}

/// A type may carry a clock domain: where `@` follows a type, an identifier
/// must follow it and the result is the type annotated with that domain,
/// ending after the identifier; without `@` the type is the result, ending
/// where it ends; `@` followed by anything else is an error.
pub proof fn law_domain_annotation(src: Seq<u8>, toks: Seq<Spanned<Token>>, i: int)
    ensures
        type_expr_rule(src, toks, i) is Err ==> with_domain_rule(src, toks, i) == type_expr_rule(src, toks, i),
        type_expr_rule(src, toks, i) matches Ok((t, t1, j)) ==> {
            &&& !kind_at(t1, j, Token::At) ==> with_domain_rule(src, toks, i) == type_expr_rule(src, toks, i)
            &&& kind_at(t1, j, Token::At) ==> match ident_rule(src, t1, j + 1) {
                Err(_) => with_domain_rule(src, toks, i) is Err,
                Ok((d, k)) => with_domain_rule(src, toks, i) matches Ok((v, t2, k2)) && t2 == t1 && k2 == k
                    && v.node == TyNode::DomainAnnotated { ty: Box::new(t), domain: d },
            }
        },
{
}

/// One generic parameter `name: kind [= default]` at `i`.
pub open spec fn gparam_rule(src: Seq<u8>, toks: Seq<Spanned<Token>>, i: int) -> Outcome<GParamView> {
    match ident_rule(src, toks, i) {
        Err(e) => Err(e),
        Ok((name, j)) => match expect_rule(src, toks, j, Token::Colon) {
            Err(x) => Err(x),
            Ok((_, k)) => match ident_rule(src, toks, k) {
                Err(x) => Err(x),
                Ok((ki, m)) => match generic_kind_of(ki.name) {
                    None => Err(("expected generic kind, found '"@ + ki.name + "'"@, ki.span)),
                    Some(kind) => if kind_at(toks, m, Token::Eq) {
                        match expr_rule(src, toks, m + 1, false) {
                            Err(x) => Err(x),
                            Ok((d, q)) => Ok((GParamView { name, kind, default: Some(d) }, q)),
                        }
                    } else {
                        Ok((GParamView { name, kind, default: None }, m))
                    },
                },
            },
        },
    }
}

/// The generic parameters from `i`, after those in `acc`: up to a `>` or
/// the end, separated by commas, line breaks skipped.
pub open spec fn gparam_items(src: Seq<u8>, toks: Seq<Spanned<Token>>, i: int, acc: Seq<GParamView>) -> Outcome<
    Seq<GParamView>,
>
    decreases toks.len() - i,
{
    if kind_at(toks, i, Token::Greater) || i >= toks.len() || i < 0 {
        Ok((acc, i))
    } else {
        match gparam_rule(src, toks, i) {
            Err(e) => Err(e),
            Ok((g, j)) => {
                let j2 = skip_nl(toks, j);
                if kind_at(toks, j2, Token::Comma) {
                    let j3 = skip_nl(toks, j2 + 1);
                    if fwd(toks, i, j3) {
                        gparam_items(src, toks, j3, acc.push(g))
                    } else {
                        stuck(src, toks, i)
                    }
                } else {
                    Ok((acc.push(g), j2))
                }
            },
        }
    }
}

/// An optional generic parameter list from `i`: none when no `<` stands
/// there.
pub open spec fn gparams_rule(src: Seq<u8>, toks: Seq<Spanned<Token>>, i: int) -> Outcome<Seq<GParamView>> {
    if !kind_at(toks, i, Token::Less) {
        Ok((seq![], i))
    } else {
        match gparam_items(src, toks, skip_nl(toks, i + 1), seq![]) {
            Err(e) => Err(e),
            Ok((ps, j)) => match expect_rule(src, toks, j, Token::Greater) {
                Err(x) => Err(x),
                Ok((_, k)) => Ok((ps, k)),
            },
        }
    }
}

/// A parsed type, with the tokens `toks` and position `pos` after it,
/// agrees with the outcome `o`.
pub open spec fn type_outcome(r: Result<TypeExpr, super::ParseError>, toks: Seq<Spanned<Token>>, pos: int, o: TOutcome<TyView>) -> bool {
    match r {
        Ok(t) => o == Ok::<(TyView, Seq<Spanned<Token>>, int), (Seq<char>, Span)>((type_view(t), toks, pos)),
        Err(e) => o == Err::<(TyView, Seq<Spanned<Token>>, int), (Seq<char>, Span)>((e.message@, e.span)),
    }
}

/// The views of a list of generic arguments grow by one view with the list.
pub proof fn lemma_gargs_view_push(v: Seq<GenericArg>, x: GenericArg)
    ensures
        gargs_view(v.push(x)) == gargs_view(v).push(garg_view(x)),
{
    assert(v.push(x).subrange(0, v.len() as int) =~= v);
}

/// The views of a list of names grow by one view with the list.
pub proof fn lemma_names_view_push(v: Seq<Spanned<String>>, x: Spanned<String>)
    ensures
        names_view(v.push(x)) == names_view(v).push(name_view(x)),
{
    assert(names_view(v.push(x)) =~= names_view(v).push(name_view(x)));
}

/// The views of a list of generic parameters grow by one view with the list.
pub proof fn lemma_gparams_view_push(v: Seq<GenericParam>, x: GenericParam)
    ensures
        gparams_view(v.push(x)) == gparams_view(v).push(gparam_view(x)),
{
    assert(gparams_view(v.push(x)) =~= gparams_view(v).push(gparam_view(x)));
}

} // verus!
