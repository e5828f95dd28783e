//! The statement grammar: what parsing a statement or a block of them from
//! a position of a token list gives. Statements hold types, so the rules
//! give the tokens after parsing along with the position.

use vstd::prelude::*;

use crate::ast::expr::Expr;
use crate::ast::stmt::{MatchArm, PriorityArm, Stmt, StmtKind};
use crate::ast::Ident;
use crate::lexer::Token;
use crate::span::{Span, Spanned};

use super::grammar::{
    expect_rule, expr_rule, expr_view, ident_rule, kind_at, mk, name_view, skip_nl, span_at, span_text, tok_at,
    ExprView, NameView, NodeView,
};
use super::type_grammar::{
    dec, gparam_view, gparams_rule, gparams_view, meas, prev_span_at, tstuck, type_expr_rule, type_view, GParamView,
    TOutcome, TyView,
};
use super::grammar::depth_start;

verus! {

/// A statement, by its view.
pub struct StmtView {
    pub node: SNode,
    pub span: Span,
}

/// An arm of a `match` (its pattern) or of a priority or parallel block
/// (its condition), by its view.
pub struct ArmView {
    pub guard: ExprView,
    pub body: Seq<StmtView>,
    pub span: Span,
}

/// The kind of a statement, by its view.
pub enum SNode {
    Signal { name: NameView, ty: TyView, domain: Option<NameView>, init: Option<ExprView> },
    Let { name: NameView, ty: Option<TyView>, value: ExprView },
    Const { name: NameView, ty: Option<TyView>, value: ExprView },
    TypeAlias { name: NameView, generics: Seq<GParamView>, ty: TyView },
    Assign { target: ExprView, value: ExprView },
    If {
        condition: ExprView,
        then_body: Seq<StmtView>,
        elifs: Seq<(ExprView, Seq<StmtView>)>,
        else_body: Option<Seq<StmtView>>,
    },
    Match { scrutinee: ExprView, arms: Seq<ArmView> },
    For { var: NameView, iterable: ExprView, body: Seq<StmtView> },
    CombBlock(Seq<StmtView>),
    RegBlock {
        clock: ExprView,
        reset: ExprView,
        enable: Option<ExprView>,
        on_reset: Seq<StmtView>,
        on_tick: Seq<StmtView>,
    },
    PriorityBlock { arms: Seq<ArmView>, otherwise: Option<Seq<StmtView>> },
    ParallelBlock { safe: Option<ExprView>, arms: Seq<ArmView> },
    Assert { always: bool, domain: Option<NameView>, expr: ExprView, message: Option<ExprView> },
    Assume { domain: Option<NameView>, expr: ExprView, message: Option<ExprView> },
    Cover { name: Option<NameView>, expr: ExprView },
    StaticAssert { expr: ExprView, message: ExprView },
    UncheckedBlock(Seq<StmtView>),
    ExprStmt(ExprView),
}

/// The view of an optional name.
pub open spec fn opt_name_view(n: Option<Ident>) -> Option<NameView> {
    match n {
        Some(x) => Some(name_view(x)),
        None => None,
    }
}

/// The view of an optional expression.
pub open spec fn opt_expr_view(e: Option<Expr>) -> Option<ExprView> {
    match e {
        Some(x) => Some(expr_view(x)),
        None => None,
    }
}

/// The view of an optional list of statements.
pub open spec fn opt_stmts_view(o: Option<Vec<Stmt>>) -> Option<Seq<StmtView>> {
    match o {
        Some(b) => Some(stmts_view(b@)),
        None => None,
    }
}

/// The view of a statement.
pub open spec fn stmt_view(s: Stmt) -> StmtView
    decreases s, 1nat,
{
    StmtView {
        node: match s.node {
            StmtKind::Signal(d) => SNode::Signal {
                name: name_view(d.name),
                ty: type_view(d.ty),
                domain: opt_name_view(d.domain),
                init: opt_expr_view(d.init),
            },
            StmtKind::Let(d) => SNode::Let {
                name: name_view(d.name),
                ty: match d.ty {
                    Some(t) => Some(type_view(t)),
                    None => None,
                },
                value: expr_view(d.value),
            },
            StmtKind::Const(d) => SNode::Const {
                name: name_view(d.name),
                ty: match d.ty {
                    Some(t) => Some(type_view(t)),
                    None => None,
                },
                value: expr_view(d.value),
            },
            StmtKind::TypeAlias(d) => SNode::TypeAlias {
                name: name_view(d.name),
                generics: gparams_view(d.generics@),
                ty: type_view(d.ty),
            },
            StmtKind::Assign { target, value } => SNode::Assign { target: expr_view(target), value: expr_view(value) },
            StmtKind::If(d) => SNode::If {
                condition: expr_view(d.condition),
                then_body: stmts_view(d.then_body@),
                elifs: elifs_view(d.elif_branches@),
                else_body: match d.else_body {
                    Some(b) => Some(stmts_view(b@)),
                    None => None,
                },
            },
            StmtKind::Match(m) => SNode::Match { scrutinee: expr_view(m.scrutinee), arms: match_arms_view(m.arms@) },
            StmtKind::For(f) => SNode::For { var: name_view(f.var), iterable: expr_view(f.iterable), body: stmts_view(f.body@) },
            StmtKind::CombBlock(v) => SNode::CombBlock(stmts_view(v@)),
            StmtKind::RegBlock(r) => SNode::RegBlock {
                clock: expr_view(r.clock),
                reset: expr_view(r.reset),
                enable: opt_expr_view(r.enable),
                on_reset: stmts_view(r.on_reset@),
                on_tick: stmts_view(r.on_tick@),
            },
            StmtKind::PriorityBlock(pb) => SNode::PriorityBlock {
                arms: when_arms_view(pb.arms@),
                otherwise: match pb.otherwise {
                    Some(b) => Some(stmts_view(b@)),
                    None => None,
                },
            },
            StmtKind::ParallelBlock(pb) => SNode::ParallelBlock { safe: opt_expr_view(pb.safe), arms: when_arms_view(pb.arms@) },
            StmtKind::Assert(a) => SNode::Assert {
                always: a.always,
                domain: opt_name_view(a.domain),
                expr: expr_view(a.expr),
                message: opt_expr_view(a.message),
            },
            StmtKind::Assume { domain, expr, message } => SNode::Assume {
                domain: opt_name_view(domain),
                expr: expr_view(expr),
                message: opt_expr_view(message),
            },
            StmtKind::Cover { name, expr } => SNode::Cover { name: opt_name_view(name), expr: expr_view(expr) },
            StmtKind::StaticAssert { expr, message } => SNode::StaticAssert { expr: expr_view(expr), message: expr_view(message) },
            StmtKind::UncheckedBlock(v) => SNode::UncheckedBlock(stmts_view(v@)),
            StmtKind::ExprStmt(e) => SNode::ExprStmt(expr_view(e)),
        },
        span: s.span,
    }
}

/// The views of a list of statements.
pub open spec fn stmts_view(v: Seq<Stmt>) -> Seq<StmtView>
    decreases v, 0nat,
{
    if v.len() == 0 {
        seq![]
    } else {
        stmts_view(v.subrange(0, v.len() - 1)).push(stmt_view(v[v.len() - 1]))
    }
}

/// The views of the `elif` branches of an `if`.
pub open spec fn elifs_view(v: Seq<(Expr, Vec<Stmt>)>) -> Seq<(ExprView, Seq<StmtView>)>
    decreases v, 0nat,
{
    if v.len() == 0 {
        seq![]
    } else {
        elifs_view(v.subrange(0, v.len() - 1)).push((expr_view(v[v.len() - 1].0), stmts_view(v[v.len() - 1].1@)))
    }
}

/// The views of the arms of a `match`.
pub open spec fn match_arms_view(v: Seq<MatchArm>) -> Seq<ArmView>
    decreases v, 0nat,
{
    if v.len() == 0 {
        seq![]
    } else {
        match_arms_view(v.subrange(0, v.len() - 1)).push(
            ArmView { guard: expr_view(v[v.len() - 1].pattern), body: stmts_view(v[v.len() - 1].body@), span: v[v.len() - 1].span },
        )
    }
}

/// The views of the `when` arms of a priority or parallel block.
pub open spec fn when_arms_view(v: Seq<PriorityArm>) -> Seq<ArmView>
    decreases v, 0nat,
{
    if v.len() == 0 {
        seq![]
    } else {
        when_arms_view(v.subrange(0, v.len() - 1)).push(
            ArmView {
                guard: expr_view(v[v.len() - 1].condition),
                body: stmts_view(v[v.len() - 1].body@),
                span: v[v.len() - 1].span,
            },
        )
    }
}

/// A statement view of a kind, from `start` to the token before `k` of
/// `toks`.
pub open spec fn sv(node: SNode, start: Span, src: Seq<u8>, toks: Seq<Spanned<Token>>, k: int) -> StmtView {
    StmtView { node, span: start.spec_merge(prev_span_at(src, toks, k)) }
}

/// An optional `@ domain` at `i`.
pub open spec fn opt_domain_rule(src: Seq<u8>, toks: Seq<Spanned<Token>>, i: int) -> super::grammar::Outcome<
    Option<NameView>,
> {
    if kind_at(toks, i, Token::At) {
        match ident_rule(src, toks, i + 1) {
            Err(e) => Err(e),
            Ok((d, j)) => Ok((Some(d), j)),
        }
    } else {
        Ok((None, i))
    }
}

/// An optional `: Type` at `i`.
pub open spec fn opt_type_rule(src: Seq<u8>, toks: Seq<Spanned<Token>>, i: int) -> TOutcome<Option<TyView>> {
    if kind_at(toks, i, Token::Colon) {
        match type_expr_rule(src, toks, i + 1) {
            Err(e) => Err(e),
            Ok((t, t1, j)) => Ok((Some(t), t1, j)),
        }
    } else {
        Ok((None, toks, i))
    }
}

/// An optional `sep expr` at `i`: the initial value of a signal (`=`) or
/// the message of an assertion (`,`).
pub open spec fn opt_tail_rule(src: Seq<u8>, toks: Seq<Spanned<Token>>, i: int, sep: Token) -> super::grammar::Outcome<
    Option<ExprView>,
> {
    if kind_at(toks, i, sep) {
        match expr_rule(src, toks, i + 1, false) {
            Err(e) => Err(e),
            Ok((v, j)) => Ok((Some(v), j)),
        }
    } else {
        Ok((None, i))
    }
}

/// `signal name: Type [@ domain] [= init]` at `i`.
pub open spec fn signal_rule(src: Seq<u8>, toks: Seq<Spanned<Token>>, i: int) -> TOutcome<StmtView> {
    let start = span_at(src, toks, i);
    match expect_rule(src, toks, i, Token::KwSignal) {
        Err(e) => Err(e),
        Ok((_, a)) => match ident_rule(src, toks, a) {
            Err(e) => Err(e),
            Ok((name, b)) => match expect_rule(src, toks, b, Token::Colon) {
                Err(e) => Err(e),
                Ok((_, c)) => match type_expr_rule(src, toks, c) {
                    Err(e) => Err(e),
                    Ok((ty, t1, d)) => match opt_domain_rule(src, t1, d) {
                        Err(e) => Err(e),
                        Ok((domain, e)) => match opt_tail_rule(src, t1, e, Token::Eq) {
                            Err(x) => Err(x),
                            Ok((init, f)) => Ok((sv(SNode::Signal { name, ty, domain, init }, start, src, t1, f), t1, f)),
                        },
                    },
                },
            },
        },
    }
}

/// `let name [: Type] = value` (`is_let`) or `const name [: Type] = value`
/// at `i`.
pub open spec fn binding_rule(src: Seq<u8>, toks: Seq<Spanned<Token>>, i: int, is_let: bool) -> TOutcome<StmtView> {
    let start = span_at(src, toks, i);
    match expect_rule(src, toks, i, if is_let { Token::KwLet } else { Token::KwConst }) {
        Err(e) => Err(e),
        Ok((_, a)) => match ident_rule(src, toks, a) {
            Err(e) => Err(e),
            Ok((name, b)) => match opt_type_rule(src, toks, b) {
                Err(e) => Err(e),
                Ok((ty, t1, c)) => match expect_rule(src, t1, c, Token::Eq) {
                    Err(e) => Err(e),
                    Ok((_, d)) => match expr_rule(src, t1, d, false) {
                        Err(e) => Err(e),
                        Ok((value, f)) => Ok(
                            (
                                sv(
                                    if is_let {
                                        SNode::Let { name, ty, value }
                                    } else {
                                        SNode::Const { name, ty, value }
                                    },
                                    start,
                                    src,
                                    t1,
                                    f,
                                ),
                                t1,
                                f,
                            ),
                        ),
                    },
                },
            },
        },
    }
}

/// `type Name[<generics>] = Type` at `i`.
pub open spec fn alias_rule(src: Seq<u8>, toks: Seq<Spanned<Token>>, i: int) -> TOutcome<StmtView> {
    let start = span_at(src, toks, i);
    match expect_rule(src, toks, i, Token::KwType) {
        Err(e) => Err(e),
        Ok((_, a)) => match ident_rule(src, toks, a) {
            Err(e) => Err(e),
            Ok((name, b)) => match gparams_rule(src, toks, b) {
                Err(e) => Err(e),
                Ok((generics, c)) => match expect_rule(src, toks, c, Token::Eq) {
                    Err(e) => Err(e),
                    Ok((_, d)) => match type_expr_rule(src, toks, d) {
                        Err(e) => Err(e),
                        Ok((ty, t1, f)) => Ok((sv(SNode::TypeAlias { name, generics, ty }, start, src, t1, f), t1, f)),
                    },
                },
            },
        },
    }
}

/// `target = value`, or an expression on its own, at `i`.
pub open spec fn assign_rule(src: Seq<u8>, toks: Seq<Spanned<Token>>, i: int) -> TOutcome<StmtView> {
    let start = span_at(src, toks, i);
    match expr_rule(src, toks, i, false) {
        Err(e) => Err(e),
        Ok((lhs, j)) => if kind_at(toks, j, Token::Eq) {
            match expr_rule(src, toks, j + 1, false) {
                Err(e) => Err(e),
                Ok((rhs, k)) => Ok((sv(SNode::Assign { target: lhs, value: rhs }, start, src, toks, k), toks, k)),
            }
        } else {
            Ok((StmtView { node: SNode::ExprStmt(lhs), span: lhs.span }, toks, j))
        },
    }
}

/// `assert [always] [@ domain]: expr[, message]` at `i`.
pub open spec fn assert_rule(src: Seq<u8>, toks: Seq<Spanned<Token>>, i: int) -> TOutcome<StmtView> {
    let start = span_at(src, toks, i);
    match expect_rule(src, toks, i, Token::KwAssert) {
        Err(e) => Err(e),
        Ok((_, a)) => {
            let always = kind_at(toks, a, Token::KwAlways);
            match opt_domain_rule(src, toks, if always { a + 1 } else { a }) {
                Err(e) => Err(e),
                Ok((domain, b)) => match expect_rule(src, toks, b, Token::Colon) {
                    Err(e) => Err(e),
                    Ok((_, c)) => match expr_rule(src, toks, c, false) {
                        Err(e) => Err(e),
                        Ok((expr, d)) => match opt_tail_rule(src, toks, d, Token::Comma) {
                            Err(e) => Err(e),
                            Ok((message, f)) => Ok(
                                (sv(SNode::Assert { always, domain, expr, message }, start, src, toks, f), toks, f),
                            ),
                        },
                    },
                },
            }
        },
    }
}

/// `assume [@ domain]: expr[, message]` at `i`.
pub open spec fn assume_rule(src: Seq<u8>, toks: Seq<Spanned<Token>>, i: int) -> TOutcome<StmtView> {
    let start = span_at(src, toks, i);
    match expect_rule(src, toks, i, Token::KwAssume) {
        Err(e) => Err(e),
        Ok((_, a)) => match opt_domain_rule(src, toks, a) {
            Err(e) => Err(e),
            Ok((domain, b)) => match expect_rule(src, toks, b, Token::Colon) {
                Err(e) => Err(e),
                Ok((_, c)) => match expr_rule(src, toks, c, false) {
                    Err(e) => Err(e),
                    Ok((expr, d)) => match opt_tail_rule(src, toks, d, Token::Comma) {
                        Err(e) => Err(e),
                        Ok((message, f)) => Ok((sv(SNode::Assume { domain, expr, message }, start, src, toks, f), toks, f)),
                    },
                },
            },
        },
    }
}

/// The optional name of a `cover` at `i`: an identifier followed by `:`.
pub open spec fn cover_name(src: Seq<u8>, toks: Seq<Spanned<Token>>, i: int) -> Option<NameView> {
    if tok_at(toks, i) == Some(Token::Ident) && kind_at(toks, i + 1, Token::Colon) {
        Some(NameView { name: span_text(src, toks[i].span), span: toks[i].span })
    } else {
        None
    }
}

/// `cover [name]: expr` at `i`.
pub open spec fn cover_rule(src: Seq<u8>, toks: Seq<Spanned<Token>>, i: int) -> TOutcome<StmtView> {
    let start = span_at(src, toks, i);
    match expect_rule(src, toks, i, Token::KwCover) {
        Err(e) => Err(e),
        Ok((_, a)) => {
            let name = cover_name(src, toks, a);
            match expect_rule(src, toks, if name is Some { a + 1 } else { a }, Token::Colon) {
                Err(e) => Err(e),
                Ok((_, c)) => match expr_rule(src, toks, c, false) {
                    Err(e) => Err(e),
                    Ok((expr, d)) => Ok((sv(SNode::Cover { name, expr }, start, src, toks, d), toks, d)),
                },
            }
        },
    }
}

/// `static_assert expr, message` at `i`.
pub open spec fn static_assert_rule(src: Seq<u8>, toks: Seq<Spanned<Token>>, i: int) -> TOutcome<StmtView> {
    let start = span_at(src, toks, i);
    match expect_rule(src, toks, i, Token::KwStaticAssert) {
        Err(e) => Err(e),
        Ok((_, a)) => match expr_rule(src, toks, a, false) {
            Err(e) => Err(e),
            Ok((expr, b)) => match expect_rule(src, toks, b, Token::Comma) {
                Err(e) => Err(e),
                Ok((_, c)) => match expr_rule(src, toks, c, false) {
                    Err(e) => Err(e),
                    Ok((message, d)) => Ok((sv(SNode::StaticAssert { expr, message }, start, src, toks, d), toks, d)),
                },
            },
        },
    }
}

/// A statement at `i`; its first token selects the kind of statement.
pub open spec fn stmt_rule(src: Seq<u8>, toks: Seq<Spanned<Token>>, i: int) -> TOutcome<StmtView>
    decreases meas(toks, i), 2nat,
{
    match tok_at(toks, i) {
        Some(Token::KwSignal) => signal_rule(src, toks, i),
        Some(Token::KwLet) => binding_rule(src, toks, i, true),
        Some(Token::KwConst) => binding_rule(src, toks, i, false),
        Some(Token::KwType) => alias_rule(src, toks, i),
        Some(Token::KwIf) => if_stmt_rule(src, toks, i),
        Some(Token::KwMatch) => match_rule(src, toks, i),
        Some(Token::KwFor) => for_rule(src, toks, i),
        Some(Token::KwComb) => comb_rule(src, toks, i),
        Some(Token::KwReg) => reg_rule(src, toks, i),
        Some(Token::KwPriority) => priority_rule(src, toks, i),
        Some(Token::KwParallel) => parallel_rule(src, toks, i),
        Some(Token::KwAssert) => assert_rule(src, toks, i),
        Some(Token::KwAssume) => assume_rule(src, toks, i),
        Some(Token::KwCover) => cover_rule(src, toks, i),
        Some(Token::KwStaticAssert) => static_assert_rule(src, toks, i),
        Some(Token::KwUnchecked) => unchecked_rule(src, toks, i),
        _ => assign_rule(src, toks, i),
    }
}

/// The statements of a block from `i`, after those in `acc`: line breaks
/// skipped, up to a `Dedent` or the end.
pub open spec fn stmt_items(src: Seq<u8>, toks: Seq<Spanned<Token>>, i: int, acc: Seq<StmtView>) -> TOutcome<Seq<StmtView>>
    decreases meas(toks, i), 3nat,
{
    if kind_at(toks, i, Token::Dedent) || i >= toks.len() || i < 0 {
        Ok((acc, toks, i))
    } else {
        let j = skip_nl(toks, i);
        if !(i <= j <= toks.len() && meas(toks, j) <= meas(toks, i)) {
            tstuck(src, toks, i)
        } else if kind_at(toks, j, Token::Dedent) || j >= toks.len() {
            Ok((acc, toks, j))
        } else {
            match stmt_rule(src, toks, j) {
                Err(e) => Err(e),
                Ok((s, t1, k)) => {
                    let k2 = skip_nl(t1, k);
                    if dec(t1, k2, toks, i) {
                        stmt_items(src, t1, k2, acc.push(s))
                    } else {
                        tstuck(src, toks, i)
                    }
                },
            }
        }
    }
}

/// Statements from `i` up to and including the `Dedent` that closes their
/// block.
pub open spec fn to_dedent_rule(src: Seq<u8>, toks: Seq<Spanned<Token>>, i: int) -> TOutcome<Seq<StmtView>>
    decreases meas(toks, i), 4nat,
{
    match stmt_items(src, toks, i, seq![]) {
        Err(e) => Err(e),
        Ok((ss, t1, j)) => match expect_rule(src, t1, j, Token::Dedent) {
            Err(e) => Err(e),
            Ok((_, k)) => Ok((ss, t1, k)),
        },
    }
}

/// `:`, line breaks, an `Indent`, and the statements from `i` up to their
/// `Dedent`.
pub open spec fn block_rule(src: Seq<u8>, toks: Seq<Spanned<Token>>, i: int) -> TOutcome<Seq<StmtView>>
    decreases meas(toks, i), 0nat,
{
    match expect_rule(src, toks, i, Token::Colon) {
        Err(e) => Err(e),
        Ok((_, a)) => match expect_rule(src, toks, skip_nl(toks, a), Token::Indent) {
            Err(e) => Err(e),
            Ok((_, b)) => if dec(toks, b, toks, i) {
                to_dedent_rule(src, toks, b)
            } else {
                tstuck(src, toks, i)
            },
        },
    }
}

/// One `elif cond: block` branch at `i`.
pub open spec fn elif_rule(src: Seq<u8>, toks: Seq<Spanned<Token>>, i: int) -> TOutcome<(ExprView, Seq<StmtView>)>
    decreases meas(toks, i), 0nat,
{
    match expr_rule(src, toks, i + 1, false) {
        Err(e) => Err(e),
        Ok((c, j)) => if !dec(toks, j, toks, i) {
            tstuck(src, toks, i)
        } else {
            match block_rule(src, toks, j) {
                Err(e) => Err(e),
                Ok((b, t1, k)) => Ok(((c, b), t1, k)),
            }
        },
    }
}

/// The `elif cond: block` branches of an `if` from `i`, after those in `acc`.
pub open spec fn elifs_rule(src: Seq<u8>, toks: Seq<Spanned<Token>>, i: int, acc: Seq<(ExprView, Seq<StmtView>)>) -> TOutcome<
    Seq<(ExprView, Seq<StmtView>)>,
>
    decreases meas(toks, i), 1nat,
{
    if !kind_at(toks, i, Token::KwElif) || i < 0 {
        Ok((acc, toks, i))
    } else {
        match elif_rule(src, toks, i) {
            Err(e) => Err(e),
            Ok((br, t1, k)) => if dec(t1, k, toks, i) {
                elifs_rule(src, t1, k, acc.push(br))
            } else {
                tstuck(src, toks, i)
            },
        }
    }
}

/// `if cond: block`, any `elif cond: block`, then an optional `else: block`,
/// at `i`.
pub open spec fn if_stmt_rule(src: Seq<u8>, toks: Seq<Spanned<Token>>, i: int) -> TOutcome<StmtView>
    decreases meas(toks, i), 1nat,
{
    let start = span_at(src, toks, i);
    match expect_rule(src, toks, i, Token::KwIf) {
        Err(e) => Err(e),
        Ok((_, a)) => match expr_rule(src, toks, a, false) {
            Err(e) => Err(e),
            Ok((condition, b)) => if !dec(toks, b, toks, i) {
                tstuck(src, toks, i)
            } else {
                match block_rule(src, toks, b) {
                    Err(e) => Err(e),
                    Ok((then_body, t1, c)) => if !dec(t1, c, toks, i) {
                        tstuck(src, toks, i)
                    } else {
                        match elifs_rule(src, t1, c, seq![]) {
                            Err(e) => Err(e),
                            Ok((elifs, t2, d)) => if kind_at(t2, d, Token::KwElse) {
                                if !dec(t2, d + 1, toks, i) {
                                    tstuck(src, toks, i)
                                } else {
                                    match block_rule(src, t2, d + 1) {
                                        Err(e) => Err(e),
                                        Ok((eb, t3, f)) => Ok(
                                            (
                                                sv(SNode::If { condition, then_body, elifs, else_body: Some(eb) }, start, src, t3, f),
                                                t3,
                                                f,
                                            ),
                                        ),
                                    }
                                }
                            } else {
                                Ok((sv(SNode::If { condition, then_body, elifs, else_body: None }, start, src, t2, d), t2, d))
                            },
                        }
                    },
                }
            },
        },
    }
}

/// The body of a match arm at `i`, after `=>`: a `:` block, an indented
/// block on the next lines, or one statement.
pub open spec fn arm_body_rule(src: Seq<u8>, toks: Seq<Spanned<Token>>, i: int) -> TOutcome<Seq<StmtView>>
    decreases meas(toks, i), 3nat,
{
    if kind_at(toks, i, Token::Colon) {
        block_rule(src, toks, i)
    } else if kind_at(toks, i, Token::Newline) {
        let j = skip_nl(toks, i);
        if kind_at(toks, j, Token::Indent) {
            if dec(toks, j + 1, toks, i) {
                to_dedent_rule(src, toks, j + 1)
            } else {
                tstuck(src, toks, i)
            }
        } else if dec(toks, j, toks, i) {
            match stmt_rule(src, toks, j) {
                Err(e) => Err(e),
                Ok((s, t1, k)) => Ok((seq![s], t1, k)),
            }
        } else {
            tstuck(src, toks, i)
        }
    } else {
        match stmt_rule(src, toks, i) {
            Err(e) => Err(e),
            Ok((s, t1, k)) => Ok((seq![s], t1, k)),
        }
    }
}

/// One `pattern => body` arm of a `match` at `i`.
pub open spec fn match_arm_rule(src: Seq<u8>, toks: Seq<Spanned<Token>>, i: int) -> TOutcome<ArmView>
    decreases meas(toks, i), 0nat,
{
    match expr_rule(src, toks, i, false) {
        Err(e) => Err(e),
        Ok((pattern, k)) => match expect_rule(src, toks, k, Token::FatArrow) {
            Err(e) => Err(e),
            Ok((_, m)) => if !dec(toks, m, toks, i) {
                tstuck(src, toks, i)
            } else {
                match arm_body_rule(src, toks, m) {
                    Err(e) => Err(e),
                    Ok((body, t1, q)) => Ok(
                        (ArmView { guard: pattern, body, span: span_at(src, toks, i).spec_merge(prev_span_at(src, t1, q)) }, t1, q),
                    ),
                }
            },
        },
    }
}

/// The arms of a `match` from `i`, after those in `acc`: line breaks
/// skipped, up to a `Dedent` or the end.
pub open spec fn match_items(src: Seq<u8>, toks: Seq<Spanned<Token>>, i: int, acc: Seq<ArmView>) -> TOutcome<Seq<ArmView>>
    decreases meas(toks, i), 1nat,
{
    if kind_at(toks, i, Token::Dedent) || i >= toks.len() || i < 0 {
        Ok((acc, toks, i))
    } else {
        let j = skip_nl(toks, i);
        if !(i <= j <= toks.len() && meas(toks, j) <= meas(toks, i)) {
            tstuck(src, toks, i)
        } else if kind_at(toks, j, Token::Dedent) || j >= toks.len() {
            Ok((acc, toks, j))
        } else {
            match match_arm_rule(src, toks, j) {
                Err(e) => Err(e),
                Ok((arm, t1, q)) => {
                    let q2 = skip_nl(t1, q);
                    if dec(t1, q2, toks, i) {
                        match_items(src, t1, q2, acc.push(arm))
                    } else {
                        tstuck(src, toks, i)
                    }
                },
            }
        }
    }
}

/// `:`, line breaks and an `Indent` at `i`: the opening of an indented block
/// of arms, and the position after it.
pub open spec fn open_block(src: Seq<u8>, toks: Seq<Spanned<Token>>, i: int) -> super::grammar::Outcome<()> {
    match expect_rule(src, toks, i, Token::Colon) {
        Err(e) => Err(e),
        Ok((_, a)) => match expect_rule(src, toks, skip_nl(toks, a), Token::Indent) {
            Err(e) => Err(e),
            Ok((_, b)) => Ok(((), b)),
        },
    }
}

/// `match scrutinee:` then an indented list of `pattern => body` arms, at `i`.
pub open spec fn match_rule(src: Seq<u8>, toks: Seq<Spanned<Token>>, i: int) -> TOutcome<StmtView>
    decreases meas(toks, i), 1nat,
{
    let start = span_at(src, toks, i);
    match expect_rule(src, toks, i, Token::KwMatch) {
        Err(e) => Err(e),
        Ok((_, a)) => match expr_rule(src, toks, a, false) {
            Err(e) => Err(e),
            Ok((scrutinee, b)) => match open_block(src, toks, b) {
                Err(e) => Err(e),
                Ok((_, c)) => if !dec(toks, c, toks, i) {
                    tstuck(src, toks, i)
                } else {
                    match match_items(src, toks, c, seq![]) {
                        Err(e) => Err(e),
                        Ok((arms, t1, d)) => match expect_rule(src, t1, d, Token::Dedent) {
                            Err(e) => Err(e),
                            Ok((_, f)) => Ok((sv(SNode::Match { scrutinee, arms }, start, src, t1, f), t1, f)),
                        },
                    }
                },
            },
        },
    }
}

/// `for var in iterable: block` at `i`.
pub open spec fn for_rule(src: Seq<u8>, toks: Seq<Spanned<Token>>, i: int) -> TOutcome<StmtView>
    decreases meas(toks, i), 1nat,
{
    let start = span_at(src, toks, i);
    match expect_rule(src, toks, i, Token::KwFor) {
        Err(e) => Err(e),
        Ok((_, a)) => match ident_rule(src, toks, a) {
            Err(e) => Err(e),
            Ok((var, b)) => match expect_rule(src, toks, b, Token::KwIn) {
                Err(e) => Err(e),
                Ok((_, c)) => match expr_rule(src, toks, c, false) {
                    Err(e) => Err(e),
                    Ok((iterable, d)) => if !dec(toks, d, toks, i) {
                        tstuck(src, toks, i)
                    } else {
                        match block_rule(src, toks, d) {
                            Err(e) => Err(e),
                            Ok((body, t1, f)) => Ok((sv(SNode::For { var, iterable, body }, start, src, t1, f), t1, f)),
                        }
                    },
                },
            },
        },
    }
}

/// `comb: block` at `i`.
pub open spec fn comb_rule(src: Seq<u8>, toks: Seq<Spanned<Token>>, i: int) -> TOutcome<StmtView>
    decreases meas(toks, i), 1nat,
{
    let start = span_at(src, toks, i);
    match expect_rule(src, toks, i, Token::KwComb) {
        Err(e) => Err(e),
        Ok((_, a)) => if !dec(toks, a, toks, i) {
            tstuck(src, toks, i)
        } else {
            match block_rule(src, toks, a) {
                Err(e) => Err(e),
                Ok((body, t1, f)) => Ok((sv(SNode::CombBlock(body), start, src, t1, f), t1, f)),
            }
        },
    }
}

/// An expression at `i`, or `name = expr` of which the name is dropped.
pub open spec fn maybe_named_rule(src: Seq<u8>, toks: Seq<Spanned<Token>>, i: int) -> super::grammar::Outcome<ExprView> {
    expr_rule(src, toks, depth_start(toks, i), false)
}

/// One `on reset: block` or `on tick: block` section at `i`, with whether it
/// is the reset one.
pub open spec fn reg_section_rule(src: Seq<u8>, toks: Seq<Spanned<Token>>, i: int) -> TOutcome<(bool, Seq<StmtView>)>
    decreases meas(toks, i), 0nat,
{
    match expect_rule(src, toks, i, Token::KwOn) {
        Err(e) => Err(e),
        Ok((_, k)) => if !kind_at(toks, k, Token::KwReset) && !kind_at(toks, k, Token::KwTick) {
            Err(("expected 'reset' or 'tick' after 'on'"@, span_at(src, toks, k)))
        } else if !dec(toks, k + 1, toks, i) {
            tstuck(src, toks, i)
        } else {
            match block_rule(src, toks, k + 1) {
                Err(e) => Err(e),
                Ok((b, t1, m)) => Ok(((kind_at(toks, k, Token::KwReset), b), t1, m)),
            }
        },
    }
}

/// The `on reset:` and `on tick:` blocks of a `reg` block from `i`, where
/// the latest of each so far are `rs` and `ts`: line breaks skipped, up to a
/// `Dedent` or the end.
pub open spec fn reg_items(src: Seq<u8>, toks: Seq<Spanned<Token>>, i: int, rs: Seq<StmtView>, ts: Seq<StmtView>) -> TOutcome<
    (Seq<StmtView>, Seq<StmtView>),
>
    decreases meas(toks, i), 1nat,
{
    if kind_at(toks, i, Token::Dedent) || i >= toks.len() || i < 0 {
        Ok(((rs, ts), toks, i))
    } else {
        let j = skip_nl(toks, i);
        if !(i <= j <= toks.len() && meas(toks, j) <= meas(toks, i)) {
            tstuck(src, toks, i)
        } else if kind_at(toks, j, Token::Dedent) || j >= toks.len() {
            Ok(((rs, ts), toks, j))
        } else {
            match reg_section_rule(src, toks, j) {
                Err(e) => Err(e),
                Ok(((is_reset, b), t1, m)) => {
                    let m2 = skip_nl(t1, m);
                    if !dec(t1, m2, toks, i) {
                        tstuck(src, toks, i)
                    } else if is_reset {
                        reg_items(src, t1, m2, b, ts)
                    } else {
                        reg_items(src, t1, m2, rs, b)
                    }
                },
            }
        }
    }
}

/// `reg(clock, reset[, enable]):` then `on reset:` and `on tick:` blocks, at `i`.
pub open spec fn reg_rule(src: Seq<u8>, toks: Seq<Spanned<Token>>, i: int) -> TOutcome<StmtView>
    decreases meas(toks, i), 1nat,
{
    let start = span_at(src, toks, i);
    match expect_rule(src, toks, i, Token::KwReg) {
        Err(e) => Err(e),
        Ok((_, a)) => match expect_rule(src, toks, a, Token::LParen) {
            Err(e) => Err(e),
            Ok((_, b)) => match expr_rule(src, toks, b, false) {
                Err(e) => Err(e),
                Ok((clock, c)) => match expect_rule(src, toks, c, Token::Comma) {
                    Err(e) => Err(e),
                    Ok((_, d)) => match expr_rule(src, toks, d, false) {
                        Err(e) => Err(e),
                        Ok((reset, f)) => {
                            let en: super::grammar::Outcome<Option<ExprView>> = if kind_at(toks, f, Token::Comma) {
                                match maybe_named_rule(src, toks, f + 1) {
                                    Err(x) => Err(x),
                                    Ok((v, g)) => Ok((Some(v), g)),
                                }
                            } else {
                                Ok((None, f))
                            };
                            match en {
                                Err(x) => Err(x),
                                Ok((enable, g)) => match expect_rule(src, toks, g, Token::RParen) {
                                    Err(x) => Err(x),
                                    Ok((_, h)) => match open_block(src, toks, h) {
                                        Err(x) => Err(x),
                                        Ok((_, k)) => if !dec(toks, k, toks, i) {
                                            tstuck(src, toks, i)
                                        } else {
                                            match reg_items(src, toks, k, seq![], seq![]) {
                                                Err(x) => Err(x),
                                                Ok(((on_reset, on_tick), t1, m)) => match expect_rule(src, t1, m, Token::Dedent) {
                                                    Err(x) => Err(x),
                                                    Ok((_, q)) => Ok(
                                                        (
                                                            sv(
                                                                SNode::RegBlock { clock, reset, enable, on_reset, on_tick },
                                                                start,
                                                                src,
                                                                t1,
                                                                q,
                                                            ),
                                                            t1,
                                                            q,
                                                        ),
                                                    ),
                                                },
                                            }
                                        },
                                    },
                                },
                            }
                        },
                    },
                },
            },
        },
    }
}

/// `when cond => stmt` at `i`: one arm of a priority or parallel block.
pub open spec fn when_arm_rule(src: Seq<u8>, toks: Seq<Spanned<Token>>, i: int) -> TOutcome<ArmView>
    decreases meas(toks, i), 0nat,
{
    match expect_rule(src, toks, i, Token::KwWhen) {
        Err(e) => Err(e),
        Ok((_, a)) => match expr_rule(src, toks, a, false) {
            Err(e) => Err(e),
            Ok((c, b)) => match expect_rule(src, toks, b, Token::FatArrow) {
                Err(e) => Err(e),
                Ok((_, d)) => if !dec(toks, d, toks, i) {
                    tstuck(src, toks, i)
                } else {
                    match stmt_rule(src, toks, d) {
                        Err(e) => Err(e),
                        Ok((s, t1, f)) => Ok(
                            (ArmView { guard: c, body: seq![s], span: span_at(src, toks, i).spec_merge(prev_span_at(src, t1, f)) }, t1, f),
                        ),
                    }
                },
            },
        },
    }
}

/// `otherwise => stmt` at `i`.
pub open spec fn otherwise_rule(src: Seq<u8>, toks: Seq<Spanned<Token>>, i: int) -> TOutcome<Seq<StmtView>>
    decreases meas(toks, i), 0nat,
{
    match expect_rule(src, toks, i + 1, Token::FatArrow) {
        Err(e) => Err(e),
        Ok((_, k)) => if !dec(toks, k, toks, i) {
            tstuck(src, toks, i)
        } else {
            match stmt_rule(src, toks, k) {
                Err(e) => Err(e),
                Ok((s, t1, m)) => Ok((seq![s], t1, m)),
            }
        },
    }
}

/// The arms of a priority block from `i` (`when` arms after those in
/// `arms`, and the latest `otherwise => stmt` so far `oth`): line breaks
/// skipped, up to a `Dedent` or the end.
pub open spec fn prio_items(
    src: Seq<u8>,
    toks: Seq<Spanned<Token>>,
    i: int,
    arms: Seq<ArmView>,
    oth: Option<Seq<StmtView>>,
) -> TOutcome<(Seq<ArmView>, Option<Seq<StmtView>>)>
    decreases meas(toks, i), 1nat,
{
    if kind_at(toks, i, Token::Dedent) || i >= toks.len() || i < 0 {
        Ok(((arms, oth), toks, i))
    } else {
        let j = skip_nl(toks, i);
        if !(i <= j <= toks.len() && meas(toks, j) <= meas(toks, i)) {
            tstuck(src, toks, i)
        } else if kind_at(toks, j, Token::Dedent) || j >= toks.len() {
            Ok(((arms, oth), toks, j))
        } else if kind_at(toks, j, Token::KwOtherwise) {
            match otherwise_rule(src, toks, j) {
                Err(e) => Err(e),
                Ok((b, t1, m)) => {
                    let m2 = skip_nl(t1, m);
                    if dec(t1, m2, toks, i) {
                        prio_items(src, t1, m2, arms, Some(b))
                    } else {
                        tstuck(src, toks, i)
                    }
                },
            }
        } else {
            match when_arm_rule(src, toks, j) {
                Err(e) => Err(e),
                Ok((arm, t1, m)) => {
                    let m2 = skip_nl(t1, m);
                    if dec(t1, m2, toks, i) {
                        prio_items(src, t1, m2, arms.push(arm), oth)
                    } else {
                        tstuck(src, toks, i)
                    }
                },
            }
        }
    }
}

/// `priority:` then `when cond => stmt` arms and an optional
/// `otherwise => stmt`, at `i`.
pub open spec fn priority_rule(src: Seq<u8>, toks: Seq<Spanned<Token>>, i: int) -> TOutcome<StmtView>
    decreases meas(toks, i), 1nat,
{
    let start = span_at(src, toks, i);
    match expect_rule(src, toks, i, Token::KwPriority) {
        Err(e) => Err(e),
        Ok((_, a)) => match open_block(src, toks, a) {
            Err(e) => Err(e),
            Ok((_, b)) => if !dec(toks, b, toks, i) {
                tstuck(src, toks, i)
            } else {
                match prio_items(src, toks, b, seq![], None) {
                    Err(e) => Err(e),
                    Ok(((arms, otherwise), t1, c)) => match expect_rule(src, t1, c, Token::Dedent) {
                        Err(e) => Err(e),
                        Ok((_, d)) => Ok((sv(SNode::PriorityBlock { arms, otherwise }, start, src, t1, d), t1, d)),
                    },
                }
            },
        },
    }
}

/// The `when` arms of a parallel block from `i`, after those in `arms`: line
/// breaks skipped, up to a `Dedent` or the end.
pub open spec fn par_items(src: Seq<u8>, toks: Seq<Spanned<Token>>, i: int, arms: Seq<ArmView>) -> TOutcome<Seq<ArmView>>
    decreases meas(toks, i), 1nat,
{
    if kind_at(toks, i, Token::Dedent) || i >= toks.len() || i < 0 {
        Ok((arms, toks, i))
    } else {
        let j = skip_nl(toks, i);
        if !(i <= j <= toks.len() && meas(toks, j) <= meas(toks, i)) {
            tstuck(src, toks, i)
        } else if kind_at(toks, j, Token::Dedent) || j >= toks.len() {
            Ok((arms, toks, j))
        } else {
            match when_arm_rule(src, toks, j) {
                Err(e) => Err(e),
                Ok((arm, t1, m)) => {
                    let m2 = skip_nl(t1, m);
                    if dec(t1, m2, toks, i) {
                        par_items(src, t1, m2, arms.push(arm))
                    } else {
                        tstuck(src, toks, i)
                    }
                },
            }
        }
    }
}

/// `parallel[(safe)]:` then `when cond => stmt` arms, at `i`.
pub open spec fn parallel_rule(src: Seq<u8>, toks: Seq<Spanned<Token>>, i: int) -> TOutcome<StmtView>
    decreases meas(toks, i), 1nat,
{
    let start = span_at(src, toks, i);
    match expect_rule(src, toks, i, Token::KwParallel) {
        Err(e) => Err(e),
        Ok((_, a)) => {
            let sf: super::grammar::Outcome<Option<ExprView>> = if kind_at(toks, a, Token::LParen) {
                match maybe_named_rule(src, toks, a + 1) {
                    Err(x) => Err(x),
                    Ok((v, b)) => match expect_rule(src, toks, b, Token::RParen) {
                        Err(x) => Err(x),
                        Ok((_, c)) => Ok((Some(v), c)),
                    },
                }
            } else {
                Ok((None, a))
            };
            match sf {
                Err(x) => Err(x),
                Ok((safe, c)) => match open_block(src, toks, c) {
                    Err(x) => Err(x),
                    Ok((_, d)) => if !dec(toks, d, toks, i) {
                        tstuck(src, toks, i)
                    } else {
                        match par_items(src, toks, d, seq![]) {
                            Err(x) => Err(x),
                            Ok((arms, t1, f)) => match expect_rule(src, t1, f, Token::Dedent) {
                                Err(x) => Err(x),
                                Ok((_, g)) => Ok((sv(SNode::ParallelBlock { safe, arms }, start, src, t1, g), t1, g)),
                            },
                        }
                    },
                },
            }
        },
    }
}

/// `unchecked:` then a block, or `unchecked(expr)` as an expression
/// statement, at `i`.
pub open spec fn unchecked_rule(src: Seq<u8>, toks: Seq<Spanned<Token>>, i: int) -> TOutcome<StmtView>
    decreases meas(toks, i), 1nat,
{
    let start = span_at(src, toks, i);
    match expect_rule(src, toks, i, Token::KwUnchecked) {
        Err(e) => Err(e),
        Ok((_, a)) => if kind_at(toks, a, Token::Colon) {
            if !dec(toks, a, toks, i) {
                tstuck(src, toks, i)
            } else {
                match block_rule(src, toks, a) {
                    Err(e) => Err(e),
                    Ok((body, t1, f)) => Ok((sv(SNode::UncheckedBlock(body), start, src, t1, f), t1, f)),
                }
            }
        } else if kind_at(toks, a, Token::LParen) {
            match expr_rule(src, toks, a + 1, false) {
                Err(e) => Err(e),
                Ok((inner, b)) => match expect_rule(src, toks, b, Token::RParen) {
                    Err(e) => Err(e),
                    Ok((_, c)) => {
                        let sp = start.spec_merge(prev_span_at(src, toks, c));
                        Ok((StmtView { node: SNode::ExprStmt(mk(NodeView::Unchecked(Box::new(inner)), sp)), span: sp }, toks, c))
                    },
                },
            }
        } else {
            Err(("expected ':' or '(' after 'unchecked'"@, span_at(src, toks, a)))
        },
    }
}

/// A parsed statement, with the tokens `toks` and position `pos` after it,
/// agrees with the outcome `o`.
pub open spec fn stmt_outcome(r: Result<Stmt, super::ParseError>, toks: Seq<Spanned<Token>>, pos: int, o: TOutcome<StmtView>) -> bool {
    match r {
        Ok(s) => o == Ok::<(StmtView, Seq<Spanned<Token>>, int), (Seq<char>, Span)>((stmt_view(s), toks, pos)),
        Err(e) => o == Err::<(StmtView, Seq<Spanned<Token>>, int), (Seq<char>, Span)>((e.message@, e.span)),
    }
}

/// Parsed statements, with the tokens `toks` and position `pos` after them,
/// agree with the outcome `o`.
pub open spec fn stmts_outcome(
    r: Result<Vec<Stmt>, super::ParseError>,
    toks: Seq<Spanned<Token>>,
    pos: int,
    o: TOutcome<Seq<StmtView>>,
) -> bool {
    match r {
        Ok(v) => o == Ok::<(Seq<StmtView>, Seq<Spanned<Token>>, int), (Seq<char>, Span)>((stmts_view(v@), toks, pos)),
        Err(e) => o == Err::<(Seq<StmtView>, Seq<Spanned<Token>>, int), (Seq<char>, Span)>((e.message@, e.span)),
    }
}

/// The views of a list of statements grow by one view with the list.
pub proof fn lemma_stmts_view_push(v: Seq<Stmt>, x: Stmt)
    ensures
        stmts_view(v.push(x)) == stmts_view(v).push(stmt_view(x)),
{
    assert(v.push(x).subrange(0, v.len() as int) =~= v);
}

/// The views of the `elif` branches grow by one view with the list.
pub proof fn lemma_elifs_view_push(v: Seq<(Expr, Vec<Stmt>)>, x: (Expr, Vec<Stmt>))
    ensures
        elifs_view(v.push(x)) == elifs_view(v).push((expr_view(x.0), stmts_view(x.1@))),
{
    assert(v.push(x).subrange(0, v.len() as int) =~= v);
}

/// The views of match arms grow by one view with the list.
pub proof fn lemma_match_arms_view_push(v: Seq<MatchArm>, x: MatchArm)
    ensures
        match_arms_view(v.push(x)) == match_arms_view(v).push(
            ArmView { guard: expr_view(x.pattern), body: stmts_view(x.body@), span: x.span },
        ),
{
    assert(v.push(x).subrange(0, v.len() as int) =~= v);
}

/// The views of `when` arms grow by one view with the list.
pub proof fn lemma_when_arms_view_push(v: Seq<PriorityArm>, x: PriorityArm)
    ensures
        when_arms_view(v.push(x)) == when_arms_view(v).push(
            ArmView { guard: expr_view(x.condition), body: stmts_view(x.body@), span: x.span },
        ),
{
    assert(v.push(x).subrange(0, v.len() as int) =~= v);
}

} // verus!
