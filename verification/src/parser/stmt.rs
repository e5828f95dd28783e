//! Statements.

use vstd::prelude::*;

use crate::ast::expr::{Expr, ExprKind};
use crate::ast::stmt::{
    AssertStmt, ConstDecl, ForStmt, IfStmt, LetDecl, MatchArm, MatchStmt, ParallelBlock,
    PriorityArm, PriorityBlock, RegBlock, SignalDecl, Stmt, StmtKind, TypeAliasDecl,
};
use crate::ast::Ident;
use crate::lexer::Token;
use crate::span::{Span, Spanned};

use super::expr::parse_expr;
use super::grammar::{expr_view, lemma_skip_nl, ExprView, NameView, Outcome};
use super::stmt_grammar::{
    alias_rule, arm_body_rule, assert_rule, assign_rule, assume_rule, binding_rule, block_rule, comb_rule,
    cover_rule, elif_rule, elifs_rule, elifs_view, for_rule, if_stmt_rule, lemma_elifs_view_push,
    lemma_match_arms_view_push, lemma_stmts_view_push, lemma_when_arms_view_push, match_arm_rule, match_arms_view,
    match_items, match_rule, opt_domain_rule, opt_name_view, opt_stmts_view, otherwise_rule, par_items, parallel_rule,
    prio_items, priority_rule, reg_items, reg_rule, reg_section_rule, signal_rule, static_assert_rule, stmt_items,
    stmt_outcome, stmt_rule, stmt_view, stmts_outcome, stmts_view, to_dedent_rule, unchecked_rule,
    when_arm_rule, when_arms_view, ArmView, StmtView,
};
use super::type_grammar::{meas, TOutcome};
use super::types::{parse_generic_params, parse_type_expr};
use super::{ParseError, Parser};

verus! {

broadcast use super::lemma_moved_on_progress;

/// Parse a statement; its first token selects the kind of statement.
pub fn parse_stmt(p: &mut Parser<'_>) -> (r: Result<Stmt, ParseError>)
    requires
        old(p).wf(),
    ensures
        final(p).progressed(*old(p)),
        r is Ok ==> final(p).measure() < old(p).measure(),
        stmt_outcome(r, final(p).spec_tokens(), final(p).spec_pos(), stmt_rule(old(p).spec_source(), old(p).spec_tokens(), old(p).spec_pos())),
    decreases old(p).measure(), 3nat,
{
    let cur = p.peek_token();
    match cur {
        Some(Token::KwSignal) => parse_signal_decl(p),
        Some(Token::KwLet) => parse_let_decl(p),
        Some(Token::KwConst) => parse_const_decl(p),
        Some(Token::KwType) => parse_type_alias(p),
        Some(Token::KwIf) => parse_if_stmt(p),
        Some(Token::KwMatch) => parse_match_stmt(p),
        Some(Token::KwFor) => parse_for_stmt(p),
        Some(Token::KwComb) => parse_comb_block(p),
        Some(Token::KwReg) => parse_reg_block(p),
        Some(Token::KwPriority) => parse_priority_block(p),
        Some(Token::KwParallel) => parse_parallel_block(p),
        Some(Token::KwAssert) => parse_assert_stmt(p),
        Some(Token::KwAssume) => parse_assume_stmt(p),
        Some(Token::KwCover) => parse_cover_stmt(p),
        Some(Token::KwStaticAssert) => parse_static_assert(p),
        Some(Token::KwUnchecked) => parse_unchecked(p),
        _ => parse_assign_or_expr_stmt(p),
    }
}

/// Statements up to a `Dedent` or the end; line breaks between them are
/// skipped.
fn parse_stmt_items(p: &mut Parser<'_>) -> (r: Result<Vec<Stmt>, ParseError>)
    requires
        old(p).wf(),
    ensures
        final(p).progressed(*old(p)),
        stmts_outcome(
            r,
            final(p).spec_tokens(),
            final(p).spec_pos(),
            stmt_items(old(p).spec_source(), old(p).spec_tokens(), old(p).spec_pos(), seq![]),
        ),
    decreases old(p).measure(), 5nat,
{
    let ghost src = p.spec_source();
    let ghost toks = p.spec_tokens();
    let ghost i = p.spec_pos();
    let mut stmts: Vec<Stmt> = Vec::new();
    proof {
        assert(stmts_view(stmts@) =~= Seq::<StmtView>::empty());
    }
    loop
        invariant_except_break
            old(p).wf(),
            p.progressed(*old(p)),
            src == old(p).spec_source(),
            toks == old(p).spec_tokens(),
            i == old(p).spec_pos(),
            stmt_items(src, toks, i, seq![]) == stmt_items(src, p.spec_tokens(), p.spec_pos(), stmts_view(stmts@)),
        ensures
            p.progressed(*old(p)),
            stmt_items(src, toks, i, seq![]) == Ok::<(Seq<StmtView>, Seq<Spanned<Token>>, int), (Seq<char>, Span)>(
                (stmts_view(stmts@), p.spec_tokens(), p.spec_pos()),
            ),
        decreases p.measure(),
    {
        if p.check(Token::Dedent) || p.is_at_end() {
            break;
        }
        let ghost tk = p.spec_tokens();
        let ghost here = p.spec_pos();
        p.skip_newlines();
        proof {
            lemma_skip_nl(tk, here, p.spec_pos());
        }
        if p.check(Token::Dedent) || p.is_at_end() {
            break;
        }
        let s = match parse_stmt(p) {
            Ok(x) => x,
            Err(e) => {
                proof {
                    assert(stmt_items(src, tk, here, stmts_view(stmts@)) == Err::<
                        (Seq<StmtView>, Seq<Spanned<Token>>, int),
                        (Seq<char>, Span),
                    >((e.message@, e.span)));
                }
                return Err(e);
            },
        };
        proof {
            lemma_stmts_view_push(stmts@, s);
        }
        stmts.push(s);
        let ghost t1 = p.spec_tokens();
        let ghost k = p.spec_pos();
        p.skip_newlines();
        proof {
            lemma_skip_nl(t1, k, p.spec_pos());
        }
    }
    Ok(stmts)
}

/// Statements up to and including the `Dedent` that closes their block;
/// line breaks between them are skipped.
fn parse_stmts_to_dedent(p: &mut Parser<'_>) -> (r: Result<Vec<Stmt>, ParseError>)
    requires
        old(p).wf(),
    ensures
        final(p).progressed(*old(p)),
        r is Ok ==> final(p).measure() < old(p).measure(),
        stmts_outcome(r, final(p).spec_tokens(), final(p).spec_pos(), to_dedent_rule(old(p).spec_source(), old(p).spec_tokens(), old(p).spec_pos())),
    decreases old(p).measure(), 6nat,
{
    let stmts = parse_stmt_items(p)?;
    p.expect_token(Token::Dedent)?;
    Ok(stmts)
}

/// `:`, line breaks, then an indented block of statements.
fn parse_stmt_block(p: &mut Parser<'_>) -> (r: Result<Vec<Stmt>, ParseError>)
    requires
        old(p).wf(),
    ensures
        final(p).progressed(*old(p)),
        r is Ok ==> final(p).measure() < old(p).measure(),
        stmts_outcome(r, final(p).spec_tokens(), final(p).spec_pos(), block_rule(old(p).spec_source(), old(p).spec_tokens(), old(p).spec_pos())),
    decreases old(p).measure(), 7nat,
{
    let ghost toks = p.spec_tokens();
    p.expect_token(Token::Colon)?;
    let ghost a = p.spec_pos();
    p.skip_newlines();
    proof {
        lemma_skip_nl(toks, a, p.spec_pos());
    }
    p.expect_token(Token::Indent)?;
    parse_stmts_to_dedent(p)
}

/// An optional `@ domain` annotation.
fn parse_opt_domain(p: &mut Parser<'_>) -> (r: Result<Option<Ident>, ParseError>)
    requires
        old(p).wf(),
    ensures
        final(p).progressed(*old(p)),
        final(p).moved_on(*old(p)),
        match r {
            Ok(d) => opt_domain_rule(old(p).spec_source(), old(p).spec_tokens(), old(p).spec_pos()) == Ok::<
                (Option<NameView>, int),
                (Seq<char>, Span),
            >((opt_name_view(d), final(p).spec_pos())),
            Err(e) => opt_domain_rule(old(p).spec_source(), old(p).spec_tokens(), old(p).spec_pos()) == Err::<
                (Option<NameView>, int),
                (Seq<char>, Span),
            >((e.message@, e.span)),
        },
{
    if p.eat(Token::At).is_some() {
        Ok(Some(p.expect_ident()?))
    } else {
        Ok(None)
    }
}

/// `signal name: Type [@ domain] [= init]`
fn parse_signal_decl(p: &mut Parser<'_>) -> (r: Result<Stmt, ParseError>)
    requires
        old(p).wf(),
    ensures
        final(p).progressed(*old(p)),
        r is Ok ==> final(p).measure() < old(p).measure(),
        stmt_outcome(r, final(p).spec_tokens(), final(p).spec_pos(), signal_rule(old(p).spec_source(), old(p).spec_tokens(), old(p).spec_pos())),
{
    let start = p.peek_span();
    p.expect_token(Token::KwSignal)?;
    let name = p.expect_ident()?;
    p.expect_token(Token::Colon)?;
    let ty = parse_type_expr(p)?;
    let domain = parse_opt_domain(p)?;
    let init = if p.eat(Token::Eq).is_some() {
        Some(parse_expr(p)?)
    } else {
        None
    };
    Ok(Spanned::new(StmtKind::Signal(SignalDecl { name, ty, domain, init }), start.merge(p.prev_span())))
}

/// `let name [: Type] = value`
fn parse_let_decl(p: &mut Parser<'_>) -> (r: Result<Stmt, ParseError>)
    requires
        old(p).wf(),
    ensures
        final(p).progressed(*old(p)),
        r is Ok ==> final(p).measure() < old(p).measure(),
        stmt_outcome(r, final(p).spec_tokens(), final(p).spec_pos(), binding_rule(old(p).spec_source(), old(p).spec_tokens(), old(p).spec_pos(), true)),
{
    let start = p.peek_span();
    p.expect_token(Token::KwLet)?;
    let name = p.expect_ident()?;
    let ty = if p.eat(Token::Colon).is_some() {
        Some(parse_type_expr(p)?)
    } else {
        None
    };
    p.expect_token(Token::Eq)?;
    let value = parse_expr(p)?;
    Ok(Spanned::new(StmtKind::Let(LetDecl { name, ty, value }), start.merge(p.prev_span())))
}

/// `const name [: Type] = value`
fn parse_const_decl(p: &mut Parser<'_>) -> (r: Result<Stmt, ParseError>)
    requires
        old(p).wf(),
    ensures
        final(p).progressed(*old(p)),
        r is Ok ==> final(p).measure() < old(p).measure(),
        stmt_outcome(r, final(p).spec_tokens(), final(p).spec_pos(), binding_rule(old(p).spec_source(), old(p).spec_tokens(), old(p).spec_pos(), false)),
{
    let start = p.peek_span();
    p.expect_token(Token::KwConst)?;
    let name = p.expect_ident()?;
    let ty = if p.eat(Token::Colon).is_some() {
        Some(parse_type_expr(p)?)
    } else {
        None
    };
    p.expect_token(Token::Eq)?;
    let value = parse_expr(p)?;
    Ok(Spanned::new(StmtKind::Const(ConstDecl { name, ty, value }), start.merge(p.prev_span())))
}

/// `type Name[<generics>] = Type`
fn parse_type_alias(p: &mut Parser<'_>) -> (r: Result<Stmt, ParseError>)
    requires
        old(p).wf(),
    ensures
        final(p).progressed(*old(p)),
        r is Ok ==> final(p).measure() < old(p).measure(),
        stmt_outcome(r, final(p).spec_tokens(), final(p).spec_pos(), alias_rule(old(p).spec_source(), old(p).spec_tokens(), old(p).spec_pos())),
{
    let start = p.peek_span();
    p.expect_token(Token::KwType)?;
    let name = p.expect_ident()?;
    let generics = parse_generic_params(p)?;
    p.expect_token(Token::Eq)?;
    let ty = parse_type_expr(p)?;
    Ok(Spanned::new(StmtKind::TypeAlias(TypeAliasDecl { name, generics, ty }), start.merge(p.prev_span())))
}

/// `target = value`, or an expression on its own.
fn parse_assign_or_expr_stmt(p: &mut Parser<'_>) -> (r: Result<Stmt, ParseError>)
    requires
        old(p).wf(),
    ensures
        final(p).progressed(*old(p)),
        r is Ok ==> final(p).measure() < old(p).measure(),
        stmt_outcome(r, final(p).spec_tokens(), final(p).spec_pos(), assign_rule(old(p).spec_source(), old(p).spec_tokens(), old(p).spec_pos())),
{
    let start = p.peek_span();
    let lhs = parse_expr(p)?;
    if p.eat(Token::Eq).is_some() {
        let rhs = parse_expr(p)?;
        Ok(Spanned::new(StmtKind::Assign { target: lhs, value: rhs }, start.merge(p.prev_span())))
    } else {
        let sp = lhs.span;
        Ok(Spanned::new(StmtKind::ExprStmt(lhs), sp))
    }
}

/// One `elif cond: block` branch; the `elif` is the next token.
fn parse_elif(p: &mut Parser<'_>) -> (r: Result<(Expr, Vec<Stmt>), ParseError>)
    requires
        old(p).wf(),
        old(p).checks(Token::KwElif),
    ensures
        final(p).progressed(*old(p)),
        r is Ok ==> final(p).measure() < old(p).measure(),
        match r {
            Ok(br) => elif_rule(old(p).spec_source(), old(p).spec_tokens(), old(p).spec_pos()) == Ok::<
                ((ExprView, Seq<StmtView>), Seq<Spanned<Token>>, int),
                (Seq<char>, Span),
            >(((expr_view(br.0), stmts_view(br.1@)), final(p).spec_tokens(), final(p).spec_pos())),
            Err(e) => elif_rule(old(p).spec_source(), old(p).spec_tokens(), old(p).spec_pos()) == Err::<
                ((ExprView, Seq<StmtView>), Seq<Spanned<Token>>, int),
                (Seq<char>, Span),
            >((e.message@, e.span)),
        },
    decreases old(p).measure(), 0nat,
{
    p.advance();
    let c = parse_expr(p)?;
    let b = parse_stmt_block(p)?;
    Ok((c, b))
}

/// `elif cond: block` branches while an `elif` comes next.
fn parse_elifs(p: &mut Parser<'_>) -> (r: Result<Vec<(Expr, Vec<Stmt>)>, ParseError>)
    requires
        old(p).wf(),
    ensures
        final(p).progressed(*old(p)),
        match r {
            Ok(v) => elifs_rule(old(p).spec_source(), old(p).spec_tokens(), old(p).spec_pos(), seq![]) == Ok::<
                (Seq<(ExprView, Seq<StmtView>)>, Seq<Spanned<Token>>, int),
                (Seq<char>, Span),
            >((elifs_view(v@), final(p).spec_tokens(), final(p).spec_pos())),
            Err(e) => elifs_rule(old(p).spec_source(), old(p).spec_tokens(), old(p).spec_pos(), seq![]) == Err::<
                (Seq<(ExprView, Seq<StmtView>)>, Seq<Spanned<Token>>, int),
                (Seq<char>, Span),
            >((e.message@, e.span)),
        },
    decreases old(p).measure(), 1nat,
{
    let ghost src = p.spec_source();
    let ghost toks = p.spec_tokens();
    let ghost i = p.spec_pos();
    let mut branches: Vec<(Expr, Vec<Stmt>)> = Vec::new();
    proof {
        assert(elifs_view(branches@) =~= Seq::<(ExprView, Seq<StmtView>)>::empty());
    }
    loop
        invariant
            old(p).wf(),
            p.progressed(*old(p)),
            src == old(p).spec_source(),
            toks == old(p).spec_tokens(),
            i == old(p).spec_pos(),
            elifs_rule(src, toks, i, seq![]) == elifs_rule(src, p.spec_tokens(), p.spec_pos(), elifs_view(branches@)),
        ensures
            p.progressed(*old(p)),
            elifs_rule(src, toks, i, seq![]) == Ok::<
                (Seq<(ExprView, Seq<StmtView>)>, Seq<Spanned<Token>>, int),
                (Seq<char>, Span),
            >((elifs_view(branches@), p.spec_tokens(), p.spec_pos())),
        decreases p.measure(),
    {
        if !p.check(Token::KwElif) {
            break;
        }
        let ghost tk = p.spec_tokens();
        let ghost here = p.spec_pos();
        let br = match parse_elif(p) {
            Ok(x) => x,
            Err(e) => {
                proof {
                    assert(elifs_rule(src, tk, here, elifs_view(branches@)) == Err::<
                        (Seq<(ExprView, Seq<StmtView>)>, Seq<Spanned<Token>>, int),
                        (Seq<char>, Span),
                    >((e.message@, e.span)));
                }
                return Err(e);
            },
        };
        proof {
            lemma_elifs_view_push(branches@, br);
        }
        branches.push(br);
    }
    Ok(branches)
}

/// `if cond: block`, any `elif cond: block`, then an optional `else: block`.
fn parse_if_stmt(p: &mut Parser<'_>) -> (r: Result<Stmt, ParseError>)
    requires
        old(p).wf(),
    ensures
        final(p).progressed(*old(p)),
        r is Ok ==> final(p).measure() < old(p).measure(),
        stmt_outcome(r, final(p).spec_tokens(), final(p).spec_pos(), if_stmt_rule(old(p).spec_source(), old(p).spec_tokens(), old(p).spec_pos())),
    decreases old(p).measure(), 2nat,
{
    let start = p.peek_span();
    p.expect_token(Token::KwIf)?;
    let condition = parse_expr(p)?;
    let then_body = parse_stmt_block(p)?;
    let elif_branches = parse_elifs(p)?;
    let else_body = if p.eat(Token::KwElse).is_some() {
        Some(parse_stmt_block(p)?)
    } else {
        None
    };
    Ok(
        Spanned::new(
            StmtKind::If(IfStmt { condition, then_body, elif_branches, else_body }),
            start.merge(p.prev_span()),
        ),
    )
}

/// The body of a match arm after `=>`: a `:` block, an indented block on the
/// next lines, or one statement.
fn parse_arm_body(p: &mut Parser<'_>) -> (r: Result<Vec<Stmt>, ParseError>)
    requires
        old(p).wf(),
    ensures
        final(p).progressed(*old(p)),
        r is Ok ==> final(p).measure() < old(p).measure(),
        stmts_outcome(r, final(p).spec_tokens(), final(p).spec_pos(), arm_body_rule(old(p).spec_source(), old(p).spec_tokens(), old(p).spec_pos())),
    decreases old(p).measure(), 8nat,
{
    let ghost toks = p.spec_tokens();
    let ghost i = p.spec_pos();
    if p.check(Token::Newline) || p.check(Token::Colon) {
        if p.check(Token::Colon) {
            parse_stmt_block(p)
        } else {
            p.skip_newlines();
            proof {
                lemma_skip_nl(toks, i, p.spec_pos());
            }
            if p.check(Token::Indent) {
                p.advance();
                parse_stmts_to_dedent(p)
            } else {
                let s = parse_stmt(p)?;
                let mut v: Vec<Stmt> = Vec::new();
                v.push(s);
                proof {
                    lemma_stmts_view_push(Seq::<Stmt>::empty(), s);
                    assert(Seq::<Stmt>::empty().push(s) =~= v@);
                    assert(stmts_view(Seq::<Stmt>::empty()) =~= Seq::<StmtView>::empty());
                    assert(Seq::<StmtView>::empty().push(stmt_view(s)) =~= seq![stmt_view(s)]);
                }
                Ok(v)
            }
        }
    } else {
        let s = parse_stmt(p)?;
        let mut v: Vec<Stmt> = Vec::new();
        v.push(s);
        proof {
            lemma_stmts_view_push(Seq::<Stmt>::empty(), s);
            assert(Seq::<Stmt>::empty().push(s) =~= v@);
            assert(stmts_view(Seq::<Stmt>::empty()) =~= Seq::<StmtView>::empty());
            assert(Seq::<StmtView>::empty().push(stmt_view(s)) =~= seq![stmt_view(s)]);
        }
        Ok(v)
    }
}

/// One `pattern => body` arm of a `match`.
fn parse_match_arm(p: &mut Parser<'_>) -> (r: Result<MatchArm, ParseError>)
    requires
        old(p).wf(),
    ensures
        final(p).progressed(*old(p)),
        r is Ok ==> final(p).measure() < old(p).measure(),
        match r {
            Ok(a) => match_arm_rule(old(p).spec_source(), old(p).spec_tokens(), old(p).spec_pos()) == Ok::<
                (ArmView, Seq<Spanned<Token>>, int),
                (Seq<char>, Span),
            >((ArmView { guard: expr_view(a.pattern), body: stmts_view(a.body@), span: a.span }, final(p).spec_tokens(), final(p).spec_pos())),
            Err(e) => match_arm_rule(old(p).spec_source(), old(p).spec_tokens(), old(p).spec_pos()) == Err::<
                (ArmView, Seq<Spanned<Token>>, int),
                (Seq<char>, Span),
            >((e.message@, e.span)),
        },
    decreases old(p).measure(), 0nat,
{
    let arm_start = p.peek_span();
    let pattern = parse_expr(p)?;
    p.expect_token(Token::FatArrow)?;
    let body = parse_arm_body(p)?;
    Ok(MatchArm { pattern, body, span: arm_start.merge(p.prev_span()) })
}

/// The arms of a `match` up to a `Dedent` or the end; line breaks between
/// them are skipped.
fn parse_match_arms(p: &mut Parser<'_>) -> (r: Result<Vec<MatchArm>, ParseError>)
    requires
        old(p).wf(),
    ensures
        final(p).progressed(*old(p)),
        match r {
            Ok(v) => match_items(old(p).spec_source(), old(p).spec_tokens(), old(p).spec_pos(), seq![]) == Ok::<
                (Seq<ArmView>, Seq<Spanned<Token>>, int),
                (Seq<char>, Span),
            >((match_arms_view(v@), final(p).spec_tokens(), final(p).spec_pos())),
            Err(e) => match_items(old(p).spec_source(), old(p).spec_tokens(), old(p).spec_pos(), seq![]) == Err::<
                (Seq<ArmView>, Seq<Spanned<Token>>, int),
                (Seq<char>, Span),
            >((e.message@, e.span)),
        },
    decreases old(p).measure(), 1nat,
{
    let ghost src = p.spec_source();
    let ghost toks = p.spec_tokens();
    let ghost i = p.spec_pos();
    let mut arms: Vec<MatchArm> = Vec::new();
    proof {
        assert(match_arms_view(arms@) =~= Seq::<ArmView>::empty());
    }
    loop
        invariant_except_break
            old(p).wf(),
            p.progressed(*old(p)),
            src == old(p).spec_source(),
            toks == old(p).spec_tokens(),
            i == old(p).spec_pos(),
            match_items(src, toks, i, seq![]) == match_items(src, p.spec_tokens(), p.spec_pos(), match_arms_view(arms@)),
        ensures
            p.progressed(*old(p)),
            match_items(src, toks, i, seq![]) == Ok::<(Seq<ArmView>, Seq<Spanned<Token>>, int), (Seq<char>, Span)>(
                (match_arms_view(arms@), p.spec_tokens(), p.spec_pos()),
            ),
        decreases p.measure(),
    {
        if p.check(Token::Dedent) || p.is_at_end() {
            break;
        }
        let ghost tk = p.spec_tokens();
        let ghost here = p.spec_pos();
        p.skip_newlines();
        proof {
            lemma_skip_nl(tk, here, p.spec_pos());
        }
        if p.check(Token::Dedent) || p.is_at_end() {
            break;
        }
        let arm = match parse_match_arm(p) {
            Ok(x) => x,
            Err(e) => {
                proof {
                    assert(match_items(src, tk, here, match_arms_view(arms@)) == Err::<
                        (Seq<ArmView>, Seq<Spanned<Token>>, int),
                        (Seq<char>, Span),
                    >((e.message@, e.span)));
                }
                return Err(e);
            },
        };
        proof {
            lemma_match_arms_view_push(arms@, arm);
        }
        arms.push(arm);
        let ghost t1 = p.spec_tokens();
        let ghost k = p.spec_pos();
        p.skip_newlines();
        proof {
            lemma_skip_nl(t1, k, p.spec_pos());
        }
    }
    Ok(arms)
}

/// `:`, line breaks and an `Indent`: the opening of an indented block.
fn open_indented(p: &mut Parser<'_>) -> (r: Result<(), ParseError>)
    requires
        old(p).wf(),
    ensures
        final(p).progressed(*old(p)),
        final(p).moved_on(*old(p)),
        r is Ok ==> final(p).measure() < old(p).measure(),
        match r {
            Ok(_) => super::stmt_grammar::open_block(old(p).spec_source(), old(p).spec_tokens(), old(p).spec_pos()) == Ok::<
                ((), int),
                (Seq<char>, Span),
            >(((), final(p).spec_pos())),
            Err(e) => super::stmt_grammar::open_block(old(p).spec_source(), old(p).spec_tokens(), old(p).spec_pos()) == Err::<
                ((), int),
                (Seq<char>, Span),
            >((e.message@, e.span)),
        },
{
    let ghost toks = p.spec_tokens();
    p.expect_token(Token::Colon)?;
    let ghost a = p.spec_pos();
    p.skip_newlines();
    proof {
        lemma_skip_nl(toks, a, p.spec_pos());
    }
    p.expect_token(Token::Indent)?;
    Ok(())
}

/// `match scrutinee:` then an indented list of `pattern => body` arms.
fn parse_match_stmt(p: &mut Parser<'_>) -> (r: Result<Stmt, ParseError>)
    requires
        old(p).wf(),
    ensures
        final(p).progressed(*old(p)),
        r is Ok ==> final(p).measure() < old(p).measure(),
        stmt_outcome(r, final(p).spec_tokens(), final(p).spec_pos(), match_rule(old(p).spec_source(), old(p).spec_tokens(), old(p).spec_pos())),
    decreases old(p).measure(), 2nat,
{
    let start = p.peek_span();
    p.expect_token(Token::KwMatch)?;
    let scrutinee = parse_expr(p)?;
    open_indented(p)?;
    let arms = parse_match_arms(p)?;
    p.expect_token(Token::Dedent)?;
    Ok(Spanned::new(StmtKind::Match(MatchStmt { scrutinee, arms }), start.merge(p.prev_span())))
}

/// `for var in iterable: block`
fn parse_for_stmt(p: &mut Parser<'_>) -> (r: Result<Stmt, ParseError>)
    requires
        old(p).wf(),
    ensures
        final(p).progressed(*old(p)),
        r is Ok ==> final(p).measure() < old(p).measure(),
        stmt_outcome(r, final(p).spec_tokens(), final(p).spec_pos(), for_rule(old(p).spec_source(), old(p).spec_tokens(), old(p).spec_pos())),
    decreases old(p).measure(), 2nat,
{
    let start = p.peek_span();
    p.expect_token(Token::KwFor)?;
    let var = p.expect_ident()?;
    p.expect_token(Token::KwIn)?;
    let iterable = parse_expr(p)?;
    let body = parse_stmt_block(p)?;
    Ok(Spanned::new(StmtKind::For(ForStmt { var, iterable, body }), start.merge(p.prev_span())))
}

/// `comb: block`
fn parse_comb_block(p: &mut Parser<'_>) -> (r: Result<Stmt, ParseError>)
    requires
        old(p).wf(),
    ensures
        final(p).progressed(*old(p)),
        r is Ok ==> final(p).measure() < old(p).measure(),
        stmt_outcome(r, final(p).spec_tokens(), final(p).spec_pos(), comb_rule(old(p).spec_source(), old(p).spec_tokens(), old(p).spec_pos())),
    decreases old(p).measure(), 2nat,
{
    let start = p.peek_span();
    p.expect_token(Token::KwComb)?;
    let stmts = parse_stmt_block(p)?;
    Ok(Spanned::new(StmtKind::CombBlock(stmts), start.merge(p.prev_span())))
}

/// An expression, or `name = expr` of which the name is dropped.
fn parse_maybe_named_expr(p: &mut Parser<'_>) -> (r: Result<Expr, ParseError>)
    requires
        old(p).wf(),
    ensures
        final(p).progressed(*old(p)),
        final(p).moved_on(*old(p)),
        r is Ok ==> final(p).measure() < old(p).measure(),
        super::grammar::expr_outcome(
            r,
            final(p).spec_pos(),
            super::stmt_grammar::maybe_named_rule(old(p).spec_source(), old(p).spec_tokens(), old(p).spec_pos()),
        ),
{
    if p.check_ident() {
        let saved = p.position();
        p.advance();
        if p.eat(Token::Eq).is_some() {
            parse_expr(p)
        } else {
            p.rewind(saved);
            parse_expr(p)
        }
    } else {
        parse_expr(p)
    }
}

/// One `on reset: block` or `on tick: block` section, with whether it is the
/// reset one.
fn parse_reg_section(p: &mut Parser<'_>) -> (r: Result<(bool, Vec<Stmt>), ParseError>)
    requires
        old(p).wf(),
    ensures
        final(p).progressed(*old(p)),
        r is Ok ==> final(p).measure() < old(p).measure(),
        match r {
            Ok(sec) => reg_section_rule(old(p).spec_source(), old(p).spec_tokens(), old(p).spec_pos()) == Ok::<
                ((bool, Seq<StmtView>), Seq<Spanned<Token>>, int),
                (Seq<char>, Span),
            >(((sec.0, stmts_view(sec.1@)), final(p).spec_tokens(), final(p).spec_pos())),
            Err(e) => reg_section_rule(old(p).spec_source(), old(p).spec_tokens(), old(p).spec_pos()) == Err::<
                ((bool, Seq<StmtView>), Seq<Spanned<Token>>, int),
                (Seq<char>, Span),
            >((e.message@, e.span)),
        },
    decreases old(p).measure(), 0nat,
{
    p.expect_token(Token::KwOn)?;
    if p.check(Token::KwReset) {
        p.advance();
        let b = parse_stmt_block(p)?;
        Ok((true, b))
    } else if p.check(Token::KwTick) {
        p.advance();
        let b = parse_stmt_block(p)?;
        Ok((false, b))
    } else {
        Err(p.error("expected 'reset' or 'tick' after 'on'"))
    }
}

/// The `on reset:` and `on tick:` sections of a `reg` block up to a
/// `Dedent` or the end; the latest of each kind is kept.
fn parse_reg_sections(p: &mut Parser<'_>) -> (r: Result<(Vec<Stmt>, Vec<Stmt>), ParseError>)
    requires
        old(p).wf(),
    ensures
        final(p).progressed(*old(p)),
        match r {
            Ok(secs) => reg_items(old(p).spec_source(), old(p).spec_tokens(), old(p).spec_pos(), seq![], seq![]) == Ok::<
                ((Seq<StmtView>, Seq<StmtView>), Seq<Spanned<Token>>, int),
                (Seq<char>, Span),
            >(((stmts_view(secs.0@), stmts_view(secs.1@)), final(p).spec_tokens(), final(p).spec_pos())),
            Err(e) => reg_items(old(p).spec_source(), old(p).spec_tokens(), old(p).spec_pos(), seq![], seq![]) == Err::<
                ((Seq<StmtView>, Seq<StmtView>), Seq<Spanned<Token>>, int),
                (Seq<char>, Span),
            >((e.message@, e.span)),
        },
    decreases old(p).measure(), 1nat,
{
    let ghost src = p.spec_source();
    let ghost toks = p.spec_tokens();
    let ghost i = p.spec_pos();
    let mut on_reset: Vec<Stmt> = Vec::new();
    let mut on_tick: Vec<Stmt> = Vec::new();
    proof {
        assert(stmts_view(on_reset@) =~= Seq::<StmtView>::empty());
        assert(stmts_view(on_tick@) =~= Seq::<StmtView>::empty());
    }
    loop
        invariant_except_break
            old(p).wf(),
            p.progressed(*old(p)),
            src == old(p).spec_source(),
            toks == old(p).spec_tokens(),
            i == old(p).spec_pos(),
            reg_items(src, toks, i, seq![], seq![]) == reg_items(
                src,
                p.spec_tokens(),
                p.spec_pos(),
                stmts_view(on_reset@),
                stmts_view(on_tick@),
            ),
        ensures
            p.progressed(*old(p)),
            reg_items(src, toks, i, seq![], seq![]) == Ok::<
                ((Seq<StmtView>, Seq<StmtView>), Seq<Spanned<Token>>, int),
                (Seq<char>, Span),
            >(((stmts_view(on_reset@), stmts_view(on_tick@)), p.spec_tokens(), p.spec_pos())),
        decreases p.measure(),
    {
        if p.check(Token::Dedent) || p.is_at_end() {
            break;
        }
        let ghost tk = p.spec_tokens();
        let ghost here = p.spec_pos();
        p.skip_newlines();
        proof {
            lemma_skip_nl(tk, here, p.spec_pos());
        }
        if p.check(Token::Dedent) || p.is_at_end() {
            break;
        }
        let (is_reset, b) = match parse_reg_section(p) {
            Ok(x) => x,
            Err(e) => {
                proof {
                    assert(reg_items(src, tk, here, stmts_view(on_reset@), stmts_view(on_tick@)) == Err::<
                        ((Seq<StmtView>, Seq<StmtView>), Seq<Spanned<Token>>, int),
                        (Seq<char>, Span),
                    >((e.message@, e.span)));
                }
                return Err(e);
            },
        };
        if is_reset {
            on_reset = b;
        } else {
            on_tick = b;
        }
        let ghost t1 = p.spec_tokens();
        let ghost k = p.spec_pos();
        p.skip_newlines();
        proof {
            lemma_skip_nl(t1, k, p.spec_pos());
        }
    }
    Ok((on_reset, on_tick))
}

/// `reg(clock, reset[, enable]):` then `on reset:` and `on tick:` blocks.
fn parse_reg_block(p: &mut Parser<'_>) -> (r: Result<Stmt, ParseError>)
    requires
        old(p).wf(),
    ensures
        final(p).progressed(*old(p)),
        r is Ok ==> final(p).measure() < old(p).measure(),
        stmt_outcome(r, final(p).spec_tokens(), final(p).spec_pos(), reg_rule(old(p).spec_source(), old(p).spec_tokens(), old(p).spec_pos())),
    decreases old(p).measure(), 2nat,
{
    let start = p.peek_span();
    p.expect_token(Token::KwReg)?;
    p.expect_token(Token::LParen)?;
    let clock = parse_expr(p)?;
    p.expect_token(Token::Comma)?;
    let reset = parse_expr(p)?;
    let enable = if p.eat(Token::Comma).is_some() {
        Some(parse_maybe_named_expr(p)?)
    } else {
        None
    };
    p.expect_token(Token::RParen)?;
    open_indented(p)?;
    let (on_reset, on_tick) = parse_reg_sections(p)?;
    p.expect_token(Token::Dedent)?;
    Ok(
        Spanned::new(
            StmtKind::RegBlock(RegBlock { clock, reset, enable, on_reset, on_tick }),
            start.merge(p.prev_span()),
        ),
    )
}

/// `when cond => stmt`: one arm of a priority or parallel block.
fn parse_when_arm(p: &mut Parser<'_>) -> (r: Result<PriorityArm, ParseError>)
    requires
        old(p).wf(),
    ensures
        final(p).progressed(*old(p)),
        r is Ok ==> final(p).measure() < old(p).measure(),
        match r {
            Ok(a) => when_arm_rule(old(p).spec_source(), old(p).spec_tokens(), old(p).spec_pos()) == Ok::<
                (ArmView, Seq<Spanned<Token>>, int),
                (Seq<char>, Span),
            >((ArmView { guard: expr_view(a.condition), body: stmts_view(a.body@), span: a.span }, final(p).spec_tokens(), final(p).spec_pos())),
            Err(e) => when_arm_rule(old(p).spec_source(), old(p).spec_tokens(), old(p).spec_pos()) == Err::<
                (ArmView, Seq<Spanned<Token>>, int),
                (Seq<char>, Span),
            >((e.message@, e.span)),
        },
    decreases old(p).measure(), 0nat,
{
    let arm_start = p.peek_span();
    p.expect_token(Token::KwWhen)?;
    let cond = parse_expr(p)?;
    p.expect_token(Token::FatArrow)?;
    let stmt = parse_stmt(p)?;
    let mut body: Vec<Stmt> = Vec::new();
    body.push(stmt);
    proof {
        lemma_stmts_view_push(Seq::<Stmt>::empty(), stmt);
        assert(Seq::<Stmt>::empty().push(stmt) =~= body@);
        assert(stmts_view(Seq::<Stmt>::empty()) =~= Seq::<StmtView>::empty());
        assert(Seq::<StmtView>::empty().push(stmt_view(stmt)) =~= seq![stmt_view(stmt)]);
    }
    Ok(PriorityArm { condition: cond, body, span: arm_start.merge(p.prev_span()) })
}

/// `otherwise => stmt`; the `otherwise` is the next token.
fn parse_otherwise(p: &mut Parser<'_>) -> (r: Result<Vec<Stmt>, ParseError>)
    requires
        old(p).wf(),
        old(p).checks(Token::KwOtherwise),
    ensures
        final(p).progressed(*old(p)),
        r is Ok ==> final(p).measure() < old(p).measure(),
        stmts_outcome(r, final(p).spec_tokens(), final(p).spec_pos(), otherwise_rule(old(p).spec_source(), old(p).spec_tokens(), old(p).spec_pos())),
    decreases old(p).measure(), 0nat,
{
    p.advance();
    p.expect_token(Token::FatArrow)?;
    let s = parse_stmt(p)?;
    let mut v: Vec<Stmt> = Vec::new();
    v.push(s);
    proof {
        lemma_stmts_view_push(Seq::<Stmt>::empty(), s);
        assert(Seq::<Stmt>::empty().push(s) =~= v@);
        assert(stmts_view(Seq::<Stmt>::empty()) =~= Seq::<StmtView>::empty());
        assert(Seq::<StmtView>::empty().push(stmt_view(s)) =~= seq![stmt_view(s)]);
    }
    Ok(v)
}

/// The arms of a priority block up to a `Dedent` or the end: `when` arms,
/// and `otherwise => stmt` of which the latest is kept.
fn parse_priority_arms(p: &mut Parser<'_>) -> (r: Result<(Vec<PriorityArm>, Option<Vec<Stmt>>), ParseError>)
    requires
        old(p).wf(),
    ensures
        final(p).progressed(*old(p)),
        match r {
            Ok(res) => prio_items(old(p).spec_source(), old(p).spec_tokens(), old(p).spec_pos(), seq![], None) == Ok::<
                ((Seq<ArmView>, Option<Seq<StmtView>>), Seq<Spanned<Token>>, int),
                (Seq<char>, Span),
            >(
                (
                    (
                        when_arms_view(res.0@),
                        opt_stmts_view(res.1),
                    ),
                    final(p).spec_tokens(),
                    final(p).spec_pos(),
                ),
            ),
            Err(e) => prio_items(old(p).spec_source(), old(p).spec_tokens(), old(p).spec_pos(), seq![], None) == Err::<
                ((Seq<ArmView>, Option<Seq<StmtView>>), Seq<Spanned<Token>>, int),
                (Seq<char>, Span),
            >((e.message@, e.span)),
        },
    decreases old(p).measure(), 1nat,
{
    let ghost src = p.spec_source();
    let ghost toks = p.spec_tokens();
    let ghost i = p.spec_pos();
    let mut arms: Vec<PriorityArm> = Vec::new();
    let mut otherwise: Option<Vec<Stmt>> = None;
    proof {
        assert(when_arms_view(arms@) =~= Seq::<ArmView>::empty());
    }
    loop
        invariant_except_break
            old(p).wf(),
            p.progressed(*old(p)),
            src == old(p).spec_source(),
            toks == old(p).spec_tokens(),
            i == old(p).spec_pos(),
            prio_items(src, toks, i, seq![], None) == prio_items(
                src,
                p.spec_tokens(),
                p.spec_pos(),
                when_arms_view(arms@),
                opt_stmts_view(otherwise),
            ),
        ensures
            p.progressed(*old(p)),
            prio_items(src, toks, i, seq![], None) == Ok::<
                ((Seq<ArmView>, Option<Seq<StmtView>>), Seq<Spanned<Token>>, int),
                (Seq<char>, Span),
            >(
                (
                    (
                        when_arms_view(arms@),
                        opt_stmts_view(otherwise),
                    ),
                    p.spec_tokens(),
                    p.spec_pos(),
                ),
            ),
        decreases p.measure(),
    {
        if p.check(Token::Dedent) || p.is_at_end() {
            break;
        }
        let ghost tk = p.spec_tokens();
        let ghost here = p.spec_pos();
        let ghost oth = opt_stmts_view(otherwise);
        p.skip_newlines();
        proof {
            lemma_skip_nl(tk, here, p.spec_pos());
        }
        if p.check(Token::Dedent) || p.is_at_end() {
            break;
        }
        if p.check(Token::KwOtherwise) {
            let b = match parse_otherwise(p) {
                Ok(x) => x,
                Err(e) => {
                    proof {
                        assert(prio_items(src, tk, here, when_arms_view(arms@), oth) == Err::<
                            ((Seq<ArmView>, Option<Seq<StmtView>>), Seq<Spanned<Token>>, int),
                            (Seq<char>, Span),
                        >((e.message@, e.span)));
                    }
                    return Err(e);
                },
            };
            otherwise = Some(b);
        } else {
            let arm = match parse_when_arm(p) {
                Ok(x) => x,
                Err(e) => {
                    proof {
                        assert(prio_items(src, tk, here, when_arms_view(arms@), oth) == Err::<
                            ((Seq<ArmView>, Option<Seq<StmtView>>), Seq<Spanned<Token>>, int),
                            (Seq<char>, Span),
                        >((e.message@, e.span)));
                    }
                    return Err(e);
                },
            };
            proof {
                lemma_when_arms_view_push(arms@, arm);
            }
            arms.push(arm);
        }
        let ghost t1 = p.spec_tokens();
        let ghost k = p.spec_pos();
        p.skip_newlines();
        proof {
            lemma_skip_nl(t1, k, p.spec_pos());
        }
    }
    Ok((arms, otherwise))
}

/// `priority:` then `when cond => stmt` arms and an optional `otherwise => stmt`.
fn parse_priority_block(p: &mut Parser<'_>) -> (r: Result<Stmt, ParseError>)
    requires
        old(p).wf(),
    ensures
        final(p).progressed(*old(p)),
        r is Ok ==> final(p).measure() < old(p).measure(),
        stmt_outcome(r, final(p).spec_tokens(), final(p).spec_pos(), priority_rule(old(p).spec_source(), old(p).spec_tokens(), old(p).spec_pos())),
    decreases old(p).measure(), 2nat,
{
    let start = p.peek_span();
    p.expect_token(Token::KwPriority)?;
    open_indented(p)?;
    let (arms, otherwise) = parse_priority_arms(p)?;
    p.expect_token(Token::Dedent)?;
    Ok(Spanned::new(StmtKind::PriorityBlock(PriorityBlock { arms, otherwise }), start.merge(p.prev_span())))
}

/// The `when` arms of a parallel block up to a `Dedent` or the end.
fn parse_parallel_arms(p: &mut Parser<'_>) -> (r: Result<Vec<PriorityArm>, ParseError>)
    requires
        old(p).wf(),
    ensures
        final(p).progressed(*old(p)),
        match r {
            Ok(v) => par_items(old(p).spec_source(), old(p).spec_tokens(), old(p).spec_pos(), seq![]) == Ok::<
                (Seq<ArmView>, Seq<Spanned<Token>>, int),
                (Seq<char>, Span),
            >((when_arms_view(v@), final(p).spec_tokens(), final(p).spec_pos())),
            Err(e) => par_items(old(p).spec_source(), old(p).spec_tokens(), old(p).spec_pos(), seq![]) == Err::<
                (Seq<ArmView>, Seq<Spanned<Token>>, int),
                (Seq<char>, Span),
            >((e.message@, e.span)),
        },
    decreases old(p).measure(), 1nat,
{
    let ghost src = p.spec_source();
    let ghost toks = p.spec_tokens();
    let ghost i = p.spec_pos();
    let mut arms: Vec<PriorityArm> = Vec::new();
    proof {
        assert(when_arms_view(arms@) =~= Seq::<ArmView>::empty());
    }
    loop
        invariant_except_break
            old(p).wf(),
            p.progressed(*old(p)),
            src == old(p).spec_source(),
            toks == old(p).spec_tokens(),
            i == old(p).spec_pos(),
            par_items(src, toks, i, seq![]) == par_items(src, p.spec_tokens(), p.spec_pos(), when_arms_view(arms@)),
        ensures
            p.progressed(*old(p)),
            par_items(src, toks, i, seq![]) == Ok::<(Seq<ArmView>, Seq<Spanned<Token>>, int), (Seq<char>, Span)>(
                (when_arms_view(arms@), p.spec_tokens(), p.spec_pos()),
            ),
        decreases p.measure(),
    {
        if p.check(Token::Dedent) || p.is_at_end() {
            break;
        }
        let ghost tk = p.spec_tokens();
        let ghost here = p.spec_pos();
        p.skip_newlines();
        proof {
            lemma_skip_nl(tk, here, p.spec_pos());
        }
        if p.check(Token::Dedent) || p.is_at_end() {
            break;
        }
        let arm = match parse_when_arm(p) {
            Ok(x) => x,
            Err(e) => {
                proof {
                    assert(par_items(src, tk, here, when_arms_view(arms@)) == Err::<
                        (Seq<ArmView>, Seq<Spanned<Token>>, int),
                        (Seq<char>, Span),
                    >((e.message@, e.span)));
                }
                return Err(e);
            },
        };
        proof {
            lemma_when_arms_view_push(arms@, arm);
        }
        arms.push(arm);
        let ghost t1 = p.spec_tokens();
        let ghost k = p.spec_pos();
        p.skip_newlines();
        proof {
            lemma_skip_nl(t1, k, p.spec_pos());
        }
    }
    Ok(arms)
}

/// `parallel[(safe)]:` then `when cond => stmt` arms.
fn parse_parallel_block(p: &mut Parser<'_>) -> (r: Result<Stmt, ParseError>)
    requires
        old(p).wf(),
    ensures
        final(p).progressed(*old(p)),
        r is Ok ==> final(p).measure() < old(p).measure(),
        stmt_outcome(r, final(p).spec_tokens(), final(p).spec_pos(), parallel_rule(old(p).spec_source(), old(p).spec_tokens(), old(p).spec_pos())),
    decreases old(p).measure(), 2nat,
{
    let start = p.peek_span();
    p.expect_token(Token::KwParallel)?;
    let safe = if p.eat(Token::LParen).is_some() {
        let val = parse_maybe_named_expr(p)?;
        p.expect_token(Token::RParen)?;
        Some(val)
    } else {
        None
    };
    open_indented(p)?;
    let arms = parse_parallel_arms(p)?;
    p.expect_token(Token::Dedent)?;
    Ok(Spanned::new(StmtKind::ParallelBlock(ParallelBlock { safe, arms }), start.merge(p.prev_span())))
}

/// `assert [always] [@ domain]: expr[, message]`
fn parse_assert_stmt(p: &mut Parser<'_>) -> (r: Result<Stmt, ParseError>)
    requires
        old(p).wf(),
    ensures
        final(p).progressed(*old(p)),
        r is Ok ==> final(p).measure() < old(p).measure(),
        stmt_outcome(r, final(p).spec_tokens(), final(p).spec_pos(), assert_rule(old(p).spec_source(), old(p).spec_tokens(), old(p).spec_pos())),
{
    let start = p.peek_span();
    p.expect_token(Token::KwAssert)?;
    let always = p.eat(Token::KwAlways).is_some();
    let domain = parse_opt_domain(p)?;
    p.expect_token(Token::Colon)?;
    let expr = parse_expr(p)?;
    let message = if p.eat(Token::Comma).is_some() {
        Some(parse_expr(p)?)
    } else {
        None
    };
    Ok(Spanned::new(StmtKind::Assert(AssertStmt { always, domain, expr, message }), start.merge(p.prev_span())))
}

/// `assume [@ domain]: expr[, message]`
fn parse_assume_stmt(p: &mut Parser<'_>) -> (r: Result<Stmt, ParseError>)
    requires
        old(p).wf(),
    ensures
        final(p).progressed(*old(p)),
        r is Ok ==> final(p).measure() < old(p).measure(),
        stmt_outcome(r, final(p).spec_tokens(), final(p).spec_pos(), assume_rule(old(p).spec_source(), old(p).spec_tokens(), old(p).spec_pos())),
{
    let start = p.peek_span();
    p.expect_token(Token::KwAssume)?;
    let domain = parse_opt_domain(p)?;
    p.expect_token(Token::Colon)?;
    let expr = parse_expr(p)?;
    let message = if p.eat(Token::Comma).is_some() {
        Some(parse_expr(p)?)
    } else {
        None
    };
    Ok(Spanned::new(StmtKind::Assume { domain, expr, message }, start.merge(p.prev_span())))
}

/// `cover [name]: expr`
fn parse_cover_stmt(p: &mut Parser<'_>) -> (r: Result<Stmt, ParseError>)
    requires
        old(p).wf(),
    ensures
        final(p).progressed(*old(p)),
        r is Ok ==> final(p).measure() < old(p).measure(),
        stmt_outcome(r, final(p).spec_tokens(), final(p).spec_pos(), cover_rule(old(p).spec_source(), old(p).spec_tokens(), old(p).spec_pos())),
{
    let start = p.peek_span();
    p.expect_token(Token::KwCover)?;
    let name = if p.check_ident() {
        let saved = p.position();
        let t = p.advance();
        if p.check(Token::Colon) {
            proof {
                assert(p.spec_tokens()[saved as int].node == Token::Ident);
            }
            Some(Spanned::new(p.text(t.span).to_owned(), t.span))
        } else {
            p.rewind(saved);
            None
        }
    } else {
        None
    };
    p.expect_token(Token::Colon)?;
    let expr = parse_expr(p)?;
    Ok(Spanned::new(StmtKind::Cover { name, expr }, start.merge(p.prev_span())))
}

/// `static_assert expr, message`
fn parse_static_assert(p: &mut Parser<'_>) -> (r: Result<Stmt, ParseError>)
    requires
        old(p).wf(),
    ensures
        final(p).progressed(*old(p)),
        r is Ok ==> final(p).measure() < old(p).measure(),
        stmt_outcome(r, final(p).spec_tokens(), final(p).spec_pos(), static_assert_rule(old(p).spec_source(), old(p).spec_tokens(), old(p).spec_pos())),
{
    let start = p.peek_span();
    p.expect_token(Token::KwStaticAssert)?;
    let expr = parse_expr(p)?;
    p.expect_token(Token::Comma)?;
    let message = parse_expr(p)?;
    Ok(Spanned::new(StmtKind::StaticAssert { expr, message }, start.merge(p.prev_span())))
}

/// `unchecked:` then a block, or `unchecked(expr)` as an expression statement.
fn parse_unchecked(p: &mut Parser<'_>) -> (r: Result<Stmt, ParseError>)
    requires
        old(p).wf(),
    ensures
        final(p).progressed(*old(p)),
        r is Ok ==> final(p).measure() < old(p).measure(),
        stmt_outcome(r, final(p).spec_tokens(), final(p).spec_pos(), unchecked_rule(old(p).spec_source(), old(p).spec_tokens(), old(p).spec_pos())),
    decreases old(p).measure(), 2nat,
{
    let start = p.peek_span();
    p.expect_token(Token::KwUnchecked)?;
    if p.check(Token::Colon) {
        let stmts = parse_stmt_block(p)?;
        Ok(Spanned::new(StmtKind::UncheckedBlock(stmts), start.merge(p.prev_span())))
    } else if p.eat(Token::LParen).is_some() {
        let inner = parse_expr(p)?;
        p.expect_token(Token::RParen)?;
        let span = start.merge(p.prev_span());
        let expr = Spanned::new(ExprKind::Unchecked(Box::new(inner)), span);
        Ok(Spanned::new(StmtKind::ExprStmt(expr), span))
    } else {
        Err(p.error("expected ':' or '(' after 'unchecked'"))
    }
}

} // verus!
