//! The typing rules: the type of each expression and the errors that type
//! checking reports, as functions of the symbol table, the scope names are
//! looked up from, and the syntax.

use vstd::prelude::*;

use crate::ast::expr::{BinOp, Expr, ExprKind, UnaryOp};
use crate::ast::item::{Item, ItemKind, ModuleDef};
use crate::ast::stmt::{MatchArm, PriorityArm, Stmt, StmtKind};
use crate::ast::types::Direction;
use crate::lexer::NumericLiteral;
use crate::span::Span;

use super::check::{comparable, strip_direction, width_or_zero, with_width};
use super::error::ErrorView;
use super::eval::{eval_spec, ConstValue};
use super::resolve::ScopeMap;
use super::scope::{lemma_lookup_bound, lemma_table_view, sym_view, SymbolKind, SymbolTable};
use super::types::{ty_display, Ty};

verus! {

/// A `TypeMismatch` between a described expectation and a found type.
pub open spec fn mismatch_view(expected: Seq<char>, found: Ty, span: Span) -> ErrorView {
    ErrorView::TypeMismatch { expected, found: ty_display(found), span }
}

/// A `TypeMismatch` between two types.
pub open spec fn types_mismatch_view(expected: Ty, found: Ty, span: Span) -> ErrorView {
    ErrorView::TypeMismatch { expected: ty_display(expected), found: ty_display(found), span }
}

/// The type of the symbol `name` names from scope `s`; `Error` when none.
pub open spec fn lookup_ty(t: SymbolTable, s: int, name: Seq<char>) -> Ty {
    match t.lookup_spec(s, name) {
        Some(id) => t.symbols_view()[id.0 as int].ty,
        None => Ty::Error,
    }
}

/// The value of `e` as an unsigned constant, evaluated without bindings.
pub open spec fn const_uint(e: Expr) -> Option<u128> {
    match eval_spec(Seq::empty(), e) {
        Ok(ConstValue::UInt(v)) => Some(v),
        _ => None,
    }
}

/// The width of a bit slice `[high:low]`: `high - low + 1` (wrapping) when
/// both bounds are constants with `high >= low`, else 0.
pub open spec fn slice_width(high: Expr, low: Expr) -> u64 {
    match (const_uint(high), const_uint(low)) {
        (Some(h), Some(l)) => if h >= l {
            vstd::wrapping::u64_specs::wrapping_add((h - l) as u64, 1)
        } else {
            0
        },
        _ => 0,
    }
}

/// An operand that arithmetic accepts: a numeric type or an unsized literal.
pub open spec fn operand_ok(t: Ty) -> bool {
    t is UInt || t is SInt || t is Bits || t is Fixed || t == Ty::UInt(0)
}

/// Two operands of one family; an unsized literal goes with any.
pub open spec fn same_family(a: Ty, b: Ty) -> bool {
    (a is UInt && b is UInt) || (a is SInt && b is SInt) || (a is Bits && b is Bits) || a == Ty::UInt(0)
        || b == Ty::UInt(0)
}

/// The errors of an arithmetic or bitwise operation on operands of types `l` and `r`.
pub open spec fn arithmetic_errors(l: Ty, r: Ty, span: Span) -> Seq<ErrorView> {
    if !operand_ok(l) || !operand_ok(r) {
        seq![mismatch_view("numeric type (UInt, SInt, Bits)"@, if !operand_ok(l) { l } else { r }, span)]
    } else if !same_family(l, r) {
        seq![types_mismatch_view(l, r, span)]
    } else {
        seq![]
    }
}

/// The error for a condition of type `c` that is not `Bool` (an erroneous
/// condition is reported where it arises).
pub open spec fn bool_errors(c: Ty, span: Span) -> Seq<ErrorView> {
    if c != Ty::Error && c != Ty::Bool {
        seq![mismatch_view("Bool"@, c, span)]
    } else {
        seq![]
    }
}

/// The larger of the widths of two types.
pub open spec fn max_width_of(a: Ty, b: Ty) -> u64 {
    if width_or_zero(a) >= width_or_zero(b) { width_or_zero(a) } else { width_or_zero(b) }
}

/// The type and errors of a binary expression whose operands have types
/// `l` and `r` (neither `Error`): `errs` are the operands' errors.
pub open spec fn binary_rule(op: BinOp, l: Ty, r: Ty, lhs: Expr, rhs: Expr, span: Span) -> (Ty, Seq<ErrorView>) {
    match op {
        BinOp::Add | BinOp::Sub | BinOp::BitAnd | BinOp::BitOr | BinOp::BitXor => (
            with_width(l, max_width_of(l, r)),
            arithmetic_errors(l, r, span),
        ),
        BinOp::Mul => (
            with_width(l, vstd::wrapping::u64_specs::wrapping_add(width_or_zero(l), width_or_zero(r))),
            arithmetic_errors(l, r, span),
        ),
        BinOp::Div | BinOp::Mod => (l, arithmetic_errors(l, r, span)),
        BinOp::Pow => (Ty::UInt(0), seq![]),
        BinOp::Shl => (
            match const_uint(rhs) {
                Some(k) => with_width(
                    l,
                    vstd::wrapping::u64_specs::wrapping_add(
                        width_or_zero(l),
                        if k <= u64::MAX { k as u64 } else { 0 },
                    ),
                ),
                None => l,
            },
            seq![],
        ),
        BinOp::Shr | BinOp::ArithShr => (l, seq![]),
        BinOp::Eq | BinOp::Ne | BinOp::Lt | BinOp::Gt | BinOp::Le | BinOp::Ge => (
            Ty::Bool,
            if comparable(l, r) { seq![] } else { seq![types_mismatch_view(l, r, span)] },
        ),
        BinOp::And | BinOp::Or | BinOp::Implies => (
            Ty::Bool,
            (if l != Ty::Bool { seq![mismatch_view("Bool"@, l, lhs.span)] } else { seq![] }) + (if r != Ty::Bool {
                seq![mismatch_view("Bool"@, r, rhs.span)]
            } else {
                seq![]
            }),
        ),
        BinOp::Concat => {
            let lw = width_or_zero(strip_direction(l));
            let rw = width_or_zero(strip_direction(r));
            (
                if lw == 0 && rw == 0 {
                    Ty::Bits(0)
                } else {
                    Ty::Bits(vstd::wrapping::u64_specs::wrapping_add(lw, rw))
                },
                seq![],
            )
        },
    }
}

/// The type of an expression and the errors its checking reports, in order:
/// an expression whose checking reports any error has type `Error`.
pub open spec fn expr_rule(t: SymbolTable, s: int, e: Expr) -> (Ty, Seq<ErrorView>)
    decreases e, 1nat,
{
    let (ty, errs) = node_rule(t, s, e);
    if errs.len() > 0 {
        (Ty::Error, errs)
    } else {
        (ty, errs)
    }
}

/// The type an expression's own form gives it, from the rules of its
/// subexpressions, and the errors reported on the way, in order.
pub open spec fn node_rule(t: SymbolTable, s: int, e: Expr) -> (Ty, Seq<ErrorView>)
    decreases e, 0nat,
{
    match e.node {
        ExprKind::BoolLiteral(_) => (Ty::Bool, seq![]),
        ExprKind::IntLiteral(lit) => (
            match lit {
                NumericLiteral::Sized { width, .. } => Ty::UInt(width as u64),
                _ => Ty::UInt(0),
            },
            seq![],
        ),
        ExprKind::StringLiteral(_) => (Ty::MetaString, seq![]),
        ExprKind::Ident(name) => (lookup_ty(t, s, name@), seq![]),
        ExprKind::Paren(inner) => expr_rule(t, s, *inner),
        ExprKind::Binary { op, lhs, rhs } => {
            let (l, le) = expr_rule(t, s, *lhs);
            let (r, re) = expr_rule(t, s, *rhs);
            if l == Ty::Error || r == Ty::Error {
                (Ty::Error, le + re)
            } else {
                let (ty, errs) = binary_rule(op, l, r, *lhs, *rhs, e.span);
                (ty, le + re + errs)
            }
        },
        ExprKind::Unary { op, operand } => {
            let (o, oe) = expr_rule(t, s, *operand);
            if o == Ty::Error {
                (Ty::Error, oe)
            } else {
                match op {
                    UnaryOp::LogicalNot => (
                        Ty::Bool,
                        oe + if o != Ty::Bool { seq![mismatch_view("Bool"@, o, operand.span)] } else { seq![] },
                    ),
                    _ => (o, oe),
                }
            }
        },
        ExprKind::IfExpr { condition, then_expr, else_expr } => {
            let (c, ce) = expr_rule(t, s, *condition);
            let (a, ae) = expr_rule(t, s, *then_expr);
            let (b, be) = expr_rule(t, s, *else_expr);
            let errs = ce + bool_errors(c, condition.span) + ae + be;
            if a == Ty::Error {
                (b, errs)
            } else if b == Ty::Error || a == b {
                (a, errs)
            } else {
                (a, errs.push(types_mismatch_view(a, b, else_expr.span)))
            }
        },
        ExprKind::Index { array, .. } => {
            let (a, ae) = expr_rule(t, s, *array);
            match a {
                Ty::Array { element, .. } => (*element, ae),
                Ty::Error => (Ty::Error, ae),
                Ty::UInt(_) | Ty::SInt(_) | Ty::Bits(_) => (Ty::Bool, ae),
                _ => (Ty::Error, ae.push(mismatch_view("array or bit-vector"@, a, array.span))),
            }
        },
        ExprKind::BitSlice { value, high, low } => (Ty::Bits(slice_width(*high, *low)), expr_rule(t, s, *value).1),
        ExprKind::ArrayLiteral(elems) => if elems@.len() == 0 {
            (Ty::Error, seq![])
        } else {
            (
                Ty::Array { element: Box::new(expr_rule(t, s, elems@[0]).0), size: elems@.len() as u64 },
                exprs_errors(t, s, elems@),
            )
        },
        ExprKind::Range { .. } => (Ty::MetaUInt, seq![]),
        ExprKind::Next { expr: inner, .. } => expr_rule(t, s, *inner),
        ExprKind::Eventually { expr: inner, .. } => (Ty::Bool, expr_rule(t, s, *inner).1),
        ExprKind::Unchecked(inner) => expr_rule(t, s, *inner),
        _ => (Ty::Error, seq![]),
    }
}

/// The errors of checking each expression of a list, in order.
pub open spec fn exprs_errors(t: SymbolTable, s: int, v: Seq<Expr>) -> Seq<ErrorView>
    decreases v, 0nat,
{
    if v.len() == 0 {
        seq![]
    } else {
        exprs_errors(t, s, v.subrange(0, v.len() - 1)) + expr_rule(t, s, v[v.len() - 1]).1
    }
}

/// The errors of checking a condition, which must be `Bool`.
pub open spec fn cond_errors(t: SymbolTable, s: int, c: Expr) -> Seq<ErrorView> {
    expr_rule(t, s, c).1 + bool_errors(expr_rule(t, s, c).0, c.span)
}

/// The type of an assignment target and the errors it gives; a target that
/// is not a name, a field, an index or a slice is invalid.
pub open spec fn target_rule(t: SymbolTable, s: int, e: Expr) -> (Ty, Seq<ErrorView>)
    decreases e,
{
    match e.node {
        ExprKind::Ident(name) => (lookup_ty(t, s, name@), seq![]),
        ExprKind::FieldAccess { object, .. } => target_rule(t, s, *object),
        ExprKind::Index { array, .. } => {
            let (a, ae) = target_rule(t, s, *array);
            (
                match a {
                    Ty::Array { element, .. } => *element,
                    Ty::UInt(_) | Ty::SInt(_) | Ty::Bits(_) => Ty::Bool,
                    _ => Ty::Error,
                },
                ae,
            )
        },
        ExprKind::BitSlice { value, high, low } => (Ty::Bits(slice_width(*high, *low)), target_rule(t, s, *value).1),
        _ => (Ty::Error, seq![ErrorView::InvalidAssignTarget { span: e.span }]),
    }
}

/// The symbol that `name` names from scope `s` is an input port.
pub open spec fn names_input_port(t: SymbolTable, s: int, name: Seq<char>) -> bool {
    match t.lookup_spec(s, name) {
        Some(id) => t.symbols_view()[id.0 as int].kind == SymbolKind::Port && t.symbols_view()[id.0 as int].direction
            == Some(Direction::In),
        None => false,
    }
}

/// Assigning to a name that is an input port is a direction violation.
pub open spec fn direction_errors(t: SymbolTable, s: int, target: Expr) -> Seq<ErrorView> {
    match target.node {
        ExprKind::Ident(name) => match t.lookup_spec(s, name@) {
            Some(id) => if names_input_port(t, s, name@) {
                seq![
                    ErrorView::DirectionViolation {
                        message: "cannot assign to input port `"@ + name@ + "`"@,
                        span: target.span,
                    },
                ]
            } else {
                seq![]
            },
            None => seq![],
        },
        _ => seq![],
    }
}

/// The errors of assigning a value of type `value` to a target of type
/// `target`: unsized literals fit anything; integers may not be wider than
/// their target, bit-vectors must be as wide; otherwise the kinds must agree.
pub open spec fn compat_errors(target: Ty, value: Ty, span: Span) -> Seq<ErrorView> {
    if value == Ty::UInt(0) || value == Ty::MetaUInt || value == Ty::MetaInt {
        seq![]
    } else {
        let ti = strip_direction(target);
        let vi = strip_direction(value);
        match (ti, vi) {
            (Ty::UInt(tw), Ty::UInt(vw)) => if vw > tw && vw != 0 {
                seq![ErrorView::WidthMismatch { expected: tw, found: vw, span }]
            } else {
                seq![]
            },
            (Ty::SInt(tw), Ty::SInt(vw)) => if vw > tw && vw != 0 {
                seq![ErrorView::WidthMismatch { expected: tw, found: vw, span }]
            } else {
                seq![]
            },
            (Ty::Bits(tw), Ty::Bits(vw)) => if vw != tw && vw != 0 {
                seq![ErrorView::WidthMismatch { expected: tw, found: vw, span }]
            } else {
                seq![]
            },
            (Ty::Bool, Ty::Bool) => seq![],
            (Ty::Clock { .. }, Ty::Clock { .. }) => seq![],
            (Ty::SyncReset, Ty::SyncReset) => seq![],
            (Ty::AsyncReset, Ty::AsyncReset) => seq![],
            (Ty::Struct(_), Ty::Struct(_)) => seq![],
            (Ty::Enum(_), Ty::Enum(_)) => seq![],
            (Ty::Array { .. }, Ty::Array { .. }) => seq![],
            _ => seq![types_mismatch_view(ti, vi, span)],
        }
    }
}

/// The errors of an assignment: those of its target, a direction violation,
/// those of its value, then whether the value fits the target.
pub open spec fn assign_errors(t: SymbolTable, s: int, target: Expr, value: Expr) -> Seq<ErrorView> {
    let (tt, te) = target_rule(t, s, target);
    let (vt, ve) = expr_rule(t, s, value);
    te + direction_errors(t, s, target) + ve + if tt == Ty::Error || vt == Ty::Error {
        seq![]
    } else {
        compat_errors(tt, vt, value.span)
    }
}

/// The errors of checking a statement and the statements nested in it.
pub open spec fn stmt_errors(t: SymbolTable, s: int, st: Stmt) -> Seq<ErrorView>
    decreases st, 1nat,
{
    match st.node {
        StmtKind::Assign { target, value } => assign_errors(t, s, target, value),
        StmtKind::CombBlock(v) => stmts_errors(t, s, v@),
        StmtKind::RegBlock(reg) => {
            let (c, ce) = expr_rule(t, s, reg.clock);
            let (r, re) = expr_rule(t, s, reg.reset);
            ce + (if c != Ty::Error && !(c is Clock) {
                seq![mismatch_view("Clock"@, c, reg.clock.span)]
            } else {
                seq![]
            }) + re + (if r != Ty::Error && r != Ty::SyncReset && r != Ty::AsyncReset {
                seq![mismatch_view("SyncReset or AsyncReset"@, r, reg.reset.span)]
            } else {
                seq![]
            }) + (match reg.enable {
                Some(en) => expr_rule(t, s, en).1,
                None => seq![],
            }) + stmts_errors(t, s, reg.on_reset@) + stmts_errors(t, s, reg.on_tick@)
        },
        StmtKind::If(ifs) => cond_errors(t, s, ifs.condition) + stmts_errors(t, s, ifs.then_body@) + elif_errors(
            t,
            s,
            ifs.elif_branches@,
        ) + match ifs.else_body {
            Some(e) => stmts_errors(t, s, e@),
            None => seq![],
        },
        StmtKind::Match(m) => expr_rule(t, s, m.scrutinee).1 + arms_errors(t, s, m.arms@),
        StmtKind::For(f) => expr_rule(t, s, f.iterable).1 + stmts_errors(t, s, f.body@),
        StmtKind::PriorityBlock(pb) => priority_errors(t, s, pb.arms@) + match pb.otherwise {
            Some(o) => stmts_errors(t, s, o@),
            None => seq![],
        },
        StmtKind::ParallelBlock(pb) => parallel_errors(t, s, pb.arms@),
        StmtKind::UncheckedBlock(v) => stmts_errors(t, s, v@),
        StmtKind::Assert(a) => expr_rule(t, s, a.expr).1,
        StmtKind::Assume { expr, .. } => expr_rule(t, s, expr).1,
        StmtKind::Cover { expr, .. } => expr_rule(t, s, expr).1,
        StmtKind::StaticAssert { expr, .. } => expr_rule(t, s, expr).1,
        StmtKind::ExprStmt(expr) => expr_rule(t, s, expr).1,
        _ => seq![],
    }
}

/// The errors of a list of statements, in order.
pub open spec fn stmts_errors(t: SymbolTable, s: int, v: Seq<Stmt>) -> Seq<ErrorView>
    decreases v, 2nat,
{
    if v.len() == 0 {
        seq![]
    } else {
        stmts_errors(t, s, v.subrange(0, v.len() - 1)) + stmt_errors(t, s, v[v.len() - 1])
    }
}

/// The errors of `elif` branches: each condition, then its body.
pub open spec fn elif_errors(t: SymbolTable, s: int, v: Seq<(Expr, Vec<Stmt>)>) -> Seq<ErrorView>
    decreases v, 2nat,
{
    if v.len() == 0 {
        seq![]
    } else {
        elif_errors(t, s, v.subrange(0, v.len() - 1)) + cond_errors(t, s, v[v.len() - 1].0) + stmts_errors(
            t,
            s,
            v[v.len() - 1].1@,
        )
    }
}

/// The errors of the bodies of match arms.
pub open spec fn arms_errors(t: SymbolTable, s: int, v: Seq<MatchArm>) -> Seq<ErrorView>
    decreases v, 2nat,
{
    if v.len() == 0 {
        seq![]
    } else {
        arms_errors(t, s, v.subrange(0, v.len() - 1)) + stmts_errors(t, s, v[v.len() - 1].body@)
    }
}

/// The errors of priority arms: each condition, then its body.
pub open spec fn priority_errors(t: SymbolTable, s: int, v: Seq<PriorityArm>) -> Seq<ErrorView>
    decreases v, 2nat,
{
    if v.len() == 0 {
        seq![]
    } else {
        priority_errors(t, s, v.subrange(0, v.len() - 1)) + cond_errors(t, s, v[v.len() - 1].condition)
            + stmts_errors(t, s, v[v.len() - 1].body@)
    }
}

/// The errors of the bodies of parallel arms.
pub open spec fn parallel_errors(t: SymbolTable, s: int, v: Seq<PriorityArm>) -> Seq<ErrorView>
    decreases v, 2nat,
{
    if v.len() == 0 {
        seq![]
    } else {
        parallel_errors(t, s, v.subrange(0, v.len() - 1)) + stmts_errors(t, s, v[v.len() - 1].body@)
    }
}

/// The scope a module's body is checked in: the one recorded for the start
/// of its name, where that is a scope of the table; else the enclosing one.
pub open spec fn module_scope(t: SymbolTable, m: ScopeMap, s: int, key: u32) -> int {
    match m.get_spec(key) {
        Some(id) => if id.0 < t.scope_count() { id.0 as int } else { s },
        None => s,
    }
}

/// The errors of checking an item: a module's body, in its scope.
pub open spec fn item_errors(t: SymbolTable, m: ScopeMap, s: int, item: Item) -> Seq<ErrorView>
    decreases item, 0nat,
{
    match item.node {
        ItemKind::Module(def) => body_errors(t, m, module_scope(t, m, s, def.name.span.start), def.body@),
        _ => seq![],
    }
}

/// The errors of the items of a module body: each item, and each statement.
pub open spec fn body_errors(t: SymbolTable, m: ScopeMap, s: int, v: Seq<Item>) -> Seq<ErrorView>
    decreases v, 1nat,
{
    if v.len() == 0 {
        seq![]
    } else {
        let last = v[v.len() - 1];
        body_errors(t, m, s, v.subrange(0, v.len() - 1)) + item_errors(t, m, s, last) + match last.node {
            ItemKind::Stmt(st) => stmt_errors(t, s, st),
            _ => seq![],
        }
    }
}

/// The errors of checking the items of a file from scope `s`.
pub open spec fn items_errors(t: SymbolTable, m: ScopeMap, s: int, v: Seq<Item>) -> Seq<ErrorView>
    decreases v.len(),
{
    if v.len() == 0 {
        seq![]
    } else {
        items_errors(t, m, s, v.subrange(0, v.len() - 1)) + item_errors(t, m, s, v[v.len() - 1])
    }
}

// ---------------------------------------------------------------------------
// The rules depend on the table and scope map only through their views
// ---------------------------------------------------------------------------

/// Two tables and scope maps that the typing rules cannot tell apart: they
/// give every name the same type and the same port direction, have as many
/// scopes, and record the same scope for every key.
pub open spec fn same_typing_env(t1: SymbolTable, m1: ScopeMap, t2: SymbolTable, m2: ScopeMap) -> bool {
    &&& t1.scope_count() == t2.scope_count()
    &&& forall|s: int, n: Seq<char>| #[trigger] lookup_ty(t1, s, n) == lookup_ty(t2, s, n)
    &&& forall|s: int, n: Seq<char>| #[trigger] names_input_port(t1, s, n) == names_input_port(t2, s, n)
    &&& forall|s: int, n: Seq<char>| #[trigger] t1.lookup_spec(s, n) == t2.lookup_spec(s, n)
    &&& forall|k: u32| #[trigger] m1.get_spec(k) == m2.get_spec(k)
}

proof fn lemma_expr_same(t1: SymbolTable, m1: ScopeMap, t2: SymbolTable, m2: ScopeMap, s: int, e: Expr)
    requires
        same_typing_env(t1, m1, t2, m2),
    ensures
        node_rule(t1, s, e) == node_rule(t2, s, e),
        expr_rule(t1, s, e) == expr_rule(t2, s, e),
    decreases e, 1nat,
{
    assert(lookup_ty(t1, s, e.node->Ident_0@) == lookup_ty(t2, s, e.node->Ident_0@));
    match e.node {
        ExprKind::Paren(inner) => lemma_expr_same(t1, m1, t2, m2, s, *inner),
        ExprKind::Binary { lhs, rhs, .. } => {
            lemma_expr_same(t1, m1, t2, m2, s, *lhs);
            lemma_expr_same(t1, m1, t2, m2, s, *rhs);
        },
        ExprKind::Unary { operand, .. } => lemma_expr_same(t1, m1, t2, m2, s, *operand),
        ExprKind::IfExpr { condition, then_expr, else_expr } => {
            lemma_expr_same(t1, m1, t2, m2, s, *condition);
            lemma_expr_same(t1, m1, t2, m2, s, *then_expr);
            lemma_expr_same(t1, m1, t2, m2, s, *else_expr);
        },
        ExprKind::Index { array, .. } => lemma_expr_same(t1, m1, t2, m2, s, *array),
        ExprKind::BitSlice { value, .. } => lemma_expr_same(t1, m1, t2, m2, s, *value),
        ExprKind::ArrayLiteral(elems) => {
            if elems@.len() > 0 {
                assert(decreases_to!(e => elems@[0]));
                lemma_expr_same(t1, m1, t2, m2, s, elems@[0]);
            }
            lemma_exprs_same(t1, m1, t2, m2, s, elems@);
        },
        ExprKind::Next { expr: inner, .. } => lemma_expr_same(t1, m1, t2, m2, s, *inner),
        ExprKind::Eventually { expr: inner, .. } => lemma_expr_same(t1, m1, t2, m2, s, *inner),
        ExprKind::Unchecked(inner) => lemma_expr_same(t1, m1, t2, m2, s, *inner),
        _ => {},
    }
}

proof fn lemma_exprs_same(t1: SymbolTable, m1: ScopeMap, t2: SymbolTable, m2: ScopeMap, s: int, v: Seq<Expr>)
    requires
        same_typing_env(t1, m1, t2, m2),
    ensures
        exprs_errors(t1, s, v) == exprs_errors(t2, s, v),
    decreases v, 0nat,
{
    if v.len() > 0 {
        lemma_exprs_same(t1, m1, t2, m2, s, v.subrange(0, v.len() - 1));
        lemma_expr_same(t1, m1, t2, m2, s, v[v.len() - 1]);
    }
}

proof fn lemma_target_same(t1: SymbolTable, m1: ScopeMap, t2: SymbolTable, m2: ScopeMap, s: int, e: Expr)
    requires
        same_typing_env(t1, m1, t2, m2),
    ensures
        target_rule(t1, s, e) == target_rule(t2, s, e),
        direction_errors(t1, s, e) == direction_errors(t2, s, e),
    decreases e,
{
    assert(lookup_ty(t1, s, e.node->Ident_0@) == lookup_ty(t2, s, e.node->Ident_0@));
    assert(names_input_port(t1, s, e.node->Ident_0@) == names_input_port(t2, s, e.node->Ident_0@));
    assert(t1.lookup_spec(s, e.node->Ident_0@) == t2.lookup_spec(s, e.node->Ident_0@));
    match e.node {
        ExprKind::FieldAccess { object, .. } => lemma_target_same(t1, m1, t2, m2, s, *object),
        ExprKind::Index { array, .. } => lemma_target_same(t1, m1, t2, m2, s, *array),
        ExprKind::BitSlice { value, .. } => lemma_target_same(t1, m1, t2, m2, s, *value),
        _ => {},
    }
}

proof fn lemma_stmt_same(t1: SymbolTable, m1: ScopeMap, t2: SymbolTable, m2: ScopeMap, s: int, st: Stmt)
    requires
        same_typing_env(t1, m1, t2, m2),
    ensures
        stmt_errors(t1, s, st) == stmt_errors(t2, s, st),
    decreases st, 1nat,
{
    match st.node {
        StmtKind::Assign { target, value } => {
            lemma_target_same(t1, m1, t2, m2, s, target);
            lemma_expr_same(t1, m1, t2, m2, s, value);
        },
        StmtKind::CombBlock(v) => lemma_stmts_same(t1, m1, t2, m2, s, v@),
        StmtKind::RegBlock(reg) => {
            lemma_expr_same(t1, m1, t2, m2, s, reg.clock);
            lemma_expr_same(t1, m1, t2, m2, s, reg.reset);
            if let Some(en) = reg.enable {
                lemma_expr_same(t1, m1, t2, m2, s, en);
            }
            lemma_stmts_same(t1, m1, t2, m2, s, reg.on_reset@);
            lemma_stmts_same(t1, m1, t2, m2, s, reg.on_tick@);
        },
        StmtKind::If(ifs) => {
            lemma_expr_same(t1, m1, t2, m2, s, ifs.condition);
            lemma_stmts_same(t1, m1, t2, m2, s, ifs.then_body@);
            lemma_elif_same(t1, m1, t2, m2, s, ifs.elif_branches@);
            if let Some(e) = ifs.else_body {
                lemma_stmts_same(t1, m1, t2, m2, s, e@);
            }
        },
        StmtKind::Match(m) => {
            lemma_expr_same(t1, m1, t2, m2, s, m.scrutinee);
            lemma_arms_same(t1, m1, t2, m2, s, m.arms@);
        },
        StmtKind::For(f) => {
            lemma_expr_same(t1, m1, t2, m2, s, f.iterable);
            lemma_stmts_same(t1, m1, t2, m2, s, f.body@);
        },
        StmtKind::PriorityBlock(pb) => {
            lemma_priority_same(t1, m1, t2, m2, s, pb.arms@);
            if let Some(o) = pb.otherwise {
                lemma_stmts_same(t1, m1, t2, m2, s, o@);
            }
        },
        StmtKind::ParallelBlock(pb) => lemma_parallel_same(t1, m1, t2, m2, s, pb.arms@),
        StmtKind::UncheckedBlock(v) => lemma_stmts_same(t1, m1, t2, m2, s, v@),
        StmtKind::Assert(a) => lemma_expr_same(t1, m1, t2, m2, s, a.expr),
        StmtKind::Assume { expr, .. } => lemma_expr_same(t1, m1, t2, m2, s, expr),
        StmtKind::Cover { expr, .. } => lemma_expr_same(t1, m1, t2, m2, s, expr),
        StmtKind::StaticAssert { expr, .. } => lemma_expr_same(t1, m1, t2, m2, s, expr),
        StmtKind::ExprStmt(expr) => lemma_expr_same(t1, m1, t2, m2, s, expr),
        _ => {},
    }
}

proof fn lemma_stmts_same(t1: SymbolTable, m1: ScopeMap, t2: SymbolTable, m2: ScopeMap, s: int, v: Seq<Stmt>)
    requires
        same_typing_env(t1, m1, t2, m2),
    ensures
        stmts_errors(t1, s, v) == stmts_errors(t2, s, v),
    decreases v, 2nat,
{
    if v.len() > 0 {
        lemma_stmts_same(t1, m1, t2, m2, s, v.subrange(0, v.len() - 1));
        lemma_stmt_same(t1, m1, t2, m2, s, v[v.len() - 1]);
    }
}

proof fn lemma_elif_same(t1: SymbolTable, m1: ScopeMap, t2: SymbolTable, m2: ScopeMap, s: int, v: Seq<(Expr, Vec<Stmt>)>)
    requires
        same_typing_env(t1, m1, t2, m2),
    ensures
        elif_errors(t1, s, v) == elif_errors(t2, s, v),
    decreases v, 2nat,
{
    if v.len() > 0 {
        lemma_elif_same(t1, m1, t2, m2, s, v.subrange(0, v.len() - 1));
        lemma_expr_same(t1, m1, t2, m2, s, v[v.len() - 1].0);
        lemma_stmts_same(t1, m1, t2, m2, s, v[v.len() - 1].1@);
    }
}

proof fn lemma_arms_same(t1: SymbolTable, m1: ScopeMap, t2: SymbolTable, m2: ScopeMap, s: int, v: Seq<MatchArm>)
    requires
        same_typing_env(t1, m1, t2, m2),
    ensures
        arms_errors(t1, s, v) == arms_errors(t2, s, v),
    decreases v, 2nat,
{
    if v.len() > 0 {
        lemma_arms_same(t1, m1, t2, m2, s, v.subrange(0, v.len() - 1));
        lemma_stmts_same(t1, m1, t2, m2, s, v[v.len() - 1].body@);
    }
}

proof fn lemma_priority_same(t1: SymbolTable, m1: ScopeMap, t2: SymbolTable, m2: ScopeMap, s: int, v: Seq<PriorityArm>)
    requires
        same_typing_env(t1, m1, t2, m2),
    ensures
        priority_errors(t1, s, v) == priority_errors(t2, s, v),
    decreases v, 2nat,
{
    if v.len() > 0 {
        lemma_priority_same(t1, m1, t2, m2, s, v.subrange(0, v.len() - 1));
        lemma_expr_same(t1, m1, t2, m2, s, v[v.len() - 1].condition);
        lemma_stmts_same(t1, m1, t2, m2, s, v[v.len() - 1].body@);
    }
}

proof fn lemma_parallel_same(t1: SymbolTable, m1: ScopeMap, t2: SymbolTable, m2: ScopeMap, s: int, v: Seq<PriorityArm>)
    requires
        same_typing_env(t1, m1, t2, m2),
    ensures
        parallel_errors(t1, s, v) == parallel_errors(t2, s, v),
    decreases v, 2nat,
{
    if v.len() > 0 {
        lemma_parallel_same(t1, m1, t2, m2, s, v.subrange(0, v.len() - 1));
        lemma_stmts_same(t1, m1, t2, m2, s, v[v.len() - 1].body@);
    }
}

proof fn lemma_item_same(t1: SymbolTable, m1: ScopeMap, t2: SymbolTable, m2: ScopeMap, s: int, item: Item)
    requires
        same_typing_env(t1, m1, t2, m2),
    ensures
        item_errors(t1, m1, s, item) == item_errors(t2, m2, s, item),
    decreases item, 0nat,
{
    match item.node {
        ItemKind::Module(def) => {
            assert(m1.get_spec(def.name.span.start) == m2.get_spec(def.name.span.start));
            lemma_body_same(t1, m1, t2, m2, module_scope(t1, m1, s, def.name.span.start), def.body@);
        },
        _ => {},
    }
}

proof fn lemma_body_same(t1: SymbolTable, m1: ScopeMap, t2: SymbolTable, m2: ScopeMap, s: int, v: Seq<Item>)
    requires
        same_typing_env(t1, m1, t2, m2),
    ensures
        body_errors(t1, m1, s, v) == body_errors(t2, m2, s, v),
    decreases v, 1nat,
{
    if v.len() > 0 {
        let last = v[v.len() - 1];
        lemma_body_same(t1, m1, t2, m2, s, v.subrange(0, v.len() - 1));
        lemma_item_same(t1, m1, t2, m2, s, last);
        if let ItemKind::Stmt(st) = last.node {
            lemma_stmt_same(t1, m1, t2, m2, s, st);
        }
    }
}

proof fn lemma_items_same(t1: SymbolTable, m1: ScopeMap, t2: SymbolTable, m2: ScopeMap, s: int, v: Seq<Item>)
    requires
        same_typing_env(t1, m1, t2, m2),
    ensures
        items_errors(t1, m1, s, v) == items_errors(t2, m2, s, v),
    decreases v.len(),
{
    if v.len() > 0 {
        lemma_items_same(t1, m1, t2, m2, s, v.subrange(0, v.len() - 1));
        lemma_item_same(t1, m1, t2, m2, s, v[v.len() - 1]);
    }
}

/// Two well-formed tables with the same view give a name the same symbol.
proof fn lemma_same_symbol_named(t1: SymbolTable, t2: SymbolTable, s: int, n: Seq<char>)
    requires
        t1.wf(),
        t2.wf(),
        t1@ == t2@,
    ensures
        lookup_ty(t1, s, n) == lookup_ty(t2, s, n),
        names_input_port(t1, s, n) == names_input_port(t2, s, n),
{
    lemma_table_view(t1);
    lemma_table_view(t2);
    assert(t1@.lookup(s, n) == t2@.lookup(s, n));
    lemma_lookup_bound(t1, s, n);
    if let Some(id) = t1.lookup_spec(s, n) {
        let i = id.0 as int;
        assert(t2.lookup_spec(s, n) == Some(id));
        assert(t1@.symbols[i] == sym_view(t1.symbols_view()[i]));
        assert(t2@.symbols[i] == sym_view(t2.symbols_view()[i]));
    }
}

/// Type checking depends on the symbol table and the scope map only through
/// what they hold: two well-formed tables with the same view, with maps
/// holding the same entries, give the same errors.
pub proof fn law_checking_depends_on_views(t1: SymbolTable, m1: ScopeMap, t2: SymbolTable, m2: ScopeMap, v: Seq<Item>)
    requires
        t1.wf(),
        t2.wf(),
        t1@ == t2@,
        m1.entries_view() == m2.entries_view(),
    ensures
        items_errors(t1, m1, 0, v) == items_errors(t2, m2, 0, v),
{
    lemma_table_view(t1);
    lemma_table_view(t2);
    assert forall|s: int, n: Seq<char>| #[trigger] t1.lookup_spec(s, n) == t2.lookup_spec(s, n) by {
        assert(t1@.lookup(s, n) == t2@.lookup(s, n));
    }
    assert forall|s: int, n: Seq<char>| #[trigger] lookup_ty(t1, s, n) == lookup_ty(t2, s, n) by {
        lemma_same_symbol_named(t1, t2, s, n);
    }
    assert forall|s: int, n: Seq<char>| #[trigger] names_input_port(t1, s, n) == names_input_port(t2, s, n) by {
        lemma_same_symbol_named(t1, t2, s, n);
    }
    assert forall|k: u32| #[trigger] m1.get_spec(k) == m2.get_spec(k) by {}
    assert(t1.scope_count() == t2.scope_count());
    lemma_items_same(t1, m1, t2, m2, 0, v);
}

/// Conditions of `if` and `elif` must be `Bool`: checking an `if` reports
/// its condition's own errors, then a `Bool` mismatch exactly when the
/// condition's type is neither `Bool` nor `Error`, then the errors of the
/// branch, of each `elif` (condition, then body) and of the `else` branch.
pub proof fn law_if_conditions_are_bool(t: SymbolTable, s: int, st: Stmt, c: Expr)
    ensures
        cond_errors(t, s, c) == expr_rule(t, s, c).1 + if expr_rule(t, s, c).0 != Ty::Error && expr_rule(t, s, c).0
            != Ty::Bool {
            seq![ErrorView::TypeMismatch { expected: "Bool"@, found: ty_display(expr_rule(t, s, c).0), span: c.span }]
        } else {
            Seq::<ErrorView>::empty()
        },
        st.node matches StmtKind::If(ifs) ==> stmt_errors(t, s, st) == cond_errors(t, s, ifs.condition)
            + stmts_errors(t, s, ifs.then_body@) + elif_errors(t, s, ifs.elif_branches@) + match ifs.else_body {
            Some(e) => stmts_errors(t, s, e@),
            None => Seq::<ErrorView>::empty(),
        },
{
}

/// Assigning a value to a target reports at most one error. Unsized
/// literals fit anything. Between unsigned or between signed integers the
/// one error is a width mismatch, exactly when the value is wider; between
/// bit-vectors, exactly when the widths differ and the value's is known.
/// Two booleans, clocks, resets of one kind, structs, enums or arrays fit.
pub proof fn law_assignment_compatibility(target: Ty, value: Ty, span: Span)
    ensures
        compat_errors(target, value, span).len() <= 1,
        value == Ty::UInt(0) || value == Ty::MetaUInt || value == Ty::MetaInt ==> compat_errors(target, value, span).len() == 0,
        ({
            let ti = strip_direction(target);
            let vi = strip_direction(value);
            &&& value != Ty::UInt(0) && ((ti is UInt && vi is UInt) || (ti is SInt && vi is SInt)) ==> (compat_errors(
                target,
                value,
                span,
            ).len() == 1 <==> width_or_zero(vi) > width_or_zero(ti))
            &&& value != Ty::UInt(0) && ti is Bits && vi is Bits ==> (compat_errors(target, value, span).len() == 1 <==> (
            width_or_zero(vi) != width_or_zero(ti) && width_or_zero(vi) != 0))
            &&& (ti == Ty::Bool && vi == Ty::Bool) || (ti is Clock && vi is Clock) || (ti == Ty::SyncReset && vi
                == Ty::SyncReset) || (ti == Ty::AsyncReset && vi == Ty::AsyncReset) || (ti is Struct && vi is Struct) || (
            ti is Enum && vi is Enum) || (ti is Array && vi is Array) ==> compat_errors(target, value, span).len() == 0
        }),
{
}

} // verus!
