//! Type checking of expressions and statements against the symbol table.

use vstd::prelude::*;
use vstd::string::StringExecFns;

use crate::ast::expr::{BinOp, Expr, ExprKind, UnaryOp};
use crate::ast::item::{Item, ItemKind, ModuleDef, SourceFile};
use crate::ast::stmt::{RegBlock, Stmt, StmtKind};
use crate::ast::types::Direction;
use crate::lexer::NumericLiteral;
use crate::span::Span;
use crate::text::concat;

use super::error::{errors_view, lemma_errors_view_push, ErrorView, SemaError};
use super::eval::{ConstEval, ConstValue};
use super::resolve::ScopeMap;
use super::scope::{ScopeId, SymbolKind, SymbolTable};
use super::types::{width_fits, width_of, Ty};
use super::typing::{
    arithmetic_errors, assign_errors, body_errors, compat_errors, cond_errors, direction_errors, expr_rule,
    item_errors, items_errors, mismatch_view, module_scope, slice_width, stmt_errors, stmts_errors, target_rule,
    types_mismatch_view, elif_errors, arms_errors, priority_errors, parallel_errors, exprs_errors, binary_rule,
    node_rule,
};

verus! {

/// The width of a type for width arithmetic: its bit-width, or 0 when it has
/// none or its width does not fit in a `u64`.
pub open spec fn width_or_zero(t: Ty) -> u64 {
    match width_of(t) {
        Some(w) => if width_fits(t) && 0 <= w <= u64::MAX { w as u64 } else { 0 },
        None => 0,
    }
}

/// Whether the width of a type can be computed without overflow.
fn fits(t: &Ty) -> (r: bool)
    ensures
        r == width_fits(*t),
    decreases t,
{
    match t {
        Ty::Fixed { int_bits, frac_bits } => *int_bits <= u64::MAX - *frac_bits,
        Ty::Array { element, size } => {
            if !fits(element) {
                return false;
            }
            match element.bit_width() {
                Some(w) => w.checked_mul(*size).is_some(),
                None => true,
            }
        },
        Ty::Memory { element, depth } => {
            if !fits(element) {
                return false;
            }
            match element.bit_width() {
                Some(w) => w.checked_mul(*depth).is_some(),
                None => true,
            }
        },
        Ty::In(inner) | Ty::Out(inner) | Ty::InOut(inner) | Ty::Flip(inner) => fits(inner),
        _ => true,
    }
}

/// The width of a type, or 0; see [`width_or_zero`].
fn width_or_zero_exec(t: &Ty) -> (r: u64)
    ensures
        r == width_or_zero(*t),
{
    if fits(t) {
        match t.bit_width() {
            Some(w) => w,
            None => 0,
        }
    } else {
        0
    }
}

/// The larger of the two widths.
fn max_width(a: &Ty, b: &Ty) -> (r: u64)
    ensures
        r == (if width_or_zero(*a) >= width_or_zero(*b) { width_or_zero(*a) } else { width_or_zero(*b) }),
{
    let aw = width_or_zero_exec(a);
    let bw = width_or_zero_exec(b);
    if aw >= bw {
        aw
    } else {
        bw
    }
}

/// The sum of the two widths, wrapping.
fn sum_width(a: &Ty, b: &Ty) -> (r: u64)
    ensures
        r == vstd::wrapping::u64_specs::wrapping_add(width_or_zero(*a), width_or_zero(*b)),
{
    width_or_zero_exec(a).wrapping_add(width_or_zero_exec(b))
}

/// A type of the family of `base` (`UInt`, `SInt`, `Bits`; `UInt` otherwise)
/// with the given width.
pub open spec fn with_width(base: Ty, width: u64) -> Ty {
    match base {
        Ty::SInt(_) => Ty::SInt(width),
        Ty::Bits(_) => Ty::Bits(width),
        _ => Ty::UInt(width),
    }
}

fn same_kind_with_width(base: &Ty, width: u64) -> (r: Ty)
    ensures
        r == with_width(*base, width),
{
    match base {
        Ty::UInt(_) => Ty::UInt(width),
        Ty::SInt(_) => Ty::SInt(width),
        Ty::Bits(_) => Ty::Bits(width),
        _ => Ty::UInt(width),
    }
}

/// One layer of direction wrapper stripped.
pub open spec fn strip_direction(t: Ty) -> Ty {
    match t {
        Ty::In(inner) => *inner,
        Ty::Out(inner) => *inner,
        Ty::InOut(inner) => *inner,
        Ty::Flip(inner) => *inner,
        other => other,
    }
}

/// The width used for concatenation: that of the type without its direction wrapper.
fn bits_width(ty: &Ty) -> (r: u64)
    ensures
        r == width_or_zero(strip_direction(*ty)),
{
    width_or_zero_exec(ty.unwrap_direction())
}

/// Two types that `==`, `<` and the other comparisons accept: the same
/// integer or bit-vector family, two booleans, or an unsized literal
/// (`UInt<0>`) with anything; direction wrappers are looked through.
pub open spec fn comparable(a: Ty, b: Ty) -> bool {
    let (x, y) = (strip_direction(a), strip_direction(b));
    (x is UInt && y is UInt) || (x is SInt && y is SInt) || (x is Bits && y is Bits) || (x is Bool && y is Bool)
        || x == Ty::UInt(0) || y == Ty::UInt(0)
}

fn types_compatible_for_compare(a: &Ty, b: &Ty) -> (r: bool)
    ensures
        r == comparable(*a, *b),
{
    let a = a.unwrap_direction();
    let b = b.unwrap_direction();
    match (a, b) {
        (Ty::UInt(_), Ty::UInt(_)) => true,
        (Ty::SInt(_), Ty::SInt(_)) => true,
        (Ty::Bits(_), Ty::Bits(_)) => true,
        (Ty::Bool, Ty::Bool) => true,
        (Ty::UInt(0), _) | (_, Ty::UInt(0)) => true,
        _ => false,
    }
}

/// The type checker: infers the types of expressions and checks statements,
/// collecting errors, with names looked up in the table from the current scope.
pub struct TypeChecker<'a> {
    table: &'a SymbolTable,
    scope_map: &'a ScopeMap,
    errors: Vec<SemaError>,
    current_scope: ScopeId,
}

impl<'a> TypeChecker<'a> {
    /// The symbol table.
    pub closed spec fn table_spec(&self) -> SymbolTable {
        *self.table
    }

    /// The scope of each module.
    pub closed spec fn map_spec(&self) -> ScopeMap {
        *self.scope_map
    }

    /// The errors reported so far.
    pub closed spec fn errors_spec(&self) -> Seq<SemaError> {
        self.errors@
    }

    /// The scope names are looked up from.
    pub closed spec fn scope_spec(&self) -> int {
        self.current_scope.0 as int
    }

    /// The table is well formed and the current scope is one of its scopes.
    pub open spec fn inv(&self) -> bool {
        self.table_spec().wf() && 0 <= self.scope_spec() < self.table_spec().scope_count()
    }

    /// A checker at the root scope, without errors.
    pub fn new(table: &'a SymbolTable, scope_map: &'a ScopeMap) -> (r: Self)
        requires
            table.wf(),
        ensures
            r.inv(),
            r.table_spec() == *table,
            r.map_spec() == *scope_map,
            r.scope_spec() == 0,
            r.errors_spec().len() == 0,
    {
        TypeChecker { table, scope_map, errors: Vec::new(), current_scope: table.root_scope() }
    }

    /// Type-check every module of a file; the errors are those of
    /// [`items_errors`], added in order.
    #[verifier::loop_isolation(false)]
    pub fn check_file(&mut self, file: &SourceFile)
        requires
            old(self).inv(),
        ensures
            final(self).inv(),
            final(self).table_spec() == old(self).table_spec(),
            final(self).map_spec() == old(self).map_spec(),
            final(self).scope_spec() == old(self).scope_spec(),
            errors_view(final(self).errors_spec()) == errors_view(old(self).errors_spec()) + items_errors(
                old(self).table_spec(),
                old(self).map_spec(),
                old(self).scope_spec(),
                file.items@,
            ),
    {
        let ghost t = self.table_spec();
        let ghost m = self.map_spec();
        let ghost s = self.scope_spec();
        let mut i: usize = 0;
        while i < file.items.len()
            invariant
                self.inv(),
                self.table == old(self).table,
                self.scope_map == old(self).scope_map,
                self.current_scope == old(self).current_scope,
                i <= file.items@.len(),
                errors_view(self.errors@) == errors_view(old(self).errors@) + items_errors(t, m, s, file.items@.subrange(0, i as int)),
            decreases file.items@.len() - i,
        {
            proof {
                assert(file.items@.subrange(0, i + 1).subrange(0, i as int) =~= file.items@.subrange(0, i as int));
            }
            self.check_item(&file.items[i]);
            i = i + 1;
        }
        proof {
            assert(file.items@.subrange(0, i as int) =~= file.items@);
        }
    }

    /// The errors found.
    pub fn into_errors(self) -> (r: Vec<SemaError>)
        ensures
            r@ == self.errors_spec(),
    {
        self.errors
    }

    fn report(&mut self, e: SemaError)
        ensures
            final(self).errors@ == old(self).errors@.push(e),
            errors_view(final(self).errors@) == errors_view(old(self).errors@).push(e@),
            final(self).table == old(self).table,
            final(self).scope_map == old(self).scope_map,
            final(self).current_scope == old(self).current_scope,
    {
        self.errors.push(e);
        proof {
            lemma_errors_view_push(old(self).errors@, e);
        }
    }

    /// A `TypeMismatch` error.
    fn mismatch(&mut self, expected: &str, found: &Ty, span: Span)
        ensures
            final(self).table == old(self).table,
            final(self).scope_map == old(self).scope_map,
            final(self).current_scope == old(self).current_scope,
            errors_view(final(self).errors@) == errors_view(old(self).errors@).push(mismatch_view(expected@, *found, span)),
    {
        self.report(SemaError::TypeMismatch { expected: String::from_str(expected), found: found.to_string(), span });
    }

    /// A `TypeMismatch` error between two types.
    fn type_mismatch(&mut self, target: &Ty, value: &Ty, span: Span)
        ensures
            final(self).table == old(self).table,
            final(self).scope_map == old(self).scope_map,
            final(self).current_scope == old(self).current_scope,
            errors_view(final(self).errors@) == errors_view(old(self).errors@).push(types_mismatch_view(*target, *value, span)),
    {
        self.report(SemaError::TypeMismatch { expected: target.to_string(), found: value.to_string(), span });
    }

    /// Enter the scope recorded for `key`, if any; the previous scope is returned.
    fn enter_scope(&mut self, key: u32) -> (r: ScopeId)
        requires
            old(self).inv(),
        ensures
            final(self).inv(),
            r == old(self).current_scope,
            final(self).table == old(self).table,
            final(self).scope_map == old(self).scope_map,
            final(self).errors == old(self).errors,
            final(self).scope_spec() == module_scope(old(self).table_spec(), old(self).map_spec(), old(self).scope_spec(), key),
    {
        let prev = self.current_scope;
        if let Some(scope_id) = self.scope_map.get(key) {
            if (scope_id.0 as usize) < self.table.scope_len() {
                self.current_scope = scope_id;
            }
        }
        prev
    }

    #[verifier::loop_isolation(false)]
    fn check_item(&mut self, item: &Item)
        requires
            old(self).inv(),
        ensures
            final(self).inv(),
            final(self).table == old(self).table,
            final(self).scope_map == old(self).scope_map,
            final(self).current_scope == old(self).current_scope,
            errors_view(final(self).errors@) == errors_view(old(self).errors@) + item_errors(
                old(self).table_spec(),
                old(self).map_spec(),
                old(self).scope_spec(),
                *item,
            ),
        decreases item, 0nat,
    {
        if let ItemKind::Module(def) = &item.node {
            self.check_module(def);
        }
    }

    #[verifier::loop_isolation(false)]
    #[verifier::spinoff_prover]
    #[verifier::rlimit(30)]
    fn check_module(&mut self, def: &ModuleDef)
        requires
            old(self).inv(),
        ensures
            final(self).inv(),
            final(self).table == old(self).table,
            final(self).scope_map == old(self).scope_map,
            final(self).current_scope == old(self).current_scope,
            errors_view(final(self).errors@) == errors_view(old(self).errors@) + body_errors(
                old(self).table_spec(),
                old(self).map_spec(),
                module_scope(old(self).table_spec(), old(self).map_spec(), old(self).scope_spec(), def.name.span.start),
                def.body@,
            ),
        decreases def, 2nat,
    {
        let ghost t = self.table_spec();
        let ghost m = self.map_spec();
        let prev = self.enter_scope(def.name.span.start);
        let ghost s = self.scope_spec();
        let mut i: usize = 0;
        while i < def.body.len()
            invariant
                self.inv(),
                self.table == old(self).table,
                self.scope_map == old(self).scope_map,
                self.scope_spec() == s,
                i <= def.body@.len(),
                errors_view(self.errors@) == errors_view(old(self).errors@) + body_errors(t, m, s, def.body@.subrange(0, i as int)),
            decreases def.body@.len() - i,
        {
            proof {
                assert(decreases_to!(def => def.body@[i as int]));
                assert(def.body@.subrange(0, i + 1).subrange(0, i as int) =~= def.body@.subrange(0, i as int));
            }
            let body_item = &def.body[i];
            self.check_item(body_item);
            if let ItemKind::Stmt(stmt) = &body_item.node {
                self.check_stmt(stmt);
            }
            i = i + 1;
        }
        proof {
            assert(def.body@.subrange(0, i as int) =~= def.body@);
        }
        self.current_scope = prev;
    }

    /// Check that a condition is boolean.
    fn check_bool_condition(&mut self, cond: &Expr)
        requires
            old(self).inv(),
        ensures
            final(self).inv(),
            final(self).table == old(self).table,
            final(self).scope_map == old(self).scope_map,
            final(self).current_scope == old(self).current_scope,
            errors_view(final(self).errors@) == errors_view(old(self).errors@) + cond_errors(
                old(self).table_spec(),
                old(self).scope_spec(),
                *cond,
            ),
        decreases cond, 3nat,
    {
        let cond_ty = self.check_expr(cond);
        if !cond_ty.is_error() && !cond_ty.same_as(&Ty::Bool) {
            self.mismatch("Bool", &cond_ty, cond.span);
            proof {
                reveal_strlit("Bool");
            }
        }
    }

    #[verifier::loop_isolation(false)]
    fn check_stmts(&mut self, stmts: &Vec<Stmt>)
        requires
            old(self).inv(),
        ensures
            final(self).inv(),
            final(self).table == old(self).table,
            final(self).scope_map == old(self).scope_map,
            final(self).current_scope == old(self).current_scope,
            errors_view(final(self).errors@) == errors_view(old(self).errors@) + stmts_errors(
                old(self).table_spec(),
                old(self).scope_spec(),
                stmts@,
            ),
        decreases stmts, 3nat,
    {
        let ghost t = self.table_spec();
        let ghost s = self.scope_spec();
        let mut i: usize = 0;
        while i < stmts.len()
            invariant
                self.inv(),
                self.table == old(self).table,
                self.scope_map == old(self).scope_map,
                self.current_scope == old(self).current_scope,
                i <= stmts@.len(),
                errors_view(self.errors@) == errors_view(old(self).errors@) + stmts_errors(t, s, stmts@.subrange(0, i as int)),
            decreases stmts@.len() - i,
        {
            proof {
                assert(decreases_to!(stmts => stmts@[i as int]));
                assert(stmts@.subrange(0, i + 1).subrange(0, i as int) =~= stmts@.subrange(0, i as int));
            }
            self.check_stmt(&stmts[i]);
            i = i + 1;
        }
        proof {
            assert(stmts@.subrange(0, i as int) =~= stmts@);
        }
    }

    /// Check a statement: assignments, conditions (which must be `Bool`),
    /// clocked blocks, and the statements nested in it.
    #[verifier::spinoff_prover]
    #[verifier::rlimit(80)]
    fn check_stmt(&mut self, stmt: &Stmt)
        requires
            old(self).inv(),
        ensures
            final(self).inv(),
            final(self).table == old(self).table,
            final(self).scope_map == old(self).scope_map,
            final(self).current_scope == old(self).current_scope,
            errors_view(final(self).errors@) == errors_view(old(self).errors@) + stmt_errors(
                old(self).table_spec(),
                old(self).scope_spec(),
                *stmt,
            ),
        decreases stmt, 3nat,
    {
        match &stmt.node {
            StmtKind::Assign { target, value } => {
                self.check_assignment(target, value, stmt.span);
            },
            StmtKind::CombBlock(stmts) => self.check_stmts(stmts),
            StmtKind::RegBlock(reg) => self.check_reg_block(reg),
            StmtKind::If(_) => self.check_if_stmt(stmt),
            StmtKind::Match(_) => self.check_match_stmt(stmt),
            StmtKind::For(for_stmt) => {
                let _ = self.check_expr(&for_stmt.iterable);
                self.check_stmts(&for_stmt.body);
            },
            StmtKind::PriorityBlock(_) => self.check_priority_block(stmt),
            StmtKind::ParallelBlock(_) => self.check_parallel_block(stmt),
            StmtKind::UncheckedBlock(stmts) => self.check_stmts(stmts),
            StmtKind::Assert(a) => {
                let _ = self.check_expr(&a.expr);
            },
            StmtKind::Assume { expr, .. } => {
                let _ = self.check_expr(expr);
            },
            StmtKind::Cover { expr, .. } => {
                let _ = self.check_expr(expr);
            },
            StmtKind::StaticAssert { expr, .. } => {
                let _ = self.check_expr(expr);
            },
            StmtKind::ExprStmt(expr) => {
                let _ = self.check_expr(expr);
            },
            _ => {},
        }
    }

    /// An `if`: each condition must be `Bool`; then every branch.
    #[verifier::loop_isolation(false)]
    #[verifier::spinoff_prover]
    #[verifier::rlimit(30)]
    fn check_if_stmt(&mut self, stmt: &Stmt)
        requires
            old(self).inv(),
            stmt.node is If,
        ensures
            final(self).inv(),
            final(self).table == old(self).table,
            final(self).scope_map == old(self).scope_map,
            final(self).current_scope == old(self).current_scope,
            errors_view(final(self).errors@) == errors_view(old(self).errors@) + stmt_errors(
                old(self).table_spec(),
                old(self).scope_spec(),
                *stmt,
            ),
        decreases stmt, 2nat,
    {
        let ghost t = self.table_spec();
        let ghost s = self.scope_spec();
        let ghost e0 = errors_view(self.errors@);
        let if_stmt = match &stmt.node {
            StmtKind::If(if_stmt) => if_stmt,
            _ => {
                return;
            },
        };
        self.check_bool_condition(&if_stmt.condition);
        self.check_stmts(&if_stmt.then_body);
        let ghost e1 = errors_view(self.errors@);
        let ghost v = if_stmt.elif_branches@;
        let mut i: usize = 0;
        while i < if_stmt.elif_branches.len()
            invariant
                self.inv(),
                self.table == old(self).table,
                self.scope_map == old(self).scope_map,
                self.current_scope == old(self).current_scope,
                i <= v.len(),
                errors_view(self.errors@) == e1 + elif_errors(t, s, v.subrange(0, i as int)),
            decreases if_stmt.elif_branches@.len() - i,
        {
            proof {
                assert(decreases_to!(stmt => if_stmt.elif_branches@[i as int].1));
                assert(v.subrange(0, i + 1).subrange(0, i as int) =~= v.subrange(0, i as int));
            }
            self.check_bool_condition(&if_stmt.elif_branches[i].0);
            self.check_stmts(&if_stmt.elif_branches[i].1);
            i = i + 1;
        }
        proof {
            assert(v.subrange(0, i as int) =~= v);
        }
        if let Some(else_body) = &if_stmt.else_body {
            self.check_stmts(else_body);
        }
    }

    /// A `match`: the scrutinee, then every arm.
    #[verifier::loop_isolation(false)]
    #[verifier::spinoff_prover]
    #[verifier::rlimit(30)]
    fn check_match_stmt(&mut self, stmt: &Stmt)
        requires
            old(self).inv(),
            stmt.node is Match,
        ensures
            final(self).inv(),
            final(self).table == old(self).table,
            final(self).scope_map == old(self).scope_map,
            final(self).current_scope == old(self).current_scope,
            errors_view(final(self).errors@) == errors_view(old(self).errors@) + stmt_errors(
                old(self).table_spec(),
                old(self).scope_spec(),
                *stmt,
            ),
        decreases stmt, 2nat,
    {
        let ghost t = self.table_spec();
        let ghost s = self.scope_spec();
        let ghost e0 = errors_view(self.errors@);
        let match_stmt = match &stmt.node {
            StmtKind::Match(m) => m,
            _ => {
                return;
            },
        };
        let _ = self.check_expr(&match_stmt.scrutinee);
        let ghost e1 = errors_view(self.errors@);
        let ghost v = match_stmt.arms@;
        let mut i: usize = 0;
        while i < match_stmt.arms.len()
            invariant
                self.inv(),
                self.table == old(self).table,
                self.scope_map == old(self).scope_map,
                self.current_scope == old(self).current_scope,
                i <= v.len(),
                errors_view(self.errors@) == e1 + arms_errors(t, s, v.subrange(0, i as int)),
            decreases match_stmt.arms@.len() - i,
        {
            proof {
                assert(decreases_to!(stmt => match_stmt.arms@[i as int].body));
                assert(v.subrange(0, i + 1).subrange(0, i as int) =~= v.subrange(0, i as int));
            }
            self.check_stmts(&match_stmt.arms[i].body);
            i = i + 1;
        }
        proof {
            assert(v.subrange(0, i as int) =~= v);
        }
    }

    /// A `priority` block: each arm's condition must be `Bool`; then its body.
    #[verifier::loop_isolation(false)]
    #[verifier::spinoff_prover]
    #[verifier::rlimit(30)]
    fn check_priority_block(&mut self, stmt: &Stmt)
        requires
            old(self).inv(),
            stmt.node is PriorityBlock,
        ensures
            final(self).inv(),
            final(self).table == old(self).table,
            final(self).scope_map == old(self).scope_map,
            final(self).current_scope == old(self).current_scope,
            errors_view(final(self).errors@) == errors_view(old(self).errors@) + stmt_errors(
                old(self).table_spec(),
                old(self).scope_spec(),
                *stmt,
            ),
        decreases stmt, 2nat,
    {
        let ghost t = self.table_spec();
        let ghost s = self.scope_spec();
        let ghost e0 = errors_view(self.errors@);
        let pb = match &stmt.node {
            StmtKind::PriorityBlock(pb) => pb,
            _ => {
                return;
            },
        };
        let ghost v = pb.arms@;
        let mut i: usize = 0;
        while i < pb.arms.len()
            invariant
                self.inv(),
                self.table == old(self).table,
                self.scope_map == old(self).scope_map,
                self.current_scope == old(self).current_scope,
                i <= v.len(),
                errors_view(self.errors@) == e0 + priority_errors(t, s, v.subrange(0, i as int)),
            decreases pb.arms@.len() - i,
        {
            proof {
                assert(decreases_to!(stmt => pb.arms@[i as int].body));
                assert(v.subrange(0, i + 1).subrange(0, i as int) =~= v.subrange(0, i as int));
            }
            self.check_bool_condition(&pb.arms[i].condition);
            self.check_stmts(&pb.arms[i].body);
            i = i + 1;
        }
        proof {
            assert(v.subrange(0, i as int) =~= v);
        }
        if let Some(otherwise) = &pb.otherwise {
            self.check_stmts(otherwise);
        }
    }

    /// A `parallel` block: the body of every arm.
    #[verifier::loop_isolation(false)]
    #[verifier::spinoff_prover]
    #[verifier::rlimit(30)]
    fn check_parallel_block(&mut self, stmt: &Stmt)
        requires
            old(self).inv(),
            stmt.node is ParallelBlock,
        ensures
            final(self).inv(),
            final(self).table == old(self).table,
            final(self).scope_map == old(self).scope_map,
            final(self).current_scope == old(self).current_scope,
            errors_view(final(self).errors@) == errors_view(old(self).errors@) + stmt_errors(
                old(self).table_spec(),
                old(self).scope_spec(),
                *stmt,
            ),
        decreases stmt, 2nat,
    {
        let ghost t = self.table_spec();
        let ghost s = self.scope_spec();
        let ghost e0 = errors_view(self.errors@);
        let pb = match &stmt.node {
            StmtKind::ParallelBlock(pb) => pb,
            _ => {
                return;
            },
        };
        let ghost v = pb.arms@;
        let mut i: usize = 0;
        while i < pb.arms.len()
            invariant
                self.inv(),
                self.table == old(self).table,
                self.scope_map == old(self).scope_map,
                self.current_scope == old(self).current_scope,
                i <= v.len(),
                errors_view(self.errors@) == e0 + parallel_errors(t, s, v.subrange(0, i as int)),
            decreases pb.arms@.len() - i,
        {
            proof {
                assert(decreases_to!(stmt => pb.arms@[i as int].body));
                assert(v.subrange(0, i + 1).subrange(0, i as int) =~= v.subrange(0, i as int));
            }
            self.check_stmts(&pb.arms[i].body);
            i = i + 1;
        }
        proof {
            assert(v.subrange(0, i as int) =~= v);
        }
    }

    /// A clocked block: the clock must be a `Clock`, the reset a reset type.
    #[verifier::loop_isolation(false)]
    #[verifier::spinoff_prover]
    #[verifier::rlimit(30)]
    fn check_reg_block(&mut self, reg: &RegBlock)
        requires
            old(self).inv(),
        ensures
            final(self).inv(),
            final(self).table == old(self).table,
            final(self).scope_map == old(self).scope_map,
            final(self).current_scope == old(self).current_scope,
            ({
                let t = old(self).table_spec();
                let s = old(self).scope_spec();
                let (c, ce) = expr_rule(t, s, reg.clock);
                let (r, re) = expr_rule(t, s, reg.reset);
                errors_view(final(self).errors@) == errors_view(old(self).errors@) + ce + (if c != Ty::Error && !(c is Clock) {
                    seq![mismatch_view("Clock"@, c, reg.clock.span)]
                } else {
                    seq![]
                }) + re + (if r != Ty::Error && r != Ty::SyncReset && r != Ty::AsyncReset {
                    seq![mismatch_view("SyncReset or AsyncReset"@, r, reg.reset.span)]
                } else {
                    seq![]
                }) + (match reg.enable {
                    Some(en) => expr_rule(t, s, en).1,
                    None => seq![],
                }) + stmts_errors(t, s, reg.on_reset@) + stmts_errors(t, s, reg.on_tick@)
            }),
        decreases reg, 3nat,
    {
        let clk_ty = self.check_expr(&reg.clock);
        let clk_ok = match clk_ty {
            Ty::Clock { .. } => true,
            _ => false,
        };
        if !clk_ty.is_error() && !clk_ok {
            self.mismatch("Clock", &clk_ty, reg.clock.span);
        }
        let rst_ty = self.check_expr(&reg.reset);
        let rst_ok = match rst_ty {
            Ty::SyncReset | Ty::AsyncReset => true,
            _ => false,
        };
        if !rst_ty.is_error() && !rst_ok {
            self.mismatch("SyncReset or AsyncReset", &rst_ty, reg.reset.span);
        }
        if let Some(en) = &reg.enable {
            let _ = self.check_expr(en);
        }
        self.check_stmts(&reg.on_reset);
        self.check_stmts(&reg.on_tick);
    }

    /// An assignment: the target must be assignable and no input port, and
    /// the value's type must fit the target's.
    fn check_assignment(&mut self, target: &Expr, value: &Expr, stmt_span: Span)
        requires
            old(self).inv(),
        ensures
            final(self).inv(),
            final(self).table == old(self).table,
            final(self).scope_map == old(self).scope_map,
            final(self).current_scope == old(self).current_scope,
            errors_view(final(self).errors@) == errors_view(old(self).errors@) + assign_errors(
                old(self).table_spec(),
                old(self).scope_spec(),
                *target,
                *value,
            ),
    {
        let target_ty = self.resolve_target_type(target);
        self.check_direction_violation(target);
        let value_ty = self.check_expr(value);
        if target_ty.is_error() || value_ty.is_error() {
            return;
        }
        self.check_type_compatibility(&target_ty, &value_ty, value.span);
    }

    /// The type of an assignment target; targets that are not assignable are errors.
    fn resolve_target_type(&mut self, target: &Expr) -> (r: Ty)
        requires
            old(self).inv(),
        ensures
            final(self).inv(),
            final(self).table == old(self).table,
            final(self).scope_map == old(self).scope_map,
            final(self).current_scope == old(self).current_scope,
            r == target_rule(old(self).table_spec(), old(self).scope_spec(), *target).0,
            errors_view(final(self).errors@) == errors_view(old(self).errors@) + target_rule(
                old(self).table_spec(),
                old(self).scope_spec(),
                *target,
            ).1,
        decreases target,
    {
        match &target.node {
            ExprKind::Ident(name) => match self.table.lookup(self.current_scope, name.as_str()) {
                Some(sym) => sym.ty.duplicate(),
                None => Ty::Error,
            },
            ExprKind::FieldAccess { object, .. } => self.resolve_target_type(object),
            ExprKind::Index { array, .. } => {
                let arr_ty = self.resolve_target_type(array);
                match arr_ty {
                    Ty::Array { element, .. } => *element,
                    Ty::UInt(_) | Ty::SInt(_) | Ty::Bits(_) => Ty::Bool,
                    _ => Ty::Error,
                }
            },
            ExprKind::BitSlice { value, high, low } => {
                let width = try_bitslice_width(high, low);
                let _ = self.resolve_target_type(value);
                Ty::Bits(width)
            },
            _ => {
                self.report(SemaError::InvalidAssignTarget { span: target.span });
                Ty::Error
            },
        }
    }

    /// Assigning to an input port is a direction violation.
    fn check_direction_violation(&mut self, target: &Expr)
        requires
            old(self).inv(),
        ensures
            final(self).inv(),
            final(self).table == old(self).table,
            final(self).scope_map == old(self).scope_map,
            final(self).current_scope == old(self).current_scope,
            errors_view(final(self).errors@) == errors_view(old(self).errors@) + direction_errors(
                old(self).table_spec(),
                old(self).scope_spec(),
                *target,
            ),
    {
        if let ExprKind::Ident(name) = &target.node {
            if let Some(sym) = self.table.lookup(self.current_scope, name.as_str()) {
                let is_in = match sym.direction {
                    Some(Direction::In) => true,
                    _ => false,
                };
                if sym.kind == SymbolKind::Port && is_in {
                    let m = concat(concat("cannot assign to input port `", name.as_str()).as_str(), "`");
                    proof {
                        reveal_strlit("cannot assign to input port `");
                        reveal_strlit("`");
                    }
                    self.report(SemaError::DirectionViolation { message: m, span: target.span });
                }
            }
        }
    }

    /// A width mismatch.
    fn width_mismatch(&mut self, expected: u64, found: u64, span: Span)
        ensures
            final(self).table == old(self).table,
            final(self).scope_map == old(self).scope_map,
            final(self).current_scope == old(self).current_scope,
            errors_view(final(self).errors@) == errors_view(old(self).errors@).push(
                ErrorView::WidthMismatch { expected, found, span },
            ),
    {
        self.report(SemaError::WidthMismatch { expected, found, span });
    }

    /// Is a value of type `value_ty` assignable to a target of type
    /// `target_ty`? Unsized literals fit anything; integers must not be wider
    /// than their target, bit-vectors as wide; otherwise the kinds must agree.
    fn check_type_compatibility(&mut self, target_ty: &Ty, value_ty: &Ty, span: Span)
        ensures
            final(self).table == old(self).table,
            final(self).scope_map == old(self).scope_map,
            final(self).current_scope == old(self).current_scope,
            errors_view(final(self).errors@) == errors_view(old(self).errors@) + compat_errors(*target_ty, *value_ty, span),
    {
        let is_literal = match value_ty {
            Ty::UInt(0) | Ty::MetaUInt | Ty::MetaInt => true,
            _ => false,
        };
        if is_literal {
            return;
        }
        let target_inner = target_ty.unwrap_direction();
        let value_inner = value_ty.unwrap_direction();
        match (target_inner, value_inner) {
            (Ty::UInt(tw), Ty::UInt(vw)) => {
                if *vw > *tw && *vw != 0 {
                    self.width_mismatch(*tw, *vw, span);
                }
            },
            (Ty::SInt(tw), Ty::SInt(vw)) => {
                if *vw > *tw && *vw != 0 {
                    self.width_mismatch(*tw, *vw, span);
                }
            },
            (Ty::Bits(tw), Ty::Bits(vw)) => {
                if *vw != *tw && *vw != 0 {
                    self.width_mismatch(*tw, *vw, span);
                }
            },
            (Ty::Bool, Ty::Bool) => {},
            (Ty::Clock { .. }, Ty::Clock { .. }) => {},
            (Ty::SyncReset, Ty::SyncReset) => {},
            (Ty::AsyncReset, Ty::AsyncReset) => {},
            (Ty::UInt(_), Ty::SInt(_)) | (Ty::SInt(_), Ty::UInt(_)) => {
                self.type_mismatch(target_inner, value_inner, span);
            },
            (Ty::Bool, _) | (_, Ty::Bool) => {
                self.type_mismatch(target_inner, value_inner, span);
            },
            (Ty::Struct(_), Ty::Struct(_)) | (Ty::Enum(_), Ty::Enum(_)) | (Ty::Array { .. }, Ty::Array { .. }) => {},
            _ => {
                self.type_mismatch(target_inner, value_inner, span);
            },
        }
    }

    /// Infer the type of an expression, following [`expr_rule`]: an
    /// expression whose checking reports an error has type `Ty::Error`, and
    /// each error is reported once, where it arises.
    pub fn check_expr(&mut self, expr: &Expr) -> (r: Ty)
        requires
            old(self).inv(),
        ensures
            final(self).inv(),
            final(self).table_spec() == old(self).table_spec(),
            final(self).map_spec() == old(self).map_spec(),
            final(self).scope_spec() == old(self).scope_spec(),
            r == expr_rule(old(self).table_spec(), old(self).scope_spec(), *expr).0,
            errors_view(final(self).errors_spec()) == errors_view(old(self).errors_spec()) + expr_rule(
                old(self).table_spec(),
                old(self).scope_spec(),
                *expr,
            ).1,
        decreases expr, 2nat,
    {
        let before = self.errors.len();
        let ghost old_errors = self.errors@;
        let ty = self.check_node(expr);
        proof {
            let added = node_rule(self.table_spec(), self.scope_spec(), *expr).1;
            assert(errors_view(self.errors@).len() == self.errors@.len());
            assert(errors_view(old_errors).len() == old_errors.len());
            assert(self.errors@.len() == before + added.len());
        }
        if self.errors.len() > before {
            Ty::Error
        } else {
            ty
        }
    }

    /// The type that an expression's own form gives it, following
    /// [`node_rule`], with the errors reported on the way.
    #[verifier::loop_isolation(false)]
    fn check_node(&mut self, expr: &Expr) -> (r: Ty)
        requires
            old(self).inv(),
        ensures
            final(self).inv(),
            final(self).table_spec() == old(self).table_spec(),
            final(self).map_spec() == old(self).map_spec(),
            final(self).scope_spec() == old(self).scope_spec(),
            r == node_rule(old(self).table_spec(), old(self).scope_spec(), *expr).0,
            errors_view(final(self).errors_spec()) == errors_view(old(self).errors_spec()) + node_rule(
                old(self).table_spec(),
                old(self).scope_spec(),
                *expr,
            ).1,
        decreases expr, 1nat,
    {
        let ghost t = self.table_spec();
        let ghost s = self.scope_spec();
        match &expr.node {
            ExprKind::BoolLiteral(_) => Ty::Bool,
            ExprKind::IntLiteral(lit) => match lit {
                NumericLiteral::Sized { width, .. } => Ty::UInt(*width as u64),
                _ => Ty::UInt(0),
            },
            ExprKind::StringLiteral(_) => Ty::MetaString,
            ExprKind::Ident(name) => match self.table.lookup(self.current_scope, name.as_str()) {
                Some(sym) => sym.ty.duplicate(),
                None => Ty::Error,
            },
            ExprKind::Paren(inner) => self.check_expr(inner),
            ExprKind::Binary { .. } => self.check_binary(expr),
            ExprKind::Unary { .. } => self.check_unary(expr),
            ExprKind::IfExpr { .. } => self.check_if_expr(expr),
            ExprKind::Index { .. } => self.check_index(expr),
            ExprKind::BitSlice { value, high, low } => {
                let _ = self.check_expr(value);
                let width = try_bitslice_width(high, low);
                Ty::Bits(width)
            },
            ExprKind::FieldAccess { .. } | ExprKind::MethodCall { .. } | ExprKind::Call { .. } | ExprKind::Pipe { .. } => Ty::Error,
            ExprKind::TypeCast { .. } => Ty::Error,
            ExprKind::StructLiteral { .. } => Ty::Error,
            ExprKind::ArrayLiteral(_) => self.check_array_literal(expr),
            ExprKind::Range { .. } => Ty::MetaUInt,
            ExprKind::Next { expr: inner, .. } => self.check_expr(inner),
            ExprKind::Eventually { expr: inner, .. } => {
                let _ = self.check_expr(inner);
                Ty::Bool
            },
            ExprKind::Unchecked(inner) => self.check_expr(inner),
        }
    }

    /// The type of a conditional expression: the condition must be `Bool`,
    /// and the two branches must agree.
    #[verifier::spinoff_prover]
    #[verifier::rlimit(30)]
    fn check_if_expr(&mut self, expr: &Expr) -> (r: Ty)
        requires
            old(self).inv(),
            expr.node is IfExpr,
        ensures
            final(self).inv(),
            final(self).table == old(self).table,
            final(self).scope_map == old(self).scope_map,
            final(self).current_scope == old(self).current_scope,
            r == node_rule(old(self).table_spec(), old(self).scope_spec(), *expr).0,
            errors_view(final(self).errors@) == errors_view(old(self).errors@) + node_rule(
                old(self).table_spec(),
                old(self).scope_spec(),
                *expr,
            ).1,
        decreases expr, 0nat,
    {
        let (condition, then_expr, else_expr) = match &expr.node {
            ExprKind::IfExpr { condition, then_expr, else_expr } => (condition, then_expr, else_expr),
            _ => {
                return Ty::Error;
            },
        };
        self.check_bool_condition(condition);
        let then_ty = self.check_expr(then_expr);
        let else_ty = self.check_expr(else_expr);
        if then_ty.is_error() {
            else_ty
        } else if else_ty.is_error() || then_ty.same_as(&else_ty) {
            then_ty
        } else {
            self.type_mismatch(&then_ty, &else_ty, else_expr.span);
            then_ty
        }
    }

    /// The type of an indexing: an array's element, or a bit of a bit-vector.
    fn check_index(&mut self, expr: &Expr) -> (r: Ty)
        requires
            old(self).inv(),
            expr.node is Index,
        ensures
            final(self).inv(),
            final(self).table == old(self).table,
            final(self).scope_map == old(self).scope_map,
            final(self).current_scope == old(self).current_scope,
            r == node_rule(old(self).table_spec(), old(self).scope_spec(), *expr).0,
            errors_view(final(self).errors@) == errors_view(old(self).errors@) + node_rule(
                old(self).table_spec(),
                old(self).scope_spec(),
                *expr,
            ).1,
        decreases expr, 0nat,
    {
        let array = match &expr.node {
            ExprKind::Index { array, .. } => array,
            _ => {
                return Ty::Error;
            },
        };
        let arr_ty = self.check_expr(array);
        match arr_ty {
            Ty::Array { element, .. } => *element,
            Ty::Error => Ty::Error,
            Ty::UInt(_) | Ty::SInt(_) | Ty::Bits(_) => Ty::Bool,
            _ => {
                self.mismatch("array or bit-vector", &arr_ty, array.span);
                proof {
                    reveal_strlit("array or bit-vector");
                }
                Ty::Error
            },
        }
    }

    /// The type of an array literal: an array of its first element's type.
    #[verifier::loop_isolation(false)]
    #[verifier::spinoff_prover]
    #[verifier::rlimit(30)]
    fn check_array_literal(&mut self, expr: &Expr) -> (r: Ty)
        requires
            old(self).inv(),
            expr.node is ArrayLiteral,
        ensures
            final(self).inv(),
            final(self).table == old(self).table,
            final(self).scope_map == old(self).scope_map,
            final(self).current_scope == old(self).current_scope,
            r == node_rule(old(self).table_spec(), old(self).scope_spec(), *expr).0,
            errors_view(final(self).errors@) == errors_view(old(self).errors@) + node_rule(
                old(self).table_spec(),
                old(self).scope_spec(),
                *expr,
            ).1,
        decreases expr, 0nat,
    {
        let ghost t = self.table_spec();
        let ghost s = self.scope_spec();
        let elems = match &expr.node {
            ExprKind::ArrayLiteral(elems) => elems,
            _ => {
                return Ty::Error;
            },
        };
        if elems.len() == 0 {
            return Ty::Error;
        }
        let ghost v = elems@;
        proof {
            assert(decreases_to!(expr => elems@[0]));
            let w = v.subrange(0, 1);
            assert(w.subrange(0, 0) =~= Seq::<Expr>::empty());
            assert(w[0] == v[0]);
            assert(exprs_errors(t, s, w) == exprs_errors(t, s, w.subrange(0, 0)) + expr_rule(t, s, v[0]).1);
            assert(exprs_errors(t, s, w) =~= expr_rule(t, s, v[0]).1);
        }
        let elem_ty = self.check_expr(&elems[0]);
        let mut i: usize = 1;
        while i < elems.len()
            invariant
                self.inv(),
                self.table == old(self).table,
                self.scope_map == old(self).scope_map,
                self.current_scope == old(self).current_scope,
                1 <= i <= v.len(),
                v == elems@,
                expr.node == ExprKind::ArrayLiteral(*elems),
                errors_view(self.errors@) == errors_view(old(self).errors@) + exprs_errors(t, s, v.subrange(0, i as int)),
            decreases elems@.len() - i,
        {
            proof {
                assert(decreases_to!(expr => elems@[i as int]));
                assert(v.subrange(0, i + 1).subrange(0, i as int) =~= v.subrange(0, i as int));
            }
            let _ = self.check_expr(&elems[i]);
            i = i + 1;
        }
        proof {
            assert(v.subrange(0, i as int) =~= v);
        }
        Ty::Array { element: Box::new(elem_ty), size: elems.len() as u64 }
    }

    /// Arithmetic and bitwise operands must be numeric and of one family
    /// (an unsized literal goes with any).
    fn check_arithmetic_operands(&mut self, lhs: &Ty, rhs: &Ty, span: Span)
        ensures
            final(self).table == old(self).table,
            final(self).scope_map == old(self).scope_map,
            final(self).current_scope == old(self).current_scope,
            errors_view(final(self).errors@) == errors_view(old(self).errors@) + arithmetic_errors(*lhs, *rhs, span),
    {
        let lhs_ok = lhs.is_numeric() || lhs.same_as(&Ty::UInt(0));
        let rhs_ok = rhs.is_numeric() || rhs.same_as(&Ty::UInt(0));
        if !lhs_ok || !rhs_ok {
            let found = if !lhs_ok { lhs } else { rhs };
            self.mismatch("numeric type (UInt, SInt, Bits)", found, span);
            proof {
                reveal_strlit("numeric type (UInt, SInt, Bits)");
            }
        }
        if lhs_ok && rhs_ok {
            let same = match (lhs, rhs) {
                (Ty::UInt(_), Ty::UInt(_)) => true,
                (Ty::SInt(_), Ty::SInt(_)) => true,
                (Ty::Bits(_), Ty::Bits(_)) => true,
                (Ty::UInt(0), _) | (_, Ty::UInt(0)) => true,
                _ => false,
            };
            if !same {
                self.type_mismatch(lhs, rhs, span);
            }
        }
    }

    /// The type of a binary expression: both operands are inferred first,
    /// and an error in either gives `Ty::Error`.
    fn check_binary(&mut self, expr: &Expr) -> (r: Ty)
        requires
            old(self).inv(),
            expr.node is Binary,
        ensures
            final(self).inv(),
            final(self).table == old(self).table,
            final(self).scope_map == old(self).scope_map,
            final(self).current_scope == old(self).current_scope,
            r == node_rule(old(self).table_spec(), old(self).scope_spec(), *expr).0,
            errors_view(final(self).errors@) == errors_view(old(self).errors@) + node_rule(
                old(self).table_spec(),
                old(self).scope_spec(),
                *expr,
            ).1,
        decreases expr, 0nat,
    {
        let (op, lhs, rhs) = match &expr.node {
            ExprKind::Binary { op, lhs, rhs } => (*op, lhs, rhs),
            _ => {
                return Ty::Error;
            },
        };
        let span = expr.span;
        let lhs_ty = self.check_expr(lhs);
        let rhs_ty = self.check_expr(rhs);
        if lhs_ty.is_error() || rhs_ty.is_error() {
            return Ty::Error;
        }
        self.binary_result(op, lhs_ty, rhs_ty, lhs, rhs, span)
    }

    /// The type of a binary operation on operands of the given types (not
    /// `Error`), with the errors it gives.
    #[verifier::spinoff_prover]
    #[verifier::rlimit(30)]
    fn binary_result(&mut self, op: BinOp, lhs_ty: Ty, rhs_ty: Ty, lhs: &Expr, rhs: &Expr, span: Span) -> (r: Ty)
        ensures
            final(self).table == old(self).table,
            final(self).scope_map == old(self).scope_map,
            final(self).current_scope == old(self).current_scope,
            r == binary_rule(op, lhs_ty, rhs_ty, *lhs, *rhs, span).0,
            errors_view(final(self).errors@) == errors_view(old(self).errors@) + binary_rule(
                op,
                lhs_ty,
                rhs_ty,
                *lhs,
                *rhs,
                span,
            ).1,
    {
        match op {
            BinOp::Add | BinOp::Sub => {
                self.check_arithmetic_operands(&lhs_ty, &rhs_ty, span);
                let w = max_width(&lhs_ty, &rhs_ty);
                same_kind_with_width(&lhs_ty, w)
            },
            BinOp::Mul => {
                self.check_arithmetic_operands(&lhs_ty, &rhs_ty, span);
                let w = sum_width(&lhs_ty, &rhs_ty);
                same_kind_with_width(&lhs_ty, w)
            },
            BinOp::Div | BinOp::Mod => {
                self.check_arithmetic_operands(&lhs_ty, &rhs_ty, span);
                lhs_ty
            },
            BinOp::Pow => Ty::UInt(0),
            BinOp::BitAnd | BinOp::BitOr | BinOp::BitXor => {
                self.check_arithmetic_operands(&lhs_ty, &rhs_ty, span);
                let w = max_width(&lhs_ty, &rhs_ty);
                same_kind_with_width(&lhs_ty, w)
            },
            BinOp::Shl => {
                let lhs_w = width_or_zero_exec(&lhs_ty);
                let evaluator = ConstEval::new();
                proof {
                    assert(evaluator.bindings_view() =~= Seq::empty());
                }
                match evaluator.eval_expr(rhs) {
                    Ok(ConstValue::UInt(k)) => {
                        let k64: u64 = if k <= 18446744073709551615u128 { k as u64 } else { 0 };
                        same_kind_with_width(&lhs_ty, lhs_w.wrapping_add(k64))
                    },
                    _ => lhs_ty,
                }
            },
            BinOp::Shr | BinOp::ArithShr => lhs_ty,
            BinOp::Eq | BinOp::Ne | BinOp::Lt | BinOp::Gt | BinOp::Le | BinOp::Ge => {
                if !types_compatible_for_compare(&lhs_ty, &rhs_ty) {
                    self.type_mismatch(&lhs_ty, &rhs_ty, span);
                }
                Ty::Bool
            },
            BinOp::And | BinOp::Or | BinOp::Implies => {
                proof {
                    reveal_strlit("Bool");
                }
                if !lhs_ty.same_as(&Ty::Bool) {
                    self.mismatch("Bool", &lhs_ty, lhs.span);
                }
                if !rhs_ty.same_as(&Ty::Bool) {
                    self.mismatch("Bool", &rhs_ty, rhs.span);
                }
                Ty::Bool
            },
            BinOp::Concat => {
                let lw = bits_width(&lhs_ty);
                let rw = bits_width(&rhs_ty);
                if lw == 0 && rw == 0 {
                    Ty::Bits(0)
                } else {
                    Ty::Bits(lw.wrapping_add(rw))
                }
            },
        }
    }

    /// The type of a unary expression: negation and bitwise not keep the
    /// operand's type; logical not needs and gives `Bool`.
    fn check_unary(&mut self, expr: &Expr) -> (r: Ty)
        requires
            old(self).inv(),
            expr.node is Unary,
        ensures
            final(self).inv(),
            final(self).table == old(self).table,
            final(self).scope_map == old(self).scope_map,
            final(self).current_scope == old(self).current_scope,
            r == node_rule(old(self).table_spec(), old(self).scope_spec(), *expr).0,
            errors_view(final(self).errors@) == errors_view(old(self).errors@) + node_rule(
                old(self).table_spec(),
                old(self).scope_spec(),
                *expr,
            ).1,
        decreases expr, 0nat,
    {
        let (op, operand) = match &expr.node {
            ExprKind::Unary { op, operand } => (*op, operand),
            _ => {
                return Ty::Error;
            },
        };
        let ty = self.check_expr(operand);
        if ty.is_error() {
            return Ty::Error;
        }
        match op {
            UnaryOp::Neg => ty,
            UnaryOp::BitNot => ty,
            UnaryOp::LogicalNot => {
                if !ty.same_as(&Ty::Bool) {
                    self.mismatch("Bool", &ty, operand.span);
                    proof {
                        reveal_strlit("Bool");
                    }
                }
                Ty::Bool
            },
        }
    }
}

/// The width of a bit slice `[high:low]`; see [`slice_width`].
fn try_bitslice_width(high: &Expr, low: &Expr) -> (r: u64)
    ensures
        r == slice_width(*high, *low),
{
    let ev = ConstEval::new();
    proof {
        assert(ev.bindings_view() =~= Seq::empty());
    }
    match (ev.eval_expr(high), ev.eval_expr(low)) {
        (Ok(ConstValue::UInt(h)), Ok(ConstValue::UInt(l))) => {
            if h >= l {
                ((h - l) as u64).wrapping_add(1)
            } else {
                0
            }
        },
        _ => 0,
    }
}

} // verus!
