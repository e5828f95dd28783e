//! What name resolution does, as functions from the state of resolution and
//! a piece of syntax to the next state: the symbol table, the errors, the
//! stack of open scopes, the constants bound, the scope of each module and
//! the next ids of user-defined types.

use vstd::prelude::*;

use crate::ast::item::{
    EnumDef, EnumVariant, ExternModuleDef, FnDef, FnParam, InterfaceDef, Item, ItemKind, ModuleDef, Port, StructDef,
};
use crate::ast::stmt::{MatchArm, PriorityArm, Stmt, StmtKind};
use crate::ast::expr::Expr;
use crate::ast::types::{Direction, TypeExpr};
use crate::span::Span;

use super::error::ErrorView;
use super::eval::{eval_spec, ConstValue};
use super::resolve::type_rule;
use super::scope::{ScopeId, ScopeKind, ScopeView, SymbolId, SymbolKind, TableView};
use super::types::{EnumId, InterfaceId, StructId, Ty};

verus! {

/// The state of resolution, by its view.
pub struct RState {
    pub table: TableView,
    pub errors: Seq<ErrorView>,
    pub stack: Seq<ScopeId>,
    pub consts: Seq<(String, ConstValue)>,
    pub map: Seq<(u32, ScopeId)>,
    pub next_struct: u32,
    pub next_enum: u32,
    pub next_iface: u32,
}

/// The state before resolution: a table holding only the root scope, no
/// errors, the root scope open, no constants, no modules and the first ids.
pub open spec fn initial_state() -> RState {
    RState {
        table: TableView { scopes: seq![ScopeView { parent: None, kind: ScopeKind::File, entries: seq![] }], symbols: seq![] },
        errors: seq![],
        stack: seq![ScopeId(0)],
        consts: seq![],
        map: seq![],
        next_struct: 0,
        next_enum: 0,
        next_iface: 0,
    }
}

/// The state after resolving the items of a file from the start.
pub open spec fn resolved(items: Seq<Item>) -> RState {
    items_res(initial_state(), items)
}

/// The scope that declarations go into: the innermost open one.
pub open spec fn cur(st: RState) -> int {
    st.stack.last().0 as int
}

/// The state with more errors reported.
pub open spec fn add_errors(st: RState, e: Seq<ErrorView>) -> RState {
    RState {
        table: st.table,
        errors: st.errors + e,
        stack: st.stack,
        consts: st.consts,
        map: st.map,
        next_struct: st.next_struct,
        next_enum: st.next_enum,
        next_iface: st.next_iface,
    }
}

/// The state with another table.
pub open spec fn with_table(st: RState, t: TableView) -> RState {
    RState {
        table: t,
        errors: st.errors,
        stack: st.stack,
        consts: st.consts,
        map: st.map,
        next_struct: st.next_struct,
        next_enum: st.next_enum,
        next_iface: st.next_iface,
    }
}

/// The state with another stack of open scopes.
pub open spec fn with_stack(st: RState, s: Seq<ScopeId>) -> RState {
    RState {
        table: st.table,
        errors: st.errors,
        stack: s,
        consts: st.consts,
        map: st.map,
        next_struct: st.next_struct,
        next_enum: st.next_enum,
        next_iface: st.next_iface,
    }
}

/// The next id after `n`, wrapping around.
pub open spec fn next_id(n: u32) -> u32 {
    if n == u32::MAX {
        0
    } else {
        (n + 1) as u32
    }
}

/// Declaring `name` in the current scope: an error when the table is full
/// or the scope already declares it, else a new symbol.
pub open spec fn r_define(st: RState, name: Seq<char>, kind: SymbolKind, ty: Ty, span: Span) -> RState {
    if st.table.symbols.len() >= u32::MAX {
        add_errors(st, seq![ErrorView::Custom { message: "too many symbols"@, span }])
    } else {
        match st.table.local(cur(st), name) {
            Some(existing) => add_errors(
                st,
                seq![ErrorView::DuplicateDefinition { name, first: st.table.symbols[existing.0 as int].span, second: span }],
            ),
            None => with_table(st, st.table.define(st.stack.last(), name, kind, ty, span)),
        }
    }
}

/// [`r_define`] adds a new symbol.
pub open spec fn defines_new(st: RState, name: Seq<char>) -> bool {
    st.table.symbols.len() < u32::MAX && st.table.local(cur(st), name) is None
}

/// Declaring a port: as [`r_define`], with its direction set on the new
/// symbol.
pub open spec fn r_define_port(st: RState, name: Seq<char>, ty: Ty, span: Span, dir: Direction) -> RState {
    let st2 = r_define(st, name, SymbolKind::Port, ty, span);
    if defines_new(st, name) {
        with_table(st2, st2.table.set_direction(SymbolId(st.table.symbols.len() as u32), dir))
    } else {
        st2
    }
}

/// Entering a new scope of kind `kind` nested in the current one; when the
/// table has no room for it, an error, and the current scope again.
pub open spec fn r_push_scope(st: RState, kind: ScopeKind) -> RState {
    if st.table.scopes.len() >= u32::MAX {
        with_stack(
            add_errors(st, seq![ErrorView::Custom { message: "too many scopes"@, span: Span { start: 0, end: 0 } }]),
            st.stack.push(st.stack.last()),
        )
    } else {
        with_stack(
            with_table(st, st.table.push_scope(st.stack.last(), kind)),
            st.stack.push(ScopeId(st.table.scopes.len() as u32)),
        )
    }
}

/// Leaving the scopes opened after the first `len`.
pub open spec fn r_restore(st: RState, len: int) -> RState {
    with_stack(st, st.stack.subrange(0, len))
}

/// The type a type expression resolves to in the state.
pub open spec fn r_ty(st: RState, ty: TypeExpr) -> Ty {
    type_rule(st.table, cur(st), st.consts, ty).0
}

/// Resolving a type expression: its errors reported.
pub open spec fn r_type(st: RState, ty: TypeExpr) -> RState {
    add_errors(st, type_rule(st.table, cur(st), st.consts, ty).1)
}

/// Resolving an optional type: `default` when there is none.
pub open spec fn r_opt_ty(st: RState, ty: Option<TypeExpr>, default: Ty) -> Ty {
    match ty {
        Some(t) => r_ty(st, t),
        None => default,
    }
}

/// Resolving an optional type expression.
pub open spec fn r_opt_type(st: RState, ty: Option<TypeExpr>) -> RState {
    match ty {
        Some(t) => r_type(st, t),
        None => st,
    }
}

/// Binding the value of a constant, where it evaluates.
pub open spec fn r_bind(st: RState, name: String, value: Expr) -> RState {
    match eval_spec(st.consts, value) {
        Ok(v) => RState {
            table: st.table,
            errors: st.errors,
            stack: st.stack,
            consts: st.consts.push((name, v)),
            map: st.map,
            next_struct: st.next_struct,
            next_enum: st.next_enum,
            next_iface: st.next_iface,
        },
        Err(_) => st,
    }
}

/// Resolving a statement.
pub open spec fn stmt_res(st: RState, stmt: Stmt) -> RState
    decreases stmt, 1nat,
{
    match stmt.node {
        StmtKind::Signal(d) => r_define(r_type(st, d.ty), d.name.node@, SymbolKind::Signal, r_ty(st, d.ty), d.name.span),
        StmtKind::Const(d) => r_bind(
            r_define(r_opt_type(st, d.ty), d.name.node@, SymbolKind::Const, r_opt_ty(st, d.ty, Ty::MetaUInt), d.name.span),
            d.name.node,
            d.value,
        ),
        StmtKind::Let(d) => r_define(r_opt_type(st, d.ty), d.name.node@, SymbolKind::Let, r_opt_ty(st, d.ty, Ty::Void), d.name.span),
        StmtKind::TypeAlias(d) => r_define(r_type(st, d.ty), d.name.node@, SymbolKind::TypeAlias, r_ty(st, d.ty), d.name.span),
        StmtKind::If(d) => {
            let s1 = stmts_res(st, d.then_body@);
            let s2 = elifs_res(s1, d.elif_branches@);
            match d.else_body {
                Some(b) => stmts_res(s2, b@),
                None => s2,
            }
        },
        StmtKind::Match(m) => match_arms_res(st, m.arms@),
        StmtKind::For(f) => {
            let s1 = r_push_scope(st, ScopeKind::Block);
            let s2 = r_define(s1, f.var.node@, SymbolKind::LoopVar, Ty::MetaUInt, f.var.span);
            r_restore(stmts_res(s2, f.body@), st.stack.len() as int)
        },
        StmtKind::CombBlock(v) => stmts_res(st, v@),
        StmtKind::RegBlock(r) => stmts_res(stmts_res(st, r.on_reset@), r.on_tick@),
        StmtKind::PriorityBlock(pb) => {
            let s1 = when_arms_res(st, pb.arms@);
            match pb.otherwise {
                Some(b) => stmts_res(s1, b@),
                None => s1,
            }
        },
        StmtKind::ParallelBlock(pb) => when_arms_res(st, pb.arms@),
        StmtKind::UncheckedBlock(v) => stmts_res(st, v@),
        _ => st,
    }
}

/// Resolving statements in order.
pub open spec fn stmts_res(st: RState, v: Seq<Stmt>) -> RState
    decreases v, 0nat,
{
    if v.len() == 0 {
        st
    } else {
        stmt_res(stmts_res(st, v.drop_last()), v.last())
    }
}

/// Resolving the bodies of `elif` branches in order.
pub open spec fn elifs_res(st: RState, v: Seq<(Expr, Vec<Stmt>)>) -> RState
    decreases v, 0nat,
{
    if v.len() == 0 {
        st
    } else {
        stmts_res(elifs_res(st, v.drop_last()), v.last().1@)
    }
}

/// Resolving the bodies of the arms of a `match` in order.
pub open spec fn match_arms_res(st: RState, v: Seq<MatchArm>) -> RState
    decreases v, 0nat,
{
    if v.len() == 0 {
        st
    } else {
        stmts_res(match_arms_res(st, v.drop_last()), v.last().body@)
    }
}

/// Resolving the bodies of `when` arms in order.
pub open spec fn when_arms_res(st: RState, v: Seq<PriorityArm>) -> RState
    decreases v, 0nat,
{
    if v.len() == 0 {
        st
    } else {
        stmts_res(when_arms_res(st, v.drop_last()), v.last().body@)
    }
}

/// Declaring ports in order, each with its resolved type.
pub open spec fn ports_res(st: RState, v: Seq<Port>) -> RState
    decreases v.len(),
{
    if v.len() == 0 {
        st
    } else {
        let s1 = ports_res(st, v.drop_last());
        let p = v.last();
        r_define_port(r_type(s1, p.ty), p.name.node@, r_ty(s1, p.ty), p.name.span, p.direction)
    }
}

/// Declaring function parameters in order, each with its resolved type.
pub open spec fn params_res(st: RState, v: Seq<FnParam>) -> RState
    decreases v.len(),
{
    if v.len() == 0 {
        st
    } else {
        let s1 = params_res(st, v.drop_last());
        let p = v.last();
        r_define(r_type(s1, p.ty), p.name.node@, SymbolKind::GenericParam, r_ty(s1, p.ty), p.name.span)
    }
}

/// Declaring enum variants in order, each of the enum's type.
pub open spec fn variants_res(st: RState, v: Seq<EnumVariant>, id: EnumId) -> RState
    decreases v.len(),
{
    if v.len() == 0 {
        st
    } else {
        r_define(variants_res(st, v.drop_last(), id), v.last().name.node@, SymbolKind::EnumVariant, Ty::Enum(id), v.last().name.span)
    }
}

/// Resolving a module: its name declared, then its ports and items in a
/// scope of its own, which is recorded for it.
pub open spec fn module_res(st: RState, def: ModuleDef) -> RState
    decreases def, 0nat,
{
    let s1 = r_define(st, def.name.node@, SymbolKind::Module, Ty::Void, def.name.span);
    let s2 = r_push_scope(s1, ScopeKind::Module);
    let s3 = RState {
        table: s2.table,
        errors: s2.errors,
        stack: s2.stack,
        consts: s2.consts,
        map: s2.map.push((def.name.span.start, s2.stack.last())),
        next_struct: s2.next_struct,
        next_enum: s2.next_enum,
        next_iface: s2.next_iface,
    };
    r_restore(items_res(ports_res(s3, def.ports@), def.body@), st.stack.len() as int)
}

/// Resolving a struct: its name declared with the next struct id.
pub open spec fn struct_res(st: RState, def: StructDef) -> RState {
    let s1 = RState {
        table: st.table,
        errors: st.errors,
        stack: st.stack,
        consts: st.consts,
        map: st.map,
        next_struct: next_id(st.next_struct),
        next_enum: st.next_enum,
        next_iface: st.next_iface,
    };
    r_define(s1, def.name.node@, SymbolKind::Struct, Ty::Struct(StructId(st.next_struct)), def.name.span)
}

/// Resolving an enum: its name declared with the next enum id, then its
/// variants.
pub open spec fn enum_res(st: RState, def: EnumDef) -> RState {
    let s1 = RState {
        table: st.table,
        errors: st.errors,
        stack: st.stack,
        consts: st.consts,
        map: st.map,
        next_struct: st.next_struct,
        next_enum: next_id(st.next_enum),
        next_iface: st.next_iface,
    };
    let id = EnumId(st.next_enum);
    variants_res(r_define(s1, def.name.node@, SymbolKind::Enum, Ty::Enum(id), def.name.span), def.variants@, id)
}

/// Resolving an interface: its name declared with the next interface id.
pub open spec fn interface_res(st: RState, def: InterfaceDef) -> RState {
    let s1 = RState {
        table: st.table,
        errors: st.errors,
        stack: st.stack,
        consts: st.consts,
        map: st.map,
        next_struct: st.next_struct,
        next_enum: st.next_enum,
        next_iface: next_id(st.next_iface),
    };
    r_define(s1, def.name.node@, SymbolKind::Interface, Ty::Interface(InterfaceId(st.next_iface)), def.name.span)
}

/// Resolving a function: its name declared, then its parameters and body
/// in a scope of its own.
pub open spec fn fn_res(st: RState, def: FnDef) -> RState {
    let s1 = r_define(st, def.name.node@, SymbolKind::Fn, Ty::Void, def.name.span);
    let s2 = r_push_scope(s1, ScopeKind::Function);
    r_restore(stmts_res(params_res(s2, def.params@), def.body@), st.stack.len() as int)
}

/// Resolving an extern module: its name declared, then its ports in a
/// scope of its own.
pub open spec fn extern_res(st: RState, def: ExternModuleDef) -> RState {
    let s1 = r_define(st, def.name.node@, SymbolKind::Module, Ty::Void, def.name.span);
    let s2 = r_push_scope(s1, ScopeKind::Module);
    r_restore(ports_res(s2, def.ports@), st.stack.len() as int)
}

/// Resolving an item.
pub open spec fn item_res(st: RState, item: Item) -> RState
    decreases item, 1nat,
{
    match item.node {
        ItemKind::Module(def) => module_res(st, def),
        ItemKind::Struct(def) => struct_res(st, def),
        ItemKind::Enum(def) => enum_res(st, def),
        ItemKind::Interface(def) => interface_res(st, def),
        ItemKind::FnDef(def) => fn_res(st, def),
        ItemKind::Fsm(def) => r_define(st, def.name.node@, SymbolKind::Fsm, Ty::Void, def.name.span),
        ItemKind::Pipeline(def) => r_define(st, def.name.node@, SymbolKind::Pipeline, Ty::Void, def.name.span),
        ItemKind::ExternModule(def) => extern_res(st, def),
        ItemKind::GenFor(gf) => items_res(st, gf.body@),
        ItemKind::GenIf(gi) => {
            let s1 = items_res(st, gi.then_body@);
            match gi.else_body {
                Some(b) => items_res(s1, b@),
                None => s1,
            }
        },
        ItemKind::Stmt(s) => stmt_res(st, s),
        _ => st,
    }
}

/// Resolving items in order.
pub open spec fn items_res(st: RState, v: Seq<Item>) -> RState
    decreases v, 0nat,
{
    if v.len() == 0 {
        st
    } else {
        item_res(items_res(st, v.drop_last()), v.last())
    }
}

} // verus!
