//! Name resolution: declarations into the symbol table, type expressions to types.

use vstd::prelude::*;
use vstd::string::StringExecFns;

use crate::ast::expr::CallArg;
use crate::ast::item::{
    EnumDef, ExternModuleDef, FnDef, FsmDef, GenFor, GenIf, InstDecl, InterfaceDef, Item, ItemKind,
    ModuleDef, PipelineDef, SourceFile, StructDef, TestBlock,
};
use crate::ast::stmt::{ConstDecl, LetDecl, SignalDecl, Stmt, StmtKind, TypeAliasDecl};
use crate::ast::types::{Direction, GenericArg, TypeExpr, TypeExprKind};
use crate::span::Span;
use crate::text::{concat, decimal, decimal_text, str_eq};

use super::error::{errors_view, lemma_errors_view_push, ErrorView, SemaError};
use super::eval::{const_debug, const_debug_text, eval_spec, last_binding, ConstEval, ConstValue};
use super::scope::{lemma_table_view, law_declarations_persist, table_grows, ScopeId, ScopeKind, SymbolId, SymbolKind, SymbolTable, TableView};
use super::types::{EnumId, InterfaceId, StructId, Ty};
use super::resolution::{
    add_errors, cur, defines_new, elifs_res, item_res, items_res, match_arms_res, params_res, ports_res, r_bind,
    r_define, r_define_port, r_opt_ty, r_opt_type, r_push_scope, r_restore, r_ty, r_type, stmt_res, stmts_res,
    variants_res, when_arms_res, with_stack, with_table, module_res, struct_res, enum_res, interface_res, fn_res,
    extern_res, next_id, initial_state, RState,
};

verus! {

/// The scope of each module, keyed by the start of the module's name.
pub struct ScopeMap {
    entries: Vec<(u32, ScopeId)>,
}

/// The scope recorded last for `key`.
pub open spec fn last_scope(v: Seq<(u32, ScopeId)>, key: u32) -> Option<ScopeId>
    decreases v.len(),
{
    if v.len() == 0 {
        None
    } else if v.last().0 == key {
        Some(v.last().1)
    } else {
        last_scope(v.drop_last(), key)
    }
}

impl ScopeMap {
    /// The recorded pairs, in order.
    pub closed spec fn entries_view(&self) -> Seq<(u32, ScopeId)> {
        self.entries@
    }

    /// The scope recorded for `key`, the latest one.
    pub open spec fn get_spec(&self, key: u32) -> Option<ScopeId> {
        last_scope(self.entries_view(), key)
    }

    /// A map with no entries.
    pub fn new() -> (m: Self)
        ensures
            forall|k: u32| m.get_spec(k) is None,
            m.entries_view().len() == 0,
    {
        ScopeMap { entries: Vec::new() }
    }

    /// Record `scope` for `key`, replacing an earlier record.
    pub fn insert(&mut self, key: u32, scope: ScopeId)
        ensures
            final(self).entries_view() == old(self).entries_view().push((key, scope)),
            final(self).get_spec(key) == Some(scope),
            forall|k: u32| k != key ==> #[trigger] final(self).get_spec(k) == old(self).get_spec(k),
    {
        self.entries.push((key, scope));
        proof {
            assert(self.entries@.drop_last() == old(self).entries@);
        }
    }

    /// The scope recorded for `key`.
    pub fn get(&self, key: u32) -> (r: Option<ScopeId>)
        ensures
            r == self.get_spec(key),
    {
        let mut i = self.entries.len();
        proof {
            assert(self.entries@.take(i as int) =~= self.entries@);
        }
        while i > 0
            invariant
                i <= self.entries@.len(),
                last_scope(self.entries@, key) == last_scope(self.entries@.take(i as int), key),
            decreases i,
        {
            proof {
                assert(self.entries@.take(i as int).drop_last() =~= self.entries@.take(i - 1));
                assert(self.entries@.take(i as int).last() == self.entries@[i - 1]);
            }
            if self.entries[i - 1].0 == key {
                return Some(self.entries[i - 1].1);
            }
            i = i - 1;
        }
        proof {
            assert(self.entries@.take(0) =~= Seq::<(u32, ScopeId)>::empty());
        }
        None
    }
}

/// Every scope id of the stack names a scope of the table.
pub open spec fn stack_valid(stack: Seq<ScopeId>, count: nat) -> bool {
    stack.len() >= 1 && forall|i: int| 0 <= i < stack.len() ==> (#[trigger] stack[i]).0 < count
}

/// The resolved type of a built-in type name written without parameters.
pub open spec fn builtin_named(name: Seq<char>) -> Option<Ty> {
    if name == "Bool"@ {
        Some(Ty::Bool)
    } else if name == "Clock"@ {
        Some(Ty::Clock { freq: None })
    } else if name == "SyncReset"@ {
        Some(Ty::SyncReset)
    } else if name == "AsyncReset"@ {
        Some(Ty::AsyncReset)
    } else if name == "uint"@ {
        Some(Ty::MetaUInt)
    } else if name == "int"@ {
        Some(Ty::MetaInt)
    } else if name == "bool"@ {
        Some(Ty::MetaBool)
    } else if name == "float"@ {
        Some(Ty::MetaFloat)
    } else if name == "string"@ {
        Some(Ty::MetaString)
    } else {
        None
    }
}

/// A width type (`UInt`, `SInt`, `Bits`, `Fixed`) that needs a parameter.
pub open spec fn needs_width(name: Seq<char>) -> bool {
    name == "UInt"@ || name == "SInt"@ || name == "Bits"@ || name == "Fixed"@
}

/// Which built-in generic type a name is: 0 `UInt`, 1 `SInt`, 2 `Bits`,
/// 3 `Fixed`, 4 `Clock`, 5 none.
pub open spec fn generic_builtin(name: Seq<char>) -> int {
    if name == "UInt"@ {
        0
    } else if name == "SInt"@ {
        1
    } else if name == "Bits"@ {
        2
    } else if name == "Fixed"@ {
        3
    } else if name == "Clock"@ {
        4
    } else {
        5
    }
}

/// The message for a width type written without its parameter.
pub open spec fn needs_parameter_message(name: Seq<char>) -> Seq<char> {
    "`"@ + name + "` requires a generic parameter (e.g. `"@ + name + "<8>`)"@
}

/// The type a plain type name denotes, with the errors it gives: a built-in
/// type, or the type of the symbol it names from scope `s`.
pub open spec fn named_rule(t: TableView, s: int, name: Seq<char>, span: Span) -> (Ty, Seq<ErrorView>) {
    match builtin_named(name) {
        Some(b) => (b, seq![]),
        None => if needs_width(name) {
            (Ty::Error, seq![ErrorView::Custom { message: needs_parameter_message(name), span }])
        } else {
            match t.lookup(s, name) {
                Some(id) => (t.symbols[id.0 as int].ty, seq![]),
                None => (Ty::Error, seq![ErrorView::UndefinedName { name, span }]),
            }
        },
    }
}

/// A constant-evaluation outcome that must be an unsigned integer: its
/// value, or 0 with the error (`what` names the parameter in the message).
pub open spec fn width_value(o: Result<ConstValue, (Seq<char>, Span)>, what: Seq<char>, span: Span) -> (u64, Seq<ErrorView>) {
    match o {
        Ok(ConstValue::UInt(n)) => (n as u64, seq![]),
        Ok(other) => (0, seq![ErrorView::ConstEvalError { message: what + const_debug(other) + "`"@, span }]),
        Err((m, sp)) => (0, seq![ErrorView::ConstEvalError { message: m, span: sp }]),
    }
}

/// The generic argument at `idx` of `tyname<params>` as a width, with the
/// errors it gives.
pub open spec fn param_rule(
    t: TableView,
    s: int,
    env: Seq<(String, ConstValue)>,
    params: Seq<GenericArg>,
    idx: int,
    tyname: Seq<char>,
    span: Span,
) -> (u64, Seq<ErrorView>)
    decreases params, 0nat,
{
    if idx < 0 || idx >= params.len() {
        (
            0,
            seq![
                ErrorView::Custom {
                    message: "`"@ + tyname + "` requires at least "@ + decimal_text((idx + 1) as nat)
                        + " generic parameter(s)"@,
                    span,
                },
            ],
        )
    } else {
        match params[idx] {
            GenericArg::Expr(e) => width_value(
                eval_spec(env, e),
                "generic parameter for `"@ + tyname + "` must be a non-negative integer, got `"@,
                span,
            ),
            GenericArg::Type(inner) => {
                let named_width: Option<u64> = match inner.node {
                    TypeExprKind::Named(cn) => match last_binding(env, cn@) {
                        Some(ConstValue::UInt(n)) => Some(n as u64),
                        _ => match t.lookup(s, cn@) {
                            Some(id) => if t.symbols[id.0 as int].kind == SymbolKind::Const
                                || t.symbols[id.0 as int].kind == SymbolKind::GenericParam {
                                Some(0)
                            } else {
                                None
                            },
                            None => None,
                        },
                    },
                    _ => None,
                };
                match named_width {
                    Some(w) => (w, seq![]),
                    None => (
                        0,
                        type_rule(t, s, env, inner).1.push(
                            ErrorView::Custom {
                                message: "expected a numeric width for `"@ + tyname + "`, got a type argument"@,
                                span,
                            },
                        ),
                    ),
                }
            },
        }
    }
}

/// The type `name<params>` denotes, with the errors it gives.
pub open spec fn generic_rule(
    t: TableView,
    s: int,
    env: Seq<(String, ConstValue)>,
    name: Seq<char>,
    params: Seq<GenericArg>,
    span: Span,
) -> (Ty, Seq<ErrorView>)
    decreases params, 1nat,
{
    let g = generic_builtin(name);
    if g == 0 {
        (Ty::UInt(param_rule(t, s, env, params, 0, name, span).0), param_rule(t, s, env, params, 0, name, span).1)
    } else if g == 1 {
        (Ty::SInt(param_rule(t, s, env, params, 0, name, span).0), param_rule(t, s, env, params, 0, name, span).1)
    } else if g == 2 {
        (Ty::Bits(param_rule(t, s, env, params, 0, name, span).0), param_rule(t, s, env, params, 0, name, span).1)
    } else if g == 3 {
        let (a, ae) = param_rule(t, s, env, params, 0, name, span);
        let (b, be) = param_rule(t, s, env, params, 1, name, span);
        (Ty::Fixed { int_bits: a, frac_bits: b }, ae + be)
    } else if g == 4 {
        if params.len() == 0 {
            (Ty::Clock { freq: None }, seq![])
        } else {
            (
                Ty::Clock { freq: Some(param_rule(t, s, env, params, 0, name, span).0) },
                param_rule(t, s, env, params, 0, name, span).1,
            )
        }
    } else {
        match t.lookup(s, name) {
            Some(id) => (t.symbols[id.0 as int].ty, seq![]),
            None => (Ty::Error, seq![ErrorView::UndefinedName { name, span }]),
        }
    }
}

/// The memory parameter `pname` among `params`: the value of the first
/// argument so named, with its errors; 0 when there is none.
pub open spec fn named_param_rule(env: Seq<(String, ConstValue)>, params: Seq<CallArg>, pname: Seq<char>, span: Span) -> (
    u64,
    Seq<ErrorView>,
)
    decreases params.len(),
{
    if params.len() == 0 {
        (0, seq![])
    } else if params[0].name matches Some(n) && n.node@ == pname {
        width_value(
            eval_spec(env, params[0].value),
            "memory param `"@ + pname + "` must be a non-negative integer, got `"@,
            span,
        )
    } else {
        named_param_rule(env, params.drop_first(), pname, span)
    }
}

/// The type a type expression denotes from scope `s` of table `t`, with the
/// constants `env`, and the errors resolving it reports, in order.
pub open spec fn type_rule(t: TableView, s: int, env: Seq<(String, ConstValue)>, ty: TypeExpr) -> (Ty, Seq<ErrorView>)
    decreases ty, 2nat,
{
    let span = ty.span;
    match ty.node {
        TypeExprKind::Named(name) => named_rule(t, s, name@, span),
        TypeExprKind::Generic { name, params } => generic_rule(t, s, env, name@, params@, span),
        TypeExprKind::Array { element, size } => {
            let (et, ee) = type_rule(t, s, env, *element);
            match eval_spec(env, *size) {
                Ok(ConstValue::UInt(n)) => (Ty::Array { element: Box::new(et), size: n as u64 }, ee),
                Ok(other) => (
                    Ty::Error,
                    ee.push(
                        ErrorView::ConstEvalError {
                            message: "array size must be a non-negative integer, got `"@ + const_debug(other) + "`"@,
                            span,
                        },
                    ),
                ),
                Err((m, sp)) => (Ty::Error, ee.push(ErrorView::ConstEvalError { message: m, span: sp })),
            }
        },
        TypeExprKind::Clock { freq, .. } => (
            Ty::Clock {
                freq: match freq {
                    Some(f) => match eval_spec(env, f) {
                        Ok(ConstValue::UInt(n)) => Some(n as u64),
                        _ => None,
                    },
                    None => None,
                },
            },
            seq![],
        ),
        TypeExprKind::SyncReset { .. } => (Ty::SyncReset, seq![]),
        TypeExprKind::AsyncReset { .. } => (Ty::AsyncReset, seq![]),
        TypeExprKind::DirectionWrapper { dir, inner } => {
            let (it, ie) = type_rule(t, s, env, *inner);
            (
                match dir {
                    Direction::In => Ty::In(Box::new(it)),
                    Direction::Out => Ty::Out(Box::new(it)),
                    Direction::InOut => Ty::InOut(Box::new(it)),
                },
                ie,
            )
        },
        TypeExprKind::Flip(inner) => {
            let (it, ie) = type_rule(t, s, env, *inner);
            (Ty::Flip(Box::new(it)), ie)
        },
        TypeExprKind::DomainAnnotated { ty: inner, .. } => type_rule(t, s, env, *inner),
        TypeExprKind::Memory { element, params } => {
            let (et, ee) = type_rule(t, s, env, *element);
            let (d, de) = named_param_rule(env, params@, "depth"@, span);
            (Ty::Memory { element: Box::new(et), depth: d }, ee + de)
        },
        TypeExprKind::DualPortMemory { element, params } => {
            let (et, ee) = type_rule(t, s, env, *element);
            let (d, de) = named_param_rule(env, params@, "depth"@, span);
            (Ty::Memory { element: Box::new(et), depth: d }, ee + de)
        },
        TypeExprKind::PartialInterface { .. } => (Ty::Error, seq![]),
    }
}

/// `b` is a later state of resolution than `a`: its table grows `a`'s (see
/// [`table_grows`]) and its errors extend `a`'s.
pub open spec fn resolver_grows(a: Resolver, b: Resolver) -> bool {
    &&& table_grows(a.table_spec(), b.table_spec())
    &&& a.errors_spec().len() <= b.errors_spec().len()
    &&& forall|i: int| 0 <= i < a.errors_spec().len() ==> #[trigger] b.errors_spec()[i] == a.errors_spec()[i]
}

broadcast use super::scope::lemma_table_grows_trans;

/// Resolution from `a` to `b` declared `name` in scope `s` as a symbol of
/// kind `kind` at `span`: when `a` had no such name in that scope and room
/// for a symbol, `b` has it there as a new symbol; otherwise a duplicate was
/// reported and the earlier declaration stays (see [`law_declarations_persist`]).
pub open spec fn declares(a: Resolver, b: Resolver, s: int, name: Seq<char>, kind: SymbolKind, span: Span) -> bool {
    a.table_spec().local_spec(s, name) is None && a.table_spec().symbols_view().len() < u32::MAX ==> {
        &&& b.table_spec().local_spec(s, name) matches Some(id)
        &&& id.0 == a.table_spec().symbols_view().len()
        &&& id.0 < b.table_spec().symbols_view().len()
        &&& b.table_spec().symbols_view()[id.0 as int].name@ == name
        &&& b.table_spec().symbols_view()[id.0 as int].kind == kind
        &&& b.table_spec().symbols_view()[id.0 as int].span == span
    }
}

/// Where [`declares`] adds a new symbol, its type is `ty`.
pub open spec fn declared_type(a: Resolver, b: Resolver, s: int, name: Seq<char>, ty: Ty) -> bool {
    a.table_spec().local_spec(s, name) is None && a.table_spec().symbols_view().len() < u32::MAX ==> (b.table_spec().local_spec(
        s,
        name,
    ) matches Some(id) && b.table_spec().symbols_view()[id.0 as int].ty == ty)
}

/// The name an item declares where it stands, if any.
pub open spec fn item_name(item: Item) -> Option<Seq<char>> {
    match item.node {
        ItemKind::Module(def) => Some(def.name.node@),
        ItemKind::Struct(def) => Some(def.name.node@),
        ItemKind::Enum(def) => Some(def.name.node@),
        ItemKind::Interface(def) => Some(def.name.node@),
        ItemKind::FnDef(def) => Some(def.name.node@),
        ItemKind::Fsm(def) => Some(def.name.node@),
        ItemKind::Pipeline(def) => Some(def.name.node@),
        ItemKind::ExternModule(def) => Some(def.name.node@),
        ItemKind::Stmt(st) => match st.node {
            StmtKind::Signal(d) => Some(d.name.node@),
            StmtKind::Const(d) => Some(d.name.node@),
            StmtKind::Let(d) => Some(d.name.node@),
            StmtKind::TypeAlias(d) => Some(d.name.node@),
            _ => None,
        },
        _ => None,
    }
}

/// After [`declares`], the name is declared in the scope, unless the table
/// is full.
proof fn lemma_declared_after(a: Resolver, b: Resolver, s: int, name: Seq<char>, kind: SymbolKind, span: Span)
    requires
        declares(a, b, s, name, kind, span),
        resolver_grows(a, b),
        a.table_spec().wf(),
        0 <= s < a.table_spec().scope_count(),
    ensures
        b.table_spec().symbols_view().len() < u32::MAX ==> b.table_spec().local_spec(s, name) is Some,
{
    if a.table_spec().local_spec(s, name) is Some {
        law_declarations_persist(a.table_spec(), b.table_spec(), s, name);
    }
}

proof fn lemma_declares_kept(a: Resolver, m: Resolver, b: Resolver, s: int, name: Seq<char>, kind: SymbolKind, span: Span)
    requires
        declares(a, m, s, name, kind, span),
        resolver_grows(m, b),
        m.table_spec().wf(),
        0 <= s < m.table_spec().scope_count(),
    ensures
        declares(a, b, s, name, kind, span),
{
    if a.table_spec().local_spec(s, name) is None && a.table_spec().symbols_view().len() < u32::MAX {
        law_declarations_persist(m.table_spec(), b.table_spec(), s, name);
    }
}

/// Name resolution and type resolution: walks the syntax tree, declares
/// every name in the symbol table and resolves type expressions.
pub struct Resolver {
    table: SymbolTable,
    errors: Vec<SemaError>,
    scope_stack: Vec<ScopeId>,
    consts: ConstEval,
    scope_map: ScopeMap,
    next_struct_id: u32,
    next_enum_id: u32,
    next_interface_id: u32,
}

/// `b` differs from `a` in its errors at most.
closed spec fn frame(a: Resolver, b: Resolver) -> bool {
    &&& b.table == a.table
    &&& b.scope_stack@ == a.scope_stack@
    &&& b.consts.bindings_view() == a.consts.bindings_view()
    &&& b.scope_map.entries_view() == a.scope_map.entries_view()
    &&& b.next_struct_id == a.next_struct_id
    &&& b.next_enum_id == a.next_enum_id
    &&& b.next_interface_id == a.next_interface_id
}

impl Resolver {
    /// The state of resolution, by its view.
    pub closed spec fn state(&self) -> RState {
        RState {
            table: self.table@,
            errors: errors_view(self.errors@),
            stack: self.scope_stack@,
            consts: self.consts.bindings_view(),
            map: self.scope_map.entries_view(),
            next_struct: self.next_struct_id,
            next_enum: self.next_enum_id,
            next_iface: self.next_interface_id,
        }
    }

    /// The symbol table built so far.
    pub closed spec fn table_spec(&self) -> SymbolTable {
        self.table
    }

    /// The errors reported so far.
    pub closed spec fn errors_spec(&self) -> Seq<SemaError> {
        self.errors@
    }

    /// The stack of open scopes, innermost last.
    pub closed spec fn stack_spec(&self) -> Seq<ScopeId> {
        self.scope_stack@
    }

    /// The scope recorded for each module so far.
    pub closed spec fn map_spec(&self) -> ScopeMap {
        self.scope_map
    }

    /// The constants bound so far, in order.
    pub closed spec fn consts_spec(&self) -> Seq<(String, ConstValue)> {
        self.consts.bindings_view()
    }

    /// The scope that declarations go into.
    pub closed spec fn current_spec(&self) -> int {
        self.scope_stack@.last().0 as int
    }

    /// The state is consistent: a well-formed table and a non-empty stack of
    /// its scopes.
    pub closed spec fn inv(&self) -> bool {
        self.table.wf() && stack_valid(self.scope_stack@, self.table.scope_count())
    }

    /// A resolver with an empty symbol table and no errors.
    pub fn new() -> (r: Self)
        ensures
            r.inv(),
            r.current_spec() == 0,
            r.errors_spec().len() == 0,
            r.table_spec().scope_count() == 1,
            r.table_spec().symbols_view().len() == 0,
            r.state() == initial_state(),
    {
        let table = SymbolTable::new();
        let root = table.root_scope();
        let mut scope_stack: Vec<ScopeId> = Vec::new();
        scope_stack.push(root);
        let r = Resolver {
            table,
            errors: Vec::new(),
            scope_stack,
            consts: ConstEval::new(),
            scope_map: ScopeMap::new(),
            next_struct_id: 0,
            next_enum_id: 0,
            next_interface_id: 0,
        };
        proof {
            assert(r.state().errors =~= Seq::<ErrorView>::empty());
            assert(r.state().consts =~= Seq::<(String, ConstValue)>::empty());
            assert(r.state().map =~= Seq::<(u32, ScopeId)>::empty());
            assert(r.state().stack =~= seq![ScopeId(0)]);
        }
        r
    }

    /// Walk the items of a file and declare everything they declare.
    #[verifier::loop_isolation(false)]
    pub fn collect_declarations(&mut self, file: &SourceFile)
        requires
            old(self).inv(),
        ensures
            final(self).inv(),
            resolver_grows(*old(self), *final(self)),
            final(self).current_spec() == old(self).current_spec(),
            final(self).stack_spec() == old(self).stack_spec(),
            forall|j: int|
                0 <= j < file.items@.len() && #[trigger] item_name(file.items@[j]) is Some ==> (
                final(self).table_spec().symbols_view().len() < u32::MAX ==> final(self).table_spec().local_spec(
                    old(self).current_spec(),
                    item_name(file.items@[j])->0,
                ) is Some),
            final(self).state() == items_res(old(self).state(), file.items@),
    {
        let ghost cur = self.current_spec();
        let mut i: usize = 0;
        proof {
            assert(file.items@.take(0) =~= Seq::<Item>::empty());
        }
        while i < file.items.len()
            invariant
                self.inv(),
                resolver_grows(*old(self), *self),
                self.scope_stack@ == old(self).scope_stack@,
                cur == old(self).current_spec(),
                i <= file.items@.len(),
                self.state() == items_res(old(self).state(), file.items@.take(i as int)),
                forall|j: int|
                    0 <= j < i && #[trigger] item_name(file.items@[j]) is Some ==> (self.table_spec().symbols_view().len()
                        < u32::MAX ==> self.table_spec().local_spec(cur, item_name(file.items@[j])->0) is Some),
            decreases file.items@.len() - i,
        {
            let ghost before = *self;
            proof {
                assert(file.items@.take(i + 1).drop_last() =~= file.items@.take(i as int));
            }
            self.resolve_item(&file.items[i]);
            proof {
                assert forall|j: int|
                    0 <= j < i + 1 && #[trigger] item_name(file.items@[j]) is Some implies (self.table_spec().symbols_view().len()
                        < u32::MAX ==> self.table_spec().local_spec(cur, item_name(file.items@[j])->0) is Some) by {
                    if j < i && self.table_spec().symbols_view().len() < u32::MAX {
                        law_declarations_persist(before.table_spec(), self.table_spec(), cur, item_name(file.items@[j])->0);
                    }
                }
            }
            i = i + 1;
        }
        proof {
            assert(file.items@.take(i as int) =~= file.items@);
        }
    }

    /// The symbol table, the scope of each module and the errors.
    pub fn finish(self) -> (r: (SymbolTable, ScopeMap, Vec<SemaError>))
        requires
            self.inv(),
        ensures
            r.0.wf(),
            r.0 == self.table_spec(),
            r.1 == self.map_spec(),
            r.2@ == self.errors_spec(),
            r.0@ == self.state().table,
            r.1.entries_view() == self.state().map,
            errors_view(r.2@) == self.state().errors,
    {
        (self.table, self.scope_map, self.errors)
    }

    fn current_scope(&self) -> (r: ScopeId)
        requires
            self.inv(),
        ensures
            r.0 < self.table.scope_count(),
            r.0 == self.current_spec(),
            r == self.scope_stack@.last(),
    {
        self.scope_stack[self.scope_stack.len() - 1]
    }

    /// Enter a new scope nested in the current one.
    fn push_scope(&mut self, kind: ScopeKind) -> (r: ScopeId)
        requires
            old(self).inv(),
        ensures
            final(self).inv(),
            resolver_grows(*old(self), *final(self)),
            final(self).scope_stack@.len() == old(self).scope_stack@.len() + 1,
            final(self).scope_stack@.subrange(0, old(self).scope_stack@.len() as int) == old(self).scope_stack@,
            r.0 < final(self).table.scope_count(),
            final(self).state() == r_push_scope(old(self).state(), kind),
            r == final(self).scope_stack@.last(),
    {
        proof {
            lemma_table_view(self.table);
        }
        let parent = self.current_scope();
        if self.table.scope_len() >= 4294967295usize {
            let e = SemaError::Custom { message: String::from_str("too many scopes"), span: Span::new(0, 0) };
            proof {
                lemma_errors_view_push(self.errors@, e);
                assert(errors_view(self.errors@).push(e@) =~= errors_view(self.errors@) + seq![e@]);
            }
            self.errors.push(e);
            self.scope_stack.push(parent);
            proof {
                assert(self.scope_stack@.subrange(0, old(self).scope_stack@.len() as int) =~= old(self).scope_stack@);
            }
            return parent;
        }
        let child = self.table.push_scope(parent, kind);
        self.scope_stack.push(child);
        proof {
            assert(self.scope_stack@.subrange(0, old(self).scope_stack@.len() as int) =~= old(self).scope_stack@);
        }
        child
    }

    /// Leave the current scope; the root scope is never left.
    fn pop_scope(&mut self)
        requires
            old(self).inv(),
        ensures
            final(self).inv(),
            resolver_grows(*old(self), *final(self)),
    {
        if self.scope_stack.len() > 1 {
            self.scope_stack.pop();
        }
    }

    /// Declare a symbol in the current scope; a duplicate is reported as an error.
    fn define(&mut self, name: &str, kind: SymbolKind, ty: Ty, span: Span) -> (r: Option<SymbolId>)
        requires
            old(self).inv(),
        ensures
            final(self).inv(),
            resolver_grows(*old(self), *final(self)),
            final(self).consts_spec() == old(self).consts_spec(),
            final(self).scope_stack@ == old(self).scope_stack@,
            final(self).state() == r_define(old(self).state(), name@, kind, ty, span),
            r is Some <==> defines_new(old(self).state(), name@),
            r matches Some(id) ==> id.0 < final(self).table.symbols_view().len(),
            r matches Some(id) ==> {
                &&& id.0 == old(self).table.symbols_view().len()
                &&& final(self).table.local_spec(old(self).current_spec(), name@) == Some(id)
                &&& final(self).table.symbols_view()[id.0 as int].name@ == name@
                &&& final(self).table.symbols_view()[id.0 as int].kind == kind
                &&& final(self).table.symbols_view()[id.0 as int].ty == ty
                &&& final(self).table.symbols_view()[id.0 as int].span == span
                &&& final(self).errors == old(self).errors
            },
            r is None ==> final(self).errors@.len() == old(self).errors@.len() + 1,
            r is None && old(self).table.symbols_view().len() < u32::MAX ==> final(self).errors@.last() is DuplicateDefinition,
            old(self).table.local_spec(old(self).current_spec(), name@) is None && old(self).table.symbols_view().len() < u32::MAX
                ==> r is Some,
    {
        proof {
            lemma_table_view(self.table);
        }
        let scope = self.current_scope();
        if self.table.symbol_len() >= 4294967295usize {
            let e = SemaError::Custom { message: String::from_str("too many symbols"), span };
            proof {
                lemma_errors_view_push(self.errors@, e);
                assert(errors_view(self.errors@).push(e@) =~= errors_view(self.errors@) + seq![e@]);
            }
            self.errors.push(e);
            return None;
        }
        match self.table.define(scope, name, kind, ty, span) {
            Ok(id) => Some(id),
            Err(e) => {
                proof {
                    lemma_errors_view_push(self.errors@, e);
                    assert(errors_view(self.errors@).push(e@) =~= errors_view(self.errors@) + seq![e@]);
                }
                self.errors.push(e);
                None
            },
        }
    }

    /// Declare a port and attach its direction.
    fn define_port(&mut self, name: &str, ty: Ty, span: Span, direction: Direction)
        requires
            old(self).inv(),
        ensures
            final(self).inv(),
            resolver_grows(*old(self), *final(self)),
            final(self).scope_stack@ == old(self).scope_stack@,
            final(self).state() == r_define_port(old(self).state(), name@, ty, span, direction),
    {
        proof {
            lemma_table_view(self.table);
        }
        if let Some(id) = self.define(name, SymbolKind::Port, ty, span) {
            let ghost before = self.table;
            self.table.set_direction(id, direction);
            proof {
                let a = old(self).table;
                assert forall|i: int| 0 <= i < a.symbols_view().len() implies #[trigger] self.table.symbols_view()[i]
                    == a.symbols_view()[i] by {
                    assert(before.symbols_view()[i] == a.symbols_view()[i]);
                }
                assert forall|s: int, j: int| 0 <= s < a.scope_count() && 0 <= j < a.entries_of(s).len() implies #[trigger] self.table.entries_of(
                    s,
                )[j] == a.entries_of(s)[j] by {
                    assert(self.table.entries_of(s) == before.entries_of(s));
                    assert(before.entries_of(s)[j] == a.entries_of(s)[j]);
                }
                assert forall|s: int| 0 <= s < a.scope_count() implies a.entries_of(s).len() <= (#[trigger] self.table.entries_of(
                    s,
                )).len() by {
                    assert(self.table.entries_of(s) == before.entries_of(s));
                }
                assert forall|s: int| 0 <= s < a.scope_count() implies #[trigger] self.table.parent_of(s) == a.parent_of(s) by {
                    assert(self.table.parent_of(s) == before.parent_of(s));
                }
                assert forall|s: int| 0 <= s < a.scope_count() implies #[trigger] self.table.kind_of(s) == a.kind_of(s) by {
                    assert(self.table.kind_of(s) == before.kind_of(s));
                }
                assert(table_grows(a, self.table));
            }
        }
    }

    #[verifier::loop_isolation(false)]
    fn resolve_item(&mut self, item: &Item)
        requires
            old(self).inv(),
        ensures
            final(self).inv(),
            resolver_grows(*old(self), *final(self)),
            item_name(*item) matches Some(n) ==> (final(self).table_spec().symbols_view().len() < u32::MAX
                ==> final(self).table_spec().local_spec(old(self).current_spec(), n) is Some),
            match item.node {
                ItemKind::Module(def) => declares(*old(self), *final(self), old(self).current_spec(), def.name.node@, SymbolKind::Module, def.name.span),
                ItemKind::Struct(def) => declares(*old(self), *final(self), old(self).current_spec(), def.name.node@, SymbolKind::Struct, def.name.span),
                ItemKind::Enum(def) => declares(*old(self), *final(self), old(self).current_spec(), def.name.node@, SymbolKind::Enum, def.name.span),
                ItemKind::Interface(def) => declares(*old(self), *final(self), old(self).current_spec(), def.name.node@, SymbolKind::Interface, def.name.span),
                ItemKind::FnDef(def) => declares(*old(self), *final(self), old(self).current_spec(), def.name.node@, SymbolKind::Fn, def.name.span),
                ItemKind::Fsm(def) => declares(*old(self), *final(self), old(self).current_spec(), def.name.node@, SymbolKind::Fsm, def.name.span),
                ItemKind::Pipeline(def) => declares(*old(self), *final(self), old(self).current_spec(), def.name.node@, SymbolKind::Pipeline, def.name.span),
                ItemKind::ExternModule(def) => declares(*old(self), *final(self), old(self).current_spec(), def.name.node@, SymbolKind::Module, def.name.span),
                ItemKind::Stmt(st) => match st.node {
                    StmtKind::Signal(d) => declares(*old(self), *final(self), old(self).current_spec(), d.name.node@, SymbolKind::Signal, d.name.span),
                    StmtKind::Const(d) => declares(*old(self), *final(self), old(self).current_spec(), d.name.node@, SymbolKind::Const, d.name.span),
                    StmtKind::Let(d) => declares(*old(self), *final(self), old(self).current_spec(), d.name.node@, SymbolKind::Let, d.name.span),
                    StmtKind::TypeAlias(d) => declares(*old(self), *final(self), old(self).current_spec(), d.name.node@, SymbolKind::TypeAlias, d.name.span),
                    _ => true,
                },
                _ => true,
            },
            final(self).scope_stack@ == old(self).scope_stack@,
            final(self).state() == item_res(old(self).state(), *item),
        decreases item,
    {
        match &item.node {
            ItemKind::Module(def) => self.resolve_module(def),
            ItemKind::Struct(def) => self.resolve_struct(def),
            ItemKind::Enum(def) => self.resolve_enum(def),
            ItemKind::Interface(def) => self.resolve_interface(def),
            ItemKind::FnDef(def) => self.resolve_fn(def),
            ItemKind::Fsm(def) => self.resolve_fsm(def),
            ItemKind::Pipeline(def) => self.resolve_pipeline(def),
            ItemKind::Test(block) => self.resolve_test(block),
            ItemKind::ExternModule(def) => self.resolve_extern_module(def),
            ItemKind::Import(_) => {},
            ItemKind::Inst(decl) => self.resolve_inst(decl),
            ItemKind::GenFor(gf) => self.resolve_gen_for(gf),
            ItemKind::GenIf(gi) => self.resolve_gen_if(gi),
            ItemKind::Stmt(stmt) => self.resolve_stmt(stmt),
        }
        proof {
            let a = *old(self);
            let b = *self;
            let cur = a.current_spec();
            match &item.node {
                ItemKind::Module(d) => lemma_declared_after(a, b, cur, d.name.node@, SymbolKind::Module, d.name.span),
                ItemKind::Struct(d) => lemma_declared_after(a, b, cur, d.name.node@, SymbolKind::Struct, d.name.span),
                ItemKind::Enum(d) => lemma_declared_after(a, b, cur, d.name.node@, SymbolKind::Enum, d.name.span),
                ItemKind::Interface(d) => lemma_declared_after(a, b, cur, d.name.node@, SymbolKind::Interface, d.name.span),
                ItemKind::FnDef(d) => lemma_declared_after(a, b, cur, d.name.node@, SymbolKind::Fn, d.name.span),
                ItemKind::Fsm(d) => lemma_declared_after(a, b, cur, d.name.node@, SymbolKind::Fsm, d.name.span),
                ItemKind::Pipeline(d) => lemma_declared_after(a, b, cur, d.name.node@, SymbolKind::Pipeline, d.name.span),
                ItemKind::ExternModule(d) => lemma_declared_after(a, b, cur, d.name.node@, SymbolKind::Module, d.name.span),
                ItemKind::Stmt(st) => match &st.node {
                    StmtKind::Signal(d) => lemma_declared_after(a, b, cur, d.name.node@, SymbolKind::Signal, d.name.span),
                    StmtKind::Const(d) => lemma_declared_after(a, b, cur, d.name.node@, SymbolKind::Const, d.name.span),
                    StmtKind::Let(d) => lemma_declared_after(a, b, cur, d.name.node@, SymbolKind::Let, d.name.span),
                    StmtKind::TypeAlias(d) => lemma_declared_after(a, b, cur, d.name.node@, SymbolKind::TypeAlias, d.name.span),
                    _ => {},
                },
                _ => {},
            }
        }
    }

    /// Shorten the scope stack to its first `len` entries.
    fn restore_stack(&mut self, len: usize)
        requires
            old(self).inv(),
            1 <= len <= old(self).scope_stack@.len(),
        ensures
            final(self).inv(),
            resolver_grows(*old(self), *final(self)),
            final(self).scope_stack@ == old(self).scope_stack@.subrange(0, len as int),
            final(self).table == old(self).table,
            final(self).state() == r_restore(old(self).state(), len as int),
    {
        while self.scope_stack.len() > len
            invariant
                self.inv(),
                resolver_grows(*old(self), *self),
                self.table == old(self).table,
                self.state() == with_stack(old(self).state(), self.scope_stack@),
                1 <= len <= self.scope_stack@.len(),
                self.scope_stack@.subrange(0, len as int) == old(self).scope_stack@.subrange(0, len as int),
            decreases self.scope_stack@.len(),
        {
            self.scope_stack.pop();
            proof {
                assert(self.scope_stack@.subrange(0, len as int) =~= old(self).scope_stack@.subrange(0, len as int));
            }
        }
        proof {
            assert(self.scope_stack@ =~= self.scope_stack@.subrange(0, len as int));
        }
    }

    #[verifier::loop_isolation(false)]
    fn resolve_module(&mut self, def: &ModuleDef)
        requires
            old(self).inv(),
        ensures
            final(self).inv(),
            resolver_grows(*old(self), *final(self)),
            declares(*old(self), *final(self), old(self).current_spec(), def.name.node@, SymbolKind::Module, def.name.span),
            final(self).scope_stack@ == old(self).scope_stack@,
            final(self).state() == module_res(old(self).state(), *def),
        decreases def,
    {
        let ghost saved = self.scope_stack@;
        let saved_len = self.scope_stack.len();
        self.define(def.name.node.as_str(), SymbolKind::Module, Ty::Void, def.name.span);
        let ghost mid = *self;
        let child = self.push_scope(ScopeKind::Module);
        self.scope_map.insert(def.name.span.start, child);
        let ghost s3 = self.state();
        let mut i: usize = 0;
        proof {
            assert(def.ports@.take(0) =~= Seq::<crate::ast::item::Port>::empty());
        }
        while i < def.ports.len()
            invariant
                self.inv(),
                resolver_grows(*old(self), *self),
                resolver_grows(mid, *self),
                self.scope_stack@.len() == saved.len() + 1,
                self.scope_stack@.subrange(0, saved.len() as int) == saved,
                i <= def.ports@.len(),
                self.state() == ports_res(s3, def.ports@.take(i as int)),
            decreases def.ports@.len() - i,
        {
            proof {
                assert(def.ports@.take(i + 1).drop_last() =~= def.ports@.take(i as int));
            }
            let port = &def.ports[i];
            let port_ty = self.resolve_type(&port.ty);
            self.define_port(port.name.node.as_str(), port_ty, port.name.span, port.direction);
            i = i + 1;
        }
        proof {
            assert(def.ports@.take(i as int) =~= def.ports@);
        }
        let ghost s4 = self.state();
        let mut j: usize = 0;
        proof {
            assert(def.body@.take(0) =~= Seq::<Item>::empty());
        }
        while j < def.body.len()
            invariant
                self.inv(),
                resolver_grows(*old(self), *self),
                resolver_grows(mid, *self),
                self.scope_stack@.len() == saved.len() + 1,
                self.scope_stack@.subrange(0, saved.len() as int) == saved,
                j <= def.body@.len(),
                self.state() == items_res(s4, def.body@.take(j as int)),
            decreases def.body@.len() - j,
        {
            proof {
                assert(decreases_to!(def => def.body@[j as int]));
                assert(def.body@.take(j + 1).drop_last() =~= def.body@.take(j as int));
            }
            self.resolve_item(&def.body[j]);
            j = j + 1;
        }
        proof {
            assert(def.body@.take(j as int) =~= def.body@);
        }
        self.restore_stack(saved_len);
        proof {
            lemma_declares_kept(*old(self), mid, *self, old(self).current_spec(), def.name.node@, SymbolKind::Module, def.name.span);
        }
    }

    fn resolve_struct(&mut self, def: &StructDef)
        requires
            old(self).inv(),
        ensures
            final(self).inv(),
            resolver_grows(*old(self), *final(self)),
            declares(*old(self), *final(self), old(self).current_spec(), def.name.node@, SymbolKind::Struct, def.name.span),
            final(self).scope_stack@ == old(self).scope_stack@,
            final(self).state() == struct_res(old(self).state(), *def),
    {
        let id = StructId(self.next_struct_id);
        self.next_struct_id = self.next_struct_id.wrapping_add(1);
        self.define(def.name.node.as_str(), SymbolKind::Struct, Ty::Struct(id), def.name.span);
    }

    #[verifier::loop_isolation(false)]
    fn resolve_enum(&mut self, def: &EnumDef)
        requires
            old(self).inv(),
        ensures
            final(self).inv(),
            resolver_grows(*old(self), *final(self)),
            declares(*old(self), *final(self), old(self).current_spec(), def.name.node@, SymbolKind::Enum, def.name.span),
            final(self).scope_stack@ == old(self).scope_stack@,
            final(self).state() == enum_res(old(self).state(), *def),
    {
        let id = EnumId(self.next_enum_id);
        self.next_enum_id = self.next_enum_id.wrapping_add(1);
        self.define(def.name.node.as_str(), SymbolKind::Enum, Ty::Enum(id), def.name.span);
        let ghost mid = *self;
        let ghost s1 = self.state();
        let mut i: usize = 0;
        proof {
            assert(def.variants@.take(0) =~= Seq::<crate::ast::item::EnumVariant>::empty());
        }
        while i < def.variants.len()
            invariant
                self.inv(),
                resolver_grows(*old(self), *self),
                resolver_grows(mid, *self),
                self.scope_stack@ == old(self).scope_stack@,
                i <= def.variants@.len(),
                self.state() == variants_res(s1, def.variants@.take(i as int), id),
            decreases def.variants@.len() - i,
        {
            proof {
                assert(def.variants@.take(i + 1).drop_last() =~= def.variants@.take(i as int));
            }
            let v = &def.variants[i];
            self.define(v.name.node.as_str(), SymbolKind::EnumVariant, Ty::Enum(id), v.name.span);
            i = i + 1;
        }
        proof {
            assert(def.variants@.take(i as int) =~= def.variants@);
            lemma_declares_kept(*old(self), mid, *self, old(self).current_spec(), def.name.node@, SymbolKind::Enum, def.name.span);
        }
    }

    fn resolve_interface(&mut self, def: &InterfaceDef)
        requires
            old(self).inv(),
        ensures
            final(self).inv(),
            resolver_grows(*old(self), *final(self)),
            declares(*old(self), *final(self), old(self).current_spec(), def.name.node@, SymbolKind::Interface, def.name.span),
            final(self).scope_stack@ == old(self).scope_stack@,
            final(self).state() == interface_res(old(self).state(), *def),
    {
        let id = InterfaceId(self.next_interface_id);
        self.next_interface_id = self.next_interface_id.wrapping_add(1);
        self.define(def.name.node.as_str(), SymbolKind::Interface, Ty::Interface(id), def.name.span);
    }

    #[verifier::loop_isolation(false)]
    fn resolve_fn(&mut self, def: &FnDef)
        requires
            old(self).inv(),
        ensures
            final(self).inv(),
            resolver_grows(*old(self), *final(self)),
            declares(*old(self), *final(self), old(self).current_spec(), def.name.node@, SymbolKind::Fn, def.name.span),
            final(self).scope_stack@ == old(self).scope_stack@,
            final(self).state() == fn_res(old(self).state(), *def),
    {
        let ghost saved = self.scope_stack@;
        let saved_len = self.scope_stack.len();
        self.define(def.name.node.as_str(), SymbolKind::Fn, Ty::Void, def.name.span);
        let ghost mid = *self;
        self.push_scope(ScopeKind::Function);
        let ghost s2 = self.state();
        let mut i: usize = 0;
        proof {
            assert(def.params@.take(0) =~= Seq::<crate::ast::item::FnParam>::empty());
        }
        while i < def.params.len()
            invariant
                self.inv(),
                resolver_grows(*old(self), *self),
                resolver_grows(mid, *self),
                self.scope_stack@.len() == saved.len() + 1,
                self.scope_stack@.subrange(0, saved.len() as int) == saved,
                i <= def.params@.len(),
                self.state() == params_res(s2, def.params@.take(i as int)),
            decreases def.params@.len() - i,
        {
            proof {
                assert(def.params@.take(i + 1).drop_last() =~= def.params@.take(i as int));
            }
            let param = &def.params[i];
            let param_ty = self.resolve_type(&param.ty);
            self.define(param.name.node.as_str(), SymbolKind::GenericParam, param_ty, param.name.span);
            i = i + 1;
        }
        proof {
            assert(def.params@.take(i as int) =~= def.params@);
        }
        let ghost s3 = self.state();
        let mut j: usize = 0;
        proof {
            assert(def.body@.take(0) =~= Seq::<Stmt>::empty());
        }
        while j < def.body.len()
            invariant
                self.inv(),
                resolver_grows(*old(self), *self),
                resolver_grows(mid, *self),
                self.scope_stack@.len() == saved.len() + 1,
                self.scope_stack@.subrange(0, saved.len() as int) == saved,
                j <= def.body@.len(),
                self.state() == stmts_res(s3, def.body@.take(j as int)),
            decreases def.body@.len() - j,
        {
            proof {
                assert(def.body@.take(j + 1).drop_last() =~= def.body@.take(j as int));
            }
            self.resolve_stmt(&def.body[j]);
            j = j + 1;
        }
        proof {
            assert(def.body@.take(j as int) =~= def.body@);
        }
        self.restore_stack(saved_len);
        proof {
            lemma_declares_kept(*old(self), mid, *self, old(self).current_spec(), def.name.node@, SymbolKind::Fn, def.name.span);
        }
    }

    fn resolve_fsm(&mut self, def: &FsmDef)
        requires
            old(self).inv(),
        ensures
            final(self).inv(),
            resolver_grows(*old(self), *final(self)),
            declares(*old(self), *final(self), old(self).current_spec(), def.name.node@, SymbolKind::Fsm, def.name.span),
            final(self).scope_stack@ == old(self).scope_stack@,
            final(self).state() == r_define(old(self).state(), def.name.node@, SymbolKind::Fsm, Ty::Void, def.name.span),
    {
        self.define(def.name.node.as_str(), SymbolKind::Fsm, Ty::Void, def.name.span);
    }

    fn resolve_pipeline(&mut self, def: &PipelineDef)
        requires
            old(self).inv(),
        ensures
            final(self).inv(),
            resolver_grows(*old(self), *final(self)),
            declares(*old(self), *final(self), old(self).current_spec(), def.name.node@, SymbolKind::Pipeline, def.name.span),
            final(self).scope_stack@ == old(self).scope_stack@,
            final(self).state() == r_define(old(self).state(), def.name.node@, SymbolKind::Pipeline, Ty::Void, def.name.span),
    {
        self.define(def.name.node.as_str(), SymbolKind::Pipeline, Ty::Void, def.name.span);
    }

    fn resolve_test(&mut self, block: &TestBlock)
        ensures
            *final(self) == *old(self),
    {
    }

    #[verifier::loop_isolation(false)]
    fn resolve_extern_module(&mut self, def: &ExternModuleDef)
        requires
            old(self).inv(),
        ensures
            final(self).inv(),
            resolver_grows(*old(self), *final(self)),
            declares(*old(self), *final(self), old(self).current_spec(), def.name.node@, SymbolKind::Module, def.name.span),
            final(self).scope_stack@ == old(self).scope_stack@,
            final(self).state() == extern_res(old(self).state(), *def),
    {
        let ghost saved = self.scope_stack@;
        let saved_len = self.scope_stack.len();
        self.define(def.name.node.as_str(), SymbolKind::Module, Ty::Void, def.name.span);
        let ghost mid = *self;
        self.push_scope(ScopeKind::Module);
        let ghost s2 = self.state();
        let mut i: usize = 0;
        proof {
            assert(def.ports@.take(0) =~= Seq::<crate::ast::item::Port>::empty());
        }
        while i < def.ports.len()
            invariant
                self.inv(),
                resolver_grows(*old(self), *self),
                resolver_grows(mid, *self),
                self.scope_stack@.len() == saved.len() + 1,
                self.scope_stack@.subrange(0, saved.len() as int) == saved,
                i <= def.ports@.len(),
                self.state() == ports_res(s2, def.ports@.take(i as int)),
            decreases def.ports@.len() - i,
        {
            proof {
                assert(def.ports@.take(i + 1).drop_last() =~= def.ports@.take(i as int));
            }
            let port = &def.ports[i];
            let port_ty = self.resolve_type(&port.ty);
            self.define_port(port.name.node.as_str(), port_ty, port.name.span, port.direction);
            i = i + 1;
        }
        proof {
            assert(def.ports@.take(i as int) =~= def.ports@);
        }
        self.restore_stack(saved_len);
        proof {
            lemma_declares_kept(*old(self), mid, *self, old(self).current_spec(), def.name.node@, SymbolKind::Module, def.name.span);
        }
    }

    fn resolve_inst(&mut self, decl: &InstDecl)
        ensures
            *final(self) == *old(self),
    {
    }

    #[verifier::loop_isolation(false)]
    fn resolve_gen_for(&mut self, gf: &GenFor)
        requires
            old(self).inv(),
        ensures
            final(self).inv(),
            resolver_grows(*old(self), *final(self)),
            final(self).scope_stack@ == old(self).scope_stack@,
            final(self).state() == items_res(old(self).state(), gf.body@),
        decreases gf,
    {
        let mut i: usize = 0;
        proof {
            assert(gf.body@.take(0) =~= Seq::<Item>::empty());
        }
        while i < gf.body.len()
            invariant
                self.inv(),
                resolver_grows(*old(self), *self),
                self.scope_stack@ == old(self).scope_stack@,
                i <= gf.body@.len(),
                self.state() == items_res(old(self).state(), gf.body@.take(i as int)),
            decreases gf.body@.len() - i,
        {
            proof {
                assert(decreases_to!(gf => gf.body@[i as int]));
                assert(gf.body@.take(i + 1).drop_last() =~= gf.body@.take(i as int));
            }
            self.resolve_item(&gf.body[i]);
            i = i + 1;
        }
        proof {
            assert(gf.body@.take(i as int) =~= gf.body@);
        }
    }

    #[verifier::loop_isolation(false)]
    fn resolve_gen_if(&mut self, gi: &GenIf)
        requires
            old(self).inv(),
        ensures
            final(self).inv(),
            resolver_grows(*old(self), *final(self)),
            final(self).scope_stack@ == old(self).scope_stack@,
            final(self).state() == match gi.else_body {
                Some(b) => items_res(items_res(old(self).state(), gi.then_body@), b@),
                None => items_res(old(self).state(), gi.then_body@),
            },
        decreases gi,
    {
        let mut i: usize = 0;
        proof {
            assert(gi.then_body@.take(0) =~= Seq::<Item>::empty());
        }
        while i < gi.then_body.len()
            invariant
                self.inv(),
                resolver_grows(*old(self), *self),
                self.scope_stack@ == old(self).scope_stack@,
                i <= gi.then_body@.len(),
                self.state() == items_res(old(self).state(), gi.then_body@.take(i as int)),
            decreases gi.then_body@.len() - i,
        {
            proof {
                assert(decreases_to!(gi => gi.then_body@[i as int]));
                assert(gi.then_body@.take(i + 1).drop_last() =~= gi.then_body@.take(i as int));
            }
            self.resolve_item(&gi.then_body[i]);
            i = i + 1;
        }
        proof {
            assert(gi.then_body@.take(i as int) =~= gi.then_body@);
        }
        if let Some(else_body) = &gi.else_body {
            let ghost s1 = self.state();
            let mut j: usize = 0;
            proof {
                assert(else_body@.take(0) =~= Seq::<Item>::empty());
            }
            while j < else_body.len()
                invariant
                    self.inv(),
                    resolver_grows(*old(self), *self),
                    self.scope_stack@ == old(self).scope_stack@,
                    j <= else_body@.len(),
                    self.state() == items_res(s1, else_body@.take(j as int)),
                decreases else_body@.len() - j,
            {
                proof {
                    assert(decreases_to!(gi => else_body@[j as int]));
                    assert(else_body@.take(j + 1).drop_last() =~= else_body@.take(j as int));
                }
                self.resolve_item(&else_body[j]);
                j = j + 1;
            }
            proof {
                assert(else_body@.take(j as int) =~= else_body@);
            }
        }
    }

    /// Resolve each statement of a list.
    #[verifier::loop_isolation(false)]
    fn resolve_stmts(&mut self, stmts: &Vec<Stmt>)
        requires
            old(self).inv(),
        ensures
            final(self).inv(),
            resolver_grows(*old(self), *final(self)),
            final(self).scope_stack@ == old(self).scope_stack@,
            final(self).state() == stmts_res(old(self).state(), stmts@),
        decreases stmts,
    {
        let mut i: usize = 0;
        proof {
            assert(stmts@.take(0) =~= Seq::<Stmt>::empty());
        }
        while i < stmts.len()
            invariant
                self.inv(),
                resolver_grows(*old(self), *self),
                self.scope_stack@ == old(self).scope_stack@,
                i <= stmts@.len(),
                self.state() == stmts_res(old(self).state(), stmts@.take(i as int)),
            decreases stmts@.len() - i,
        {
            proof {
                assert(decreases_to!(stmts => stmts@[i as int]));
                assert(stmts@.take(i + 1).drop_last() =~= stmts@.take(i as int));
            }
            self.resolve_stmt(&stmts[i]);
            i = i + 1;
        }
        proof {
            assert(stmts@.take(i as int) =~= stmts@);
        }
    }

    /// Declare what a statement declares, and what the statements nested in
    /// it declare; a `for` loop's variable and body get a scope of their own.
    #[verifier::loop_isolation(false)]
    fn resolve_stmt(&mut self, stmt: &Stmt)
        requires
            old(self).inv(),
        ensures
            final(self).inv(),
            resolver_grows(*old(self), *final(self)),
            match stmt.node {
                StmtKind::Signal(d) => declares(*old(self), *final(self), old(self).current_spec(), d.name.node@, SymbolKind::Signal, d.name.span),
                StmtKind::Const(d) => declares(*old(self), *final(self), old(self).current_spec(), d.name.node@, SymbolKind::Const, d.name.span),
                StmtKind::Let(d) => declares(*old(self), *final(self), old(self).current_spec(), d.name.node@, SymbolKind::Let, d.name.span),
                StmtKind::TypeAlias(d) => declares(*old(self), *final(self), old(self).current_spec(), d.name.node@, SymbolKind::TypeAlias, d.name.span),
                _ => true,
            },
            final(self).scope_stack@ == old(self).scope_stack@,
            final(self).state() == stmt_res(old(self).state(), *stmt),
        decreases stmt,
    {
        match &stmt.node {
            StmtKind::Signal(decl) => self.resolve_signal(decl),
            StmtKind::Const(decl) => self.resolve_const(decl),
            StmtKind::Let(decl) => self.resolve_let(decl),
            StmtKind::TypeAlias(decl) => self.resolve_type_alias(decl),
            StmtKind::If(if_stmt) => {
                self.resolve_stmts(&if_stmt.then_body);
                let ghost s1 = self.state();
                let mut i: usize = 0;
                proof {
                    assert(if_stmt.elif_branches@.take(0) =~= Seq::<(crate::ast::expr::Expr, Vec<Stmt>)>::empty());
                }
                while i < if_stmt.elif_branches.len()
                    invariant
                        self.inv(),
                        resolver_grows(*old(self), *self),
                        self.scope_stack@ == old(self).scope_stack@,
                        i <= if_stmt.elif_branches@.len(),
                        self.state() == elifs_res(s1, if_stmt.elif_branches@.take(i as int)),
                    decreases if_stmt.elif_branches@.len() - i,
                {
                    proof {
                        assert(decreases_to!(stmt => if_stmt.elif_branches@[i as int].1));
                        assert(if_stmt.elif_branches@.take(i + 1).drop_last() =~= if_stmt.elif_branches@.take(i as int));
                    }
                    self.resolve_stmts(&if_stmt.elif_branches[i].1);
                    i = i + 1;
                }
                proof {
                    assert(if_stmt.elif_branches@.take(i as int) =~= if_stmt.elif_branches@);
                }
                if let Some(else_body) = &if_stmt.else_body {
                    self.resolve_stmts(else_body);
                }
            },
            StmtKind::Match(match_stmt) => {
                let ghost s0 = self.state();
                let mut i: usize = 0;
                proof {
                    assert(match_stmt.arms@.take(0) =~= Seq::<crate::ast::stmt::MatchArm>::empty());
                }
                while i < match_stmt.arms.len()
                    invariant
                        self.inv(),
                        resolver_grows(*old(self), *self),
                        self.scope_stack@ == old(self).scope_stack@,
                        i <= match_stmt.arms@.len(),
                        self.state() == match_arms_res(s0, match_stmt.arms@.take(i as int)),
                    decreases match_stmt.arms@.len() - i,
                {
                    proof {
                        assert(decreases_to!(stmt => match_stmt.arms@[i as int].body));
                        assert(match_stmt.arms@.take(i + 1).drop_last() =~= match_stmt.arms@.take(i as int));
                    }
                    self.resolve_stmts(&match_stmt.arms[i].body);
                    i = i + 1;
                }
                proof {
                    assert(match_stmt.arms@.take(i as int) =~= match_stmt.arms@);
                }
            },
            StmtKind::For(for_stmt) => {
                let ghost saved = self.scope_stack@;
        let saved_len = self.scope_stack.len();
                self.push_scope(ScopeKind::Block);
                self.define(for_stmt.var.node.as_str(), SymbolKind::LoopVar, Ty::MetaUInt, for_stmt.var.span);
                self.resolve_stmts(&for_stmt.body);
                self.restore_stack(saved_len);
            },
            StmtKind::CombBlock(stmts) => self.resolve_stmts(stmts),
            StmtKind::RegBlock(reg) => {
                self.resolve_stmts(&reg.on_reset);
                self.resolve_stmts(&reg.on_tick);
            },
            StmtKind::PriorityBlock(pb) => {
                let ghost s0 = self.state();
                let mut i: usize = 0;
                proof {
                    assert(pb.arms@.take(0) =~= Seq::<crate::ast::stmt::PriorityArm>::empty());
                }
                while i < pb.arms.len()
                    invariant
                        self.inv(),
                        resolver_grows(*old(self), *self),
                        self.scope_stack@ == old(self).scope_stack@,
                        i <= pb.arms@.len(),
                        self.state() == when_arms_res(s0, pb.arms@.take(i as int)),
                    decreases pb.arms@.len() - i,
                {
                    proof {
                        assert(decreases_to!(stmt => pb.arms@[i as int].body));
                        assert(pb.arms@.take(i + 1).drop_last() =~= pb.arms@.take(i as int));
                    }
                    self.resolve_stmts(&pb.arms[i].body);
                    i = i + 1;
                }
                proof {
                    assert(pb.arms@.take(i as int) =~= pb.arms@);
                }
                if let Some(otherwise) = &pb.otherwise {
                    self.resolve_stmts(otherwise);
                }
            },
            StmtKind::ParallelBlock(pb) => {
                let ghost s0 = self.state();
                let mut i: usize = 0;
                proof {
                    assert(pb.arms@.take(0) =~= Seq::<crate::ast::stmt::PriorityArm>::empty());
                }
                while i < pb.arms.len()
                    invariant
                        self.inv(),
                        resolver_grows(*old(self), *self),
                        self.scope_stack@ == old(self).scope_stack@,
                        i <= pb.arms@.len(),
                        self.state() == when_arms_res(s0, pb.arms@.take(i as int)),
                    decreases pb.arms@.len() - i,
                {
                    proof {
                        assert(decreases_to!(stmt => pb.arms@[i as int].body));
                        assert(pb.arms@.take(i + 1).drop_last() =~= pb.arms@.take(i as int));
                    }
                    self.resolve_stmts(&pb.arms[i].body);
                    i = i + 1;
                }
                proof {
                    assert(pb.arms@.take(i as int) =~= pb.arms@);
                }
            },
            StmtKind::UncheckedBlock(stmts) => self.resolve_stmts(stmts),
            _ => {},
        }
    }

    fn resolve_signal(&mut self, decl: &SignalDecl)
        requires
            old(self).inv(),
        ensures
            final(self).inv(),
            resolver_grows(*old(self), *final(self)),
            declares(*old(self), *final(self), old(self).current_spec(), decl.name.node@, SymbolKind::Signal, decl.name.span),
            declared_type(*old(self), *final(self), old(self).current_spec(), decl.name.node@, type_rule(
                old(self).table_spec()@,
                old(self).current_spec(),
                old(self).consts_spec(),
                decl.ty,
            ).0),
            final(self).scope_stack@ == old(self).scope_stack@,
            final(self).state() == r_define(r_type(old(self).state(), decl.ty), decl.name.node@, SymbolKind::Signal, r_ty(old(self).state(), decl.ty), decl.name.span),
    {
        let ty = self.resolve_type(&decl.ty);
        self.define(decl.name.node.as_str(), SymbolKind::Signal, ty, decl.name.span);
    }

    fn resolve_const(&mut self, decl: &ConstDecl)
        requires
            old(self).inv(),
        ensures
            final(self).inv(),
            resolver_grows(*old(self), *final(self)),
            declares(*old(self), *final(self), old(self).current_spec(), decl.name.node@, SymbolKind::Const, decl.name.span),
            declared_type(*old(self), *final(self), old(self).current_spec(), decl.name.node@, match decl.ty {
                Some(t) => type_rule(old(self).table_spec()@, old(self).current_spec(), old(self).consts_spec(), t).0,
                None => Ty::MetaUInt,
            }),
            match eval_spec(old(self).consts_spec(), decl.value) {
                Ok(v) => final(self).consts_spec().len() == old(self).consts_spec().len() + 1 && last_binding(
                    final(self).consts_spec(),
                    decl.name.node@,
                ) == Some(v),
                Err(_) => final(self).consts_spec() == old(self).consts_spec(),
            },
            final(self).scope_stack@ == old(self).scope_stack@,
            final(self).state() == r_bind(r_define(r_opt_type(old(self).state(), decl.ty), decl.name.node@, SymbolKind::Const, r_opt_ty(old(self).state(), decl.ty, Ty::MetaUInt), decl.name.span), decl.name.node, decl.value),
    {
        let ty = match &decl.ty {
            Some(t) => self.resolve_type(t),
            None => Ty::MetaUInt,
        };
        self.define(decl.name.node.as_str(), SymbolKind::Const, ty, decl.name.span);
        match self.consts.eval_expr(&decl.value) {
            Ok(val) => {
                self.consts.bind(decl.name.node.clone(), val);
            },
            Err(_) => {},
        }
    }

    fn resolve_let(&mut self, decl: &LetDecl)
        requires
            old(self).inv(),
        ensures
            final(self).inv(),
            resolver_grows(*old(self), *final(self)),
            declares(*old(self), *final(self), old(self).current_spec(), decl.name.node@, SymbolKind::Let, decl.name.span),
            declared_type(*old(self), *final(self), old(self).current_spec(), decl.name.node@, match decl.ty {
                Some(t) => type_rule(old(self).table_spec()@, old(self).current_spec(), old(self).consts_spec(), t).0,
                None => Ty::Void,
            }),
            final(self).scope_stack@ == old(self).scope_stack@,
            final(self).state() == r_define(r_opt_type(old(self).state(), decl.ty), decl.name.node@, SymbolKind::Let, r_opt_ty(old(self).state(), decl.ty, Ty::Void), decl.name.span),
    {
        let ty = match &decl.ty {
            Some(t) => self.resolve_type(t),
            None => Ty::Void,
        };
        self.define(decl.name.node.as_str(), SymbolKind::Let, ty, decl.name.span);
    }

    fn resolve_type_alias(&mut self, decl: &TypeAliasDecl)
        requires
            old(self).inv(),
        ensures
            final(self).inv(),
            resolver_grows(*old(self), *final(self)),
            declares(*old(self), *final(self), old(self).current_spec(), decl.name.node@, SymbolKind::TypeAlias, decl.name.span),
            declared_type(*old(self), *final(self), old(self).current_spec(), decl.name.node@, type_rule(
                old(self).table_spec()@,
                old(self).current_spec(),
                old(self).consts_spec(),
                decl.ty,
            ).0),
            final(self).scope_stack@ == old(self).scope_stack@,
            final(self).state() == r_define(r_type(old(self).state(), decl.ty), decl.name.node@, SymbolKind::TypeAlias, r_ty(old(self).state(), decl.ty), decl.name.span),
    {
        let ty = self.resolve_type(&decl.ty);
        self.define(decl.name.node.as_str(), SymbolKind::TypeAlias, ty, decl.name.span);
    }

    /// Report an error.
    fn report(&mut self, e: SemaError)
        requires
            old(self).inv(),
        ensures
            final(self).inv(),
            resolver_grows(*old(self), *final(self)),
            final(self).scope_stack@ == old(self).scope_stack@,
            final(self).table == old(self).table,
            final(self).consts_spec() == old(self).consts_spec(),
            final(self).errors@ == old(self).errors@.push(e),
            errors_view(final(self).errors@) == errors_view(old(self).errors@).push(e@),
            frame(*old(self), *final(self)),
    {
        self.errors.push(e);
        proof {
            lemma_errors_view_push(old(self).errors@, e);
        }
    }

    /// Resolve a type expression to a type. Types that cannot be resolved
    /// become `Ty::Error`, with an error reported.
    pub fn resolve_type(&mut self, ty: &TypeExpr) -> (r: Ty)
        requires
            old(self).inv(),
        ensures
            final(self).inv(),
            resolver_grows(*old(self), *final(self)),
            final(self).stack_spec() == old(self).stack_spec(),
            final(self).table_spec() == old(self).table_spec(),
            final(self).consts_spec() == old(self).consts_spec(),
            final(self).state() == r_type(old(self).state(), *ty),
            r == r_ty(old(self).state(), *ty),
            r == type_rule(old(self).table_spec()@, old(self).current_spec(), old(self).consts_spec(), *ty).0,
            errors_view(final(self).errors_spec()) == errors_view(old(self).errors_spec()) + type_rule(
                old(self).table_spec()@,
                old(self).current_spec(),
                old(self).consts_spec(),
                *ty,
            ).1,
        decreases ty, 2nat,
    {
        let ghost st0 = self.state();
        let span = ty.span;
        let r = match &ty.node {
            TypeExprKind::Named(name) => self.resolve_named_type(name.as_str(), span),
            TypeExprKind::Generic { name, params } => self.resolve_generic_type(name.as_str(), params, span),
            TypeExprKind::Array { element, size } => {
                let elem_ty = self.resolve_type(element);
                match self.consts.eval_expr(size) {
                    Ok(ConstValue::UInt(n)) => Ty::Array { element: Box::new(elem_ty), size: n as u64 },
                    Ok(other) => {
                        let m = concat(
                            concat("array size must be a non-negative integer, got `", const_debug_text(&other).as_str()).as_str(),
                            "`",
                        );
                        self.report(SemaError::ConstEvalError { message: m, span });
                        Ty::Error
                    },
                    Err(e) => {
                        self.report(e);
                        Ty::Error
                    },
                }
            },
            TypeExprKind::Clock { freq, .. } => {
                let freq_val = match freq {
                    Some(f) => match self.consts.eval_expr(f) {
                        Ok(ConstValue::UInt(n)) => Some(n as u64),
                        _ => None,
                    },
                    None => None,
                };
                Ty::Clock { freq: freq_val }
            },
            TypeExprKind::SyncReset { .. } => Ty::SyncReset,
            TypeExprKind::AsyncReset { .. } => Ty::AsyncReset,
            TypeExprKind::DirectionWrapper { dir, inner } => {
                let inner_ty = self.resolve_type(inner);
                match dir {
                    Direction::In => Ty::In(Box::new(inner_ty)),
                    Direction::Out => Ty::Out(Box::new(inner_ty)),
                    Direction::InOut => Ty::InOut(Box::new(inner_ty)),
                }
            },
            TypeExprKind::Flip(inner) => {
                let inner_ty = self.resolve_type(inner);
                Ty::Flip(Box::new(inner_ty))
            },
            TypeExprKind::DomainAnnotated { ty: inner, .. } => self.resolve_type(inner),
            TypeExprKind::Memory { element, params } => {
                let elem_ty = self.resolve_type(element);
                let depth = self.eval_named_param(params, "depth", span);
                Ty::Memory { element: Box::new(elem_ty), depth }
            },
            TypeExprKind::DualPortMemory { element, params } => {
                let elem_ty = self.resolve_type(element);
                let depth = self.eval_named_param(params, "depth", span);
                Ty::Memory { element: Box::new(elem_ty), depth }
            },
            TypeExprKind::PartialInterface { .. } => Ty::Error,
        };
        proof {
            assert(self.state().errors =~= st0.errors + type_rule(st0.table, cur(st0), st0.consts, *ty).1);
        }
        r
    }

    /// The type a name denotes: a built-in type, or the type of the symbol
    /// it names; width types without parameters and unknown names are errors.
    fn resolve_named_type(&mut self, name: &str, span: Span) -> (r: Ty)
        requires
            old(self).inv(),
        ensures
            final(self).inv(),
            resolver_grows(*old(self), *final(self)),
            final(self).scope_stack@ == old(self).scope_stack@,
            final(self).table == old(self).table,
            final(self).consts_spec() == old(self).consts_spec(),
            frame(*old(self), *final(self)),
            r == named_rule(old(self).table_spec()@, old(self).current_spec(), name@, span).0,
            errors_view(final(self).errors@) == errors_view(old(self).errors@) + named_rule(
                old(self).table_spec()@,
                old(self).current_spec(),
                name@,
                span,
            ).1,
    {
        proof {
            reveal_strlit("UInt");
            reveal_strlit("SInt");
            reveal_strlit("Bits");
            reveal_strlit("Fixed");
            reveal_strlit("Clock");
            reveal_strlit("Bool");
            reveal_strlit("SyncReset");
            reveal_strlit("AsyncReset");
            reveal_strlit("uint");
            reveal_strlit("int");
            reveal_strlit("bool");
            reveal_strlit("float");
            reveal_strlit("string");
        }
        if str_eq(name, "Bool") {
            Ty::Bool
        } else if str_eq(name, "Clock") {
            Ty::Clock { freq: None }
        } else if str_eq(name, "SyncReset") {
            Ty::SyncReset
        } else if str_eq(name, "AsyncReset") {
            Ty::AsyncReset
        } else if str_eq(name, "uint") {
            Ty::MetaUInt
        } else if str_eq(name, "int") {
            Ty::MetaInt
        } else if str_eq(name, "bool") {
            Ty::MetaBool
        } else if str_eq(name, "float") {
            Ty::MetaFloat
        } else if str_eq(name, "string") {
            Ty::MetaString
        } else if str_eq(name, "UInt") || str_eq(name, "SInt") || str_eq(name, "Bits") || str_eq(name, "Fixed") {
            let s = concat(concat("`", name).as_str(), "` requires a generic parameter (e.g. `");
            let m = concat(concat(s.as_str(), name).as_str(), "<8>`)");
            self.report(SemaError::Custom { message: m, span });
            Ty::Error
        } else {
            let scope = self.current_scope();
            match self.table.lookup(scope, name) {
                Some(sym) => sym.ty.duplicate(),
                None => {
                    self.report(SemaError::UndefinedName { name: name.to_owned(), span });
                    Ty::Error
                },
            }
        }
    }

    /// The type of a generic type expression `name<params>`.
    fn resolve_generic_type(&mut self, name: &str, params: &Vec<GenericArg>, span: Span) -> (r: Ty)
        requires
            old(self).inv(),
        ensures
            final(self).inv(),
            resolver_grows(*old(self), *final(self)),
            final(self).scope_stack@ == old(self).scope_stack@,
            final(self).table == old(self).table,
            final(self).consts_spec() == old(self).consts_spec(),
            frame(*old(self), *final(self)),
            r == generic_rule(old(self).table_spec()@, old(self).current_spec(), old(self).consts_spec(), name@, params@, span).0,
            errors_view(final(self).errors@) == errors_view(old(self).errors@) + generic_rule(
                old(self).table_spec()@,
                old(self).current_spec(),
                old(self).consts_spec(),
                name@,
                params@,
                span,
            ).1,
        decreases params, 2nat,
    {
        proof {
            reveal_strlit("UInt");
            reveal_strlit("SInt");
            reveal_strlit("Bits");
            reveal_strlit("Fixed");
            reveal_strlit("Clock");
            reveal_strlit("Bool");
            reveal_strlit("SyncReset");
            reveal_strlit("AsyncReset");
            reveal_strlit("uint");
            reveal_strlit("int");
            reveal_strlit("bool");
            reveal_strlit("float");
            reveal_strlit("string");
        }
        if str_eq(name, "UInt") {
            Ty::UInt(self.eval_param_at(params, 0, name, span))
        } else if str_eq(name, "SInt") {
            Ty::SInt(self.eval_param_at(params, 0, name, span))
        } else if str_eq(name, "Bits") {
            Ty::Bits(self.eval_param_at(params, 0, name, span))
        } else if str_eq(name, "Fixed") {
            let int_bits = self.eval_param_at(params, 0, name, span);
            let frac_bits = self.eval_param_at(params, 1, name, span);
            Ty::Fixed { int_bits, frac_bits }
        } else if str_eq(name, "Clock") {
            let freq = if params.len() == 0 {
                None
            } else {
                Some(self.eval_param_at(params, 0, name, span))
            };
            Ty::Clock { freq }
        } else {
            let scope = self.current_scope();
            match self.table.lookup(scope, name) {
                Some(sym) => sym.ty.duplicate(),
                None => {
                    self.report(SemaError::UndefinedName { name: name.to_owned(), span });
                    Ty::Error
                },
            }
        }
    }

    /// The generic argument at `idx` as a width; 0, with an error reported,
    /// when it is missing or not a non-negative integer.
    fn eval_param_at(&mut self, params: &Vec<GenericArg>, idx: usize, tyname: &str, span: Span) -> (r: u64)
        requires
            old(self).inv(),
            idx <= 1,
        ensures
            final(self).inv(),
            resolver_grows(*old(self), *final(self)),
            final(self).scope_stack@ == old(self).scope_stack@,
            final(self).table == old(self).table,
            final(self).consts_spec() == old(self).consts_spec(),
            frame(*old(self), *final(self)),
            r == param_rule(old(self).table_spec()@, old(self).current_spec(), old(self).consts_spec(), params@, idx as int, tyname@, span).0,
            errors_view(final(self).errors@) == errors_view(old(self).errors@) + param_rule(
                old(self).table_spec()@,
                old(self).current_spec(),
                old(self).consts_spec(),
                params@,
                idx as int,
                tyname@,
                span,
            ).1,
        decreases params, 1nat,
    {
        if idx >= params.len() {
            let s = concat(concat("`", tyname).as_str(), "` requires at least ");
            let m = concat(concat(s.as_str(), decimal((idx + 1) as u128).as_str()).as_str(), " generic parameter(s)");
            self.report(SemaError::Custom { message: m, span });
            return 0;
        }
        match &params[idx] {
            GenericArg::Expr(expr) => match self.consts.eval_expr(expr) {
                Ok(ConstValue::UInt(n)) => n as u64,
                Ok(other) => {
                    let s = concat(concat("generic parameter for `", tyname).as_str(), "` must be a non-negative integer, got `");
                    let m = concat(concat(s.as_str(), const_debug_text(&other).as_str()).as_str(), "`");
                    self.report(SemaError::ConstEvalError { message: m, span });
                    0
                },
                Err(e) => {
                    self.report(e);
                    0
                },
            },
            GenericArg::Type(_) => self.type_arg_width(params, idx, tyname, span),
        }
    }

    /// A type argument where a width is expected: a name bound to an
    /// unsigned constant gives its value, a `const` or generic parameter
    /// gives 0; anything else is resolved as a type and reported.
    fn type_arg_width(&mut self, params: &Vec<GenericArg>, idx: usize, tyname: &str, span: Span) -> (r: u64)
        requires
            old(self).inv(),
            idx < params@.len(),
            params@[idx as int] is Type,
        ensures
            final(self).inv(),
            resolver_grows(*old(self), *final(self)),
            final(self).scope_stack@ == old(self).scope_stack@,
            final(self).table == old(self).table,
            final(self).consts_spec() == old(self).consts_spec(),
            frame(*old(self), *final(self)),
            r == param_rule(old(self).table_spec()@, old(self).current_spec(), old(self).consts_spec(), params@, idx as int, tyname@, span).0,
            errors_view(final(self).errors@) == errors_view(old(self).errors@) + param_rule(
                old(self).table_spec()@,
                old(self).current_spec(),
                old(self).consts_spec(),
                params@,
                idx as int,
                tyname@,
                span,
            ).1,
        decreases params, 0nat,
    {
        let inner = match &params[idx] {
            GenericArg::Type(inner) => inner,
            _ => {
                return 0;
            },
        };
        if let TypeExprKind::Named(const_name) = &inner.node {
            if let Ok(ConstValue::UInt(n)) = self.const_lookup(const_name.as_str(), inner.span) {
                return n as u64;
            }
            let scope = self.current_scope();
            if let Some(sym) = self.table.lookup(scope, const_name.as_str()) {
                match sym.kind {
                    SymbolKind::Const | SymbolKind::GenericParam => {
                        return 0;
                    },
                    _ => {},
                }
            }
        }
        proof {
            assert(decreases_to!(params => params@[idx as int]));
        }
        let _ = self.resolve_type(inner);
        let m = concat(concat("expected a numeric width for `", tyname).as_str(), "`, got a type argument");
        self.report(SemaError::Custom { message: m, span });
        0
    }

    /// The constant bound to a name, by evaluating the name.
    fn const_lookup(&self, name: &str, span: Span) -> (r: Result<ConstValue, SemaError>)
        ensures
            match last_binding(self.consts.bindings_view(), name@) {
                Some(v) => r == Ok::<ConstValue, SemaError>(v),
                None => r is Err,
            },
    {
        let e = crate::span::Spanned::new(crate::ast::expr::ExprKind::Ident(name.to_owned()), span);
        self.consts.eval_expr(&e)
    }

    /// The value of the memory parameter `param_name`; 0 when it is absent
    /// or is no non-negative integer (an error is then reported).
    #[verifier::loop_isolation(false)]
    fn eval_named_param(&mut self, params: &Vec<CallArg>, param_name: &str, span: Span) -> (r: u64)
        requires
            old(self).inv(),
        ensures
            final(self).inv(),
            resolver_grows(*old(self), *final(self)),
            final(self).scope_stack@ == old(self).scope_stack@,
            final(self).table == old(self).table,
            final(self).consts_spec() == old(self).consts_spec(),
            frame(*old(self), *final(self)),
            r == named_param_rule(old(self).consts_spec(), params@, param_name@, span).0,
            errors_view(final(self).errors@) == errors_view(old(self).errors@) + named_param_rule(
                old(self).consts_spec(),
                params@,
                param_name@,
                span,
            ).1,
    {
        let ghost v = params@;
        proof {
            assert(v.subrange(0, v.len() as int) =~= v);
        }
        let mut i: usize = 0;
        while i < params.len()
            invariant
                self.inv(),
                *self == *old(self),
                v == params@,
                i <= v.len(),
                named_param_rule(self.consts.bindings_view(), v, param_name@, span) == named_param_rule(
                    self.consts.bindings_view(),
                    v.subrange(i as int, v.len() as int),
                    param_name@,
                    span,
                ),
            decreases params@.len() - i,
        {
            proof {
                assert(v.subrange(i as int, v.len() as int)[0] == v[i as int]);
                assert(v.subrange(i as int, v.len() as int).drop_first() =~= v.subrange(i + 1, v.len() as int));
            }
            let arg = &params[i];
            let is_it = match &arg.name {
                Some(n) => str_eq(n.node.as_str(), param_name),
                None => false,
            };
            if is_it {
                match self.consts.eval_expr(&arg.value) {
                    Ok(ConstValue::UInt(n)) => {
                        return n as u64;
                    },
                    Ok(other) => {
                        let s = concat(concat("memory param `", param_name).as_str(), "` must be a non-negative integer, got `");
                        let m = concat(concat(s.as_str(), const_debug_text(&other).as_str()).as_str(), "`");
                        self.report(SemaError::ConstEvalError { message: m, span });
                        return 0;
                    },
                    Err(e) => {
                        self.report(e);
                        return 0;
                    },
                }
            }
            i = i + 1;
        }
        proof {
            assert(v.subrange(i as int, v.len() as int) =~= Seq::<CallArg>::empty());
        }
        0
    }
}


impl Default for Resolver {
    /// A fresh resolver, as [`Resolver::new`].
    fn default() -> (r: Self)
        ensures
            r.inv(),
            r.errors_spec().len() == 0,
            r.table_spec().scope_count() == 1,
            r.table_spec().symbols_view().len() == 0,
    {
        Self::new()
    }
}

} // verus!
