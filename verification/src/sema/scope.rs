//! The symbol table: an arena of nested scopes and the symbols declared in them.

use vstd::prelude::*;

use super::error::SemaError;
use super::types::Ty;
use crate::ast::types::Direction;
use crate::span::Span;

verus! {

/// Handle of a scope in the table.
#[derive(Debug, Clone, Copy, PartialEq, Eq, Hash, Structural)]
pub struct ScopeId(pub u32);

/// Handle of a symbol in the table.
#[derive(Debug, Clone, Copy, PartialEq, Eq, Hash, Structural)]
pub struct SymbolId(pub u32);

/// The construct that introduced a scope.
#[derive(Debug, Clone, Copy, PartialEq, Eq, Structural)]
pub enum ScopeKind {
    File,
    Module,
    Function,
    Block,
    Fsm,
    Pipeline,
    Test,
}

/// What kind of binding a symbol is.
#[derive(Debug, Clone, Copy, PartialEq, Eq, Structural)]
pub enum SymbolKind {
    Signal,
    Port,
    Const,
    Let,
    Var,
    TypeAlias,
    Module,
    Struct,
    Enum,
    EnumVariant,
    Interface,
    Fn,
    Fsm,
    Pipeline,
    GenericParam,
    LoopVar,
}

/// A declared symbol.
#[derive(Debug)]
pub struct Symbol {
    /// The declared name.
    pub name: String,
    /// What kind of binding this is.
    pub kind: SymbolKind,
    /// The resolved type.
    pub ty: Ty,
    /// Where it is declared.
    pub span: Span,
    /// The scope it is declared in.
    pub scope: ScopeId,
    /// Mutable at the hardware level: signals, variables and loop variables.
    pub mutable: bool,
    /// Port direction, for ports; set by the caller after `define`.
    pub direction: Option<Direction>,
}

/// A symbol, by its view.
pub struct SymView {
    pub name: Seq<char>,
    pub kind: SymbolKind,
    pub ty: Ty,
    pub span: Span,
    pub scope: ScopeId,
    pub mutable: bool,
    pub direction: Option<Direction>,
}

/// The view of a symbol.
pub open spec fn sym_view(s: Symbol) -> SymView {
    SymView {
        name: s.name@,
        kind: s.kind,
        ty: s.ty,
        span: s.span,
        scope: s.scope,
        mutable: s.mutable,
        direction: s.direction,
    }
}

/// A scope, by its view: its parent, its kind and its declarations in order.
pub struct ScopeView {
    pub parent: Option<ScopeId>,
    pub kind: ScopeKind,
    pub entries: Seq<(Seq<char>, SymbolId)>,
}

/// A symbol table, by its view: its scopes and its symbols, each indexed by
/// its id.
pub struct TableView {
    pub scopes: Seq<ScopeView>,
    pub symbols: Seq<SymView>,
}

/// The declarations of a scope, by name.
pub open spec fn entries_names(v: Seq<(String, SymbolId)>) -> Seq<(Seq<char>, SymbolId)> {
    v.map_values(|e: (String, SymbolId)| (e.0@, e.1))
}

/// The id bound to `name` by the first declaration of `v` that has it.
pub open spec fn find_entry(v: Seq<(Seq<char>, SymbolId)>, name: Seq<char>) -> Option<SymbolId>
    decreases v.len(),
{
    if v.len() == 0 {
        None
    } else if v[0].0 == name {
        Some(v[0].1)
    } else {
        find_entry(v.drop_first(), name)
    }
}

proof fn lemma_find_entry_names(v: Seq<(String, SymbolId)>, name: Seq<char>)
    ensures
        local_find(v, name) == find_entry(entries_names(v), name),
    decreases v.len(),
{
    if v.len() > 0 {
        assert(entries_names(v).drop_first() =~= entries_names(v.drop_first()));
        lemma_find_entry_names(v.drop_first(), name);
    }
}

impl TableView {
    /// The symbol that `name` names in scope `s` itself.
    pub open spec fn local(self, s: int, name: Seq<char>) -> Option<SymbolId> {
        find_entry(self.scopes[s].entries, name)
    }

    /// The symbol that `name` names from scope `s`: the innermost
    /// declaration on the way from `s` up through its parents.
    pub open spec fn lookup(self, s: int, name: Seq<char>) -> Option<SymbolId>
        decreases s,
    {
        if s < 0 || s >= self.scopes.len() {
            None
        } else {
            match self.local(s, name) {
                Some(id) => Some(id),
                None => match self.scopes[s].parent {
                    Some(p) => if p.0 < s { self.lookup(p.0 as int, name) } else { None },
                    None => None,
                },
            }
        }
    }

    /// The table with `name` declared in `scope` as a new symbol, the next
    /// id, of kind `kind` and type `ty` at `span`.
    pub open spec fn define(self, scope: ScopeId, name: Seq<char>, kind: SymbolKind, ty: Ty, span: Span) -> TableView {
        let sc = self.scopes[scope.0 as int];
        TableView {
            scopes: self.scopes.update(
                scope.0 as int,
                ScopeView { parent: sc.parent, kind: sc.kind, entries: sc.entries.push((name, SymbolId(self.symbols.len() as u32))) },
            ),
            symbols: self.symbols.push(
                SymView { name, kind, ty, span, scope, mutable: kind_is_mutable(kind), direction: None },
            ),
        }
    }

    /// The table with a new scope of kind `kind` nested in `parent`, the
    /// next id.
    pub open spec fn push_scope(self, parent: ScopeId, kind: ScopeKind) -> TableView {
        TableView {
            scopes: self.scopes.push(ScopeView { parent: Some(parent), kind, entries: seq![] }),
            symbols: self.symbols,
        }
    }

    /// The table with the direction of symbol `id` set to `dir`.
    pub open spec fn set_direction(self, id: SymbolId, dir: Direction) -> TableView {
        let sym = self.symbols[id.0 as int];
        TableView {
            scopes: self.scopes,
            symbols: self.symbols.update(
                id.0 as int,
                SymView {
                    name: sym.name,
                    kind: sym.kind,
                    ty: sym.ty,
                    span: sym.span,
                    scope: sym.scope,
                    mutable: sym.mutable,
                    direction: Some(dir),
                },
            ),
        }
    }
}

/// Signals, variables and loop variables are mutable.
pub open spec fn kind_is_mutable(k: SymbolKind) -> bool {
    k == SymbolKind::Signal || k == SymbolKind::Var || k == SymbolKind::LoopVar
}

/// The id bound to `name` by the first entry of `v` that has it.
pub open spec fn local_find(v: Seq<(String, SymbolId)>, name: Seq<char>) -> Option<SymbolId>
    decreases v.len(),
{
    if v.len() == 0 {
        None
    } else if v[0].0@ == name {
        Some(v[0].1)
    } else {
        local_find(v.drop_first(), name)
    }
}

proof fn lemma_local_find_push(v: Seq<(String, SymbolId)>, x: (String, SymbolId), name: Seq<char>)
    ensures
        local_find(v.push(x), name) == match local_find(v, name) {
            Some(id) => Some(id),
            None => if x.0@ == name { Some(x.1) } else { None },
        },
    decreases v.len(),
{
    reveal_with_fuel(local_find, 2);
    if v.len() > 0 {
        assert(v.push(x)[0] == v[0]);
        assert(v.push(x).drop_first() =~= v.drop_first().push(x));
        lemma_local_find_push(v.drop_first(), x, name);
    } else {
        assert(v.push(x)[0] == x);
        assert(v.push(x).drop_first() =~= Seq::<(String, SymbolId)>::empty());
    }
}

proof fn lemma_local_find_bound(v: Seq<(String, SymbolId)>, name: Seq<char>, n: nat)
    requires
        forall|j: int| 0 <= j < v.len() ==> (#[trigger] v[j]).1.0 < n,
    ensures
        local_find(v, name) matches Some(id) ==> id.0 < n,
    decreases v.len(),
{
    if v.len() > 0 {
        lemma_local_find_bound(v.drop_first(), name, n);
    }
}

struct Scope {
    parent: Option<ScopeId>,
    kind: ScopeKind,
    symbols: Vec<(String, SymbolId)>,
}

/// An arena of scopes and symbols: handles index the two arenas, and scope
/// 0 is the `File` root.
pub struct SymbolTable {
    scopes: Vec<Scope>,
    symbols: Vec<Symbol>,
}

/// Two tables with the same scopes and as many symbols are both well formed
/// or both not.
pub proof fn lemma_wf_same_shape(a: SymbolTable, b: SymbolTable)
    requires
        a.wf(),
        b.scope_count() == a.scope_count(),
        b.symbols_view().len() == a.symbols_view().len(),
        forall|s: int| 0 <= s < a.scope_count() ==> #[trigger] b.parent_of(s) == a.parent_of(s),
        forall|s: int| 0 <= s < a.scope_count() ==> #[trigger] b.kind_of(s) == a.kind_of(s),
        forall|s: int| 0 <= s < a.scope_count() ==> #[trigger] b.entries_of(s) == a.entries_of(s),
    ensures
        b.wf(),
{
    assert(b.parent_of(0) == a.parent_of(0));
    assert(b.kind_of(0) == a.kind_of(0));
    assert forall|s: int| 0 < s < b.scope_count() implies ((#[trigger] b.parent_of(s)) matches Some(p) && p.0 < s) by {
        assert(b.entries_of(s) == a.entries_of(s));
        assert(a.parent_of(s) matches Some(p) && p.0 < s);
    }
    assert forall|s: int, j: int| 0 <= s < b.scope_count() && 0 <= j < b.entries_of(s).len()
        implies (#[trigger] b.entries_of(s)[j]).1.0 < b.symbols_view().len() by {
        assert(b.entries_of(s) == a.entries_of(s));
        assert(a.entries_of(s)[j].1.0 < a.symbols_view().len());
    }
}

/// `b` extends `a`: it keeps every scope of `a` with its parent and kind,
/// every symbol of `a`, and each scope's declarations in order, with
/// possibly more of each after them.
pub open spec fn table_grows(a: SymbolTable, b: SymbolTable) -> bool {
    &&& a.scope_count() <= b.scope_count()
    &&& a.symbols_view().len() <= b.symbols_view().len()
    &&& forall|i: int| 0 <= i < a.symbols_view().len() ==> #[trigger] b.symbols_view()[i] == a.symbols_view()[i]
    &&& forall|s: int| 0 <= s < a.scope_count() ==> #[trigger] b.parent_of(s) == a.parent_of(s)
    &&& forall|s: int| 0 <= s < a.scope_count() ==> #[trigger] b.kind_of(s) == a.kind_of(s)
    &&& forall|s: int| 0 <= s < a.scope_count() ==> a.entries_of(s).len() <= (#[trigger] b.entries_of(s)).len()
    &&& forall|s: int, j: int| 0 <= s < a.scope_count() && 0 <= j < a.entries_of(s).len() ==> #[trigger] b.entries_of(
        s,
    )[j] == a.entries_of(s)[j]
}

/// Growing twice is growing.
pub broadcast proof fn lemma_table_grows_trans(a: SymbolTable, b: SymbolTable, c: SymbolTable)
    requires
        #[trigger] table_grows(a, b),
        #[trigger] table_grows(b, c),
    ensures
        table_grows(a, c),
{
    assert forall|s: int, j: int| 0 <= s < a.scope_count() && 0 <= j < a.entries_of(s).len() implies #[trigger] c.entries_of(
        s,
    )[j] == a.entries_of(s)[j] by {
        assert(b.entries_of(s)[j] == a.entries_of(s)[j]);
        assert(a.entries_of(s).len() <= b.entries_of(s).len());
    }
    assert forall|s: int| 0 <= s < a.scope_count() implies a.entries_of(s).len() <= (#[trigger] c.entries_of(s)).len() by {
        assert(a.entries_of(s).len() <= b.entries_of(s).len());
    }
}

proof fn lemma_local_find_extend(v: Seq<(String, SymbolId)>, w: Seq<(String, SymbolId)>, name: Seq<char>)
    requires
        v.len() <= w.len(),
        forall|j: int| 0 <= j < v.len() ==> #[trigger] w[j] == v[j],
        local_find(v, name) is Some,
    ensures
        local_find(w, name) == local_find(v, name),
    decreases v.len(),
{
    if v[0].0@ != name {
        assert forall|j: int| 0 <= j < v.drop_first().len() implies #[trigger] w.drop_first()[j] == v.drop_first()[j] by {
            assert(w[j + 1] == v[j + 1]);
        }
        lemma_local_find_extend(v.drop_first(), w.drop_first(), name);
    } else {
        assert(w[0] == v[0]);
    }
}

/// A declaration, once made, stays: where a table grows, a name declared in
/// one of its scopes still names the same symbol there, and that symbol is
/// unchanged.
pub proof fn law_declarations_persist(a: SymbolTable, b: SymbolTable, s: int, name: Seq<char>)
    requires
        a.wf(),
        table_grows(a, b),
        0 <= s < a.scope_count(),
        a.local_spec(s, name) is Some,
    ensures
        b.local_spec(s, name) == a.local_spec(s, name),
        a.local_spec(s, name) matches Some(id) && id.0 < a.symbols_view().len() && b.symbols_view()[id.0 as int]
            == a.symbols_view()[id.0 as int],
{
    lemma_local_find_bound(a.entries_of(s), name, a.symbols_view().len());
    lemma_local_find_extend(a.entries_of(s), b.entries_of(s), name);
}

/// A name looked up in a well-formed table names one of its symbols.
pub proof fn lemma_lookup_bound(t: SymbolTable, s: int, n: Seq<char>)
    requires
        t.wf(),
    ensures
        t.lookup_spec(s, n) matches Some(id) ==> id.0 < t.symbols_view().len(),
    decreases s,
{
    if 0 <= s < t.scope_count() {
        lemma_local_find_bound(t.entries_of(s), n, t.symbols_view().len());
        if let Some(p) = t.parent_of(s) {
            if s > 0 {
                lemma_lookup_bound(t, p.0 as int, n);
            }
        }
    }
}

/// Lookup from scope `s` in two tables agrees on `name` where the scopes up to
/// `s` have the same parents and bind `name` alike.
proof fn lemma_lookup_frame(a: &SymbolTable, b: &SymbolTable, s: int, name: Seq<char>)
    requires
        0 <= s < a.scope_count(),
        s < b.scope_count(),
        forall|t: int| 0 <= t <= s ==> #[trigger] a.parent_of(t) == b.parent_of(t),
        forall|t: int| 0 <= t <= s ==> #[trigger] a.local_spec(t, name) == b.local_spec(t, name),
    ensures
        a.lookup_spec(s, name) == b.lookup_spec(s, name),
    decreases s,
{
    assert(a.parent_of(s) == b.parent_of(s));
    assert(a.local_spec(s, name) == b.local_spec(s, name));
    if let Some(p) = a.parent_of(s) {
        if p.0 < s {
            lemma_lookup_frame(a, b, p.0 as int, name);
        }
    }
}

impl View for SymbolTable {
    type V = TableView;

    closed spec fn view(&self) -> TableView {
        TableView {
            scopes: self.scopes@.map_values(
                |sc: Scope| ScopeView { parent: sc.parent, kind: sc.kind, entries: entries_names(sc.symbols@) },
            ),
            symbols: self.symbols@.map_values(|s: Symbol| sym_view(s)),
        }
    }
}

/// The view of a table agrees with its observations: its scopes with their
/// parents, kinds and declarations, its symbols, and what lookup finds.
pub proof fn lemma_table_view(t: SymbolTable)
    requires
        t.wf(),
    ensures
        t@.scopes.len() == t.scope_count(),
        t@.symbols.len() == t.symbols_view().len(),
        forall|s: int| 0 <= s < t.scope_count() ==> (#[trigger] t@.scopes[s]).parent == t.parent_of(s) && t@.scopes[s].kind
            == t.kind_of(s) && t@.scopes[s].entries == entries_names(t.entries_of(s)),
        forall|i: int| 0 <= i < t.symbols_view().len() ==> #[trigger] t@.symbols[i] == sym_view(t.symbols_view()[i]),
        forall|s: int, n: Seq<char>| 0 <= s < t.scope_count() ==> #[trigger] t@.local(s, n) == t.local_spec(s, n),
        forall|s: int, n: Seq<char>| #[trigger] t@.lookup(s, n) == t.lookup_spec(s, n),
{
    assert forall|s: int, n: Seq<char>| 0 <= s < t.scope_count() implies #[trigger] t@.local(s, n) == t.local_spec(s, n) by {
        lemma_find_entry_names(t.scopes@[s].symbols@, n);
    }
    assert forall|s: int, n: Seq<char>| #[trigger] t@.lookup(s, n) == t.lookup_spec(s, n) by {
        lemma_lookup_view(t, s, n);
    }
}

proof fn lemma_lookup_view(t: SymbolTable, s: int, n: Seq<char>)
    requires
        t.wf(),
    ensures
        t@.lookup(s, n) == t.lookup_spec(s, n),
    decreases s,
{
    if 0 <= s < t.scope_count() {
        lemma_find_entry_names(t.scopes@[s].symbols@, n);
        if let Some(p) = t.parent_of(s) {
            if p.0 < s {
                lemma_lookup_view(t, p.0 as int, n);
            }
        }
    }
}

impl SymbolTable {
    /// The number of scopes.
    pub closed spec fn scope_count(&self) -> nat {
        self.scopes@.len()
    }

    /// The symbols, indexed by their ids.
    pub closed spec fn symbols_view(&self) -> Seq<Symbol> {
        self.symbols@
    }

    /// The parent of scope `s`.
    pub closed spec fn parent_of(&self, s: int) -> Option<ScopeId> {
        self.scopes@[s].parent
    }

    /// The kind of scope `s`.
    pub closed spec fn kind_of(&self, s: int) -> ScopeKind {
        self.scopes@[s].kind
    }

    /// The symbol that `name` names in scope `s` itself.
    pub closed spec fn local_spec(&self, s: int, name: Seq<char>) -> Option<SymbolId> {
        local_find(self.scopes@[s].symbols@, name)
    }

    /// The names declared in scope `s`, in order, with their symbols.
    pub closed spec fn entries_of(&self, s: int) -> Seq<(String, SymbolId)> {
        self.scopes@[s].symbols@
    }

    /// The table is well formed: a `File` root without parent, every other
    /// scope nested in an earlier one, every entry naming an existing symbol.
    pub open spec fn wf(&self) -> bool {
        &&& 1 <= self.scope_count() <= u32::MAX
        &&& self.symbols_view().len() <= u32::MAX
        &&& self.parent_of(0) is None
        &&& self.kind_of(0) == ScopeKind::File
        &&& forall|s: int| 0 < s < self.scope_count() ==> ((#[trigger] self.parent_of(s)) matches Some(p) && p.0 < s)
        &&& forall|s: int, j: int| 0 <= s < self.scope_count() && 0 <= j < self.entries_of(s).len()
            ==> (#[trigger] self.entries_of(s)[j]).1.0 < self.symbols_view().len()
    }

    /// The symbol that `name` names from scope `s`: the innermost declaration
    /// on the way from `s` up through its parents.
    pub open spec fn lookup_spec(&self, s: int, name: Seq<char>) -> Option<SymbolId>
        decreases s,
    {
        if s < 0 || s >= self.scope_count() {
            None
        } else {
            match self.local_spec(s, name) {
                Some(id) => Some(id),
                None => match self.parent_of(s) {
                    Some(p) => if p.0 < s { self.lookup_spec(p.0 as int, name) } else { None },
                    None => None,
                },
            }
        }
    }

    /// The innermost declaration wins: a name declared in scope `s` itself is
    /// what lookup from `s` finds, even where an enclosing scope declares it
    /// too; otherwise lookup from `s` finds what lookup from its parent finds.
    pub proof fn law_lookup_innermost(&self, s: int, name: Seq<char>)
        requires
            self.wf(),
            0 <= s < self.scope_count(),
        ensures
            self.local_spec(s, name) is Some ==> self.lookup_spec(s, name) == self.local_spec(s, name),
            self.local_spec(s, name) is None ==> self.lookup_spec(s, name) == match self.parent_of(s) {
                Some(p) => self.lookup_spec(p.0 as int, name),
                None => None::<SymbolId>,
            },
    {
        if s > 0 {
            assert(self.parent_of(s) matches Some(p) && p.0 < s);
        }
    }

    /// Create a table holding only the root `File` scope, with id 0.
    pub fn new() -> (t: Self)
        ensures
            t.wf(),
            t.scope_count() == 1,
            t.symbols_view().len() == 0,
            t.entries_of(0).len() == 0,
            forall|name: Seq<char>| t.local_spec(0, name) is None,
            t@ == (TableView { scopes: seq![ScopeView { parent: None, kind: ScopeKind::File, entries: seq![] }], symbols: seq![] }),
    {
        let root = Scope { parent: None, kind: ScopeKind::File, symbols: Vec::new() };
        let mut scopes: Vec<Scope> = Vec::new();
        scopes.push(root);
        let t = SymbolTable { scopes, symbols: Vec::new() };
        proof {
            assert(entries_names(t.scopes@[0].symbols@) =~= Seq::<(Seq<char>, SymbolId)>::empty());
            assert(t@.scopes =~= seq![ScopeView { parent: None, kind: ScopeKind::File, entries: seq![] }]);
            assert(t@.symbols =~= Seq::<SymView>::empty());
        }
        t
    }

    /// The root file scope.
    pub fn root_scope(&self) -> (r: ScopeId)
        ensures
            r == ScopeId(0),
    {
        ScopeId(0)
    }

    /// Create a scope nested in `parent` and return its id, the next free one.
    pub fn push_scope(&mut self, parent: ScopeId, kind: ScopeKind) -> (r: ScopeId)
        requires
            old(self).wf(),
            parent.0 < old(self).scope_count(),
            old(self).scope_count() < u32::MAX,
        ensures
            final(self).wf(),
            r.0 == old(self).scope_count(),
            final(self).scope_count() == old(self).scope_count() + 1,
            final(self).parent_of(r.0 as int) == Some(parent),
            final(self).kind_of(r.0 as int) == kind,
            final(self).entries_of(r.0 as int).len() == 0,
            forall|name: Seq<char>| final(self).local_spec(r.0 as int, name) is None,
            final(self).symbols_view() == old(self).symbols_view(),
            forall|s: int| 0 <= s < old(self).scope_count() ==> final(self).parent_of(s) == old(self).parent_of(s)
                && final(self).kind_of(s) == old(self).kind_of(s) && #[trigger] final(self).entries_of(s)
                == old(self).entries_of(s),
            table_grows(*old(self), *final(self)),
            final(self)@ == old(self)@.push_scope(parent, kind),
    {
        let id = ScopeId(self.scopes.len() as u32);
        self.scopes.push(Scope { parent: Some(parent), kind, symbols: Vec::new() });
        proof {
            assert forall|s: int| 0 < s < self.scope_count() implies ((#[trigger] self.parent_of(s)) matches Some(p) && p.0 < s) by {
                if s < old(self).scope_count() {
                    assert(self.scopes@[s] == old(self).scopes@[s]);
                    assert(old(self).parent_of(s) matches Some(p) && p.0 < s);
                } else {
                    assert(self.scopes@[s].parent == Some(parent));
                }
            }
            assert forall|s: int| 0 <= s < old(self).scope_count() implies self.parent_of(s) == old(self).parent_of(s)
                && self.kind_of(s) == old(self).kind_of(s) && #[trigger] self.entries_of(s) == old(self).entries_of(s) by {
                assert(self.scopes@[s] == old(self).scopes@[s]);
            }
            assert forall|s: int, j: int| 0 <= s < self.scope_count() && 0 <= j < self.entries_of(s).len()
                implies (#[trigger] self.entries_of(s)[j]).1.0 < self.symbols_view().len() by {
                if s < old(self).scope_count() {
                    assert(self.entries_of(s) == old(self).entries_of(s));
                }
            }
            assert(entries_names(self.scopes@.last().symbols@) =~= Seq::<(Seq<char>, SymbolId)>::empty());
            assert(self@.scopes =~= old(self)@.scopes.push(ScopeView { parent: Some(parent), kind, entries: seq![] }));
        }
        id
    }

    /// The number of scopes.
    pub fn scope_len(&self) -> (r: usize)
        ensures
            r == self.scope_count(),
    {
        self.scopes.len()
    }

    /// The number of symbols.
    pub fn symbol_len(&self) -> (r: usize)
        ensures
            r == self.symbols_view().len(),
    {
        self.symbols.len()
    }

    /// The kind of a scope.
    pub fn scope_kind(&self, scope: ScopeId) -> (r: ScopeKind)
        requires
            scope.0 < self.scope_count(),
        ensures
            r == self.kind_of(scope.0 as int),
    {
        self.scopes[scope.0 as usize].kind
    }

    /// The parent of a scope; `None` for the root.
    pub fn parent_scope(&self, scope: ScopeId) -> (r: Option<ScopeId>)
        requires
            scope.0 < self.scope_count(),
        ensures
            r == self.parent_of(scope.0 as int),
    {
        self.scopes[scope.0 as usize].parent
    }

    /// The symbol bound to `name` in the scope itself, if any.
    fn find_local(&self, scope: ScopeId, name: &str) -> (r: Option<SymbolId>)
        requires
            self.wf(),
            scope.0 < self.scope_count(),
        ensures
            r == self.local_spec(scope.0 as int, name@),
            r matches Some(id) ==> id.0 < self.symbols_view().len(),
    {
        let v = &self.scopes[scope.0 as usize].symbols;
        proof {
            assert forall|j: int| 0 <= j < v@.len() implies (#[trigger] v@[j]).1.0 < self.symbols@.len() by {
                assert(self.entries_of(scope.0 as int)[j] == v@[j]);
            }
            lemma_local_find_bound(v@, name@, self.symbols@.len());
            assert(v@.subrange(0, v@.len() as int) =~= v@);
        }
        let mut i: usize = 0;
        while i < v.len()
            invariant
                i <= v@.len(),
                v@ == self.scopes@[scope.0 as int].symbols@,
                local_find(v@, name@) matches Some(id) ==> id.0 < self.symbols@.len(),
                local_find(v@, name@) == local_find(v@.subrange(i as int, v@.len() as int), name@),
            decreases v@.len() - i,
        {
            proof {
                assert(v@.subrange(i as int, v@.len() as int).drop_first() =~= v@.subrange(i + 1, v@.len() as int));
                assert(v@.subrange(i as int, v@.len() as int)[0] == v@[i as int]);
            }
            if crate::text::str_eq(v[i].0.as_str(), name) {
                return Some(v[i].1);
            }
            i = i + 1;
        }
        None
    }

    /// Declare a symbol in `scope`. A symbol of the same name already in that
    /// very scope is an error (shadowing one of an enclosing scope is not);
    /// the table is then unchanged.
    pub fn define(&mut self, scope: ScopeId, name: &str, kind: SymbolKind, ty: Ty, span: Span) -> (r: Result<
        SymbolId,
        SemaError,
    >)
        requires
            old(self).wf(),
            scope.0 < old(self).scope_count(),
            old(self).symbols_view().len() < u32::MAX,
        ensures
            final(self).wf(),
            final(self).scope_count() == old(self).scope_count(),
            forall|s: int| 0 <= s < old(self).scope_count() ==> final(self).parent_of(s) == old(self).parent_of(s)
                && #[trigger] final(self).kind_of(s) == old(self).kind_of(s),
            table_grows(*old(self), *final(self)),
            match old(self).local_spec(scope.0 as int, name@) {
                Some(existing) => existing.0 < old(self).symbols_view().len() && r == Err::<SymbolId, SemaError>(
                    SemaError::DuplicateDefinition {
                        name: r->Err_0->DuplicateDefinition_name,
                        first: old(self).symbols_view()[existing.0 as int].span,
                        second: span,
                    },
                ) && r->Err_0->DuplicateDefinition_name@ == name@ && final(self).symbols_view() == old(self).symbols_view()
                    && (forall|s: int| 0 <= s < old(self).scope_count() ==> #[trigger] final(self).entries_of(s)
                    == old(self).entries_of(s))
                    && forall|s: int, n: Seq<char>| #[trigger] final(self).lookup_spec(s, n) == old(self).lookup_spec(s, n)
                    && final(self)@ == old(self)@,
                None => final(self)@ == old(self)@.define(scope, name@, kind, ty, span)
                    && r == Ok::<SymbolId, SemaError>(SymbolId(old(self).symbols_view().len() as u32))
                    && final(self).symbols_view().len() == old(self).symbols_view().len() + 1
                    && final(self).symbols_view().subrange(0, old(self).symbols_view().len() as int) == old(self).symbols_view()
                    && ({
                        let sym = final(self).symbols_view()[old(self).symbols_view().len() as int];
                        &&& sym.name@ == name@
                        &&& sym.kind == kind
                        &&& sym.ty == ty
                        &&& sym.span == span
                        &&& sym.scope == scope
                        &&& sym.mutable == kind_is_mutable(kind)
                        &&& sym.direction is None
                    })
                    && final(self).local_spec(scope.0 as int, name@) == Some(SymbolId(old(self).symbols_view().len() as u32))
                    && (forall|n: Seq<char>| n != name@ ==> #[trigger] final(self).local_spec(scope.0 as int, n)
                    == old(self).local_spec(scope.0 as int, n))
                    && (forall|s: int| 0 <= s < old(self).scope_count() && s != scope.0 ==> #[trigger] final(self).entries_of(s)
                    == old(self).entries_of(s))
                    && final(self).lookup_spec(scope.0 as int, name@) == Some(SymbolId(old(self).symbols_view().len() as u32))
                    && (forall|s: int, n: Seq<char>| n != name@ ==> #[trigger] final(self).lookup_spec(s, n)
                    == old(self).lookup_spec(s, n))
                    && forall|s: int, n: Seq<char>| s < scope.0 ==> #[trigger] final(self).lookup_spec(s, n)
                    == old(self).lookup_spec(s, n),
            },
    {
        if let Some(existing_id) = self.find_local(scope, name) {
            let first = self.symbols[existing_id.0 as usize].span;
            proof {
                assert forall|s: int, n: Seq<char>| #[trigger] self.lookup_spec(s, n) == old(self).lookup_spec(s, n) by {
                    if 0 <= s < self.scope_count() {
                        lemma_lookup_frame(&*self, &*old(self), s, n);
                    }
                }
            }
            return Err(SemaError::DuplicateDefinition { name: name.to_owned(), first, second: span });
        }
        let mutable = match kind {
            SymbolKind::Signal | SymbolKind::Var | SymbolKind::LoopVar => true,
            _ => false,
        };
        let sym_id = SymbolId(self.symbols.len() as u32);
        self.symbols.push(
            Symbol { name: name.to_owned(), kind, ty, span, scope, mutable, direction: None },
        );
        let ghost old_entries = self.scopes@[scope.0 as int].symbols@;
        let mut sc = self.scopes.remove(scope.0 as usize);
        sc.symbols.push((name.to_owned(), sym_id));
        self.scopes.insert(scope.0 as usize, sc);
        proof {
            let si = scope.0 as int;
            assert(self.scopes@[si].parent == old(self).scopes@[si].parent);
            assert(self.scopes@[si].kind == old(self).scopes@[si].kind);
            assert forall|s: int| 0 <= s < self.scope_count() && s != si implies #[trigger] self.scopes@[s]
                == old(self).scopes@[s] by {
                if s < si {
                } else {
                }
            }
            assert forall|n: Seq<char>| #![auto] true implies self.local_spec(si, n) == match old(self).local_spec(si, n) {
                Some(id) => Some(id),
                None => if name@ == n { Some(sym_id) } else { None },
            } by {
                lemma_local_find_push(old_entries, (self.scopes@[si].symbols@.last().0, sym_id), n);
                assert(self.scopes@[si].symbols@ == old_entries.push(self.scopes@[si].symbols@.last()));
            }
            assert forall|s: int| 0 < s < self.scope_count() implies ((#[trigger] self.parent_of(s)) matches Some(p) && p.0 < s) by {
                if s != si {
                    assert(self.scopes@[s] == old(self).scopes@[s]);
                }
                assert(old(self).parent_of(s) matches Some(p) && p.0 < s);
            }
            assert forall|s: int, j: int| 0 <= s < self.scope_count() && 0 <= j < self.entries_of(s).len()
                implies (#[trigger] self.entries_of(s)[j]).1.0 < self.symbols_view().len() by {
                if s != si {
                    assert(self.scopes@[s] == old(self).scopes@[s]);
                    assert(old(self).entries_of(s)[j].1.0 < old(self).symbols_view().len());
                } else if j < old_entries.len() {
                    assert(self.scopes@[si].symbols@ == old_entries.push(self.scopes@[si].symbols@.last()));
                    assert(self.entries_of(s)[j] == old_entries[j]);
                    assert(old(self).entries_of(s)[j].1.0 < old(self).symbols_view().len());
                } else {
                    assert(self.scopes@[si].symbols@ == old_entries.push(self.scopes@[si].symbols@.last()));
                }
            }
            assert(self.symbols@.subrange(0, old(self).symbols@.len() as int) =~= old(self).symbols@);
            assert(entries_names(self.scopes@[si].symbols@) =~= entries_names(old_entries).push((name@, sym_id)));
            assert(self@.scopes =~= old(self)@.define(scope, name@, kind, ty, span).scopes);
            assert(self@.symbols =~= old(self)@.define(scope, name@, kind, ty, span).symbols);
            assert forall|s: int, n: Seq<char>| n != name@ implies #[trigger] self.lookup_spec(s, n)
                == old(self).lookup_spec(s, n) by {
                if 0 <= s < self.scope_count() {
                    assert forall|t: int| 0 <= t <= s implies #[trigger] self.local_spec(t, n) == old(self).local_spec(t, n) by {
                        if t != si {
                            assert(self.scopes@[t] == old(self).scopes@[t]);
                        }
                    }
                    lemma_lookup_frame(&*self, &*old(self), s, n);
                }
            }
            assert forall|s: int, n: Seq<char>| s < scope.0 implies #[trigger] self.lookup_spec(s, n)
                == old(self).lookup_spec(s, n) by {
                if 0 <= s < self.scope_count() {
                    assert forall|t: int| 0 <= t <= s implies #[trigger] self.local_spec(t, n) == old(self).local_spec(t, n) by {
                        assert(self.scopes@[t] == old(self).scopes@[t]);
                    }
                    lemma_lookup_frame(&*self, &*old(self), s, n);
                }
            }
        }
        Ok(sym_id)
    }

    /// Look `name` up from `scope` outwards through the parent scopes: the
    /// innermost declaration wins, so inner scopes shadow outer ones.
    pub fn lookup(&self, scope: ScopeId, name: &str) -> (r: Option<&Symbol>)
        requires
            self.wf(),
            scope.0 < self.scope_count(),
        ensures
            match self.lookup_spec(scope.0 as int, name@) {
                Some(id) => r matches Some(s) && id.0 < self.symbols_view().len() && *s == self.symbols_view()[id.0 as int],
                None => r is None,
            },
            match self@.lookup(scope.0 as int, name@) {
                Some(id) => r matches Some(s) && id.0 < self@.symbols.len() && sym_view(*s) == self@.symbols[id.0 as int],
                None => r is None,
            },
    {
        let r = self.lookup_from(scope, name);
        proof {
            lemma_table_view(*self);
        }
        r
    }

    fn lookup_from(&self, scope: ScopeId, name: &str) -> (r: Option<&Symbol>)
        requires
            self.wf(),
            scope.0 < self.scope_count(),
        ensures
            match self.lookup_spec(scope.0 as int, name@) {
                Some(id) => r matches Some(s) && id.0 < self.symbols_view().len() && *s == self.symbols_view()[id.0 as int],
                None => r is None,
            },
    {
        let mut current = scope;
        loop
            invariant
                self.wf(),
                current.0 < self.scope_count(),
                self.lookup_spec(scope.0 as int, name@) == self.lookup_spec(current.0 as int, name@),
            decreases current.0,
        {
            if let Some(sym_id) = self.find_local(current, name) {
                return Some(&self.symbols[sym_id.0 as usize]);
            }
            match self.scopes[current.0 as usize].parent {
                Some(p) => {
                    proof {
                        if current.0 == 0 {
                            assert(self.parent_of(0) is None);
                        }
                    }
                    current = p;
                },
                None => {
                    return None;
                },
            }
        }
    }

    /// Look `name` up in `scope` only, without the enclosing scopes.
    pub fn lookup_local(&self, scope: ScopeId, name: &str) -> (r: Option<&Symbol>)
        requires
            self.wf(),
            scope.0 < self.scope_count(),
        ensures
            match self.local_spec(scope.0 as int, name@) {
                Some(id) => r matches Some(s) && id.0 < self.symbols_view().len() && *s == self.symbols_view()[id.0 as int],
                None => r is None,
            },
            match self@.local(scope.0 as int, name@) {
                Some(id) => r matches Some(s) && id.0 < self@.symbols.len() && sym_view(*s) == self@.symbols[id.0 as int],
                None => r is None,
            },
    {
        proof {
            lemma_table_view(*self);
        }
        match self.find_local(scope, name) {
            Some(id) => Some(&self.symbols[id.0 as usize]),
            None => None,
        }
    }

    /// The symbol with the given id.
    pub fn get_symbol(&self, id: SymbolId) -> (r: &Symbol)
        requires
            id.0 < self.symbols_view().len(),
        ensures
            *r == self.symbols_view()[id.0 as int],
    {
        &self.symbols[id.0 as usize]
    }

    /// The symbol with the given id, to change in place.
    pub fn get_symbol_mut(&mut self, id: SymbolId) -> (r: &mut Symbol)
        requires
            id.0 < old(self).symbols_view().len(),
        ensures
            *r == old(self).symbols_view()[id.0 as int],
            final(self).symbols_view() == old(self).symbols_view().update(id.0 as int, *final(r)),
            final(self).scope_count() == old(self).scope_count(),
            forall|s: int| #[trigger] final(self).parent_of(s) == old(self).parent_of(s),
            forall|s: int| #[trigger] final(self).kind_of(s) == old(self).kind_of(s),
            forall|s: int| #[trigger] final(self).entries_of(s) == old(self).entries_of(s),
    {
        &mut self.symbols[id.0 as usize]
    }

    /// Set the direction of a symbol, a port.
    pub fn set_direction(&mut self, id: SymbolId, dir: Direction)
        requires
            old(self).wf(),
            id.0 < old(self).symbols_view().len(),
        ensures
            final(self).wf(),
            final(self)@ == old(self)@.set_direction(id, dir),
            final(self).scope_count() == old(self).scope_count(),
            final(self).symbols_view().len() == old(self).symbols_view().len(),
            forall|i: int| 0 <= i < old(self).symbols_view().len() && i != id.0 ==> #[trigger] final(self).symbols_view()[i]
                == old(self).symbols_view()[i],
            final(self).symbols_view()[id.0 as int].name == old(self).symbols_view()[id.0 as int].name,
            final(self).symbols_view()[id.0 as int].kind == old(self).symbols_view()[id.0 as int].kind,
            final(self).symbols_view()[id.0 as int].ty == old(self).symbols_view()[id.0 as int].ty,
            final(self).symbols_view()[id.0 as int].span == old(self).symbols_view()[id.0 as int].span,
            forall|s: int| 0 <= s < old(self).scope_count() ==> #[trigger] final(self).parent_of(s) == old(self).parent_of(s),
            forall|s: int| 0 <= s < old(self).scope_count() ==> #[trigger] final(self).kind_of(s) == old(self).kind_of(s),
            forall|s: int| 0 <= s < old(self).scope_count() ==> #[trigger] final(self).entries_of(s) == old(self).entries_of(s),
            forall|s: int, n: Seq<char>| #[trigger] final(self).local_spec(s, n) == old(self).local_spec(s, n),
    {
        let ghost before = *self;
        self.symbols[id.0 as usize].direction = Some(dir);
        proof {
            assert(self@.symbols =~= before@.set_direction(id, dir).symbols);
            assert(self@.scopes =~= before@.scopes);
            lemma_wf_same_shape(before, *self);
        }
    }

    /// The symbols declared in `scope` itself, in declaration order.
    pub fn local_symbols(&self, scope: ScopeId) -> (r: Vec<&Symbol>)
        requires
            self.wf(),
            scope.0 < self.scope_count(),
        ensures
            r@.len() == self.entries_of(scope.0 as int).len(),
            forall|i: int| 0 <= i < r@.len() ==> *(#[trigger] r@[i]) == self.symbols_view()[self.entries_of(scope.0 as int)[i].1.0 as int],
    {
        let v = &self.scopes[scope.0 as usize].symbols;
        let mut out: Vec<&Symbol> = Vec::new();
        let mut i: usize = 0;
        while i < v.len()
            invariant
                self.wf(),
                scope.0 < self.scope_count(),
                v@ == self.entries_of(scope.0 as int),
                i <= v@.len(),
                out@.len() == i,
                forall|k: int| 0 <= k < i ==> *(#[trigger] out@[k]) == self.symbols_view()[v@[k].1.0 as int],
            decreases v@.len() - i,
        {
            let id = v[i].1;
            proof {
                assert(self.entries_of(scope.0 as int)[i as int].1.0 < self.symbols_view().len());
            }
            out.push(&self.symbols[id.0 as usize]);
            i = i + 1;
        }
        out
    }
}


impl Default for SymbolTable {
    /// A table holding only the root scope, as [`SymbolTable::new`].
    fn default() -> (t: Self)
        ensures
            t.wf(),
            t.scope_count() == 1,
            t.symbols_view().len() == 0,
            t.entries_of(0).len() == 0,
    {
        Self::new()
    }
}

} // verus!
