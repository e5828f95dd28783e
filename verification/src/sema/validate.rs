//! Hardware validation: constraints beyond types and names. Every signal a
//! `comb` block assigns is assigned on all of its paths (no latch); every
//! signal an `on tick` block assigns has a reset value; every output port is
//! driven; `const` and `let` bindings are not reassigned.

use vstd::prelude::*;
use vstd::set::*;
use vstd::string::StringExecFns;

use crate::ast::expr::{Expr, ExprKind};
use crate::ast::item::{Item, ItemKind, ModuleDef, Port, SourceFile};
use crate::ast::stmt::{MatchArm, MatchStmt, PriorityArm, RegBlock, Stmt, StmtKind};
use crate::ast::types::Direction;
use crate::span::Span;
use crate::text::{concat, str_eq};

use super::error::{errors_view, lemma_errors_view_push, ErrorView, SemaError};
use super::resolve::ScopeMap;
use super::scope::{ScopeId, SymbolKind, SymbolTable};
use super::types::Ty;
use super::typing::module_scope;

verus! {

// ---------------------------------------------------------------------------
// Name sets
// ---------------------------------------------------------------------------

/// The names held by a list of strings.
pub open spec fn names(v: Seq<String>) -> Set<Seq<char>> {
    Set::new(|n: Seq<char>| exists|i: int| 0 <= i < v.len() && (#[trigger] v[i])@ == n)
}

/// No name occurs twice.
pub open spec fn distinct(v: Seq<String>) -> bool {
    forall|i: int, j: int| 0 <= i < j < v.len() ==> (#[trigger] v[i])@ != (#[trigger] v[j])@
}

/// The names held by a list of strings, in order.
pub open spec fn name_seq(v: Seq<String>) -> Seq<Seq<char>> {
    v.map_values(|x: String| x@)
}

/// `acc` with each name of `ns` added in turn, unless it is already there.
pub open spec fn add_new(acc: Seq<Seq<char>>, ns: Seq<Seq<char>>) -> Seq<Seq<char>>
    decreases ns.len(),
{
    if ns.len() == 0 {
        acc
    } else {
        let a = add_new(acc, ns.drop_last());
        if a.contains(ns.last()) {
            a
        } else {
            a.push(ns.last())
        }
    }
}

/// Adding two lists of names is adding the first, then the second.
proof fn lemma_add_new_concat(acc: Seq<Seq<char>>, a: Seq<Seq<char>>, b: Seq<Seq<char>>)
    ensures
        add_new(acc, a + b) == add_new(add_new(acc, a), b),
    decreases b.len(),
{
    if b.len() == 0 {
        assert(a + b =~= a);
    } else {
        assert((a + b).drop_last() =~= a + b.drop_last());
        assert((a + b).last() == b.last());
        lemma_add_new_concat(acc, a, b.drop_last());
    }
}

proof fn lemma_name_seq_push(v: Seq<String>, x: String)
    ensures
        name_seq(v.push(x)) == name_seq(v).push(x@),
{
    assert(name_seq(v.push(x)) =~= name_seq(v).push(x@));
}

proof fn lemma_names_contains(v: Seq<String>, n: Seq<char>)
    ensures
        names(v).contains(n) <==> name_seq(v).contains(n),
{
    if names(v).contains(n) {
        let k = choose|k: int| 0 <= k < v.len() && (#[trigger] v[k])@ == n;
        assert(name_seq(v)[k] == n);
    }
    if name_seq(v).contains(n) {
        let k = choose|k: int| 0 <= k < name_seq(v).len() && name_seq(v)[k] == n;
        assert(v[k]@ == n);
    }
}

/// Does the list hold the name?
fn contains_name(v: &Vec<String>, name: &str) -> (r: bool)
    ensures
        r == names(v@).contains(name@),
{
    let mut i: usize = 0;
    while i < v.len()
        invariant
            i <= v@.len(),
            forall|k: int| 0 <= k < i ==> (#[trigger] v@[k])@ != name@,
        decreases v@.len() - i,
    {
        if str_eq(v[i].as_str(), name) {
            return true;
        }
        i = i + 1;
    }
    proof {
        if names(v@).contains(name@) {
            let k = choose|k: int| 0 <= k < v@.len() && (#[trigger] v@[k])@ == name@;
        }
    }
    false
}

/// Add a name unless it is already there.
fn insert_name(v: &mut Vec<String>, name: &str)
    requires
        distinct(old(v)@),
    ensures
        distinct(final(v)@),
        names(final(v)@) == names(old(v)@).insert(name@),
        forall|k: int| 0 <= k < old(v)@.len() ==> #[trigger] final(v)@[k] == old(v)@[k],
        old(v)@.len() <= final(v)@.len(),
        name_seq(final(v)@) == add_new(name_seq(old(v)@), seq![name@]),
{
    proof {
        lemma_names_contains(v@, name@);
        let ns = seq![name@];
        assert(ns.drop_last() =~= Seq::<Seq<char>>::empty());
        assert(add_new(name_seq(v@), ns.drop_last()) == name_seq(v@));
        assert(ns.last() == name@);
    }
    if !contains_name(v, name) {
        let ghost before = v@;
        v.push(name.to_owned());
        proof {
            lemma_name_seq_push(before, v@.last());
            assert(v@ == before.push(v@.last()));
            assert forall|n: Seq<char>| names(v@).contains(n) <==> names(old(v)@).insert(name@).contains(n) by {
                if names(v@).contains(n) {
                    let k = choose|k: int| 0 <= k < v@.len() && (#[trigger] v@[k])@ == n;
                    if k < old(v)@.len() {
                        assert(old(v)@[k] == v@[k]);
                    }
                }
                if names(old(v)@).contains(n) {
                    let k = choose|k: int| 0 <= k < old(v)@.len() && (#[trigger] old(v)@[k])@ == n;
                    assert(v@[k] == old(v)@[k]);
                }
                if n == name@ {
                    assert(v@[old(v)@.len() as int]@ == name@);
                }
            }
            assert(names(v@) =~= names(old(v)@).insert(name@));
        }
    } else {
        proof {
            assert(names(v@) =~= names(old(v)@).insert(name@));
        }
    }
}

// ---------------------------------------------------------------------------
// Assigned names
// ---------------------------------------------------------------------------

/// The name an assignment statement assigns directly, if its target is a name.
pub open spec fn assigned_name(s: Stmt) -> Option<Seq<char>> {
    match s.node {
        StmtKind::Assign { target, .. } => match target.node {
            ExprKind::Ident(n) => Some(n@),
            _ => None,
        },
        _ => None,
    }
}

/// The names a statement assigns on some path, in all nested statements.
pub open spec fn assigned_stmt(s: Stmt) -> Set<Seq<char>>
    decreases s, 0nat,
{
    match s.node {
        StmtKind::Assign { target, .. } => match target.node {
            ExprKind::Ident(n) => set![n@],
            _ => Set::empty(),
        },
        StmtKind::If(ifs) => assigned_list(ifs.then_body@) + assigned_branches(ifs.elif_branches@) + match ifs.else_body {
            Some(e) => assigned_list(e@),
            None => Set::empty(),
        },
        StmtKind::Match(m) => assigned_arms(m.arms@),
        StmtKind::CombBlock(v) => assigned_list(v@),
        StmtKind::UncheckedBlock(v) => assigned_list(v@),
        StmtKind::RegBlock(r) => assigned_list(r.on_reset@) + assigned_list(r.on_tick@),
        StmtKind::For(f) => assigned_list(f.body@),
        StmtKind::PriorityBlock(pb) => assigned_parms(pb.arms@) + match pb.otherwise {
            Some(o) => assigned_list(o@),
            None => Set::empty(),
        },
        StmtKind::ParallelBlock(pb) => assigned_parms(pb.arms@),
        _ => Set::empty(),
    }
}

/// The names a list of statements assigns on some path.
pub open spec fn assigned_list(v: Seq<Stmt>) -> Set<Seq<char>>
    decreases v, 1nat,
{
    if v.len() == 0 {
        Set::empty()
    } else {
        assigned_list(v.subrange(0, v.len() - 1)) + assigned_stmt(v[v.len() - 1])
    }
}

/// The names the bodies of `elif` branches assign.
pub open spec fn assigned_branches(v: Seq<(Expr, Vec<Stmt>)>) -> Set<Seq<char>>
    decreases v, 1nat,
{
    if v.len() == 0 {
        Set::empty()
    } else {
        assigned_branches(v.subrange(0, v.len() - 1)) + assigned_list(v[v.len() - 1].1@)
    }
}

/// The names the bodies of match arms assign.
pub open spec fn assigned_arms(v: Seq<MatchArm>) -> Set<Seq<char>>
    decreases v, 1nat,
{
    if v.len() == 0 {
        Set::empty()
    } else {
        assigned_arms(v.subrange(0, v.len() - 1)) + assigned_list(v[v.len() - 1].body@)
    }
}

/// The names the bodies of priority or parallel arms assign.
pub open spec fn assigned_parms(v: Seq<PriorityArm>) -> Set<Seq<char>>
    decreases v, 1nat,
{
    if v.len() == 0 {
        Set::empty()
    } else {
        assigned_parms(v.subrange(0, v.len() - 1)) + assigned_list(v[v.len() - 1].body@)
    }
}

/// The names directly or nestedly assigned by a statement, in the order the
/// statements are walked, with repetitions.
pub open spec fn assign_seq(s: Stmt) -> Seq<Seq<char>>
    decreases s, 0nat,
{
    match s.node {
        StmtKind::Assign { target, .. } => match target.node {
            ExprKind::Ident(n) => seq![n@],
            _ => seq![],
        },
        StmtKind::If(ifs) => assign_seq_list(ifs.then_body@) + assign_seq_branches(ifs.elif_branches@) + match ifs.else_body {
            Some(e) => assign_seq_list(e@),
            None => seq![],
        },
        StmtKind::Match(m) => assign_seq_arms(m.arms@),
        StmtKind::CombBlock(v) => assign_seq_list(v@),
        StmtKind::UncheckedBlock(v) => assign_seq_list(v@),
        StmtKind::RegBlock(r) => assign_seq_list(r.on_reset@) + assign_seq_list(r.on_tick@),
        StmtKind::For(f) => assign_seq_list(f.body@),
        StmtKind::PriorityBlock(pb) => assign_seq_parms(pb.arms@) + match pb.otherwise {
            Some(o) => assign_seq_list(o@),
            None => seq![],
        },
        StmtKind::ParallelBlock(pb) => assign_seq_parms(pb.arms@),
        _ => seq![],
    }
}

/// [`assign_seq`] of each statement, in order.
pub open spec fn assign_seq_list(v: Seq<Stmt>) -> Seq<Seq<char>>
    decreases v, 1nat,
{
    if v.len() == 0 {
        seq![]
    } else {
        assign_seq_list(v.subrange(0, v.len() - 1)) + assign_seq(v[v.len() - 1])
    }
}

/// [`assign_seq_list`] of each `elif` body, in order.
pub open spec fn assign_seq_branches(v: Seq<(Expr, Vec<Stmt>)>) -> Seq<Seq<char>>
    decreases v, 1nat,
{
    if v.len() == 0 {
        seq![]
    } else {
        assign_seq_branches(v.subrange(0, v.len() - 1)) + assign_seq_list(v[v.len() - 1].1@)
    }
}

/// [`assign_seq_list`] of each match arm's body, in order.
pub open spec fn assign_seq_arms(v: Seq<MatchArm>) -> Seq<Seq<char>>
    decreases v, 1nat,
{
    if v.len() == 0 {
        seq![]
    } else {
        assign_seq_arms(v.subrange(0, v.len() - 1)) + assign_seq_list(v[v.len() - 1].body@)
    }
}

/// [`assign_seq_list`] of each priority or parallel arm's body, in order.
pub open spec fn assign_seq_parms(v: Seq<PriorityArm>) -> Seq<Seq<char>>
    decreases v, 1nat,
{
    if v.len() == 0 {
        seq![]
    } else {
        assign_seq_parms(v.subrange(0, v.len() - 1)) + assign_seq_list(v[v.len() - 1].body@)
    }
}

/// Add to `out`, in walking order, the names assigned anywhere in the
/// statement that it does not hold yet.
#[verifier::loop_isolation(false)]
fn collect_assigned_in_stmt(stmt: &Stmt, out: &mut Vec<String>)
    requires
        distinct(old(out)@),
    ensures
        distinct(final(out)@),
        names(final(out)@) == names(old(out)@) + assigned_stmt(*stmt),
        name_seq(final(out)@) == add_new(name_seq(old(out)@), assign_seq(*stmt)),
    decreases stmt, 0nat,
{
    let ghost x = name_seq(out@);
    match &stmt.node {
        StmtKind::Assign { target, .. } => {
            if let ExprKind::Ident(name) = &target.node {
                insert_name(out, name.as_str());
                proof {
                    assert(names(out@) =~= names(old(out)@) + assigned_stmt(*stmt));
                }
            } else {
                proof {
                    assert(names(out@) =~= names(old(out)@) + assigned_stmt(*stmt));
                    assert(assign_seq(*stmt) =~= Seq::<Seq<char>>::empty());
                }
            }
        },
        StmtKind::If(if_stmt) => {
            collect_list(&if_stmt.then_body, out);
            let ghost after_then = out@;
            let ghost v = if_stmt.elif_branches@;
            let mut i: usize = 0;
            while i < if_stmt.elif_branches.len()
                invariant
                    distinct(out@),
                    names(out@) == names(after_then) + assigned_branches(v.subrange(0, i as int)),
                    name_seq(out@) == add_new(name_seq(after_then), assign_seq_branches(v.subrange(0, i as int))),
                    i <= v.len(),
                decreases if_stmt.elif_branches@.len() - i,
            {
                proof {
                    assert(decreases_to!(stmt => if_stmt.elif_branches@[i as int].1));
                    assert(v.subrange(0, i + 1).subrange(0, i as int) =~= v.subrange(0, i as int));
                    lemma_add_new_concat(
                        name_seq(after_then),
                        assign_seq_branches(v.subrange(0, i as int)),
                        assign_seq_list(v[i as int].1@),
                    );
                }
                collect_list(&if_stmt.elif_branches[i].1, out);
                i = i + 1;
                proof {
                    assert(names(out@) =~= names(after_then) + assigned_branches(v.subrange(0, i as int)));
                }
            }
            proof {
                assert(v.subrange(0, i as int) =~= v);
                lemma_add_new_concat(x, assign_seq_list(if_stmt.then_body@), assign_seq_branches(v));
            }
            let ghost after_elif = out@;
            if let Some(else_body) = &if_stmt.else_body {
                collect_list(else_body, out);
                proof {
                    lemma_add_new_concat(
                        x,
                        assign_seq_list(if_stmt.then_body@) + assign_seq_branches(v),
                        assign_seq_list(else_body@),
                    );
                }
            } else {
                proof {
                    assert(assign_seq(*stmt) =~= assign_seq_list(if_stmt.then_body@) + assign_seq_branches(v));
                }
            }
            proof {
                assert(names(out@) =~= names(old(out)@) + assigned_stmt(*stmt));
            }
        },
        StmtKind::Match(match_stmt) => {
            let ghost v = match_stmt.arms@;
            let mut i: usize = 0;
            while i < match_stmt.arms.len()
                invariant
                    distinct(out@),
                    names(out@) == names(old(out)@) + assigned_arms(v.subrange(0, i as int)),
                    name_seq(out@) == add_new(x, assign_seq_arms(v.subrange(0, i as int))),
                    i <= v.len(),
                decreases match_stmt.arms@.len() - i,
            {
                proof {
                    assert(decreases_to!(stmt => match_stmt.arms@[i as int].body));
                    assert(v.subrange(0, i + 1).subrange(0, i as int) =~= v.subrange(0, i as int));
                    lemma_add_new_concat(x, assign_seq_arms(v.subrange(0, i as int)), assign_seq_list(v[i as int].body@));
                }
                collect_list(&match_stmt.arms[i].body, out);
                i = i + 1;
                proof {
                    assert(names(out@) =~= names(old(out)@) + assigned_arms(v.subrange(0, i as int)));
                }
            }
            proof {
                assert(v.subrange(0, i as int) =~= v);
            }
        },
        StmtKind::CombBlock(stmts) => collect_list(stmts, out),
        StmtKind::UncheckedBlock(stmts) => collect_list(stmts, out),
        StmtKind::RegBlock(reg) => {
            collect_list(&reg.on_reset, out);
            collect_list(&reg.on_tick, out);
            proof {
                assert(names(out@) =~= names(old(out)@) + assigned_stmt(*stmt));
                lemma_add_new_concat(x, assign_seq_list(reg.on_reset@), assign_seq_list(reg.on_tick@));
            }
        },
        StmtKind::For(for_stmt) => collect_list(&for_stmt.body, out),
        StmtKind::PriorityBlock(pb) => {
            collect_parms(&pb.arms, out);
            if let Some(otherwise) = &pb.otherwise {
                collect_list(otherwise, out);
                proof {
                    lemma_add_new_concat(x, assign_seq_parms(pb.arms@), assign_seq_list(otherwise@));
                }
            } else {
                proof {
                    assert(assign_seq(*stmt) =~= assign_seq_parms(pb.arms@));
                }
            }
            proof {
                assert(names(out@) =~= names(old(out)@) + assigned_stmt(*stmt));
            }
        },
        StmtKind::ParallelBlock(pb) => collect_parms(&pb.arms, out),
        _ => {
            proof {
                assert(names(out@) =~= names(old(out)@) + assigned_stmt(*stmt));
                assert(assign_seq(*stmt) =~= Seq::<Seq<char>>::empty());
            }
        },
    }
}

/// Add to `out` the names assigned anywhere in the statements, in order.
#[verifier::loop_isolation(false)]
fn collect_list(stmts: &Vec<Stmt>, out: &mut Vec<String>)
    requires
        distinct(old(out)@),
    ensures
        distinct(final(out)@),
        names(final(out)@) == names(old(out)@) + assigned_list(stmts@),
        name_seq(final(out)@) == add_new(name_seq(old(out)@), assign_seq_list(stmts@)),
    decreases stmts@, 2nat,
{
    let ghost x = name_seq(out@);
    let mut i: usize = 0;
    while i < stmts.len()
        invariant
            distinct(out@),
            names(out@) == names(old(out)@) + assigned_list(stmts@.subrange(0, i as int)),
            name_seq(out@) == add_new(x, assign_seq_list(stmts@.subrange(0, i as int))),
            i <= stmts@.len(),
        decreases stmts@.len() - i,
    {
        proof {
            assert(stmts@.subrange(0, i + 1).subrange(0, i as int) =~= stmts@.subrange(0, i as int));
            assert(stmts@.subrange(0, i + 1)[i as int] == stmts@[i as int]);
            lemma_add_new_concat(x, assign_seq_list(stmts@.subrange(0, i as int)), assign_seq(stmts@[i as int]));
        }
        collect_assigned_in_stmt(&stmts[i], out);
        i = i + 1;
        proof {
            assert(names(out@) =~= names(old(out)@) + assigned_list(stmts@.subrange(0, i as int)));
        }
    }
    proof {
        assert(stmts@.subrange(0, i as int) =~= stmts@);
    }
}

/// Add to `out` the names assigned in the bodies of the arms, in order.
#[verifier::loop_isolation(false)]
fn collect_parms(arms: &Vec<PriorityArm>, out: &mut Vec<String>)
    requires
        distinct(old(out)@),
    ensures
        distinct(final(out)@),
        names(final(out)@) == names(old(out)@) + assigned_parms(arms@),
        name_seq(final(out)@) == add_new(name_seq(old(out)@), assign_seq_parms(arms@)),
    decreases arms@, 2nat,
{
    let ghost x = name_seq(out@);
    let mut i: usize = 0;
    while i < arms.len()
        invariant
            distinct(out@),
            names(out@) == names(old(out)@) + assigned_parms(arms@.subrange(0, i as int)),
            name_seq(out@) == add_new(x, assign_seq_parms(arms@.subrange(0, i as int))),
            i <= arms@.len(),
        decreases arms@.len() - i,
    {
        proof {
            assert(arms@.subrange(0, i + 1).subrange(0, i as int) =~= arms@.subrange(0, i as int));
            lemma_add_new_concat(x, assign_seq_parms(arms@.subrange(0, i as int)), assign_seq_list(arms@[i as int].body@));
        }
        collect_list(&arms[i].body, out);
        i = i + 1;
        proof {
            assert(names(out@) =~= names(old(out)@) + assigned_parms(arms@.subrange(0, i as int)));
        }
    }
    proof {
        assert(arms@.subrange(0, i as int) =~= arms@);
    }
}

// ---------------------------------------------------------------------------
// Names assigned on every path
// ---------------------------------------------------------------------------

/// A match arm whose pattern is `_`.
pub open spec fn is_wildcard_arm(a: MatchArm) -> bool {
    a.pattern.node matches ExprKind::Ident(n) && n@ == "_"@
}

/// Some arm of the match is a wildcard.
pub open spec fn has_wildcard(arms: Seq<MatchArm>) -> bool {
    exists|i: int| 0 <= i < arms.len() && is_wildcard_arm(#[trigger] arms[i])
}

/// The names a list of statements assigns on every path through it.
pub open spec fn definitely(v: Seq<Stmt>) -> Set<Seq<char>>
    decreases v, 1nat,
{
    if v.len() == 0 {
        Set::empty()
    } else {
        definitely(v.subrange(0, v.len() - 1)) + contribution(v[v.len() - 1])
    }
}

/// What one statement adds to the names assigned on every path: its direct
/// assignment; for an `if` with `else`, what every branch assigns on every
/// path; for a `match` with a wildcard arm, what every arm does; for a nested
/// block, what it does.
pub open spec fn contribution(s: Stmt) -> Set<Seq<char>>
    decreases s, 0nat,
{
    match s.node {
        StmtKind::Assign { target, .. } => match target.node {
            ExprKind::Ident(n) => set![n@],
            _ => Set::empty(),
        },
        StmtKind::If(ifs) => match ifs.else_body {
            Some(e) => definitely(ifs.then_body@).intersect(inter_branches(ifs.elif_branches@)).intersect(
                definitely(e@),
            ),
            None => Set::empty(),
        },
        StmtKind::Match(m) => if has_wildcard(m.arms@) {
            inter_arms(m.arms@)
        } else {
            Set::empty()
        },
        StmtKind::CombBlock(v) => definitely(v@),
        StmtKind::UncheckedBlock(v) => definitely(v@),
        _ => Set::empty(),
    }
}

/// What the bodies of all `elif` branches assign on every path.
pub open spec fn inter_branches(v: Seq<(Expr, Vec<Stmt>)>) -> Set<Seq<char>>
    decreases v, 1nat,
{
    if v.len() == 0 {
        Set::full()
    } else {
        inter_branches(v.subrange(0, v.len() - 1)).intersect(definitely(v[v.len() - 1].1@))
    }
}

/// What the bodies of all match arms assign on every path.
pub open spec fn inter_arms(v: Seq<MatchArm>) -> Set<Seq<char>>
    decreases v, 1nat,
{
    if v.len() == 0 {
        Set::full()
    } else {
        inter_arms(v.subrange(0, v.len() - 1)).intersect(definitely(v[v.len() - 1].body@))
    }
}

/// A name assigned on every path through a list of statements is assigned
/// somewhere in it: what `assigned_on_all_paths` finds is a subset of what
/// `collect_assigned_in_stmt` finds.
pub proof fn law_definitely_assigned_is_assigned(v: Seq<Stmt>)
    ensures
        definitely(v).subset_of(assigned_list(v)),
    decreases v, 1nat,
{
    if v.len() > 0 {
        let last = v[v.len() - 1];
        assert(decreases_to!(v => last));
        law_definitely_assigned_is_assigned(v.subrange(0, v.len() - 1));
        lemma_contribution_is_assigned(last);
    }
}

proof fn lemma_contribution_is_assigned(s: Stmt)
    ensures
        contribution(s).subset_of(assigned_stmt(s)),
    decreases s, 0nat,
{
    match s.node {
        StmtKind::If(ifs) => {
            if let Some(e) = ifs.else_body {
                law_definitely_assigned_is_assigned(ifs.then_body@);
            }
        },
        StmtKind::Match(m) => {
            if has_wildcard(m.arms@) {
                let arms = m.arms@;
                let n = arms.len();
                let last = arms[n - 1];
                assert(decreases_to!(s => last.body));
                law_definitely_assigned_is_assigned(last.body@);
                assert(inter_arms(arms) == inter_arms(arms.subrange(0, n - 1)).intersect(definitely(last.body@)));
                assert(assigned_arms(arms) == assigned_arms(arms.subrange(0, n - 1)) + assigned_list(last.body@));
            }
        },
        StmtKind::CombBlock(b) => {
            law_definitely_assigned_is_assigned(b@);
        },
        StmtKind::UncheckedBlock(b) => {
            law_definitely_assigned_is_assigned(b@);
        },
        _ => {},
    }
}

/// The names both lists hold, in the order of the first.
fn intersect_names(a: &Vec<String>, b: &Vec<String>) -> (r: Vec<String>)
    requires
        distinct(a@),
    ensures
        distinct(r@),
        names(r@) == names(a@).intersect(names(b@)),
{
    let mut out: Vec<String> = Vec::new();
    let mut i: usize = 0;
    while i < a.len()
        invariant
            i <= a@.len(),
            distinct(a@),
            distinct(out@),
            names(out@) == names(a@.subrange(0, i as int)).intersect(names(b@)),
        decreases a@.len() - i,
    {
        if contains_name(b, a[i].as_str()) {
            insert_name(&mut out, a[i].as_str());
        }
        proof {
            assert(names(a@.subrange(0, i + 1)) =~= names(a@.subrange(0, i as int)).insert(a@[i as int]@)) by {
                assert forall|n: Seq<char>| names(a@.subrange(0, i + 1)).contains(n) implies names(a@.subrange(0, i as int)).insert(a@[i as int]@).contains(n) by {
                    let k = choose|k: int| 0 <= k < i + 1 && (#[trigger] a@.subrange(0, i + 1)[k])@ == n;
                    if k < i {
                        assert(a@.subrange(0, i as int)[k] == a@.subrange(0, i + 1)[k]);
                    }
                }
                assert forall|n: Seq<char>| names(a@.subrange(0, i as int)).insert(a@[i as int]@).contains(n) implies names(a@.subrange(0, i + 1)).contains(n) by {
                    if n == a@[i as int]@ {
                        assert(a@.subrange(0, i + 1)[i as int] == a@[i as int]);
                    } else {
                        let k = choose|k: int| 0 <= k < i && (#[trigger] a@.subrange(0, i as int)[k])@ == n;
                        assert(a@.subrange(0, i + 1)[k] == a@.subrange(0, i as int)[k]);
                    }
                }
            }
            assert(names(out@) =~= names(a@.subrange(0, i + 1)).intersect(names(b@)));
        }
        i = i + 1;
    }
    proof {
        assert(a@.subrange(0, i as int) =~= a@);
    }
    out
}

/// Add all names of `src` to `out`.
fn union_into(out: &mut Vec<String>, src: &Vec<String>)
    requires
        distinct(old(out)@),
    ensures
        distinct(final(out)@),
        names(final(out)@) == names(old(out)@) + names(src@),
{
    let mut i: usize = 0;
    while i < src.len()
        invariant
            i <= src@.len(),
            distinct(out@),
            names(out@) == names(old(out)@) + names(src@.subrange(0, i as int)),
        decreases src@.len() - i,
    {
        insert_name(out, src[i].as_str());
        proof {
            assert(names(src@.subrange(0, i + 1)) =~= names(src@.subrange(0, i as int)).insert(src@[i as int]@)) by {
                assert forall|n: Seq<char>| names(src@.subrange(0, i + 1)).contains(n) implies names(src@.subrange(0, i as int)).insert(src@[i as int]@).contains(n) by {
                    let k = choose|k: int| 0 <= k < i + 1 && (#[trigger] src@.subrange(0, i + 1)[k])@ == n;
                    if k < i {
                        assert(src@.subrange(0, i as int)[k] == src@.subrange(0, i + 1)[k]);
                    }
                }
                assert forall|n: Seq<char>| names(src@.subrange(0, i as int)).insert(src@[i as int]@).contains(n) implies names(src@.subrange(0, i + 1)).contains(n) by {
                    if n == src@[i as int]@ {
                        assert(src@.subrange(0, i + 1)[i as int] == src@[i as int]);
                    } else {
                        let k = choose|k: int| 0 <= k < i && (#[trigger] src@.subrange(0, i as int)[k])@ == n;
                        assert(src@.subrange(0, i + 1)[k] == src@.subrange(0, i as int)[k]);
                    }
                }
            }
            assert(names(out@) =~= names(old(out)@) + names(src@.subrange(0, i + 1)));
        }
        i = i + 1;
    }
    proof {
        assert(src@.subrange(0, i as int) =~= src@);
    }
}

/// Is some arm of the match a wildcard `_`?
fn match_has_wildcard(match_stmt: &MatchStmt) -> (r: bool)
    ensures
        r == has_wildcard(match_stmt.arms@),
{
    let mut i: usize = 0;
    while i < match_stmt.arms.len()
        invariant
            i <= match_stmt.arms@.len(),
            forall|k: int| 0 <= k < i ==> !is_wildcard_arm(#[trigger] match_stmt.arms@[k]),
        decreases match_stmt.arms@.len() - i,
    {
        if let ExprKind::Ident(name) = &match_stmt.arms[i].pattern.node {
            if str_eq(name.as_str(), "_") {
                return true;
            }
        }
        i = i + 1;
    }
    false
}

/// The names the statements assign on every control-flow path through them.
#[verifier::loop_isolation(false)]
fn assigned_on_all_paths(stmts: &Vec<Stmt>) -> (r: Vec<String>)
    ensures
        distinct(r@),
        names(r@) == definitely(stmts@),
    decreases stmts@,
{
    let mut definitely_set: Vec<String> = Vec::new();
    proof {
        assert(names(definitely_set@) =~= Set::<Seq<char>>::empty());
    }
    let mut i: usize = 0;
    while i < stmts.len()
        invariant
            i <= stmts@.len(),
            distinct(definitely_set@),
            names(definitely_set@) == definitely(stmts@.subrange(0, i as int)),
        decreases stmts@.len() - i,
    {
        let stmt = &stmts[i];
        proof {
            assert(stmts@.subrange(0, i + 1).subrange(0, i as int) =~= stmts@.subrange(0, i as int));
            assert(stmts@.subrange(0, i + 1)[i as int] == stmts@[i as int]);
        }
        let ghost before = definitely_set@;
        match &stmt.node {
            StmtKind::Assign { target, .. } => {
                if let ExprKind::Ident(name) = &target.node {
                    insert_name(&mut definitely_set, name.as_str());
                }
            },
            StmtKind::If(if_stmt) => {
                if let Some(else_body) = &if_stmt.else_body {
                    proof {
                        assert(decreases_to!(stmts@ => if_stmt.then_body@));
                    }
                    let mut acc = assigned_on_all_paths(&if_stmt.then_body);
                    proof {
                        assert(if_stmt.elif_branches@.subrange(0, 0) =~= Seq::<(Expr, Vec<Stmt>)>::empty());
                        assert(inter_branches(if_stmt.elif_branches@.subrange(0, 0)) == Set::<Seq<char>>::full());
                        assert(names(acc@) =~= definitely(if_stmt.then_body@).intersect(
                            inter_branches(if_stmt.elif_branches@.subrange(0, 0)),
                        ));
                    }
                    let mut j: usize = 0;
                    while j < if_stmt.elif_branches.len()
                        invariant
                            j <= if_stmt.elif_branches@.len(),
                            distinct(acc@),
                            names(acc@) == definitely(if_stmt.then_body@).intersect(
                                inter_branches(if_stmt.elif_branches@.subrange(0, j as int)),
                            ),
                        decreases if_stmt.elif_branches@.len() - j,
                    {
                        proof {
                            assert(decreases_to!(stmts@ => if_stmt.elif_branches@[j as int].1@));
                            assert(if_stmt.elif_branches@.subrange(0, j + 1).subrange(0, j as int) =~= if_stmt.elif_branches@.subrange(0, j as int));
                        }
                        let branch_set = assigned_on_all_paths(&if_stmt.elif_branches[j].1);
                        acc = intersect_names(&acc, &branch_set);
                        j = j + 1;
                        proof {
                            assert(names(acc@) =~= definitely(if_stmt.then_body@).intersect(
                                inter_branches(if_stmt.elif_branches@.subrange(0, j as int)),
                            ));
                        }
                    }
                    proof {
                        assert(if_stmt.elif_branches@.subrange(0, j as int) =~= if_stmt.elif_branches@);
                        assert(decreases_to!(stmts@ => else_body@));
                    }
                    let else_set = assigned_on_all_paths(else_body);
                    let both = intersect_names(&acc, &else_set);
                    union_into(&mut definitely_set, &both);
                }
            },
            StmtKind::Match(match_stmt) => {
                if match_has_wildcard(match_stmt) && match_stmt.arms.len() > 0 {
                    proof {
                        assert(decreases_to!(stmts@ => match_stmt.arms@[0].body@));
                    }
                    let mut acc = assigned_on_all_paths(&match_stmt.arms[0].body);
                    proof {
                        assert(match_stmt.arms@.subrange(0, 1).subrange(0, 0) =~= Seq::<MatchArm>::empty());
                        assert(match_stmt.arms@.subrange(0, 1)[0] == match_stmt.arms@[0]);
                        assert(inter_arms(match_stmt.arms@.subrange(0, 1).subrange(0, 0)) == Set::<Seq<char>>::full());
                        assert(names(acc@) =~= inter_arms(match_stmt.arms@.subrange(0, 1)));
                    }
                    let mut j: usize = 1;
                    while j < match_stmt.arms.len()
                        invariant
                            1 <= j <= match_stmt.arms@.len(),
                            distinct(acc@),
                            names(acc@) == inter_arms(match_stmt.arms@.subrange(0, j as int)),
                        decreases match_stmt.arms@.len() - j,
                    {
                        proof {
                            assert(decreases_to!(stmts@ => match_stmt.arms@[j as int].body@));
                            assert(match_stmt.arms@.subrange(0, j + 1).subrange(0, j as int) =~= match_stmt.arms@.subrange(0, j as int));
                            assert(match_stmt.arms@.subrange(0, j + 1)[j as int] == match_stmt.arms@[j as int]);
                        }
                        let arm_set = assigned_on_all_paths(&match_stmt.arms[j].body);
                        acc = intersect_names(&acc, &arm_set);
                        j = j + 1;
                    }
                    proof {
                        assert(match_stmt.arms@.subrange(0, j as int) =~= match_stmt.arms@);
                    }
                    union_into(&mut definitely_set, &acc);
                }
            },
            StmtKind::CombBlock(inner) => {
                proof {
                    assert(decreases_to!(stmts@ => inner@));
                }
                let inner_set = assigned_on_all_paths(inner);
                union_into(&mut definitely_set, &inner_set);
            },
            StmtKind::UncheckedBlock(inner) => {
                proof {
                    assert(decreases_to!(stmts@ => inner@));
                }
                let inner_set = assigned_on_all_paths(inner);
                union_into(&mut definitely_set, &inner_set);
            },
            _ => {},
        }
        proof {
            assert(names(definitely_set@) =~= names(before) + contribution(*stmt));
            assert(names(definitely_set@) =~= definitely(stmts@.subrange(0, i + 1)));
        }
        i = i + 1;
    }
    proof {
        assert(stmts@.subrange(0, i as int) =~= stmts@);
    }
    definitely_set
}

/// The span of the first statement that assigns `name` directly.
pub open spec fn first_assign_span(stmts: Seq<Stmt>, name: Seq<char>) -> Option<Span>
    decreases stmts.len(),
{
    if stmts.len() == 0 {
        None
    } else if assigned_name(stmts[0]) == Some(name) {
        Some(stmts[0].span)
    } else {
        first_assign_span(stmts.drop_first(), name)
    }
}

/// The span of the first statement that assigns `name` directly.
fn find_assign_span(stmts: &Vec<Stmt>, name: &str) -> (r: Option<Span>)
    ensures
        r == first_assign_span(stmts@, name@),
{
    let mut i: usize = 0;
    proof {
        assert(stmts@.subrange(0, stmts@.len() as int) =~= stmts@);
    }
    while i < stmts.len()
        invariant
            i <= stmts@.len(),
            first_assign_span(stmts@, name@) == first_assign_span(stmts@.subrange(i as int, stmts@.len() as int), name@),
        decreases stmts@.len() - i,
    {
        proof {
            assert(stmts@.subrange(i as int, stmts@.len() as int).drop_first() =~= stmts@.subrange(i + 1, stmts@.len() as int));
            assert(stmts@.subrange(i as int, stmts@.len() as int)[0] == stmts@[i as int]);
        }
        if let StmtKind::Assign { target, .. } = &stmts[i].node {
            if let ExprKind::Ident(n) = &target.node {
                if str_eq(n.as_str(), name) {
                    return Some(stmts[i].span);
                }
            }
        }
        i = i + 1;
    }
    None
}

// ---------------------------------------------------------------------------
// The validator
// ---------------------------------------------------------------------------

/// The validation pass: checks hardware constraints with the symbol table and
/// the scope of each module, collecting errors.
pub struct Validator<'a> {
    table: &'a SymbolTable,
    scope_map: &'a ScopeMap,
    errors: Vec<SemaError>,
    current_scope: ScopeId,
}

/// The message for a register written on tick without a reset value.
pub open spec fn missing_reset_message(name: Seq<char>) -> Seq<char> {
    "signal `"@ + name + "` is assigned in `on tick` but has no reset value in `on reset`"@
}

/// `name`, looked up from scope `s`, is a symbol of error type (its error
/// was reported when it was declared).
pub open spec fn error_typed(t: SymbolTable, s: int, name: Seq<char>) -> bool {
    t.lookup_spec(s, name) matches Some(id) && t.symbols_view()[id.0 as int].ty == Ty::Error
}

/// A latch for each of `ns` that is not assigned on every path (`def`) and
/// is not of error type, in order, at the block's span.
pub open spec fn latch_errors(t: SymbolTable, s: int, ns: Seq<Seq<char>>, def: Set<Seq<char>>, span: Span) -> Seq<ErrorView>
    decreases ns.len(),
{
    if ns.len() == 0 {
        seq![]
    } else {
        let n = ns.last();
        latch_errors(t, s, ns.drop_last(), def, span) + if !def.contains(n) && !error_typed(t, s, n) {
            seq![ErrorView::LatchInferred { signal: n, span }]
        } else {
            seq![]
        }
    }
}

/// Where a missing reset is reported: at the first statement of `on tick`
/// that assigns the name, else at the first statement, else at `0..0`.
pub open spec fn reset_span(on_tick: Seq<Stmt>, name: Seq<char>) -> Span {
    match first_assign_span(on_tick, name) {
        Some(sp) => sp,
        None => if on_tick.len() > 0 {
            on_tick[0].span
        } else {
            Span { start: 0, end: 0 }
        },
    }
}

/// A missing reset for each of `ns` (written on tick) that `on reset` does
/// not assign and that is not of error type, in order.
pub open spec fn reset_errors(t: SymbolTable, s: int, ns: Seq<Seq<char>>, reset: Set<Seq<char>>, on_tick: Seq<Stmt>) -> Seq<
    ErrorView,
>
    decreases ns.len(),
{
    if ns.len() == 0 {
        seq![]
    } else {
        let n = ns.last();
        reset_errors(t, s, ns.drop_last(), reset, on_tick) + if !reset.contains(n) && !error_typed(t, s, n) {
            seq![ErrorView::Custom { message: missing_reset_message(n), span: reset_span(on_tick, n) }]
        } else {
            seq![]
        }
    }
}

/// Assigning to a `const` or `let` binding is invalid.
pub open spec fn immutability_errors(t: SymbolTable, s: int, target: Expr) -> Seq<ErrorView> {
    match target.node {
        ExprKind::Ident(name) => match t.lookup_spec(s, name@) {
            Some(id) => if t.symbols_view()[id.0 as int].kind == SymbolKind::Const || t.symbols_view()[id.0
                as int].kind == SymbolKind::Let {
                seq![ErrorView::InvalidAssignTarget { span: target.span }]
            } else {
                seq![]
            },
            None => seq![],
        },
        _ => seq![],
    }
}

/// The errors validation reports for a statement and those nested in it.
pub open spec fn stmt_checks(t: SymbolTable, s: int, st: Stmt) -> Seq<ErrorView>
    decreases st, 1nat,
{
    match st.node {
        StmtKind::CombBlock(v) => latch_errors(t, s, add_new(seq![], assign_seq_list(v@)), definitely(v@), st.span)
            + stmts_checks(t, s, v@),
        StmtKind::RegBlock(reg) => reset_errors(
            t,
            s,
            add_new(seq![], assign_seq_list(reg.on_tick@)),
            assigned_list(reg.on_reset@),
            reg.on_tick@,
        ) + stmts_checks(t, s, reg.on_reset@) + stmts_checks(t, s, reg.on_tick@),
        StmtKind::Assign { target, .. } => immutability_errors(t, s, target),
        StmtKind::If(ifs) => stmts_checks(t, s, ifs.then_body@) + elif_checks(t, s, ifs.elif_branches@) + match ifs.else_body {
            Some(e) => stmts_checks(t, s, e@),
            None => seq![],
        },
        StmtKind::Match(m) => arms_checks(t, s, m.arms@),
        StmtKind::For(f) => stmts_checks(t, s, f.body@),
        StmtKind::PriorityBlock(pb) => parms_checks(t, s, pb.arms@) + match pb.otherwise {
            Some(o) => stmts_checks(t, s, o@),
            None => seq![],
        },
        StmtKind::ParallelBlock(pb) => parms_checks(t, s, pb.arms@),
        StmtKind::UncheckedBlock(v) => stmts_checks(t, s, v@),
        _ => seq![],
    }
}

/// [`stmt_checks`] of each statement, in order.
pub open spec fn stmts_checks(t: SymbolTable, s: int, v: Seq<Stmt>) -> Seq<ErrorView>
    decreases v, 2nat,
{
    if v.len() == 0 {
        seq![]
    } else {
        stmts_checks(t, s, v.subrange(0, v.len() - 1)) + stmt_checks(t, s, v[v.len() - 1])
    }
}

/// [`stmts_checks`] of each `elif` body, in order.
pub open spec fn elif_checks(t: SymbolTable, s: int, v: Seq<(Expr, Vec<Stmt>)>) -> Seq<ErrorView>
    decreases v, 2nat,
{
    if v.len() == 0 {
        seq![]
    } else {
        elif_checks(t, s, v.subrange(0, v.len() - 1)) + stmts_checks(t, s, v[v.len() - 1].1@)
    }
}

/// [`stmts_checks`] of each match arm's body, in order.
pub open spec fn arms_checks(t: SymbolTable, s: int, v: Seq<MatchArm>) -> Seq<ErrorView>
    decreases v, 2nat,
{
    if v.len() == 0 {
        seq![]
    } else {
        arms_checks(t, s, v.subrange(0, v.len() - 1)) + stmts_checks(t, s, v[v.len() - 1].body@)
    }
}

/// [`stmts_checks`] of each priority or parallel arm's body, in order.
pub open spec fn parms_checks(t: SymbolTable, s: int, v: Seq<PriorityArm>) -> Seq<ErrorView>
    decreases v, 2nat,
{
    if v.len() == 0 {
        seq![]
    } else {
        parms_checks(t, s, v.subrange(0, v.len() - 1)) + stmts_checks(t, s, v[v.len() - 1].body@)
    }
}

/// The names the statements of a module body assign (nested modules aside).
pub open spec fn body_assigned(v: Seq<Item>) -> Set<Seq<char>>
    decreases v.len(),
{
    if v.len() == 0 {
        Set::empty()
    } else {
        body_assigned(v.subrange(0, v.len() - 1)) + match v[v.len() - 1].node {
            ItemKind::Stmt(st) => assigned_stmt(st),
            _ => Set::empty(),
        }
    }
}

/// An unconnected-port error for each output port the module never
/// assigns, in port order.
pub open spec fn port_errors(ports: Seq<Port>, assigned: Set<Seq<char>>, module: Seq<char>) -> Seq<ErrorView>
    decreases ports.len(),
{
    if ports.len() == 0 {
        seq![]
    } else {
        let p = ports.last();
        port_errors(ports.drop_last(), assigned, module) + if p.direction == Direction::Out && !assigned.contains(
            p.name.node@,
        ) {
            seq![ErrorView::UnconnectedPort { port: p.name.node@, inst: module, span: p.span }]
        } else {
            seq![]
        }
    }
}

/// The errors validation reports for a module: its unconnected outputs,
/// then its body, in the module's scope.
pub open spec fn module_checks(t: SymbolTable, m: ScopeMap, s: int, def: ModuleDef) -> Seq<ErrorView>
    decreases def, 2nat,
{
    port_errors(def.ports@, body_assigned(def.body@), def.name.node@) + body_checks(
        t,
        m,
        module_scope(t, m, s, def.name.span.start),
        def.body@,
    )
}

/// The errors of the items of a module body, in order: statements and
/// nested modules.
pub open spec fn body_checks(t: SymbolTable, m: ScopeMap, s: int, v: Seq<Item>) -> Seq<ErrorView>
    decreases v, 1nat,
{
    if v.len() == 0 {
        seq![]
    } else {
        body_checks(t, m, s, v.subrange(0, v.len() - 1)) + match v[v.len() - 1].node {
            ItemKind::Stmt(st) => stmt_checks(t, s, st),
            ItemKind::Module(inner) => module_checks(t, m, s, inner),
            _ => seq![],
        }
    }
}

/// The errors of validating the items of a file: each module, in order.
pub open spec fn file_checks(t: SymbolTable, m: ScopeMap, s: int, v: Seq<Item>) -> Seq<ErrorView>
    decreases v.len(),
{
    if v.len() == 0 {
        seq![]
    } else {
        file_checks(t, m, s, v.subrange(0, v.len() - 1)) + match v[v.len() - 1].node {
            ItemKind::Module(def) => module_checks(t, m, s, def),
            _ => seq![],
        }
    }
}

impl<'a> Validator<'a> {
    /// The symbol table.
    pub closed spec fn table_spec(&self) -> SymbolTable {
        *self.table
    }

    /// The scope of each module.
    pub closed spec fn map_spec(&self) -> ScopeMap {
        *self.scope_map
    }

    /// The errors reported so far.
    pub closed spec fn errors_spec(&self) -> Seq<SemaError> {
        self.errors@
    }

    /// The scope names are looked up from.
    pub closed spec fn scope_spec(&self) -> int {
        self.current_scope.0 as int
    }

    /// The table is well formed and the current scope is one of its scopes.
    pub open spec fn inv(&self) -> bool {
        self.table_spec().wf() && 0 <= self.scope_spec() < self.table_spec().scope_count()
    }

    /// A validator at the root scope, without errors.
    pub fn new(table: &'a SymbolTable, scope_map: &'a ScopeMap) -> (r: Self)
        requires
            table.wf(),
        ensures
            r.inv(),
            r.table_spec() == *table,
            r.map_spec() == *scope_map,
            r.scope_spec() == 0,
            r.errors_spec().len() == 0,
    {
        Validator { table, scope_map, errors: Vec::new(), current_scope: table.root_scope() }
    }

    /// Validate every module of a file; the errors are those of
    /// [`file_checks`], added in order.
    #[verifier::loop_isolation(false)]
    pub fn validate_file(&mut self, file: &SourceFile)
        requires
            old(self).inv(),
        ensures
            final(self).inv(),
            final(self).table_spec() == old(self).table_spec(),
            final(self).map_spec() == old(self).map_spec(),
            final(self).scope_spec() == old(self).scope_spec(),
            errors_view(final(self).errors_spec()) == errors_view(old(self).errors_spec()) + file_checks(
                old(self).table_spec(),
                old(self).map_spec(),
                old(self).scope_spec(),
                file.items@,
            ),
    {
        let ghost t = self.table_spec();
        let ghost m = self.map_spec();
        let ghost s = self.scope_spec();
        let ghost v = file.items@;
        let mut i: usize = 0;
        while i < file.items.len()
            invariant
                self.inv(),
                self.table == old(self).table,
                self.scope_map == old(self).scope_map,
                self.current_scope == old(self).current_scope,
                i <= v.len(),
                v == file.items@,
                errors_view(self.errors@) == errors_view(old(self).errors@) + file_checks(t, m, s, v.subrange(0, i as int)),
            decreases file.items@.len() - i,
        {
            proof {
                assert(v.subrange(0, i + 1).subrange(0, i as int) =~= v.subrange(0, i as int));
            }
            if let ItemKind::Module(def) = &file.items[i].node {
                self.validate_module(def);
            }
            i = i + 1;
        }
        proof {
            assert(v.subrange(0, i as int) =~= v);
        }
    }

    /// The errors found.
    pub fn into_errors(self) -> (r: Vec<SemaError>)
        ensures
            r@ == self.errors_spec(),
    {
        self.errors
    }

    fn report(&mut self, e: SemaError)
        ensures
            final(self).errors@ == old(self).errors@.push(e),
            errors_view(final(self).errors@) == errors_view(old(self).errors@).push(e@),
            final(self).table == old(self).table,
            final(self).scope_map == old(self).scope_map,
            final(self).current_scope == old(self).current_scope,
    {
        self.errors.push(e);
        proof {
            lemma_errors_view_push(old(self).errors@, e);
        }
    }

    /// Is `name` a symbol of error type, from the current scope?
    fn has_error_type(&self, name: &str) -> (r: bool)
        requires
            self.inv(),
        ensures
            r == error_typed(self.table_spec(), self.scope_spec(), name@),
    {
        match self.table.lookup(self.current_scope, name) {
            Some(sym) => sym.ty.is_error(),
            None => false,
        }
    }

    /// Check a module: every output port is assigned somewhere in its
    /// statements; then its statements and nested modules are validated.
    #[verifier::loop_isolation(false)]
    #[verifier::rlimit(30)]
    fn validate_module(&mut self, def: &ModuleDef)
        requires
            old(self).inv(),
        ensures
            final(self).inv(),
            final(self).table == old(self).table,
            final(self).scope_map == old(self).scope_map,
            final(self).current_scope == old(self).current_scope,
            errors_view(final(self).errors@) == errors_view(old(self).errors@) + module_checks(
                old(self).table_spec(),
                old(self).map_spec(),
                old(self).scope_spec(),
                *def,
            ),
        decreases def, 2nat,
    {
        let ghost t = self.table_spec();
        let ghost m = self.map_spec();
        let prev = self.current_scope;
        if let Some(scope_id) = self.scope_map.get(def.name.span.start) {
            if (scope_id.0 as usize) < self.table.scope_len() {
                self.current_scope = scope_id;
            }
        }
        let ghost s = self.scope_spec();
        let ghost body = def.body@;
        let ghost ports = def.ports@;
        let mut module_assigned: Vec<String> = Vec::new();
        let mut i: usize = 0;
        proof {
            assert(names(module_assigned@) =~= Set::<Seq<char>>::empty());
        }
        while i < def.body.len()
            invariant
                self.inv(),
                self.table == old(self).table,
                self.scope_map == old(self).scope_map,
                self.errors == old(self).errors,
                self.scope_spec() == s,
                body == def.body@,
                i <= body.len(),
                distinct(module_assigned@),
                names(module_assigned@) == body_assigned(body.subrange(0, i as int)),
            decreases def.body@.len() - i,
        {
            proof {
                assert(body.subrange(0, i + 1).subrange(0, i as int) =~= body.subrange(0, i as int));
            }
            if let ItemKind::Stmt(stmt) = &def.body[i].node {
                collect_assigned_in_stmt(stmt, &mut module_assigned);
            }
            i = i + 1;
            proof {
                assert(names(module_assigned@) =~= body_assigned(body.subrange(0, i as int)));
            }
        }
        proof {
            assert(body.subrange(0, i as int) =~= body);
        }
        let ghost assigned = body_assigned(body);
        let ghost e0 = errors_view(self.errors@);
        let mut p: usize = 0;
        while p < def.ports.len()
            invariant
                self.inv(),
                self.table == old(self).table,
                self.scope_map == old(self).scope_map,
                self.scope_spec() == s,
                ports == def.ports@,
                p <= ports.len(),
                names(module_assigned@) == assigned,
                errors_view(self.errors@) == e0 + port_errors(ports.subrange(0, p as int), assigned, def.name.node@),
            decreases def.ports@.len() - p,
        {
            proof {
                assert(ports.subrange(0, p + 1).drop_last() =~= ports.subrange(0, p as int));
                assert(ports.subrange(0, p + 1).last() == ports[p as int]);
            }
            let port = &def.ports[p];
            let is_out = match port.direction {
                Direction::Out => true,
                _ => false,
            };
            if is_out {
                if !contains_name(&module_assigned, port.name.node.as_str()) {
                    self.report(
                        SemaError::UnconnectedPort {
                            port: port.name.node.clone(),
                            inst: def.name.node.clone(),
                            span: port.span,
                        },
                    );
                }
            }
            p = p + 1;
        }
        proof {
            assert(ports.subrange(0, p as int) =~= ports);
        }
        let ghost e1 = errors_view(self.errors@);
        let mut j: usize = 0;
        while j < def.body.len()
            invariant
                self.inv(),
                self.table == old(self).table,
                self.scope_map == old(self).scope_map,
                self.scope_spec() == s,
                body == def.body@,
                j <= body.len(),
                errors_view(self.errors@) == e1 + body_checks(t, m, s, body.subrange(0, j as int)),
            decreases def.body@.len() - j,
        {
            proof {
                assert(body.subrange(0, j + 1).subrange(0, j as int) =~= body.subrange(0, j as int));
            }
            let body_item = &def.body[j];
            if let ItemKind::Stmt(stmt) = &body_item.node {
                self.validate_stmt(stmt);
            }
            if let ItemKind::Module(inner) = &body_item.node {
                proof {
                    assert(decreases_to!(def => def.body@[j as int]));
                }
                self.validate_module(inner);
            }
            j = j + 1;
        }
        proof {
            assert(body.subrange(0, j as int) =~= body);
        }
        self.current_scope = prev;
    }

    #[verifier::loop_isolation(false)]
    fn validate_stmts(&mut self, stmts: &Vec<Stmt>)
        requires
            old(self).inv(),
        ensures
            final(self).inv(),
            final(self).table == old(self).table,
            final(self).scope_map == old(self).scope_map,
            final(self).current_scope == old(self).current_scope,
            errors_view(final(self).errors@) == errors_view(old(self).errors@) + stmts_checks(
                old(self).table_spec(),
                old(self).scope_spec(),
                stmts@,
            ),
        decreases stmts, 0nat,
    {
        let ghost t = self.table_spec();
        let ghost s = self.scope_spec();
        let mut i: usize = 0;
        while i < stmts.len()
            invariant
                self.inv(),
                self.table == old(self).table,
                self.scope_map == old(self).scope_map,
                self.current_scope == old(self).current_scope,
                i <= stmts@.len(),
                errors_view(self.errors@) == errors_view(old(self).errors@) + stmts_checks(t, s, stmts@.subrange(0, i as int)),
            decreases stmts@.len() - i,
        {
            proof {
                assert(decreases_to!(stmts => stmts@[i as int]));
                assert(stmts@.subrange(0, i + 1).subrange(0, i as int) =~= stmts@.subrange(0, i as int));
            }
            self.validate_stmt(&stmts[i]);
            i = i + 1;
        }
        proof {
            assert(stmts@.subrange(0, i as int) =~= stmts@);
        }
    }

    /// Validate a statement and the statements nested in it.
    #[verifier::rlimit(40)]
    fn validate_stmt(&mut self, stmt: &Stmt)
        requires
            old(self).inv(),
        ensures
            final(self).inv(),
            final(self).table == old(self).table,
            final(self).scope_map == old(self).scope_map,
            final(self).current_scope == old(self).current_scope,
            errors_view(final(self).errors@) == errors_view(old(self).errors@) + stmt_checks(
                old(self).table_spec(),
                old(self).scope_spec(),
                *stmt,
            ),
        decreases stmt, 3nat,
    {
        match &stmt.node {
            StmtKind::CombBlock(stmts) => self.validate_comb_block(stmts, stmt.span),
            StmtKind::RegBlock(reg) => self.validate_reg_block(reg),
            StmtKind::Assign { target, .. } => self.check_immutability(target),
            StmtKind::If(_) => self.validate_if(stmt),
            StmtKind::Match(_) => self.validate_match(stmt),
            StmtKind::For(for_stmt) => self.validate_stmts(&for_stmt.body),
            StmtKind::PriorityBlock(_) => self.validate_priority(stmt),
            StmtKind::ParallelBlock(_) => self.validate_parallel(stmt),
            StmtKind::UncheckedBlock(stmts) => self.validate_stmts(stmts),
            _ => {},
        }
    }

    /// The branches of an `if`, in order.
    #[verifier::loop_isolation(false)]
    #[verifier::rlimit(30)]
    fn validate_if(&mut self, stmt: &Stmt)
        requires
            old(self).inv(),
            stmt.node is If,
        ensures
            final(self).inv(),
            final(self).table == old(self).table,
            final(self).scope_map == old(self).scope_map,
            final(self).current_scope == old(self).current_scope,
            errors_view(final(self).errors@) == errors_view(old(self).errors@) + stmt_checks(
                old(self).table_spec(),
                old(self).scope_spec(),
                *stmt,
            ),
        decreases stmt, 2nat,
    {
        let ghost t = self.table_spec();
        let ghost s = self.scope_spec();
        let if_stmt = match &stmt.node {
            StmtKind::If(if_stmt) => if_stmt,
            _ => {
                return;
            },
        };
        self.validate_stmts(&if_stmt.then_body);
        let ghost e1 = errors_view(self.errors@);
        let ghost v = if_stmt.elif_branches@;
        let mut i: usize = 0;
        while i < if_stmt.elif_branches.len()
            invariant
                self.inv(),
                self.table == old(self).table,
                self.scope_map == old(self).scope_map,
                self.current_scope == old(self).current_scope,
                i <= v.len(),
                errors_view(self.errors@) == e1 + elif_checks(t, s, v.subrange(0, i as int)),
            decreases if_stmt.elif_branches@.len() - i,
        {
            proof {
                assert(decreases_to!(stmt => if_stmt.elif_branches@[i as int].1));
                assert(v.subrange(0, i + 1).subrange(0, i as int) =~= v.subrange(0, i as int));
            }
            self.validate_stmts(&if_stmt.elif_branches[i].1);
            i = i + 1;
        }
        proof {
            assert(v.subrange(0, i as int) =~= v);
        }
        if let Some(else_body) = &if_stmt.else_body {
            self.validate_stmts(else_body);
        }
    }

    /// The arms of a `match`, in order.
    #[verifier::loop_isolation(false)]
    #[verifier::rlimit(30)]
    fn validate_match(&mut self, stmt: &Stmt)
        requires
            old(self).inv(),
            stmt.node is Match,
        ensures
            final(self).inv(),
            final(self).table == old(self).table,
            final(self).scope_map == old(self).scope_map,
            final(self).current_scope == old(self).current_scope,
            errors_view(final(self).errors@) == errors_view(old(self).errors@) + stmt_checks(
                old(self).table_spec(),
                old(self).scope_spec(),
                *stmt,
            ),
        decreases stmt, 2nat,
    {
        let ghost t = self.table_spec();
        let ghost s = self.scope_spec();
        let match_stmt = match &stmt.node {
            StmtKind::Match(m) => m,
            _ => {
                return;
            },
        };
        let ghost e0 = errors_view(self.errors@);
        let ghost v = match_stmt.arms@;
        let mut i: usize = 0;
        while i < match_stmt.arms.len()
            invariant
                self.inv(),
                self.table == old(self).table,
                self.scope_map == old(self).scope_map,
                self.current_scope == old(self).current_scope,
                i <= v.len(),
                errors_view(self.errors@) == e0 + arms_checks(t, s, v.subrange(0, i as int)),
            decreases match_stmt.arms@.len() - i,
        {
            proof {
                assert(decreases_to!(stmt => match_stmt.arms@[i as int].body));
                assert(v.subrange(0, i + 1).subrange(0, i as int) =~= v.subrange(0, i as int));
            }
            self.validate_stmts(&match_stmt.arms[i].body);
            i = i + 1;
        }
        proof {
            assert(v.subrange(0, i as int) =~= v);
        }
    }

    /// The arms of a `priority` block, then its `otherwise` body.
    #[verifier::loop_isolation(false)]
    #[verifier::rlimit(30)]
    fn validate_priority(&mut self, stmt: &Stmt)
        requires
            old(self).inv(),
            stmt.node is PriorityBlock,
        ensures
            final(self).inv(),
            final(self).table == old(self).table,
            final(self).scope_map == old(self).scope_map,
            final(self).current_scope == old(self).current_scope,
            errors_view(final(self).errors@) == errors_view(old(self).errors@) + stmt_checks(
                old(self).table_spec(),
                old(self).scope_spec(),
                *stmt,
            ),
        decreases stmt, 2nat,
    {
        let ghost t = self.table_spec();
        let ghost s = self.scope_spec();
        let pb = match &stmt.node {
            StmtKind::PriorityBlock(pb) => pb,
            _ => {
                return;
            },
        };
        let ghost e0 = errors_view(self.errors@);
        let ghost v = pb.arms@;
        let mut i: usize = 0;
        while i < pb.arms.len()
            invariant
                self.inv(),
                self.table == old(self).table,
                self.scope_map == old(self).scope_map,
                self.current_scope == old(self).current_scope,
                i <= v.len(),
                errors_view(self.errors@) == e0 + parms_checks(t, s, v.subrange(0, i as int)),
            decreases pb.arms@.len() - i,
        {
            proof {
                assert(decreases_to!(stmt => pb.arms@[i as int].body));
                assert(v.subrange(0, i + 1).subrange(0, i as int) =~= v.subrange(0, i as int));
            }
            self.validate_stmts(&pb.arms[i].body);
            i = i + 1;
        }
        proof {
            assert(v.subrange(0, i as int) =~= v);
        }
        if let Some(otherwise) = &pb.otherwise {
            self.validate_stmts(otherwise);
        }
    }

    /// The arms of a `parallel` block, in order.
    #[verifier::loop_isolation(false)]
    #[verifier::rlimit(30)]
    fn validate_parallel(&mut self, stmt: &Stmt)
        requires
            old(self).inv(),
            stmt.node is ParallelBlock,
        ensures
            final(self).inv(),
            final(self).table == old(self).table,
            final(self).scope_map == old(self).scope_map,
            final(self).current_scope == old(self).current_scope,
            errors_view(final(self).errors@) == errors_view(old(self).errors@) + stmt_checks(
                old(self).table_spec(),
                old(self).scope_spec(),
                *stmt,
            ),
        decreases stmt, 2nat,
    {
        let ghost t = self.table_spec();
        let ghost s = self.scope_spec();
        let pb = match &stmt.node {
            StmtKind::ParallelBlock(pb) => pb,
            _ => {
                return;
            },
        };
        let ghost e0 = errors_view(self.errors@);
        let ghost v = pb.arms@;
        let mut i: usize = 0;
        while i < pb.arms.len()
            invariant
                self.inv(),
                self.table == old(self).table,
                self.scope_map == old(self).scope_map,
                self.current_scope == old(self).current_scope,
                i <= v.len(),
                errors_view(self.errors@) == e0 + parms_checks(t, s, v.subrange(0, i as int)),
            decreases pb.arms@.len() - i,
        {
            proof {
                assert(decreases_to!(stmt => pb.arms@[i as int].body));
                assert(v.subrange(0, i + 1).subrange(0, i as int) =~= v.subrange(0, i as int));
            }
            self.validate_stmts(&pb.arms[i].body);
            i = i + 1;
        }
        proof {
            assert(v.subrange(0, i as int) =~= v);
        }
    }

    /// A `comb` block: each signal it assigns but not on every path infers a
    /// latch (signals of error type aside); nested blocks are validated too.
    #[verifier::loop_isolation(false)]
    #[verifier::rlimit(30)]
    fn validate_comb_block(&mut self, stmts: &Vec<Stmt>, block_span: Span)
        requires
            old(self).inv(),
        ensures
            final(self).inv(),
            final(self).table == old(self).table,
            final(self).scope_map == old(self).scope_map,
            final(self).current_scope == old(self).current_scope,
            errors_view(final(self).errors@) == errors_view(old(self).errors@) + latch_errors(
                old(self).table_spec(),
                old(self).scope_spec(),
                add_new(seq![], assign_seq_list(stmts@)),
                definitely(stmts@),
                block_span,
            ) + stmts_checks(old(self).table_spec(), old(self).scope_spec(), stmts@),
        decreases stmts, 1nat,
    {
        let ghost t = self.table_spec();
        let ghost s = self.scope_spec();
        let mut all_assigned: Vec<String> = Vec::new();
        let mut k: usize = 0;
        proof {
            assert(name_seq(all_assigned@) =~= Seq::<Seq<char>>::empty());
        }
        while k < stmts.len()
            invariant
                distinct(all_assigned@),
                k <= stmts@.len(),
                name_seq(all_assigned@) == add_new(seq![], assign_seq_list(stmts@.subrange(0, k as int))),
            decreases stmts@.len() - k,
        {
            proof {
                assert(stmts@.subrange(0, k + 1).subrange(0, k as int) =~= stmts@.subrange(0, k as int));
                lemma_add_new_concat(seq![], assign_seq_list(stmts@.subrange(0, k as int)), assign_seq(stmts@[k as int]));
            }
            collect_assigned_in_stmt(&stmts[k], &mut all_assigned);
            k = k + 1;
        }
        proof {
            assert(stmts@.subrange(0, k as int) =~= stmts@);
        }
        let ghost ns = name_seq(all_assigned@);
        let definitely_assigned = assigned_on_all_paths(stmts);
        let ghost def = definitely(stmts@);
        let ghost e0 = errors_view(self.errors@);
        let mut i: usize = 0;
        while i < all_assigned.len()
            invariant
                self.inv(),
                self.table == old(self).table,
                self.scope_map == old(self).scope_map,
                self.current_scope == old(self).current_scope,
                i <= all_assigned@.len(),
                ns == name_seq(all_assigned@),
                names(definitely_assigned@) == def,
                errors_view(self.errors@) == e0 + latch_errors(t, s, ns.take(i as int), def, block_span),
            decreases all_assigned@.len() - i,
        {
            proof {
                assert(ns.take(i + 1).drop_last() =~= ns.take(i as int));
                assert(ns.take(i + 1).last() == all_assigned@[i as int]@);
            }
            let name = &all_assigned[i];
            if !contains_name(&definitely_assigned, name.as_str()) && !self.has_error_type(name.as_str()) {
                self.report(SemaError::LatchInferred { signal: name.clone(), span: block_span });
            }
            i = i + 1;
        }
        proof {
            assert(ns.take(i as int) =~= ns);
        }
        self.validate_stmts(stmts);
    }

    /// A clocked block: each signal written `on tick` without a reset value
    /// `on reset` is reported (signals of error type aside), at its first
    /// assignment; nested blocks are validated too.
    #[verifier::loop_isolation(false)]
    #[verifier::rlimit(30)]
    fn validate_reg_block(&mut self, reg: &RegBlock)
        requires
            old(self).inv(),
        ensures
            final(self).inv(),
            final(self).table == old(self).table,
            final(self).scope_map == old(self).scope_map,
            final(self).current_scope == old(self).current_scope,
            errors_view(final(self).errors@) == errors_view(old(self).errors@) + reset_errors(
                old(self).table_spec(),
                old(self).scope_spec(),
                add_new(seq![], assign_seq_list(reg.on_tick@)),
                assigned_list(reg.on_reset@),
                reg.on_tick@,
            ) + stmts_checks(old(self).table_spec(), old(self).scope_spec(), reg.on_reset@) + stmts_checks(
                old(self).table_spec(),
                old(self).scope_spec(),
                reg.on_tick@,
            ),
        decreases reg, 0nat,
    {
        let ghost t = self.table_spec();
        let ghost s = self.scope_spec();
        let mut tick_signals: Vec<String> = Vec::new();
        proof {
            assert(name_seq(tick_signals@) =~= Seq::<Seq<char>>::empty());
            assert(names(tick_signals@) =~= Set::<Seq<char>>::empty());
        }
        collect_list(&reg.on_tick, &mut tick_signals);
        let mut reset_signals: Vec<String> = Vec::new();
        proof {
            assert(names(reset_signals@) =~= Set::<Seq<char>>::empty());
        }
        collect_list(&reg.on_reset, &mut reset_signals);
        proof {
            assert(names(reset_signals@) =~= assigned_list(reg.on_reset@));
        }
        let ghost ns = name_seq(tick_signals@);
        let ghost reset = assigned_list(reg.on_reset@);
        let ghost e0 = errors_view(self.errors@);
        let mut i: usize = 0;
        while i < tick_signals.len()
            invariant
                self.inv(),
                self.table == old(self).table,
                self.scope_map == old(self).scope_map,
                self.current_scope == old(self).current_scope,
                i <= tick_signals@.len(),
                ns == name_seq(tick_signals@),
                names(reset_signals@) == reset,
                errors_view(self.errors@) == e0 + reset_errors(t, s, ns.take(i as int), reset, reg.on_tick@),
            decreases tick_signals@.len() - i,
        {
            proof {
                assert(ns.take(i + 1).drop_last() =~= ns.take(i as int));
                assert(ns.take(i + 1).last() == tick_signals@[i as int]@);
            }
            let name = &tick_signals[i];
            if !contains_name(&reset_signals, name.as_str()) && !self.has_error_type(name.as_str()) {
                let span = match find_assign_span(&reg.on_tick, name.as_str()) {
                    Some(sp) => sp,
                    None => if reg.on_tick.len() > 0 {
                        reg.on_tick[0].span
                    } else {
                        Span::new(0, 0)
                    },
                };
                let m = concat(concat("signal `", name.as_str()).as_str(), "` is assigned in `on tick` but has no reset value in `on reset`");
                proof {
                    reveal_strlit("signal `");
                    reveal_strlit("` is assigned in `on tick` but has no reset value in `on reset`");
                }
                self.report(SemaError::Custom { message: m, span });
            }
            i = i + 1;
        }
        proof {
            assert(ns.take(i as int) =~= ns);
        }
        self.validate_stmts(&reg.on_reset);
        self.validate_stmts(&reg.on_tick);
    }

    /// Assigning to a `const` or `let` binding is an invalid assignment target.
    fn check_immutability(&mut self, target: &Expr)
        requires
            old(self).inv(),
        ensures
            final(self).inv(),
            final(self).table == old(self).table,
            final(self).scope_map == old(self).scope_map,
            final(self).current_scope == old(self).current_scope,
            errors_view(final(self).errors@) == errors_view(old(self).errors@) + immutability_errors(
                old(self).table_spec(),
                old(self).scope_spec(),
                *target,
            ),
    {
        if let ExprKind::Ident(name) = &target.node {
            if let Some(sym) = self.table.lookup(self.current_scope, name.as_str()) {
                if sym.kind == SymbolKind::Const || sym.kind == SymbolKind::Let {
                    self.report(SemaError::InvalidAssignTarget { span: target.span });
                }
            }
        }
    }
}

} // verus!
