//! Laws of semantic analysis: what constant evaluation computes, which types
//! the built-in type names denote, the widths that operators give, and which
//! names a block assigns on every path.

use vstd::prelude::*;

use crate::ast::expr::{BinOp, Expr, ExprKind};
use crate::span::Span;

use super::eval::{binary_spec, eval_spec, unary_spec, ConstValue};
use super::types::Ty;
use super::typing::{binary_rule, compat_errors, const_uint, expr_rule, node_rule};
use super::types::ty_display;
use super::check::strip_direction;
use crate::lexer::{NumericBase, NumericLiteral};
use super::error::ErrorView;
use super::scope::SymbolTable;
use crate::ast::expr::UnaryOp;
use vstd::arithmetic::power::pow;
use crate::ast::types::GenericArg;
use super::resolve::{generic_rule, named_rule};
use super::scope::TableView;
use super::validate::{
    add_new, assign_seq_list, assigned_list, contribution, definitely, error_typed, immutability_errors, inter_arms,
    inter_branches, latch_errors, missing_reset_message, port_errors, reset_errors, reset_span, stmt_checks,
};
use super::scope::{find_entry, ScopeId, ScopeKind, SymbolId, SymbolKind};
use super::resolution::{cur, defines_new, r_define, r_define_port, r_push_scope, RState};
use crate::ast::item::Port;
use crate::ast::types::Direction;
use crate::ast::stmt::{MatchArm, Stmt, StmtKind};

verus! {

/// 2^128, the modulus of unsigned constant arithmetic.
pub open spec fn two_pow_128() -> int {
    u128::MAX as int + 1
}

/// Constant arithmetic on unsigned values is arithmetic modulo 2^128:
/// sums, differences and products wrap, division and remainder are the
/// integer ones (and fail on a zero divisor), and comparisons compare.
pub proof fn law_unsigned_constant_arithmetic(span: Span, a: u128, b: u128)
    ensures
        binary_spec(span, BinOp::Add, ConstValue::UInt(a), ConstValue::UInt(b)) matches Ok(ConstValue::UInt(v))
            && v as int == (a as int + b as int) % two_pow_128(),
        binary_spec(span, BinOp::Sub, ConstValue::UInt(a), ConstValue::UInt(b)) matches Ok(ConstValue::UInt(v))
            && v as int == (a as int - b as int) % two_pow_128(),
        binary_spec(span, BinOp::Mul, ConstValue::UInt(a), ConstValue::UInt(b)) matches Ok(ConstValue::UInt(v))
            && v as int == (a as int * b as int) % two_pow_128(),
        b != 0 ==> (binary_spec(span, BinOp::Div, ConstValue::UInt(a), ConstValue::UInt(b)) matches Ok(
            ConstValue::UInt(q),
        ) && q as int * b as int <= a as int && (a as int) < (q as int + 1) * b as int),
        b != 0 ==> match (
            binary_spec(span, BinOp::Div, ConstValue::UInt(a), ConstValue::UInt(b)),
            binary_spec(span, BinOp::Mod, ConstValue::UInt(a), ConstValue::UInt(b)),
        ) {
            (Ok(ConstValue::UInt(q)), Ok(ConstValue::UInt(m))) => m < b && q as int * b as int + m as int == a as int,
            _ => false,
        },
        b == 0 ==> binary_spec(span, BinOp::Div, ConstValue::UInt(a), ConstValue::UInt(b)) is Err,
        b == 0 ==> binary_spec(span, BinOp::Mod, ConstValue::UInt(a), ConstValue::UInt(b)) is Err,
        binary_spec(span, BinOp::Eq, ConstValue::UInt(a), ConstValue::UInt(b)) == Ok::<ConstValue, (Seq<char>, Span)>(
            ConstValue::Bool(a == b),
        ),
        binary_spec(span, BinOp::Ne, ConstValue::UInt(a), ConstValue::UInt(b)) == Ok::<ConstValue, (Seq<char>, Span)>(
            ConstValue::Bool(a != b),
        ),
        binary_spec(span, BinOp::Lt, ConstValue::UInt(a), ConstValue::UInt(b)) == Ok::<ConstValue, (Seq<char>, Span)>(
            ConstValue::Bool(a < b),
        ),
        binary_spec(span, BinOp::Gt, ConstValue::UInt(a), ConstValue::UInt(b)) == Ok::<ConstValue, (Seq<char>, Span)>(
            ConstValue::Bool(a > b),
        ),
        binary_spec(span, BinOp::Le, ConstValue::UInt(a), ConstValue::UInt(b)) == Ok::<ConstValue, (Seq<char>, Span)>(
            ConstValue::Bool(a <= b),
        ),
        binary_spec(span, BinOp::Ge, ConstValue::UInt(a), ConstValue::UInt(b)) == Ok::<ConstValue, (Seq<char>, Span)>(
            ConstValue::Bool(a >= b),
        ),
{
    let m = two_pow_128();
    let ai: int = a as int;
    let bi: int = b as int;
    if ai + bi >= m {
        assert((ai + bi) % m == ai + bi - m) by (nonlinear_arith)
            requires
                m <= ai + bi,
                ai + bi < 2 * m,
                m == two_pow_128(),
        ;
    } else {
        assert((ai + bi) % m == ai + bi) by (nonlinear_arith)
            requires
                0 <= ai + bi,
                ai + bi < m,
                m == two_pow_128(),
        ;
    }
    if a < b {
        assert((ai - bi) % m == ai - bi + m) by (nonlinear_arith)
            requires
                -m < ai - bi,
                ai - bi < 0,
                m == two_pow_128(),
        ;
    } else {
        assert((ai - bi) % m == ai - bi) by (nonlinear_arith)
            requires
                0 <= ai - bi,
                ai - bi < m,
                m == two_pow_128(),
        ;
    }
    assert(0 <= (a as nat * b as nat) % (m as nat) && (a as nat * b as nat) % (m as nat) < m) by (nonlinear_arith)
        requires
            m == two_pow_128(),
    ;
    if b != 0 {
        let q = a / b;
        let qi: int = q as int;
        assert(qi * bi <= ai && ai < (qi + 1) * bi) by (nonlinear_arith)
            requires
                bi > 0,
                qi == ai / bi,
        ;
        vstd::arithmetic::div_mod::lemma_fundamental_div_mod(ai, bi);
        assert(qi * bi == bi * qi) by (nonlinear_arith);
    }
}

/// Logical constants: `and` and `or` of two booleans are their conjunction
/// and disjunction.
pub proof fn law_boolean_constants(span: Span, a: bool, b: bool)
    ensures
        binary_spec(span, BinOp::And, ConstValue::Bool(a), ConstValue::Bool(b)) == Ok::<ConstValue, (Seq<char>, Span)>(
            ConstValue::Bool(a && b),
        ),
        binary_spec(span, BinOp::Or, ConstValue::Bool(a), ConstValue::Bool(b)) == Ok::<ConstValue, (Seq<char>, Span)>(
            ConstValue::Bool(a || b),
        ),
{
}

/// Evaluating a binary expression evaluates its operands and combines their
/// values: the left operand is the left argument, so the product of
/// operands worth `a` and `b` is `a * b` modulo 2^128, and `l - r` is
/// `a - b` modulo 2^128.
pub proof fn law_eval_binary_operands(env: Seq<(String, ConstValue)>, e: Expr, a: u128, b: u128)
    requires
        e.node matches ExprKind::Binary { lhs, rhs, .. } && eval_spec(env, *lhs) == Ok::<ConstValue, (Seq<char>, Span)>(
            ConstValue::UInt(a),
        ) && eval_spec(env, *rhs) == Ok::<ConstValue, (Seq<char>, Span)>(ConstValue::UInt(b)),
    ensures
        e.node matches ExprKind::Binary { op, .. } && eval_spec(env, e) == binary_spec(
            e.span,
            op,
            ConstValue::UInt(a),
            ConstValue::UInt(b),
        ),
        e.node->Binary_op == BinOp::Mul ==> (eval_spec(env, e) matches Ok(ConstValue::UInt(v)) && v as int == (a as int
            * b as int) % two_pow_128()),
        e.node->Binary_op == BinOp::Add ==> (eval_spec(env, e) matches Ok(ConstValue::UInt(v)) && v as int == (a as int
            + b as int) % two_pow_128()),
        e.node->Binary_op == BinOp::Sub ==> (eval_spec(env, e) matches Ok(ConstValue::UInt(v)) && v as int == (a as int
            - b as int) % two_pow_128()),
{
    law_unsigned_constant_arithmetic(e.span, a, b);
}

/// Powers of unsigned constants: `a ** b` is `a` to the power `b` where the
/// exponent fits in 32 bits and the power in 128; otherwise an error.
pub proof fn law_constant_power(span: Span, a: u128, b: u128)
    ensures
        b <= u32::MAX && pow(a as int, b as nat) <= u128::MAX ==> (binary_spec(
            span,
            BinOp::Pow,
            ConstValue::UInt(a),
            ConstValue::UInt(b),
        ) matches Ok(ConstValue::UInt(v)) && v as int == pow(a as int, b as nat)),
        !(b <= u32::MAX && pow(a as int, b as nat) <= u128::MAX) ==> binary_spec(
            span,
            BinOp::Pow,
            ConstValue::UInt(a),
            ConstValue::UInt(b),
        ) is Err,
{
    if a > 0 {
        vstd::arithmetic::power::lemma_pow_positive(a as int, b as nat);
    } else if b > 0 {
        assert(pow(0, b as nat) == 0) by {
            reveal(pow);
        }
    } else {
        assert(pow(a as int, 0) == 1) by {
            reveal(pow);
        }
    }
}

/// Negating an unsigned constant gives its negation as a signed value, and
/// `not` of a boolean constant its complement.
pub proof fn law_unary_constants(span: Span, n: u128, b: bool)
    ensures
        n <= i128::MAX ==> (unary_spec(span, UnaryOp::Neg, ConstValue::UInt(n)) matches Ok(ConstValue::Int(v)) && v
            == -(n as int)),
        unary_spec(span, UnaryOp::LogicalNot, ConstValue::Bool(b)) == Ok::<ConstValue, (Seq<char>, Span)>(
            ConstValue::Bool(!b),
        ),
{
}

/// The integer or bit-vector type of one family: 0 unsigned, 1 signed,
/// 2 bit-vector, of width `w`.
pub open spec fn family_type(family: int, w: u64) -> Ty {
    if family == 0 {
        Ty::UInt(w)
    } else if family == 1 {
        Ty::SInt(w)
    } else {
        Ty::Bits(w)
    }
}

/// The types that operators give operands of one family, of widths `n` and
/// `m`, without errors: a sum, difference or bitwise operation is as wide as
/// the wider operand; a product is as wide as both together; a quotient or
/// remainder has the left operand's type; a comparison is `Bool`; a
/// concatenation is a bit-vector as wide as both together.
pub proof fn law_operator_widths(family: int, n: u64, m: u64, op: BinOp, lhs: Expr, rhs: Expr, span: Span)
    requires
        0 <= family <= 2,
    ensures
        ({
            let l = family_type(family, n);
            let r = family_type(family, m);
            let res = binary_rule(op, l, r, lhs, rhs, span);
            &&& (op == BinOp::Add || op == BinOp::Sub || op == BinOp::BitAnd || op == BinOp::BitOr || op == BinOp::BitXor)
                ==> res == (family_type(family, if n >= m { n } else { m }), Seq::<ErrorView>::empty())
            &&& op == BinOp::Mul && n + m <= u64::MAX ==> res == (family_type(family, (n + m) as u64), Seq::<ErrorView>::empty())
            &&& (op == BinOp::Div || op == BinOp::Mod) ==> res == (l, Seq::<ErrorView>::empty())
            &&& (op == BinOp::Eq || op == BinOp::Ne || op == BinOp::Lt || op == BinOp::Gt || op == BinOp::Le || op
                == BinOp::Ge) ==> res == (Ty::Bool, Seq::<ErrorView>::empty())
            &&& op == BinOp::Concat && n + m <= u64::MAX ==> res == (Ty::Bits((n + m) as u64), Seq::<ErrorView>::empty())
        }),
{
}

/// Logical operators on booleans give a boolean without errors.
pub proof fn law_logical_operator_types(op: BinOp, lhs: Expr, rhs: Expr, span: Span)
    ensures
        (op == BinOp::And || op == BinOp::Or || op == BinOp::Implies) ==> binary_rule(op, Ty::Bool, Ty::Bool, lhs, rhs, span)
            == (Ty::Bool, Seq::<ErrorView>::empty()),
{
}

/// The type of `l op r` whose operands check without errors as unsigned
/// integers of widths `n` and `m`: `l * r` is `n + m` wide, `l + r` as wide
/// as the wider operand, and `l == r` is `Bool`, with no error.
pub proof fn law_binary_expression_types(t: SymbolTable, s: int, e: Expr, n: u64, m: u64)
    requires
        e.node matches ExprKind::Binary { lhs, rhs, .. } && expr_rule(t, s, *lhs) == (Ty::UInt(n), Seq::<ErrorView>::empty())
            && expr_rule(t, s, *rhs) == (Ty::UInt(m), Seq::<ErrorView>::empty()),
    ensures
        e.node->Binary_op == BinOp::Mul && n + m <= u64::MAX ==> expr_rule(t, s, e) == (Ty::UInt((n + m) as u64), Seq::<ErrorView>::empty()),
        e.node->Binary_op == BinOp::Add ==> expr_rule(t, s, e) == (Ty::UInt(if n >= m { n } else { m }), Seq::<ErrorView>::empty()),
        e.node->Binary_op == BinOp::Eq ==> expr_rule(t, s, e) == (Ty::Bool, Seq::<ErrorView>::empty()),
{
    law_operator_widths(0, n, m, e.node->Binary_op, *e.node->Binary_lhs, *e.node->Binary_rhs, e.span);
    assert(Seq::<ErrorView>::empty() + Seq::<ErrorView>::empty() + Seq::<ErrorView>::empty() =~= Seq::<ErrorView>::empty());
}

/// The built-in type names are different names.
proof fn lemma_builtin_names_differ()
    ensures
        "SInt"@ != "UInt"@,
        "Bits"@ != "UInt"@,
        "Bits"@ != "SInt"@,
        "Clock"@ != "UInt"@,
        "Clock"@ != "SInt"@,
        "Clock"@ != "Bits"@,
        "Clock"@ != "Fixed"@,
        "Clock"@ != "Bool"@,
        "SyncReset"@ != "Bool"@,
        "SyncReset"@ != "Clock"@,
        "AsyncReset"@ != "Bool"@,
        "AsyncReset"@ != "Clock"@,
        "AsyncReset"@ != "SyncReset"@,
        "UInt"@ != "Bool"@,
        "UInt"@ != "Clock"@,
        "UInt"@ != "SyncReset"@,
        "UInt"@ != "AsyncReset"@,
        "UInt"@ != "uint"@,
        "UInt"@ != "int"@,
        "UInt"@ != "bool"@,
        "UInt"@ != "float"@,
        "UInt"@ != "string"@,
        "SInt"@ != "Bool"@,
        "SInt"@ != "Clock"@,
        "SInt"@ != "SyncReset"@,
        "SInt"@ != "AsyncReset"@,
        "SInt"@ != "uint"@,
        "SInt"@ != "int"@,
        "SInt"@ != "bool"@,
        "SInt"@ != "float"@,
        "SInt"@ != "string"@,
{
    reveal_strlit("UInt");
    reveal_strlit("SInt");
    reveal_strlit("Bits");
    reveal_strlit("Fixed");
    reveal_strlit("Clock");
    reveal_strlit("Bool");
    reveal_strlit("SyncReset");
    reveal_strlit("AsyncReset");
    reveal_strlit("uint");
    reveal_strlit("int");
    reveal_strlit("bool");
    reveal_strlit("float");
    reveal_strlit("string");
    assert("SInt"@[0] != "UInt"@[0]);
    assert("Bits"@[0] != "UInt"@[0]);
    assert("Bits"@[0] != "SInt"@[0]);
    assert("Clock"@[0] != "Bool"@[0]);
    assert("SyncReset"@[0] != "Bool"@[0]);
    assert("SyncReset"@[0] != "Clock"@[0]);
    assert("AsyncReset"@[0] != "Bool"@[0]);
    assert("AsyncReset"@[0] != "Clock"@[0]);
    assert("AsyncReset"@[0] != "SyncReset"@[0]);
    assert("UInt"@[0] != "Bool"@[0]);
    assert("UInt"@[0] != "uint"@[0]);
    assert("SInt"@[0] != "Bool"@[0]);
    assert("SInt"@[0] != "SyncReset"@[1]);
    assert("SInt"@[1] != "SyncReset"@[1]);
    assert("SInt"@[0] != "uint"@[0]);
    assert("UInt"@[0] != "bool"@[0]);
    assert("SInt"@[0] != "bool"@[0]);
}

/// The built-in width types: `UInt<n>`, `SInt<n>` and `Bits<n>` whose
/// parameter is the constant `n` are the unsigned, signed and plain
/// bit-vector types of width `n`, and `Clock<n>` the clock of frequency `n`,
/// without errors.
pub proof fn law_width_types(
    t: TableView,
    s: int,
    env: Seq<(String, ConstValue)>,
    params: Seq<GenericArg>,
    e: Expr,
    n: u128,
    span: Span,
)
    requires
        params.len() >= 1,
        params[0] == GenericArg::Expr(e),
        eval_spec(env, e) == Ok::<ConstValue, (Seq<char>, Span)>(ConstValue::UInt(n)),
        n <= u64::MAX,
    ensures
        generic_rule(t, s, env, "UInt"@, params, span) == (Ty::UInt(n as u64), Seq::<ErrorView>::empty()),
        generic_rule(t, s, env, "SInt"@, params, span) == (Ty::SInt(n as u64), Seq::<ErrorView>::empty()),
        generic_rule(t, s, env, "Bits"@, params, span) == (Ty::Bits(n as u64), Seq::<ErrorView>::empty()),
        generic_rule(t, s, env, "Clock"@, params, span) == (Ty::Clock { freq: Some(n as u64) }, Seq::<ErrorView>::empty()),
{
    lemma_builtin_names_differ();
    reveal_strlit("UInt");
    reveal_strlit("SInt");
    reveal_strlit("Bits");
    reveal_strlit("Fixed");
    reveal_strlit("Clock");
}

/// Signed and unsigned types of the same parameters differ only in their
/// signedness: `SInt<..>` is signed, `UInt<..>` unsigned and `Bits<..>` a
/// plain bit-vector, all of one width.
pub proof fn law_signedness_of_width_types(
    t: TableView,
    s: int,
    env: Seq<(String, ConstValue)>,
    params: Seq<GenericArg>,
    span: Span,
)
    ensures
        generic_rule(t, s, env, "UInt"@, params, span).0 matches Ty::UInt(w) && generic_rule(t, s, env, "SInt"@, params, span).0
            == Ty::SInt(w) && generic_rule(t, s, env, "Bits"@, params, span).0 == Ty::Bits(w),
{
    lemma_builtin_names_differ();
    reveal_strlit("UInt");
    reveal_strlit("SInt");
    reveal_strlit("Bits");
    reveal_strlit("Fixed");
    reveal_strlit("Clock");
}

/// The built-in type names: `Bool`, `Clock` (of unknown frequency),
/// `SyncReset` and `AsyncReset` denote those types, without errors; a width
/// type written without its parameter is an error.
pub proof fn law_builtin_type_names(t: TableView, s: int, span: Span)
    ensures
        named_rule(t, s, "Bool"@, span) == (Ty::Bool, Seq::<ErrorView>::empty()),
        named_rule(t, s, "Clock"@, span) == (Ty::Clock { freq: None }, Seq::<ErrorView>::empty()),
        named_rule(t, s, "SyncReset"@, span) == (Ty::SyncReset, Seq::<ErrorView>::empty()),
        named_rule(t, s, "AsyncReset"@, span) == (Ty::AsyncReset, Seq::<ErrorView>::empty()),
        named_rule(t, s, "UInt"@, span).0 == Ty::Error && named_rule(t, s, "UInt"@, span).1.len() == 1,
        named_rule(t, s, "SInt"@, span).0 == Ty::Error && named_rule(t, s, "SInt"@, span).1.len() == 1,
{
    lemma_builtin_names_differ();
    reveal_strlit("Bool");
    reveal_strlit("Clock");
    reveal_strlit("SyncReset");
    reveal_strlit("AsyncReset");
    reveal_strlit("UInt");
    reveal_strlit("SInt");
    reveal_strlit("Bits");
    reveal_strlit("Fixed");
    reveal_strlit("uint");
    reveal_strlit("int");
    reveal_strlit("bool");
    reveal_strlit("float");
    reveal_strlit("string");
}

/// A name is assigned on every path through all `elif` branches exactly
/// when every one of their bodies assigns it on every path.
proof fn lemma_inter_branches(v: Seq<(Expr, Vec<Stmt>)>, n: Seq<char>)
    ensures
        inter_branches(v).contains(n) <==> forall|i: int| 0 <= i < v.len() ==> #[trigger] definitely(v[i].1@).contains(n),
    decreases v.len(),
{
    if v.len() > 0 {
        let init = v.subrange(0, v.len() - 1);
        lemma_inter_branches(init, n);
        assert forall|i: int| 0 <= i < init.len() implies init[i] == v[i] by {}
        if inter_branches(v).contains(n) {
            assert forall|i: int| 0 <= i < v.len() implies #[trigger] definitely(v[i].1@).contains(n) by {
                if i < init.len() {
                    assert(init[i] == v[i]);
                }
            }
        } else if forall|i: int| 0 <= i < v.len() ==> #[trigger] definitely(v[i].1@).contains(n) {
            assert forall|i: int| 0 <= i < init.len() implies #[trigger] definitely(init[i].1@).contains(n) by {
                assert(init[i] == v[i]);
                assert(definitely(v[i].1@).contains(n));
            }
            assert(definitely(v[v.len() - 1].1@).contains(n));
        }
    }
}

/// A name is assigned on every path through all match arms exactly when
/// every arm's body assigns it on every path.
proof fn lemma_inter_arms(v: Seq<MatchArm>, n: Seq<char>)
    ensures
        inter_arms(v).contains(n) <==> forall|i: int| 0 <= i < v.len() ==> #[trigger] definitely(v[i].body@).contains(n),
    decreases v.len(),
{
    if v.len() > 0 {
        let init = v.subrange(0, v.len() - 1);
        lemma_inter_arms(init, n);
        if inter_arms(v).contains(n) {
            assert forall|i: int| 0 <= i < v.len() implies #[trigger] definitely(v[i].body@).contains(n) by {
                if i < init.len() {
                    assert(init[i] == v[i]);
                }
            }
        } else if forall|i: int| 0 <= i < v.len() ==> #[trigger] definitely(v[i].body@).contains(n) {
            assert forall|i: int| 0 <= i < init.len() implies #[trigger] definitely(init[i].body@).contains(n) by {
                assert(init[i] == v[i]);
                assert(definitely(v[i].body@).contains(n));
            }
            assert(definitely(v[v.len() - 1].body@).contains(n));
        }
    }
}

/// A list of statements assigns a name on every path exactly when one of
/// its statements does.
pub proof fn law_definitely_is_some_statement(v: Seq<Stmt>, n: Seq<char>)
    ensures
        definitely(v).contains(n) <==> exists|i: int| 0 <= i < v.len() && #[trigger] contribution(v[i]).contains(n),
    decreases v.len(),
{
    if v.len() > 0 {
        let init = v.subrange(0, v.len() - 1);
        law_definitely_is_some_statement(init, n);
        if definitely(v).contains(n) {
            if definitely(init).contains(n) {
                let i = choose|i: int| 0 <= i < init.len() && #[trigger] contribution(init[i]).contains(n);
                assert(init[i] == v[i]);
            } else {
                assert(contribution(v[v.len() - 1]).contains(n));
            }
        } else if exists|i: int| 0 <= i < v.len() && #[trigger] contribution(v[i]).contains(n) {
            let i = choose|i: int| 0 <= i < v.len() && #[trigger] contribution(v[i]).contains(n);
            if i < init.len() {
                assert(init[i] == v[i]);
                assert(contribution(init[i]).contains(n));
            }
        }
    }
}

/// What an `if` assigns on every path: without `else`, nothing (the
/// condition may be false); with `else`, exactly the names that the `then`
/// branch, every `elif` branch and the `else` branch all assign on every
/// path.
pub proof fn law_if_assigns_on_all_paths(st: Stmt, n: Seq<char>)
    requires
        st.node is If,
    ensures
        st.node->If_0.else_body is None ==> !contribution(st).contains(n),
        st.node->If_0.else_body matches Some(e) ==> (contribution(st).contains(n) <==> (definitely(
            st.node->If_0.then_body@,
        ).contains(n) && definitely(e@).contains(n) && forall|i: int|
            0 <= i < st.node->If_0.elif_branches@.len() ==> #[trigger] definitely(
                st.node->If_0.elif_branches@[i].1@,
            ).contains(n))),
{
    lemma_inter_branches(st.node->If_0.elif_branches@, n);
}

/// The pattern `_`.
pub open spec fn underscore(p: Expr) -> bool {
    match p.node {
        ExprKind::Ident(w) => w@ == "_"@,
        _ => false,
    }
}

/// What a `match` assigns on every path: with a wildcard arm, exactly the
/// names every arm assigns on every path; without one, nothing.
pub proof fn law_match_assigns_on_all_paths(st: Stmt, n: Seq<char>)
    requires
        st.node is Match,
    ensures
        (exists|i: int| 0 <= i < st.node->Match_0.arms@.len() && underscore(#[trigger] st.node->Match_0.arms@[i].pattern)) ==> (contribution(st).contains(n) <==> forall|i: int|
            0 <= i < st.node->Match_0.arms@.len() ==> #[trigger] definitely(st.node->Match_0.arms@[i].body@).contains(n)),
        !(exists|i: int| 0 <= i < st.node->Match_0.arms@.len() && underscore(#[trigger] st.node->Match_0.arms@[i].pattern)) ==> !contribution(st).contains(n),
{
    lemma_inter_arms(st.node->Match_0.arms@, n);
}

/// An assignment to a name assigns that name on every path, and only it.
pub proof fn law_assignment_assigns_its_name(st: Stmt, n: Seq<char>)
    requires
        st.node matches StmtKind::Assign { target, .. } && target.node is Ident,
    ensures
        contribution(st).contains(n) <==> n == st.node->Assign_target.node->Ident_0@,
{
}

/// A nested `comb` or `unchecked` block assigns on every path what its body
/// does; an assignment to anything but a plain name, and every statement
/// that is neither an assignment, an `if`, a `match` nor such a block (a
/// loop, a declaration, a `reg` block, an assertion), assigns nothing on
/// every path.
pub proof fn law_other_statements_assign(st: Stmt, n: Seq<char>)
    ensures
        st.node matches StmtKind::CombBlock(v) ==> (contribution(st).contains(n) <==> definitely(v@).contains(n)),
        st.node matches StmtKind::UncheckedBlock(v) ==> (contribution(st).contains(n) <==> definitely(v@).contains(n)),
        st.node matches StmtKind::Assign { target, .. } && !(target.node is Ident) ==> !contribution(st).contains(n),
        !(st.node is Assign || st.node is If || st.node is Match || st.node is CombBlock || st.node is UncheckedBlock)
            ==> !contribution(st).contains(n),
{
}

/// The types of literals: a sized integer literal is unsigned of its width,
/// an unsized one is the unsized integer `UInt<0>`, a boolean literal is
/// `Bool`; none reports an error.
pub proof fn law_literal_types(t: SymbolTable, s: int, e: Expr)
    ensures
        e.node matches ExprKind::IntLiteral(NumericLiteral::Sized { width, .. }) ==> expr_rule(t, s, e) == (
            Ty::UInt(width as u64),
            Seq::<ErrorView>::empty(),
        ),
        e.node matches ExprKind::IntLiteral(NumericLiteral::Decimal(_)) ==> expr_rule(t, s, e) == (
            Ty::UInt(0),
            Seq::<ErrorView>::empty(),
        ),
        e.node is BoolLiteral ==> expr_rule(t, s, e) == (Ty::Bool, Seq::<ErrorView>::empty()),
{
}

/// `not` of a boolean is a boolean; `not` of anything else of known type is
/// an error whose type is `Error`; negation keeps its operand's type.
pub proof fn law_unary_types(t: SymbolTable, s: int, e: Expr, ty: Ty)
    requires
        e.node matches ExprKind::Unary { operand, .. } && expr_rule(t, s, *operand) == (ty, Seq::<ErrorView>::empty()),
        ty != Ty::Error,
    ensures
        e.node->Unary_op == UnaryOp::LogicalNot && ty == Ty::Bool ==> expr_rule(t, s, e) == (Ty::Bool, Seq::<ErrorView>::empty()),
        e.node->Unary_op == UnaryOp::LogicalNot && ty != Ty::Bool ==> expr_rule(t, s, e).0 == Ty::Error && expr_rule(t, s, e).1
            == seq![
            ErrorView::TypeMismatch {
                expected: "Bool"@,
                found: ty_display(ty),
                span: e.node->Unary_operand.span,
            },
        ],
        e.node->Unary_op == UnaryOp::Neg ==> expr_rule(t, s, e) == (ty, Seq::<ErrorView>::empty()),
{
    assert(Seq::<ErrorView>::empty() + Seq::<ErrorView>::empty() =~= Seq::<ErrorView>::empty());
}

/// A conditional expression with a `Bool` condition and branches of one
/// type has that type; branches of two different known types are an error.
pub proof fn law_conditional_types(t: SymbolTable, s: int, e: Expr, a: Ty, b: Ty)
    requires
        e.node matches ExprKind::IfExpr { condition, then_expr, else_expr } && expr_rule(t, s, *condition) == (
            Ty::Bool,
            Seq::<ErrorView>::empty(),
        ) && expr_rule(t, s, *then_expr) == (a, Seq::<ErrorView>::empty()) && expr_rule(t, s, *else_expr) == (
            b,
            Seq::<ErrorView>::empty(),
        ),
        a != Ty::Error,
        b != Ty::Error,
    ensures
        a == b ==> expr_rule(t, s, e) == (a, Seq::<ErrorView>::empty()),
        a != b ==> expr_rule(t, s, e).0 == Ty::Error && expr_rule(t, s, e).1 == seq![
            ErrorView::TypeMismatch {
                expected: ty_display(a),
                found: ty_display(b),
                span: e.node->IfExpr_else_expr.span,
            },
        ],
{
    assert(Seq::<ErrorView>::empty() + Seq::<ErrorView>::empty() + Seq::<ErrorView>::empty()
        + Seq::<ErrorView>::empty() =~= Seq::<ErrorView>::empty());
}

/// Indexing an array gives its element; indexing an integer or bit-vector
/// gives one bit, a `Bool`.
pub proof fn law_index_types(t: SymbolTable, s: int, e: Expr, a: Ty)
    requires
        e.node matches ExprKind::Index { array, .. } && expr_rule(t, s, *array) == (a, Seq::<ErrorView>::empty()),
    ensures
        a matches Ty::Array { element, .. } ==> expr_rule(t, s, e) == (*element, Seq::<ErrorView>::empty()),
        (a is UInt || a is SInt || a is Bits) ==> expr_rule(t, s, e) == (Ty::Bool, Seq::<ErrorView>::empty()),
{
}

/// Arithmetic on operands of different families is an error: unsigned with
/// signed, or either with a bit-vector, reports one type mismatch naming
/// both types, and a boolean operand is not numeric.
pub proof fn law_mixed_operands(op: BinOp, n: u64, m: u64, lhs: Expr, rhs: Expr, span: Span)
    requires
        op == BinOp::Add || op == BinOp::Sub || op == BinOp::Mul || op == BinOp::Div || op == BinOp::Mod
            || op == BinOp::BitAnd || op == BinOp::BitOr || op == BinOp::BitXor,
        n != 0,
        m != 0,
    ensures
        binary_rule(op, Ty::UInt(n), Ty::SInt(m), lhs, rhs, span).1 == seq![
            ErrorView::TypeMismatch { expected: ty_display(Ty::UInt(n)), found: ty_display(Ty::SInt(m)), span },
        ],
        binary_rule(op, Ty::SInt(n), Ty::UInt(m), lhs, rhs, span).1 == seq![
            ErrorView::TypeMismatch { expected: ty_display(Ty::SInt(n)), found: ty_display(Ty::UInt(m)), span },
        ],
        binary_rule(op, Ty::UInt(n), Ty::Bits(m), lhs, rhs, span).1.len() == 1,
        binary_rule(op, Ty::Bool, Ty::UInt(m), lhs, rhs, span).1 == seq![
            ErrorView::TypeMismatch { expected: "numeric type (UInt, SInt, Bits)"@, found: ty_display(Ty::Bool), span },
        ],
{
}

/// Assigning to a target: an unsigned value wider than its unsigned target
/// is a width mismatch naming both widths; unsigned and signed do not mix,
/// whichever way round, and report one type mismatch naming both types.
pub proof fn law_assignment_errors(n: u64, m: u64, span: Span)
    requires
        m != 0,
    ensures
        m > n ==> compat_errors(Ty::UInt(n), Ty::UInt(m), span) == seq![
            ErrorView::WidthMismatch { expected: n, found: m, span },
        ],
        m <= n ==> compat_errors(Ty::UInt(n), Ty::UInt(m), span) == Seq::<ErrorView>::empty(),
        compat_errors(Ty::SInt(n), Ty::UInt(m), span) == seq![
            ErrorView::TypeMismatch { expected: ty_display(Ty::SInt(n)), found: ty_display(Ty::UInt(m)), span },
        ],
        compat_errors(Ty::UInt(n), Ty::SInt(m), span) == seq![
            ErrorView::TypeMismatch { expected: ty_display(Ty::UInt(n)), found: ty_display(Ty::SInt(m)), span },
        ],
{
}

/// Evaluating literals gives their values; a parenthesised expression is
/// worth what is inside; `if c then a else b` is worth `a` where `c` is
/// true and `b` where it is false.
pub proof fn law_eval_leaves(env: Seq<(String, ConstValue)>, e: Expr)
    ensures
        e.node matches ExprKind::IntLiteral(NumericLiteral::Decimal(v)) ==> eval_spec(env, e) == Ok::<
            ConstValue,
            (Seq<char>, Span),
        >(ConstValue::UInt(v)),
        e.node matches ExprKind::IntLiteral(NumericLiteral::Hex(v)) ==> eval_spec(env, e) == Ok::<
            ConstValue,
            (Seq<char>, Span),
        >(ConstValue::UInt(v)),
        e.node matches ExprKind::IntLiteral(NumericLiteral::Sized { value, .. }) ==> eval_spec(env, e) == Ok::<
            ConstValue,
            (Seq<char>, Span),
        >(ConstValue::UInt(value)),
        e.node matches ExprKind::BoolLiteral(b) ==> eval_spec(env, e) == Ok::<ConstValue, (Seq<char>, Span)>(
            ConstValue::Bool(b),
        ),
        e.node matches ExprKind::Paren(inner) ==> eval_spec(env, e) == eval_spec(env, *inner),
        e.node matches ExprKind::IfExpr { condition, then_expr, else_expr } ==> {
            &&& eval_spec(env, *condition) == Ok::<ConstValue, (Seq<char>, Span)>(ConstValue::Bool(true)) ==> eval_spec(env, e)
                == eval_spec(env, *then_expr)
            &&& eval_spec(env, *condition) == Ok::<ConstValue, (Seq<char>, Span)>(ConstValue::Bool(false)) ==> eval_spec(env, e)
                == eval_spec(env, *else_expr)
        },
{
}

/// A name is worth the value it was bound to last: binding `name` to `v`
/// after any bindings makes `name` worth `v`, and leaves other names as
/// they were.
pub proof fn law_eval_names(env: Seq<(String, ConstValue)>, e: Expr, name: String, v: ConstValue)
    requires
        e.node is Ident,
    ensures
        e.node->Ident_0@ == name@ ==> eval_spec(env.push((name, v)), e) == Ok::<ConstValue, (Seq<char>, Span)>(v),
        e.node->Ident_0@ != name@ ==> eval_spec(env.push((name, v)), e) == eval_spec(env, e),
{
    assert(env.push((name, v)).drop_last() =~= env);
}

/// Adding names one by one, skipping those already there, keeps exactly
/// the names added: each once.
pub proof fn law_add_new_members(ns: Seq<Seq<char>>, n: Seq<char>)
    ensures
        add_new(seq![], ns).contains(n) <==> ns.contains(n),
    decreases ns.len(),
{
    if ns.len() > 0 {
        let init = ns.drop_last();
        let l = ns.last();
        law_add_new_members(init, n);
        let a = add_new(seq![], init);
        assert(ns.contains(n) <==> (init.contains(n) || n == l)) by {
            if ns.contains(n) && n != l {
                let i = choose|i: int| 0 <= i < ns.len() && ns[i] == n;
                assert(init[i] == n);
            }
            if init.contains(n) {
                let i = choose|i: int| 0 <= i < init.len() && init[i] == n;
                assert(ns[i] == n);
            }
            assert(ns[ns.len() - 1] == l);
        }
        if !a.contains(l) {
            assert(a.push(l).contains(n) <==> (a.contains(n) || n == l)) by {
                if a.push(l).contains(n) && n != l {
                    let i = choose|i: int| 0 <= i < a.push(l).len() && a.push(l)[i] == n;
                    assert(a[i] == n);
                }
                if a.contains(n) {
                    let i = choose|i: int| 0 <= i < a.len() && a[i] == n;
                    assert(a.push(l)[i] == n);
                }
                assert(a.push(l)[a.len() as int] == l);
            }
        }
    }
}

/// The latches reported for a block: each one a latch at the block, and a
/// latch for a name exactly when the name is among those assigned, is not
/// assigned on every path, and is not of error type.
pub proof fn law_latch_errors(t: SymbolTable, s: int, ns: Seq<Seq<char>>, def: Set<Seq<char>>, span: Span, n: Seq<char>)
    ensures
        latch_errors(t, s, ns, def, span).contains((ErrorView::LatchInferred { signal: n, span })) <==> (ns.contains(n)
            && !def.contains(n) && !error_typed(t, s, n)),
        forall|i: int| 0 <= i < latch_errors(t, s, ns, def, span).len() ==> ((#[trigger] latch_errors(t, s, ns, def, span)[i])
            matches ErrorView::LatchInferred { signal, span: sp } && sp == span && ns.contains(signal)),
    decreases ns.len(),
{
    if ns.len() > 0 {
        let init = ns.drop_last();
        let last = ns.last();
        law_latch_errors(t, s, init, def, span, n);
        let a = latch_errors(t, s, init, def, span);
        let full = latch_errors(t, s, ns, def, span);
        let tail = if !def.contains(last) && !error_typed(t, s, last) {
            seq![ErrorView::LatchInferred { signal: last, span }]
        } else {
            Seq::<ErrorView>::empty()
        };
        assert(full == a + tail);
        assert forall|i: int| 0 <= i < full.len() implies (#[trigger] full[i]) matches ErrorView::LatchInferred {
            signal,
            span: sp,
        } && sp == span && ns.contains(signal) by {
            if i < a.len() {
                assert(full[i] == a[i]);
                if let ErrorView::LatchInferred { signal, .. } = a[i] {
                    let j = choose|j: int| 0 <= j < init.len() && init[j] == signal;
                    assert(ns[j] == signal);
                }
            } else {
                assert(full[i] == tail[i - a.len()]);
                assert(ns[ns.len() - 1] == last);
            }
        }
        if full.contains(ErrorView::LatchInferred { signal: n, span }) {
            let i = choose|i: int| 0 <= i < full.len() && full[i] == ErrorView::LatchInferred { signal: n, span };
            if i < a.len() {
                assert(a[i] == full[i]);
                let j = choose|j: int| 0 <= j < init.len() && init[j] == n;
                assert(ns[j] == n);
            } else {
                assert(ns[ns.len() - 1] == n);
            }
        }
        if ns.contains(n) && !def.contains(n) && !error_typed(t, s, n) {
            let j = choose|j: int| 0 <= j < ns.len() && ns[j] == n;
            if j < init.len() {
                assert(init[j] == n);
                let i = choose|i: int| 0 <= i < a.len() && a[i] == ErrorView::LatchInferred { signal: n, span };
                assert(full[i] == a[i]);
            } else {
                assert(full[a.len() as int] == ErrorView::LatchInferred { signal: n, span });
            }
        }
    }
}

/// A combinational block reports a latch at the block for a name exactly
/// when the block assigns the name somewhere but not on every path, and
/// the name is not of error type: the latches come first among its errors.
pub proof fn law_comb_block_latches(t: SymbolTable, s: int, st: Stmt, n: Seq<char>)
    requires
        st.node is CombBlock,
    ensures
        ({
            let v = st.node->CombBlock_0@;
            let latches = latch_errors(t, s, add_new(seq![], assign_seq_list(v)), definitely(v), st.span);
            &&& stmt_checks(t, s, st) == latches + stmt_checks(t, s, st).subrange(latches.len() as int, stmt_checks(t, s, st).len() as int)
            &&& latches.contains((ErrorView::LatchInferred { signal: n, span: st.span })) <==> (assign_seq_list(v).contains(n)
                && !definitely(v).contains(n) && !error_typed(t, s, n))
        }),
{
    let v = st.node->CombBlock_0@;
    law_latch_errors(t, s, add_new(seq![], assign_seq_list(v)), definitely(v), st.span, n);
    law_add_new_members(assign_seq_list(v), n);
    let latches = latch_errors(t, s, add_new(seq![], assign_seq_list(v)), definitely(v), st.span);
    assert(stmt_checks(t, s, st).subrange(latches.len() as int, stmt_checks(t, s, st).len() as int)
        =~= super::validate::stmts_checks(t, s, v));
}

/// The registers reported for a missing reset: a missing reset for a name
/// exactly when it is among those written on tick, `on reset` does not
/// assign it, and it is not of error type.
pub proof fn law_reset_errors(t: SymbolTable, s: int, ns: Seq<Seq<char>>, reset: Set<Seq<char>>, on_tick: Seq<Stmt>, n: Seq<char>)
    ensures
        ns.contains(n) && !reset.contains(n) && !error_typed(t, s, n) ==> reset_errors(t, s, ns, reset, on_tick).contains(
            (ErrorView::Custom { message: missing_reset_message(n), span: reset_span(on_tick, n) }),
        ),
        !ns.contains(n) || reset.contains(n) || error_typed(t, s, n) ==> forall|i: int|
            0 <= i < reset_errors(t, s, ns, reset, on_tick).len() ==> #[trigger] reset_errors(t, s, ns, reset, on_tick)[i]
                != (ErrorView::Custom { message: missing_reset_message(n), span: reset_span(on_tick, n) }),
    decreases ns.len(),
{
    if ns.len() > 0 {
        let init = ns.drop_last();
        let last = ns.last();
        law_reset_errors(t, s, init, reset, on_tick, n);
        let a = reset_errors(t, s, init, reset, on_tick);
        let full = reset_errors(t, s, ns, reset, on_tick);
        let e = ErrorView::Custom { message: missing_reset_message(n), span: reset_span(on_tick, n) };
        let tail = if !reset.contains(last) && !error_typed(t, s, last) {
            seq![ErrorView::Custom { message: missing_reset_message(last), span: reset_span(on_tick, last) }]
        } else {
            Seq::<ErrorView>::empty()
        };
        assert(full == a + tail);
        if ns.contains(n) && !reset.contains(n) && !error_typed(t, s, n) {
            let j = choose|j: int| 0 <= j < ns.len() && ns[j] == n;
            if j < init.len() {
                assert(init[j] == n);
                let i = choose|i: int| 0 <= i < a.len() && a[i] == e;
                assert(full[i] == a[i]);
            } else {
                assert(full[a.len() as int] == e);
            }
        }
        if !ns.contains(n) || reset.contains(n) || error_typed(t, s, n) {
            assert(!init.contains(n) || reset.contains(n) || error_typed(t, s, n)) by {
                if init.contains(n) {
                    let j = choose|j: int| 0 <= j < init.len() && init[j] == n;
                    assert(ns[j] == n);
                }
            }
            assert forall|i: int| 0 <= i < full.len() implies #[trigger] full[i] != e by {
                if i < a.len() {
                    assert(full[i] == a[i]);
                } else {
                    assert(ns[ns.len() - 1] == last);
                    if full[i] == e {
                        assert(missing_reset_message(last) == missing_reset_message(n));
                        lemma_reset_message_names(last, n);
                    }
                }
            }
        }
    }
}

/// Different names give different reset messages.
proof fn lemma_reset_message_names(a: Seq<char>, b: Seq<char>)
    requires
        missing_reset_message(a) == missing_reset_message(b),
    ensures
        a == b,
{
    let pre = "signal `"@;
    let post = "` is assigned in `on tick` but has no reset value in `on reset`"@;
    let ma = pre + a + post;
    let mb = pre + b + post;
    assert(ma.len() == mb.len());
    assert(a.len() == b.len());
    assert forall|i: int| 0 <= i < a.len() implies a[i] == b[i] by {
        assert(ma[pre.len() + i] == a[i]);
        assert(mb[pre.len() + i] == b[i]);
    }
    assert(a =~= b);
}

/// The unconnected ports reported for a module: one for an output port
/// exactly when the module's body never assigns it; input ports never.
pub proof fn law_port_errors(ports: Seq<Port>, assigned: Set<Seq<char>>, module: Seq<char>, i: int)
    requires
        0 <= i < ports.len(),
    ensures
        ports[i].direction == Direction::Out && !assigned.contains(ports[i].name.node@) ==> port_errors(
            ports,
            assigned,
            module,
        ).contains((ErrorView::UnconnectedPort { port: ports[i].name.node@, inst: module, span: ports[i].span })),
        forall|k: int| 0 <= k < port_errors(ports, assigned, module).len() ==> ((#[trigger] port_errors(ports, assigned, module)[k])
            matches ErrorView::UnconnectedPort { port, inst, .. } && inst == module && !assigned.contains(port)),
    decreases ports.len(),
{
    let init = ports.drop_last();
    let a = port_errors(init, assigned, module);
    let full = port_errors(ports, assigned, module);
    let p = ports.last();
    let tail = if p.direction == Direction::Out && !assigned.contains(p.name.node@) {
        seq![ErrorView::UnconnectedPort { port: p.name.node@, inst: module, span: p.span }]
    } else {
        Seq::<ErrorView>::empty()
    };
    assert(full == a + tail);
    if i < init.len() {
        law_port_errors(init, assigned, module, i);
        assert(init[i] == ports[i]);
        if ports[i].direction == Direction::Out && !assigned.contains(ports[i].name.node@) {
            let e = ErrorView::UnconnectedPort { port: ports[i].name.node@, inst: module, span: ports[i].span };
            let k = choose|k: int| 0 <= k < a.len() && a[k] == e;
            assert(full[k] == a[k]);
        }
    } else {
        if init.len() > 0 {
            law_port_errors(init, assigned, module, 0);
        }
        if ports[i].direction == Direction::Out && !assigned.contains(ports[i].name.node@) {
            assert(full[a.len() as int] == tail[0]);
        }
    }
    assert forall|k: int| 0 <= k < full.len() implies (#[trigger] full[k]) matches ErrorView::UnconnectedPort {
        port,
        inst,
        ..
    } && inst == module && !assigned.contains(port) by {
        if k < a.len() {
            assert(full[k] == a[k]);
        } else {
            assert(full[k] == tail[k - a.len()]);
        }
    }
}

/// Assigning to a name bound by `const` or `let` is an invalid target;
/// assigning to a signal or a port is not.
pub proof fn law_immutable_bindings(t: SymbolTable, s: int, target: Expr)
    requires
        target.node is Ident,
        t.lookup_spec(s, target.node->Ident_0@) is Some,
    ensures
        ({
            let id = t.lookup_spec(s, target.node->Ident_0@)->0;
            let kind = t.symbols_view()[id.0 as int].kind;
            &&& (kind == SymbolKind::Const || kind == SymbolKind::Let) ==> immutability_errors(t, s, target) == seq![
                ErrorView::InvalidAssignTarget { span: target.span },
            ]
            &&& (kind == SymbolKind::Signal || kind == SymbolKind::Port) ==> immutability_errors(t, s, target)
                == Seq::<ErrorView>::empty()
        }),
{
}

/// A name added at the end of a scope's declarations is found there when
/// the scope did not declare it before, and other names are found as before.
proof fn lemma_find_entry_push(e: Seq<(Seq<char>, SymbolId)>, x: (Seq<char>, SymbolId), n: Seq<char>)
    ensures
        n != x.0 ==> find_entry(e.push(x), n) == find_entry(e, n),
        n == x.0 && find_entry(e, n) is None ==> find_entry(e.push(x), n) == Some(x.1),
    decreases e.len(),
{
    if e.len() > 0 {
        lemma_find_entry_push(e.drop_first(), x, n);
        assert(e.push(x)[0] == e[0]);
        assert(e.push(x).drop_first() =~= e.drop_first().push(x));
    } else {
        assert(e.push(x)[0] == x);
        assert(e.push(x).drop_first() =~= Seq::<(Seq<char>, SymbolId)>::empty());
        assert(find_entry(Seq::<(Seq<char>, SymbolId)>::empty(), n) is None);
    }
}

/// After declaring a new name in scope `c`, lookups of other names from any
/// scope find what they found before, and the name itself is found from `c`.
proof fn lemma_define_lookup(st: RState, name: Seq<char>, kind: SymbolKind, ty: Ty, span: Span, s: int, n: Seq<char>)
    requires
        0 <= cur(st) < st.table.scopes.len(),
        defines_new(st, name),
    ensures
        n != name ==> r_define(st, name, kind, ty, span).table.lookup(s, n) == st.table.lookup(s, n),
        s == cur(st) ==> r_define(st, name, kind, ty, span).table.lookup(s, name) == Some(
            SymbolId(st.table.symbols.len() as u32),
        ),
    decreases s,
{
    let t2 = r_define(st, name, kind, ty, span).table;
    let c = cur(st);
    let id = SymbolId(st.table.symbols.len() as u32);
    if 0 <= s < st.table.scopes.len() {
        if s == c {
            lemma_find_entry_push(st.table.scopes[c].entries, (name, id), n);
            lemma_find_entry_push(st.table.scopes[c].entries, (name, id), name);
        }
        if let Some(p) = st.table.scopes[s].parent {
            if p.0 < s {
                lemma_define_lookup(st, name, kind, ty, span, p.0 as int, n);
            }
        }
    }
}

/// Declaring a name that the current scope does not yet declare: it is
/// found from that scope as a new symbol with the name, kind, type and
/// place given, no error is reported, and every other name is found from
/// every scope as before.
pub proof fn law_declare_then_lookup(st: RState, name: Seq<char>, kind: SymbolKind, ty: Ty, span: Span)
    requires
        0 <= cur(st) < st.table.scopes.len(),
        defines_new(st, name),
    ensures
        ({
            let st2 = r_define(st, name, kind, ty, span);
            let id = st.table.symbols.len() as int;
            &&& st2.table.lookup(cur(st), name) == Some(SymbolId(id as u32))
            &&& st2.table.symbols[id].name == name && st2.table.symbols[id].kind == kind && st2.table.symbols[id].ty == ty
                && st2.table.symbols[id].span == span
            &&& st2.errors == st.errors
            &&& forall|s: int, n: Seq<char>| n != name ==> #[trigger] st2.table.lookup(s, n) == st.table.lookup(s, n)
        }),
{
    lemma_define_lookup(st, name, kind, ty, span, cur(st), name);
    assert forall|s: int, n: Seq<char>| n != name implies #[trigger] r_define(st, name, kind, ty, span).table.lookup(s, n)
        == st.table.lookup(s, n) by {
        lemma_define_lookup(st, name, kind, ty, span, s, n);
    }
}

/// Declaring a name twice in one scope: the second declaration reports a
/// duplicate that points at the first, and changes nothing else.
pub proof fn law_duplicate_declaration(st: RState, name: Seq<char>, kind: SymbolKind, ty: Ty, span: Span)
    requires
        st.table.symbols.len() < u32::MAX,
        st.table.local(cur(st), name) is Some,
    ensures
        ({
            let st2 = r_define(st, name, kind, ty, span);
            let first = st.table.local(cur(st), name)->0;
            &&& st2.table == st.table
            &&& st2.stack == st.stack
            &&& st2.errors == st.errors.push(
                ErrorView::DuplicateDefinition { name, first: st.table.symbols[first.0 as int].span, second: span },
            )
        }),
{
    let first = st.table.local(cur(st), name)->0;
    assert(st.errors + seq![ErrorView::DuplicateDefinition { name, first: st.table.symbols[first.0 as int].span, second: span }]
        =~= st.errors.push(ErrorView::DuplicateDefinition { name, first: st.table.symbols[first.0 as int].span, second: span }));
}

/// A port declared under a new name is a port with its direction.
pub proof fn law_port_declaration(st: RState, name: Seq<char>, ty: Ty, span: Span, dir: Direction)
    requires
        0 <= cur(st) < st.table.scopes.len(),
        defines_new(st, name),
    ensures
        ({
            let st2 = r_define_port(st, name, ty, span, dir);
            let id = st.table.symbols.len() as int;
            &&& st2.table.lookup(cur(st), name) == Some(SymbolId(id as u32))
            &&& st2.table.symbols[id].kind == SymbolKind::Port && st2.table.symbols[id].direction == Some(dir)
                && st2.table.symbols[id].ty == ty
        }),
{
    lemma_define_lookup(st, name, SymbolKind::Port, ty, span, cur(st), name);
    let st1 = r_define(st, name, SymbolKind::Port, ty, span);
    let id = st.table.symbols.len() as int;
    let st2 = r_define_port(st, name, ty, span, dir);
    assert(st2.table.scopes == st1.table.scopes);
    lemma_lookup_same_scopes(st1.table, st2.table, cur(st), name);
}

/// Lookup depends only on the scopes.
proof fn lemma_lookup_same_scopes(a: TableView, b: TableView, s: int, n: Seq<char>)
    requires
        a.scopes == b.scopes,
    ensures
        a.lookup(s, n) == b.lookup(s, n),
    decreases s,
{
    if 0 <= s < a.scopes.len() {
        if let Some(p) = a.scopes[s].parent {
            if p.0 < s {
                lemma_lookup_same_scopes(a, b, p.0 as int, n);
            }
        }
    }
}

/// Entering a new scope: it is the current scope, and from it every name
/// is found as from the scope it is nested in, until it declares its own.
pub proof fn law_enter_scope(st: RState, kind: ScopeKind, n: Seq<char>)
    requires
        0 <= cur(st) < st.table.scopes.len(),
        st.table.scopes.len() < u32::MAX,
    ensures
        ({
            let st2 = r_push_scope(st, kind);
            &&& cur(st2) == st.table.scopes.len()
            &&& st2.table.lookup(cur(st2), n) == st.table.lookup(cur(st), n)
            &&& st2.errors == st.errors
        }),
{
    let st2 = r_push_scope(st, kind);
    let t2 = st2.table;
    let c = cur(st);
    assert(t2.scopes[c] == st.table.scopes[c]);
    assert(t2.local(cur(st2), n) is None);
    lemma_push_scope_lookup(st.table, st.stack.last(), kind, c, n);
}

/// Adding a scope leaves lookups from the scopes before it as they were.
proof fn lemma_push_scope_lookup(t: TableView, parent: ScopeId, kind: ScopeKind, s: int, n: Seq<char>)
    ensures
        0 <= s < t.scopes.len() ==> t.push_scope(parent, kind).lookup(s, n) == t.lookup(s, n),
    decreases s,
{
    if 0 <= s < t.scopes.len() {
        assert(t.push_scope(parent, kind).scopes[s] == t.scopes[s]);
        if let Some(p) = t.scopes[s].parent {
            if p.0 < s {
                lemma_push_scope_lookup(t, parent, kind, p.0 as int, n);
            }
        }
    }
}


/// Shifts: `l << k` by a constant `k` widens the left operand by `k` bits
/// and keeps its family; a right shift keeps the left operand's type; neither
/// reports an error.
pub proof fn law_shift_types(family: int, n: u64, k: u128, l: Ty, r: Ty, lhs: Expr, rhs: Expr, span: Span)
    requires
        0 <= family <= 2,
        const_uint(rhs) == Some(k),
        n + k <= u64::MAX,
    ensures
        binary_rule(BinOp::Shl, family_type(family, n), r, lhs, rhs, span) == (
            family_type(family, (n + k) as u64),
            Seq::<ErrorView>::empty(),
        ),
        binary_rule(BinOp::Shr, l, r, lhs, rhs, span) == (l, Seq::<ErrorView>::empty()),
        binary_rule(BinOp::ArithShr, l, r, lhs, rhs, span) == (l, Seq::<ErrorView>::empty()),
{
}

/// `Fixed<a, b>` with constant parameters is the fixed-point type of `a`
/// integer and `b` fraction bits; `Clock` without parameters has no known
/// frequency; `UInt`, `SInt` or `Bits` without a parameter is an error.
pub proof fn law_fixed_and_clock_types(
    t: TableView,
    s: int,
    env: Seq<(String, ConstValue)>,
    params: Seq<GenericArg>,
    e1: Expr,
    e2: Expr,
    a: u128,
    b: u128,
    span: Span,
)
    requires
        params.len() >= 2,
        params[0] == GenericArg::Expr(e1),
        params[1] == GenericArg::Expr(e2),
        eval_spec(env, e1) == Ok::<ConstValue, (Seq<char>, Span)>(ConstValue::UInt(a)),
        eval_spec(env, e2) == Ok::<ConstValue, (Seq<char>, Span)>(ConstValue::UInt(b)),
        a <= u64::MAX,
        b <= u64::MAX,
    ensures
        generic_rule(t, s, env, "Fixed"@, params, span) == (
            Ty::Fixed { int_bits: a as u64, frac_bits: b as u64 },
            Seq::<ErrorView>::empty(),
        ),
        generic_rule(t, s, env, "Clock"@, Seq::empty(), span) == (Ty::Clock { freq: None }, Seq::<ErrorView>::empty()),
        generic_rule(t, s, env, "UInt"@, Seq::empty(), span).1.len() == 1,
        generic_rule(t, s, env, "SInt"@, Seq::empty(), span).1.len() == 1,
        generic_rule(t, s, env, "Bits"@, Seq::empty(), span).1.len() == 1,
{
    lemma_builtin_names_differ();
    reveal_strlit("UInt");
    reveal_strlit("SInt");
    reveal_strlit("Bits");
    reveal_strlit("Fixed");
    reveal_strlit("Clock");
    assert(Seq::<ErrorView>::empty() + Seq::<ErrorView>::empty() =~= Seq::<ErrorView>::empty());
}

/// A generic type whose name is none of the built-in ones denotes the type
/// of the symbol that the name finds from the scope, without errors, and is
/// an undefined name where it finds none.
pub proof fn law_named_generic_types(
    t: TableView,
    s: int,
    env: Seq<(String, ConstValue)>,
    name: Seq<char>,
    params: Seq<GenericArg>,
    span: Span,
)
    requires
        name != "UInt"@,
        name != "SInt"@,
        name != "Bits"@,
        name != "Fixed"@,
        name != "Clock"@,
    ensures
        t.lookup(s, name) matches Some(id) ==> generic_rule(t, s, env, name, params, span) == (
            t.symbols[id.0 as int].ty,
            Seq::<ErrorView>::empty(),
        ),
        t.lookup(s, name) is None ==> generic_rule(t, s, env, name, params, span) == (
            Ty::Error,
            seq![ErrorView::UndefinedName { name, span }],
        ),
{
}

/// Constant operators take operands of their own kind: arithmetic, powers
/// and comparisons fail unless both operands are unsigned; `and` and `or`
/// fail unless both are booleans; bitwise, shift, implication and
/// concatenation operators are not constant operators and always fail.
pub proof fn law_constant_operand_kinds(span: Span, op: BinOp, l: ConstValue, r: ConstValue)
    ensures
        (op == BinOp::Add || op == BinOp::Sub || op == BinOp::Mul || op == BinOp::Div || op == BinOp::Mod || op
            == BinOp::Pow || op == BinOp::Eq || op == BinOp::Ne || op == BinOp::Lt || op == BinOp::Gt || op == BinOp::Le
            || op == BinOp::Ge) && !(l is UInt && r is UInt) ==> binary_spec(span, op, l, r) is Err,
        (op == BinOp::And || op == BinOp::Or) && !(l is Bool && r is Bool) ==> binary_spec(span, op, l, r) is Err,
        (op == BinOp::BitAnd || op == BinOp::BitOr || op == BinOp::BitXor || op == BinOp::Shl || op == BinOp::Shr || op
            == BinOp::ArithShr || op == BinOp::Implies || op == BinOp::Concat) ==> binary_spec(span, op, l, r) is Err,
{
}

} // verus!
