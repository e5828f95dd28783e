use ssl_core::ast::expr::{BinOp, Expr, ExprKind, UnaryOp};
use ssl_core::ast::item::{ItemKind, ModuleDef, Port, SourceFile};
use ssl_core::ast::stmt::{IfStmt, Stmt, StmtKind};
use ssl_core::ast::types::{Direction, GenericArg, TypeExpr, TypeExprKind};
use ssl_core::lexer::{lex, tokenize, NumericLiteral, Token, TokenizeError};
use ssl_core::parser::{ParseError, Parser};
use ssl_core::sema::analyze;
use ssl_core::sema::check::TypeChecker;
use ssl_core::sema::resolve::ScopeMap;
use ssl_core::lexer::NumericBase;
use ssl_core::sema::resolve::Resolver;
use ssl_core::sema::scope::{ScopeKind, SymbolKind, SymbolTable};
use ssl_core::sema::validate::Validator;
use ssl_core::sema::{ConstEval, ConstValue, SemaError, Ty};
use ssl_core::span::{Span, Spanned};

fn sp(start: u32, end: u32) -> Span {
    Span::new(start, end)
}

fn ident_expr(name: &str, start: u32) -> Expr {
    Spanned::new(ExprKind::Ident(name.to_string()), sp(start, start + name.len() as u32))
}

fn num(v: u128, start: u32) -> Expr {
    Spanned::new(ExprKind::IntLiteral(NumericLiteral::Decimal(v)), sp(start, start + 1))
}

fn uint_type(width: u128, start: u32) -> TypeExpr {
    Spanned::new(
        TypeExprKind::Generic { name: "UInt".to_string(), params: vec![GenericArg::Expr(num(width, start + 5))] },
        sp(start, start + 7),
    )
}

fn port(direction: Direction, name: &str, width: u128, start: u32) -> Port {
    Port {
        doc: None,
        direction,
        name: Spanned::new(name.to_string(), sp(start, start + name.len() as u32)),
        ty: uint_type(width, start + 4),
        span: sp(start, start + 12),
    }
}

fn assign(target: Expr, value: Expr, span: Span) -> Stmt {
    Spanned::new(StmtKind::Assign { target, value }, span)
}

fn module(name: &str, ports: Vec<Port>, body: Vec<Stmt>) -> SourceFile {
    let items = body.into_iter().map(|s| {
        let span = s.span;
        Spanned::new(ItemKind::Stmt(s), span)
    }).collect();
    let def = ModuleDef {
        doc: None,
        attrs: vec![],
        public: false,
        name: Spanned::new(name.to_string(), sp(7, 7 + name.len() as u32)),
        generics: vec![],
        ports,
        default_domain: None,
        body: items,
    };
    SourceFile { items: vec![Spanned::new(ItemKind::Module(def), sp(0, 200))] }
}

// ---------------------------------------------------------------- lexer

#[test]
fn lex_error_quotes_the_offending_character() {
    let err = lex("a $ b").unwrap_err();
    assert_eq!(err.span, sp(2, 3));
    assert_eq!(err.message, "unexpected character: \"$\"");
    assert_eq!(err.to_string(), "lex error at 2..3: unexpected character: \"$\"");
}

#[test]
fn lex_error_on_multibyte_character() {
    let err = lex("x é").unwrap_err();
    assert_eq!(err.span, sp(2, 4));
    assert_eq!(err.message, "unexpected character: \"é\"");
}

#[test]
fn lex_tokens_tile_the_source() {
    let toks = lex("a+b").unwrap();
    let kinds: Vec<Token> = toks.iter().map(|t| t.node.clone()).collect();
    assert_eq!(kinds, vec![Token::Ident, Token::Plus, Token::Ident]);
    let spans: Vec<Span> = toks.iter().map(|t| t.span).collect();
    assert_eq!(spans, vec![sp(0, 1), sp(1, 2), sp(2, 3)]);
}

#[test]
fn tokenize_reports_inconsistent_dedent() {
    let source = "comb:\n    x = y\n  z = w";
    match tokenize(source) {
        Err(TokenizeError::Indent(e)) => {
            assert_eq!(e.message, "dedent to level 2 does not match any outer indentation level");
            assert_eq!(e.span, sp(16, 18));
            assert_eq!(
                e.to_string(),
                "indentation error at 16..18: dedent to level 2 does not match any outer indentation level"
            );
        }
        other => panic!("expected an indentation error, got {:?}", other),
    }
}

#[test]
fn tokenize_reports_lex_errors() {
    match tokenize("signal #") {
        Err(TokenizeError::Lex(e)) => assert_eq!(e.span, sp(7, 8)),
        other => panic!("expected a lex error, got {:?}", other),
    }
}

#[test]
fn indentation_is_balanced_and_keeps_tokens() {
    let source = "a:\n    b:\n        c\n    d\ne";
    let raw = lex(source).unwrap();
    let laid = tokenize(source).unwrap();
    let indents = laid.iter().filter(|t| t.node == Token::Indent).count();
    let dedents = laid.iter().filter(|t| t.node == Token::Dedent).count();
    assert_eq!(indents, 2);
    assert_eq!(indents, dedents);
    let kept: Vec<Spanned<Token>> =
        laid.into_iter().filter(|t| t.node != Token::Indent && t.node != Token::Dedent).collect();
    assert_eq!(kept, raw);
}

#[test]
fn tabs_count_as_four_columns() {
    let laid = tokenize("a:\n\tb\n    c").unwrap();
    assert_eq!(laid.iter().filter(|t| t.node == Token::Indent).count(), 1);
    assert_eq!(laid.iter().filter(|t| t.node == Token::Dedent).count(), 1);
}

// ---------------------------------------------------------------- parser

#[test]
fn parse_of_blank_input_is_an_empty_file() {
    let source = "\n\n";
    let tokens = tokenize(source).unwrap();
    let file = Parser::parse(source, tokens).unwrap();
    assert_eq!(file.items.len(), 0);
}

#[test]
fn parse_of_an_item_is_not_yet_supported() {
    let source = "\nmodule Foo";
    let tokens = tokenize(source).unwrap();
    let err = Parser::parse(source, tokens).unwrap_err();
    assert_eq!(err.message, "item parsing not yet implemented");
    assert_eq!(err.span, sp(1, 7));
}

#[test]
fn parser_error_carries_current_span() {
    let source = "a b";
    let tokens = vec![Spanned::new(Token::Ident, sp(0, 1)), Spanned::new(Token::Ident, sp(2, 3))];
    let mut p = Parser::new(source, tokens);
    p.advance();
    let err: ParseError = p.error("boom");
    assert_eq!(err.span, sp(2, 3));
    assert_eq!(err.to_string(), "parse error at 2..3: boom");
}

#[test]
fn expect_token_message_names_both_tokens() {
    let source = "+";
    let tokens = vec![Spanned::new(Token::Plus, sp(0, 1))];
    let mut p = Parser::new(source, tokens);
    let err = p.expect_token(Token::Colon).unwrap_err();
    assert_eq!(err.message, "expected Colon, found Some(Plus)");
}

// ---------------------------------------------------------------- symbol table

#[test]
fn define_then_lookup_finds_the_symbol() {
    let mut t = SymbolTable::new();
    let root = t.root_scope();
    let id = t.define(root, "clk", SymbolKind::Port, Ty::Clock { freq: None }, sp(0, 3)).unwrap();
    let sym = t.lookup(root, "clk").unwrap();
    assert_eq!(sym.name, "clk");
    assert_eq!(sym.span, sp(0, 3));
    assert_eq!(t.get_symbol(id).name, "clk");
    assert!(!sym.mutable);
}

#[test]
fn inner_scope_shadows_outer_and_outer_is_unchanged() {
    let mut t = SymbolTable::new();
    let root = t.root_scope();
    t.define(root, "x", SymbolKind::Signal, Ty::UInt(8), sp(0, 1)).unwrap();
    let inner = t.push_scope(root, ScopeKind::Block);
    t.define(inner, "x", SymbolKind::Let, Ty::UInt(4), sp(10, 11)).unwrap();
    assert_eq!(t.lookup(inner, "x").unwrap().span, sp(10, 11));
    assert_eq!(t.lookup(root, "x").unwrap().span, sp(0, 1));
    assert!(t.lookup(root, "y").is_none());
    assert!(t.lookup_local(inner, "x").is_some());
    assert_eq!(t.parent_scope(inner), Some(root));
    assert_eq!(t.parent_scope(root), None);
}

#[test]
fn duplicate_in_one_scope_is_an_error_and_changes_nothing() {
    let mut t = SymbolTable::new();
    let root = t.root_scope();
    t.define(root, "a", SymbolKind::Signal, Ty::Bool, sp(0, 1)).unwrap();
    let err = t.define(root, "a", SymbolKind::Const, Ty::UInt(3), sp(5, 6)).unwrap_err();
    assert_eq!(err, SemaError::DuplicateDefinition { name: "a".to_string(), first: sp(0, 1), second: sp(5, 6) });
    assert_eq!(err.to_string(), "duplicate definition of `a`: first defined at 0..1, redefined at 5..6");
    assert_eq!(t.local_symbols(root).len(), 1);
    assert_eq!(t.lookup(root, "a").unwrap().kind, SymbolKind::Signal);
}

// ---------------------------------------------------------------- constants

fn bin(op: BinOp, l: Expr, r: Expr) -> Expr {
    Spanned::new(ExprKind::Binary { op, lhs: Box::new(l), rhs: Box::new(r) }, sp(0, 9))
}

#[test]
fn bind_then_eval_gives_the_value_and_rebinding_wins() {
    let mut ev = ConstEval::new();
    ev.bind("N".to_string(), ConstValue::UInt(8));
    ev.bind("M".to_string(), ConstValue::Bool(true));
    ev.bind("N".to_string(), ConstValue::UInt(16));
    assert_eq!(ev.eval_expr(&ident_expr("N", 0)), Ok(ConstValue::UInt(16)));
    assert_eq!(ev.eval_expr(&ident_expr("M", 0)), Ok(ConstValue::Bool(true)));
}

#[test]
fn with_bindings_last_binding_wins() {
    let ev = ConstEval::with_bindings(vec![
        ("W".to_string(), ConstValue::UInt(1)),
        ("W".to_string(), ConstValue::UInt(2)),
    ]);
    assert_eq!(ev.eval_expr(&ident_expr("W", 0)), Ok(ConstValue::UInt(2)));
}

#[test]
fn const_errors_have_exact_messages() {
    let ev = ConstEval::new();
    assert_eq!(
        ev.eval_expr(&ident_expr("q", 3)),
        Err(SemaError::ConstEvalError { message: "name `q` is not a compile-time constant".to_string(), span: sp(3, 4) })
    );
    assert_eq!(
        ev.eval_expr(&bin(BinOp::Mod, num(1, 0), num(0, 4))),
        Err(SemaError::ConstEvalError { message: "modulo by zero in const expression".to_string(), span: sp(0, 9) })
    );
    assert_eq!(
        ev.eval_expr(&bin(BinOp::Add, num(1, 0), Spanned::new(ExprKind::BoolLiteral(true), sp(4, 8)))),
        Err(SemaError::ConstEvalError {
            message: "operator `Add` requires integer operands in const context".to_string(),
            span: sp(0, 9),
        })
    );
    assert_eq!(
        ev.eval_expr(&bin(BinOp::Or, num(1, 0), num(1, 4))),
        Err(SemaError::ConstEvalError {
            message: "operator `Or` requires boolean operands in const context".to_string(),
            span: sp(0, 9),
        })
    );
    assert_eq!(
        ev.eval_expr(&bin(BinOp::Concat, num(1, 0), num(2, 4))),
        Err(SemaError::ConstEvalError {
            message: "operator `Concat` is not supported in const context".to_string(),
            span: sp(0, 9),
        })
    );
}

#[test]
fn const_arithmetic_wraps_and_pow_is_checked() {
    let ev = ConstEval::new();
    assert_eq!(ev.eval_expr(&bin(BinOp::Sub, num(0, 0), num(1, 4))), Ok(ConstValue::UInt(u128::MAX)));
    assert_eq!(ev.eval_expr(&bin(BinOp::Pow, num(2, 0), num(10, 4))), Ok(ConstValue::UInt(1024)));
    assert_eq!(
        ev.eval_expr(&bin(BinOp::Pow, num(2, 0), num(128, 4))),
        Err(SemaError::ConstEvalError { message: "overflow in const pow expression".to_string(), span: sp(0, 9) })
    );
    assert_eq!(
        ev.eval_expr(&bin(BinOp::Pow, num(2, 0), num(4294967296, 4))),
        Err(SemaError::ConstEvalError {
            message: "exponent 4294967296 is too large for const pow (max 4294967295)".to_string(),
            span: sp(0, 9),
        })
    );
    assert_eq!(ev.eval_expr(&bin(BinOp::Le, num(3, 0), num(3, 4))), Ok(ConstValue::Bool(true)));
    let neg = Spanned::new(
        ExprKind::Unary { op: UnaryOp::Neg, operand: Box::new(Spanned::new(ExprKind::BoolLiteral(true), sp(1, 5))) },
        sp(0, 5),
    );
    assert_eq!(
        ev.eval_expr(&neg),
        Err(SemaError::ConstEvalError { message: "unary negation requires a numeric operand".to_string(), span: sp(0, 5) })
    );
}

// ---------------------------------------------------------------- types and errors

#[test]
fn type_display() {
    assert_eq!(Ty::UInt(8).to_string(), "UInt<8>");
    assert_eq!(Ty::Bool.to_string(), "Bool");
    assert_eq!(Ty::UInt(8).bit_width(), Some(8));
    assert!(Ty::Error.is_error());
    assert!(Ty::UInt(3).is_integer());
}

#[test]
fn error_messages_for_every_variant_shape() {
    assert_eq!(
        SemaError::WidthMismatch { expected: 4, found: 8, span: sp(1, 2) }.to_string(),
        "width mismatch at 1..2: expected 4 bits, found 8 bits"
    );
    assert_eq!(
        SemaError::CyclicDependency { names: vec!["a".into(), "b".into()], span: sp(0, 1) }.to_string(),
        "cyclic dependency at 0..1: a -> b"
    );
    assert_eq!(
        SemaError::UnconnectedPort { port: "y".into(), inst: "Top".into(), span: sp(3, 4) }.to_string(),
        "port `y` of instance `Top` is unconnected at 3..4"
    );
    assert_eq!(
        SemaError::LatchInferred { signal: "q".into(), span: sp(5, 9) }.to_string(),
        "latch inferred for signal `q` at 5..9: signal is not assigned in all branches"
    );
    assert_eq!(SemaError::Custom { message: "m".into(), span: sp(0, 0) }.to_string(), "semantic error at 0..0: m");
}

#[test]
fn span_merge_covers_both() {
    let a = sp(3, 5);
    let b = sp(1, 4);
    assert_eq!(a.merge(b), sp(1, 5));
    assert_eq!(a.merge(b), b.merge(a));
    assert_eq!(a.merge(a), a);
}

// ---------------------------------------------------------------- analysis

#[test]
fn analyze_reports_width_and_direction_errors() {
    let file = module(
        "Top",
        vec![port(Direction::In, "a", 8, 20), port(Direction::Out, "y", 4, 40)],
        vec![
            Spanned::new(
                StmtKind::CombBlock(vec![assign(ident_expr("y", 70), ident_expr("a", 74), sp(70, 75))]),
                sp(60, 75),
            ),
            assign(ident_expr("a", 80), num(1, 84), sp(80, 85)),
        ],
    );
    let (table, errors) = analyze(&file);
    assert_eq!(table.lookup(table.root_scope(), "Top").unwrap().kind, SymbolKind::Module);
    assert_eq!(
        errors,
        vec![
            SemaError::WidthMismatch { expected: 4, found: 8, span: sp(74, 75) },
            SemaError::DirectionViolation { message: "cannot assign to input port `a`".to_string(), span: sp(80, 81) },
        ]
    );
}

#[test]
fn validator_reports_latches_and_unconnected_outputs() {
    let cond = ident_expr("c", 64);
    let body = vec![Spanned::new(
        StmtKind::CombBlock(vec![Spanned::new(
            StmtKind::If(IfStmt {
                condition: cond,
                then_body: vec![assign(ident_expr("q", 70), num(1, 74), sp(70, 75))],
                elif_branches: vec![],
                else_body: None,
            }),
            sp(61, 75),
        )]),
        sp(60, 75),
    )];
    let file = module(
        "Top",
        vec![port(Direction::In, "c", 1, 20), port(Direction::Out, "q", 1, 40), port(Direction::Out, "z", 1, 50)],
        body,
    );
    let mut resolver = Resolver::new();
    resolver.collect_declarations(&file);
    let (table, scope_map, resolve_errors) = resolver.finish();
    assert!(resolve_errors.is_empty());
    let mut v = Validator::new(&table, &scope_map);
    v.validate_file(&file);
    let errors = v.into_errors();
    assert_eq!(
        errors,
        vec![
            SemaError::UnconnectedPort { port: "z".to_string(), inst: "Top".to_string(), span: sp(50, 62) },
            SemaError::LatchInferred { signal: "q".to_string(), span: sp(60, 75) },
        ]
    );
}

// ---------------------------------------------------------------- resolution

fn signal(name: &str, ty: TypeExpr, start: u32) -> Stmt {
    Spanned::new(
        StmtKind::Signal(ssl_core::ast::stmt::SignalDecl {
            name: Spanned::new(name.to_string(), sp(start, start + name.len() as u32)),
            ty,
            domain: None,
            init: None,
        }),
        sp(start, start + 10),
    )
}

fn named_type(name: &str, start: u32) -> TypeExpr {
    Spanned::new(TypeExprKind::Named(name.to_string()), sp(start, start + name.len() as u32))
}

#[test]
fn resolution_reports_duplicates_and_unknown_types_in_order() {
    let file = module(
        "Top",
        vec![],
        vec![
            signal("a", uint_type(8, 30), 20),
            signal("b", named_type("Nope", 45), 40),
            signal("a", uint_type(4, 60), 55),
        ],
    );
    let mut resolver = Resolver::new();
    resolver.collect_declarations(&file);
    let (table, _, errors) = resolver.finish();
    assert_eq!(
        errors,
        vec![
            SemaError::UndefinedName { name: "Nope".to_string(), span: sp(45, 49) },
            SemaError::DuplicateDefinition { name: "a".to_string(), first: sp(20, 21), second: sp(55, 56) },
        ]
    );
    let module_scope = table.lookup(table.root_scope(), "Top");
    assert_eq!(module_scope.unwrap().kind, SymbolKind::Module);
    assert!(table.lookup(table.root_scope(), "a").is_none());
}

#[test]
fn for_loop_variable_lives_in_its_own_scope() {
    let body = vec![
        Spanned::new(
            StmtKind::For(ssl_core::ast::stmt::ForStmt {
                var: Spanned::new("i".to_string(), sp(24, 25)),
                iterable: num(4, 29),
                body: vec![signal("i", uint_type(1, 40), 35)],
            }),
            sp(20, 50),
        ),
        signal("i", uint_type(2, 60), 55),
    ];
    let file = module("Top", vec![], body);
    let mut resolver = Resolver::new();
    resolver.collect_declarations(&file);
    let (table, _, errors) = resolver.finish();
    assert_eq!(
        errors,
        vec![SemaError::DuplicateDefinition { name: "i".to_string(), first: sp(24, 25), second: sp(35, 36) }]
    );
    assert_eq!(table.scope_len(), 3);
    assert_eq!(table.scope_kind(ssl_core::sema::scope::ScopeId(2)), ScopeKind::Block);
}

#[test]
fn check_expr_gives_error_type_whenever_it_reports() {
    let table = SymbolTable::new();
    let map = ScopeMap::new();
    let mut c = TypeChecker::new(&table, &map);
    let r = Spanned::new(
        ExprKind::IntLiteral(NumericLiteral::Sized { width: 8, value: 1, base: NumericBase::Decimal, dont_care_mask: 0 }),
        sp(9, 13),
    );
    let e = Spanned::new(
        ExprKind::Binary { op: BinOp::And, lhs: Box::new(Spanned::new(ExprKind::BoolLiteral(true), sp(0, 4))), rhs: Box::new(r) },
        sp(0, 13),
    );
    assert_eq!(c.check_expr(&e), Ty::Error);
    let errors = c.into_errors();
    assert_eq!(errors.len(), 1);
    match &errors[0] {
        SemaError::TypeMismatch { expected, found, span } => {
            assert_eq!(expected, "Bool");
            assert_eq!(found, "UInt<8>");
            assert_eq!(*span, sp(9, 13));
        },
        other => panic!("unexpected error {:?}", other),
    }
    let mut c = TypeChecker::new(&table, &map);
    let ok = Spanned::new(
        ExprKind::Binary {
            op: BinOp::And,
            lhs: Box::new(Spanned::new(ExprKind::BoolLiteral(true), sp(0, 4))),
            rhs: Box::new(Spanned::new(ExprKind::BoolLiteral(false), sp(9, 14))),
        },
        sp(0, 14),
    );
    assert_eq!(c.check_expr(&ok), Ty::Bool);
    assert!(c.into_errors().is_empty());
}

#[test]
fn comma_list_accepts_an_empty_item_before_a_comma() {
    let source = "x, )";
    let tokens = vec![
        Spanned::new(Token::Ident, sp(0, 1)),
        Spanned::new(Token::Comma, sp(1, 2)),
        Spanned::new(Token::RParen, sp(3, 4)),
    ];
    let mut p = Parser::new(source, tokens);
    let mut calls = 0;
    let items = p.parse_comma_list(Token::RParen, |p| {
        calls += 1;
        if p.check(Token::Ident) {
            let t = p.advance();
            Ok(p.text(t.span).to_string())
        } else {
            Ok(String::new())
        }
    });
    assert_eq!(items.unwrap(), vec!["x".to_string()]);
    assert_eq!(calls, 1);
    assert!(p.is_at_end());
}

#[test]
fn block_reports_the_first_error_of_an_item() {
    let source = ":\n  x\n";
    let tokens = vec![
        Spanned::new(Token::Colon, sp(0, 1)),
        Spanned::new(Token::Newline, sp(1, 2)),
        Spanned::new(Token::Indent, sp(2, 4)),
        Spanned::new(Token::Ident, sp(4, 5)),
        Spanned::new(Token::Newline, sp(5, 6)),
        Spanned::new(Token::Dedent, sp(6, 6)),
    ];
    let mut p = Parser::new(source, tokens);
    let r: Result<Vec<String>, ParseError> = p.parse_block(|p| Err(p.error("bad item")));
    let e = r.unwrap_err();
    assert_eq!(e.message, "bad item");
    assert_eq!(e.span, sp(4, 5));
    let mut p = Parser::new(":x", vec![Spanned::new(Token::Colon, sp(0, 1)), Spanned::new(Token::Ident, sp(1, 2))]);
    let r: Result<Vec<String>, ParseError> = p.parse_block(|p| Err(p.error("unused")));
    assert_eq!(r.unwrap_err().span, sp(1, 2));
}

#[test]
fn analyze_is_resolution_then_checking() {
    let file = module(
        "Top",
        vec![port(Direction::In, "a", 8, 20), port(Direction::Out, "y", 4, 40)],
        vec![
            Spanned::new(
                StmtKind::CombBlock(vec![assign(ident_expr("y", 70), ident_expr("a", 74), sp(70, 75))]),
                sp(60, 75),
            ),
            assign(ident_expr("a", 80), num(1, 84), sp(80, 85)),
        ],
    );
    let (_, errors) = analyze(&file);
    let mut resolver = Resolver::new();
    resolver.collect_declarations(&file);
    let (table, map, mut expected) = resolver.finish();
    let mut checker = TypeChecker::new(&table, &map);
    checker.check_file(&file);
    expected.extend(checker.into_errors());
    assert_eq!(errors, expected);
}

#[test]
fn tokenize_is_lex_without_comments_then_layout() {
    let source = "comb: // note\n    x = 1 /* c */ + 2\n    /// doc\n    y = \"s\"";
    let raw: Vec<Spanned<Token>> = lex(source)
        .unwrap()
        .into_iter()
        .filter(|t| t.node != Token::LineComment && t.node != Token::BlockComment)
        .collect();
    let expected = ssl_core::lexer::process_indentation(source, raw).unwrap();
    let got = tokenize(source).unwrap();
    assert_eq!(got, expected);
    assert!(got.iter().all(|t| t.node != Token::LineComment && t.node != Token::BlockComment));
    assert!(got.iter().any(|t| t.node == Token::DocComment));
}

#[test]
fn keyword_spellings_lex_as_one_keyword() {
    for w in ["module", "static_assert", "otherwise", "encoding_width"] {
        let toks = lex(w).unwrap();
        assert_eq!(toks.len(), 1);
        assert_eq!((toks[0].span.start, toks[0].span.end), (0, w.len() as u32));
        assert!(ssl_core::lexer::Token::is_keyword(&toks[0].node));
    }
}

#[test]
fn sized_binary_value_has_no_dont_care_bits() {
    match ssl_core::lexer::parse_numeric("8'b1?0?_11") {
        Some(NumericLiteral::Sized { width, value, base, dont_care_mask }) => {
            assert_eq!(width, 8);
            assert_eq!(base, NumericBase::Binary);
            assert_eq!(dont_care_mask, 0b010100);
            assert_eq!(value, 0b100011);
            assert_eq!(value & dont_care_mask, 0);
        },
        other => panic!("unexpected {:?}", other),
    }
}
