use ssl_core::lexer::{NumericBase, NumericLiteral, Token, lex, tokenize};

fn snapshot_tokens(source: &str) -> Vec<(u32, u32, Token)> {
    tokenize(source)
        .expect("tokenize failed")
        .into_iter()
        .map(|s| (s.span.start, s.span.end, s.node))
        .collect()
}

fn dec(v: u128) -> Token {
    Token::Numeric(NumericLiteral::Decimal(v))
}

#[test]
fn snapshot_signal_declarations() {
    let expected = vec![
        (0, 6, Token::KwSignal),
        (7, 14, Token::Ident),
        (14, 15, Token::Colon),
        (16, 20, Token::Ident),
        (20, 21, Token::Less),
        (21, 22, dec(8)),
        (22, 23, Token::Greater),
        (23, 24, Token::Newline),
        (24, 30, Token::KwSignal),
        (31, 37, Token::Ident),
        (37, 38, Token::Colon),
        (39, 43, Token::Ident),
        (43, 44, Token::Less),
        (44, 46, dec(16)),
        (46, 47, Token::Greater),
        (48, 49, Token::At),
        (50, 57, Token::Ident),
        (57, 58, Token::Newline),
        (58, 64, Token::KwSignal),
        (65, 71, Token::Ident),
        (71, 72, Token::Colon),
        (73, 77, Token::Ident),
    ];
    assert_eq!(
        snapshot_tokens("signal counter: UInt<8>\nsignal offset: SInt<16> @ sys_clk\nsignal enable: Bool"),
        expected
    );
}

#[test]
fn snapshot_comb_block() {
    let expected = vec![
        (0, 4, Token::KwComb),
        (4, 5, Token::Colon),
        (5, 6, Token::Newline),
        (6, 10, Token::Indent),
        (10, 15, Token::KwMatch),
        (16, 22, Token::Ident),
        (22, 23, Token::Colon),
        (23, 24, Token::Newline),
        (24, 32, Token::Indent),
        (32, 35, Token::Ident),
        (36, 38, Token::FatArrow),
        (39, 45, Token::Ident),
        (46, 47, Token::Eq),
        (48, 49, Token::Ident),
        (50, 51, Token::Plus),
        (52, 53, Token::Ident),
        (53, 54, Token::Newline),
        (62, 65, Token::Ident),
        (66, 68, Token::FatArrow),
        (69, 75, Token::Ident),
        (76, 77, Token::Eq),
        (78, 79, Token::Ident),
        (80, 81, Token::Minus),
        (82, 83, Token::Ident),
        (83, 84, Token::Newline),
        (84, 88, Token::Dedent),
        (88, 92, Token::Ident),
        (93, 94, Token::Eq),
        (95, 101, Token::Ident),
        (102, 104, Token::EqEq),
        (105, 106, dec(0)),
        (106, 106, Token::Dedent),
    ];
    assert_eq!(
        snapshot_tokens(
            "comb:\n    match opcode:\n        ADD => result = a + b\n        SUB => result = a - b\n    zero = result == 0"
        ),
        expected
    );
}

#[test]
fn snapshot_reg_block() {
    let expected = vec![
        (0, 3, Token::KwReg),
        (3, 4, Token::LParen),
        (4, 7, Token::Ident),
        (7, 8, Token::Comma),
        (9, 12, Token::Ident),
        (12, 13, Token::RParen),
        (13, 14, Token::Colon),
        (14, 15, Token::Newline),
        (15, 19, Token::Indent),
        (19, 21, Token::KwOn),
        (22, 27, Token::KwReset),
        (27, 28, Token::Colon),
        (28, 29, Token::Newline),
        (29, 37, Token::Indent),
        (37, 44, Token::Ident),
        (45, 46, Token::Eq),
        (47, 48, dec(0)),
        (48, 49, Token::Newline),
        (49, 53, Token::Dedent),
        (53, 55, Token::KwOn),
        (56, 60, Token::KwTick),
        (60, 61, Token::Colon),
        (61, 62, Token::Newline),
        (62, 70, Token::Indent),
        (70, 72, Token::KwIf),
        (73, 79, Token::Ident),
        (79, 80, Token::Colon),
        (80, 81, Token::Newline),
        (81, 93, Token::Indent),
        (93, 100, Token::Ident),
        (101, 102, Token::Eq),
        (103, 110, Token::Ident),
        (111, 112, Token::Plus),
        (113, 114, dec(1)),
        (114, 114, Token::Dedent),
        (114, 114, Token::Dedent),
        (114, 114, Token::Dedent),
    ];
    assert_eq!(
        snapshot_tokens(
            "reg(clk, rst):\n    on reset:\n        counter = 0\n    on tick:\n        if enable:\n            counter = counter + 1"
        ),
        expected
    );
}

#[test]
fn snapshot_pipe_operator() {
    let expected = vec![
        (0, 4, Token::KwComb),
        (4, 5, Token::Colon),
        (5, 6, Token::Newline),
        (6, 10, Token::Indent),
        (10, 16, Token::Ident),
        (17, 18, Token::Eq),
        (19, 26, Token::Ident),
        (26, 27, Token::Newline),
        (27, 35, Token::Indent),
        (35, 37, Token::PipeOp),
        (38, 49, Token::Ident),
        (49, 50, Token::LParen),
        (50, 52, Token::Ident),
        (52, 53, Token::Eq),
        (53, 55, dec(16)),
        (55, 56, Token::RParen),
        (56, 57, Token::Newline),
        (65, 67, Token::PipeOp),
        (68, 73, Token::Ident),
        (73, 74, Token::LParen),
        (74, 80, Token::Ident),
        (80, 81, Token::Eq),
        (81, 82, dec(3)),
        (82, 83, Token::RParen),
        (83, 83, Token::Dedent),
        (83, 83, Token::Dedent),
    ];
    assert_eq!(
        snapshot_tokens(
            "comb:\n    result = raw_adc\n        |> sign_extend(to=16)\n        |> scale(factor=3)"
        ),
        expected
    );
}

#[test]
fn lex_error_span_covers_the_offending_character() {
    let err = lex("a $ b").unwrap_err();
    assert_eq!((err.span.start, err.span.end), (2, 3));
    assert_eq!(err.message, "unexpected character: \"$\"");
    let err = lex("x = \u{e9}").unwrap_err();
    assert_eq!((err.span.start, err.span.end), (4, 6));
}

fn token_types(source: &str) -> Vec<Token> {
    lex(source)
        .expect("lex failed")
        .into_iter()
        .map(|s| s.node)
        .filter(|t| !matches!(t, Token::Newline | Token::LineComment | Token::BlockComment))
        .collect()
}

#[test]
fn keywords() {
    let tokens = token_types("module signal reg comb");
    assert_eq!(
        tokens,
        vec![
            Token::KwModule,
            Token::KwSignal,
            Token::KwReg,
            Token::KwComb
        ]
    );
}

#[test]
fn operators() {
    let tokens = token_types("+ - * / == != <= >= << >> >>> ++ |>");
    assert_eq!(
        tokens,
        vec![
            Token::Plus,
            Token::Minus,
            Token::Star,
            Token::Slash,
            Token::EqEq,
            Token::NotEq,
            Token::LessEq,
            Token::GreaterEq,
            Token::ShiftLeft,
            Token::ShiftRight,
            Token::ArithShiftRight,
            Token::Concat,
            Token::PipeOp,
        ]
    );
}

#[test]
fn numeric_literals() {
    let tokens = token_types("42 0xFF 0b1010 8'hAB 16'b1010_0011");
    assert_eq!(tokens.len(), 5);
    assert_eq!(tokens[0], Token::Numeric(NumericLiteral::Decimal(42)));
    assert_eq!(tokens[1], Token::Numeric(NumericLiteral::Hex(0xFF)));
    assert_eq!(tokens[2], Token::Numeric(NumericLiteral::Binary(0b1010)));
    assert_eq!(
        tokens[3],
        Token::Numeric(NumericLiteral::Sized {
            width: 8,
            value: 0xAB,
            base: NumericBase::Hex,
            dont_care_mask: 0,
        })
    );
    assert_eq!(
        tokens[4],
        Token::Numeric(NumericLiteral::Sized {
            width: 16,
            value: 0b1010_0011,
            base: NumericBase::Binary,
            dont_care_mask: 0,
        })
    );
}

#[test]
fn string_literal() {
    let tokens = token_types(r#""hello world""#);
    assert_eq!(tokens, vec![Token::StringLit("hello world".to_string())]);
}

#[test]
fn identifier_vs_keyword() {
    let tokens = token_types("module my_module signal count");
    assert_eq!(
        tokens,
        vec![Token::KwModule, Token::Ident, Token::KwSignal, Token::Ident]
    );
}

#[test]
fn delimiters() {
    let tokens = token_types("( ) [ ] { } : , .");
    assert_eq!(
        tokens,
        vec![
            Token::LParen,
            Token::RParen,
            Token::LBracket,
            Token::RBracket,
            Token::LBrace,
            Token::RBrace,
            Token::Colon,
            Token::Comma,
            Token::Dot,
        ]
    );
}

#[test]
fn range_operators() {
    let tokens = token_types("0..8 0..=7");
    // Expect: Numeric(0), RangeExclusive, Numeric(8), Numeric(0), RangeInclusive, Numeric(7)
    assert!(tokens.contains(&Token::RangeExclusive));
    assert!(tokens.contains(&Token::RangeInclusive));
}

#[test]
fn line_comment() {
    let raw: Vec<Token> = lex("// this is a comment\n")
        .expect("lex failed")
        .into_iter()
        .map(|s| s.node)
        .collect();
    assert!(raw.contains(&Token::LineComment));
}

#[test]
fn nestable_block_comment() {
    let tokens = token_types("signal /* outer /* inner */ still outer */ x");
    assert_eq!(tokens, vec![Token::KwSignal, Token::Ident]);
}

#[test]
fn module_port_list() {
    let source = "module ALU(in a: UInt, out b: UInt):";
    let tokens = token_types(source);
    assert_eq!(tokens[0], Token::KwModule);
    assert_eq!(tokens[1], Token::Ident); // ALU
    assert_eq!(tokens[2], Token::LParen);
}

#[test]
fn arrows() {
    let tokens = token_types("-> => -->");
    assert_eq!(
        tokens,
        vec![Token::ThinArrow, Token::FatArrow, Token::LongArrow]
    );
}

#[test]
fn exponentiation_operator() {
    let tokens = token_types("2 ** 10");
    assert_eq!(
        tokens,
        vec![
            Token::Numeric(NumericLiteral::Decimal(2)),
            Token::StarStar,
            Token::Numeric(NumericLiteral::Decimal(10)),
        ]
    );
}

#[test]
fn underscore_vs_identifier() {
    let tokens = token_types("_ _foo");
    assert_eq!(tokens, vec![Token::Underscore, Token::Ident]);
}

#[test]
fn at_operator() {
    let raw: Vec<Token> = lex("@clk")
        .expect("lex failed")
        .into_iter()
        .map(|s| s.node)
        .collect();
    assert!(raw.contains(&Token::At));
}

#[test]
fn empty_source() {
    let tokens = token_types("");
    assert!(tokens.is_empty());
}

#[test]
fn only_comments() {
    let tokens = token_types("// just a comment");
    assert!(tokens.is_empty());
}

#[test]
fn fsm_transition_syntax() {
    let tokens = token_types("Idle --(condition)--> Fetch");
    // Ident DashDash LParen Ident RParen LongArrow Ident
    assert!(tokens.contains(&Token::DashDash));
    assert!(tokens.contains(&Token::LParen));
    assert!(tokens.contains(&Token::LongArrow));
}

#[test]
fn doc_comment() {
    let raw: Vec<Token> = lex("/// doc comment\nmodule Foo")
        .expect("lex failed")
        .into_iter()
        .map(|s| s.node)
        .collect();
    assert!(raw.contains(&Token::DocComment));
}

#[test]
fn full_pipeline_module() {
    let source = "module ALU(\n    in  a: UInt,\n    out b: UInt\n):\n    comb:\n        b = a\n";
    let tokens = tokenize(source).expect("tokenize failed");
    let types: Vec<Token> = tokens.iter().map(|s| s.node.clone()).collect();
    assert!(types.contains(&Token::Indent));
    assert!(!types.contains(&Token::LineComment));
    assert!(!types.contains(&Token::BlockComment));
}

#[test]
fn full_pipeline_comments_stripped() {
    let source = "signal x // comment\n/* block */\nsignal y";
    let tokens = tokenize(source).expect("tokenize failed");
    let types: Vec<Token> = tokens.iter().map(|s| s.node.clone()).collect();
    assert!(!types.contains(&Token::LineComment));
    assert!(!types.contains(&Token::BlockComment));
    assert_eq!(types.iter().filter(|t| **t == Token::KwSignal).count(), 2);
}

#[test]
fn full_pipeline_doc_comments_preserved() {
    let source = "/// doc\nmodule Foo";
    let tokens = tokenize(source).expect("tokenize failed");
    let types: Vec<Token> = tokens.iter().map(|s| s.node.clone()).collect();
    assert!(types.contains(&Token::DocComment));
}

#[test]
fn blank_lines_dont_affect_indent() {
    let source = "comb:\n    x = y\n\n    z = w";
    let tokens = tokenize(source).expect("tokenize failed");
    let types: Vec<Token> = tokens.iter().map(|s| s.node.clone()).collect();
    assert_eq!(types.iter().filter(|t| **t == Token::Indent).count(), 1);
}

#[test]
fn phase2_new_keywords() {
    let tokens = token_types(
        "testbench task var drive peek settle print \
         systolic dataflow \
         isa instr format registers encoding_width \
         prove equiv constrain \
         override"
    );
    assert_eq!(tokens, vec![
        Token::KwTestbench, Token::KwTask, Token::KwVar,
        Token::KwDrive, Token::KwPeek, Token::KwSettle, Token::KwPrint,
        Token::KwSystolic, Token::KwDataflow,
        Token::KwIsa, Token::KwInstr, Token::KwFormat,
        Token::KwRegisters, Token::KwEncodingWidth,
        Token::KwProve, Token::KwEquiv, Token::KwConstrain,
        Token::KwOverride,
    ]);
}

#[test]
fn phase2_biarrow_operator() {
    let tokens = token_types("a <-> b");
    assert_eq!(tokens, vec![Token::Ident, Token::BiArrow, Token::Ident]);
}

#[test]
fn phase2_biarrow_no_conflict() {
    // Ensure <-> doesn't break < or ->
    let tokens = token_types("a < b -> c <-> d");
    assert_eq!(tokens, vec![
        Token::Ident, Token::Less, Token::Ident,
        Token::ThinArrow, Token::Ident,
        Token::BiArrow, Token::Ident,
    ]);
}
