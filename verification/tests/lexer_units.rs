use ssl_core::lexer::{lex, parse_numeric, process_indentation, NumericBase, NumericLiteral, Token};

fn get_structural_tokens(source: &str) -> Vec<Token> {
    let raw = lex(source).expect("lex failed");
    let processed = process_indentation(source, raw).expect("indent failed");
    processed
        .into_iter()
        .map(|s| s.node)
        .filter(|t| {
            matches!(
                t,
                Token::Indent
                    | Token::Dedent
                    | Token::Newline
                    | Token::KwModule
                    | Token::KwComb
                    | Token::KwReg
                    | Token::KwSignal
                    | Token::KwIf
                    | Token::KwMatch
                    | Token::Ident
                    | Token::Colon
            )
        })
        .collect()
}

#[test]
fn simple_indent() {
    let source = "module Foo:\n    signal x";
    let tokens = get_structural_tokens(source);
    assert!(tokens.contains(&Token::Indent));
}

#[test]
fn indent_and_dedent() {
    let source = "comb:\n    x = y\nmodule Bar";
    let tokens = get_structural_tokens(source);
    assert!(tokens.contains(&Token::Indent));
    assert!(tokens.contains(&Token::Dedent));
}

#[test]
fn nested_indent() {
    let source = "comb:\n    if cond:\n        x = y\n    z = w";
    let tokens = get_structural_tokens(source);
    let indent_count = tokens.iter().filter(|t| **t == Token::Indent).count();
    let dedent_count = tokens.iter().filter(|t| **t == Token::Dedent).count();
    assert_eq!(indent_count, 2);
    assert_eq!(dedent_count, 2);
}

#[test]
fn eof_closes_all_indents() {
    let source = "comb:\n    match x:\n        y = z";
    let tokens = get_structural_tokens(source);
    let indent_count = tokens.iter().filter(|t| **t == Token::Indent).count();
    let dedent_count = tokens.iter().filter(|t| **t == Token::Dedent).count();
    assert_eq!(indent_count, dedent_count);
}

#[test]
fn decimal_literal() {
    assert_eq!(parse_numeric("42"), Some(NumericLiteral::Decimal(42)));
}

#[test]
fn decimal_with_underscores() {
    assert_eq!(parse_numeric("1_000_000"), Some(NumericLiteral::Decimal(1_000_000)));
}

#[test]
fn hex_literal() {
    assert_eq!(parse_numeric("0xFF"), Some(NumericLiteral::Hex(0xFF)));
}

#[test]
fn hex_literal_upper() {
    assert_eq!(parse_numeric("0xDEAD_BEEF"), Some(NumericLiteral::Hex(0xDEAD_BEEF)));
}

#[test]
fn binary_literal() {
    assert_eq!(parse_numeric("0b1010_0011"), Some(NumericLiteral::Binary(0b1010_0011)));
}

#[test]
fn sized_binary() {
    assert_eq!(
        parse_numeric("8'b1010_0011"),
        Some(NumericLiteral::Sized { width: 8, value: 0b1010_0011, base: NumericBase::Binary, dont_care_mask: 0 })
    );
}

#[test]
fn sized_hex() {
    assert_eq!(
        parse_numeric("16'hDEAD"),
        Some(NumericLiteral::Sized { width: 16, value: 0xDEAD, base: NumericBase::Hex, dont_care_mask: 0 })
    );
}

#[test]
fn sized_decimal() {
    assert_eq!(
        parse_numeric("8'd255"),
        Some(NumericLiteral::Sized { width: 8, value: 255, base: NumericBase::Decimal, dont_care_mask: 0 })
    );
}

#[test]
fn sized_with_dont_care() {
    assert_eq!(
        parse_numeric("4'b10??"),
        Some(NumericLiteral::Sized { width: 4, value: 0b1000, base: NumericBase::Binary, dont_care_mask: 0b0011 })
    );
}

#[test]
fn sized_value_too_large() {
    assert_eq!(parse_numeric("4'hFF"), None);
}

#[test]
fn zero() {
    assert_eq!(parse_numeric("0"), Some(NumericLiteral::Decimal(0)));
}

#[test]
fn width_zero() {
    assert_eq!(parse_numeric("0'b0"), None);
}

#[test]
fn width_too_large() {
    assert_eq!(parse_numeric("200'hFF"), None);
}

#[test]
fn hex_no_dont_care() {
    // `?` is not a hexadecimal digit, so a sized hex literal holding one is rejected.
    assert_eq!(parse_numeric("8'hF?"), None);
}

#[test]
fn underscores_anywhere_after_prefix() {
    assert_eq!(parse_numeric("0x_F_F"), parse_numeric("0xFF"));
    assert_eq!(parse_numeric("1__0"), Some(NumericLiteral::Decimal(10)));
}

#[test]
fn dont_care_rejected_outside_sized_binary() {
    assert_eq!(parse_numeric("0b1?"), None);
    assert_eq!(parse_numeric("8'd1?"), None);
    assert_eq!(parse_numeric("1?"), None);
}

#[test]
fn sized_full_width_and_overflow() {
    assert_eq!(
        parse_numeric("128'hFFFF_FFFF_FFFF_FFFF_FFFF_FFFF_FFFF_FFFF"),
        Some(NumericLiteral::Sized { width: 128, value: u128::MAX, base: NumericBase::Hex, dont_care_mask: 0 })
    );
    assert_eq!(parse_numeric("340282366920938463463374607431768211456"), None);
    assert_eq!(parse_numeric("8'"), None);
    assert_eq!(parse_numeric("8'x1"), None);
}
