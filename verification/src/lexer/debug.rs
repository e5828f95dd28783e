//! Token text as `{:?}` writes it, for parse error messages.

use vstd::prelude::*;
use vstd::string::StringExecFns;

use super::token::{NumericBase, NumericLiteral, Token};
use crate::text::{concat, debug_quote, debug_text, decimal, decimal_text};

verus! {

/// The name of a numeric base.
pub open spec fn base_debug(b: NumericBase) -> Seq<char> {
    match b {
        NumericBase::Binary => "Binary"@,
        NumericBase::Decimal => "Decimal"@,
        NumericBase::Hex => "Hex"@,
    }
}

/// A numeric literal as `{:?}` writes it.
pub open spec fn numeric_debug(n: NumericLiteral) -> Seq<char> {
    match n {
        NumericLiteral::Decimal(v) => "Decimal("@ + decimal_text(v as nat) + ")"@,
        NumericLiteral::Hex(v) => "Hex("@ + decimal_text(v as nat) + ")"@,
        NumericLiteral::Binary(v) => "Binary("@ + decimal_text(v as nat) + ")"@,
        NumericLiteral::Sized { width, value, base, dont_care_mask } => "Sized { width: "@
            + decimal_text(width as nat) + ", value: "@ + decimal_text(value as nat) + ", base: "@
            + base_debug(base) + ", dont_care_mask: "@ + decimal_text(dont_care_mask as nat) + " }"@,
    }
}

/// A token as `{:?}` writes it.
pub open spec fn token_debug(t: Token) -> Seq<char> {
    match t {
        Token::Newline => "Newline"@,
        Token::Indent => "Indent"@,
        Token::Dedent => "Dedent"@,
        Token::KwModule => "KwModule"@,
        Token::KwSignal => "KwSignal"@,
        Token::KwReg => "KwReg"@,
        Token::KwComb => "KwComb"@,
        Token::KwIn => "KwIn"@,
        Token::KwOut => "KwOut"@,
        Token::KwInout => "KwInout"@,
        Token::KwInst => "KwInst"@,
        Token::KwExtern => "KwExtern"@,
        Token::KwDomain => "KwDomain"@,
        Token::KwStruct => "KwStruct"@,
        Token::KwEnum => "KwEnum"@,
        Token::KwInterface => "KwInterface"@,
        Token::KwType => "KwType"@,
        Token::KwConst => "KwConst"@,
        Token::KwLet => "KwLet"@,
        Token::KwFn => "KwFn"@,
        Token::KwGroup => "KwGroup"@,
        Token::KwFsm => "KwFsm"@,
        Token::KwPipeline => "KwPipeline"@,
        Token::KwStage => "KwStage"@,
        Token::KwOn => "KwOn"@,
        Token::KwReset => "KwReset"@,
        Token::KwTick => "KwTick"@,
        Token::KwMatch => "KwMatch"@,
        Token::KwIf => "KwIf"@,
        Token::KwElif => "KwElif"@,
        Token::KwElse => "KwElse"@,
        Token::KwThen => "KwThen"@,
        Token::KwFor => "KwFor"@,
        Token::KwGen => "KwGen"@,
        Token::KwWhen => "KwWhen"@,
        Token::KwPriority => "KwPriority"@,
        Token::KwParallel => "KwParallel"@,
        Token::KwOtherwise => "KwOtherwise"@,
        Token::KwAssert => "KwAssert"@,
        Token::KwAssume => "KwAssume"@,
        Token::KwCover => "KwCover"@,
        Token::KwProperty => "KwProperty"@,
        Token::KwSequence => "KwSequence"@,
        Token::KwAlways => "KwAlways"@,
        Token::KwEventually => "KwEventually"@,
        Token::KwUntil => "KwUntil"@,
        Token::KwImplies => "KwImplies"@,
        Token::KwVerify => "KwVerify"@,
        Token::KwForall => "KwForall"@,
        Token::KwNext => "KwNext"@,
        Token::KwTrue => "KwTrue"@,
        Token::KwFalse => "KwFalse"@,
        Token::KwAnd => "KwAnd"@,
        Token::KwOr => "KwOr"@,
        Token::KwNot => "KwNot"@,
        Token::KwImport => "KwImport"@,
        Token::KwFrom => "KwFrom"@,
        Token::KwAs => "KwAs"@,
        Token::KwPub => "KwPub"@,
        Token::KwUnchecked => "KwUnchecked"@,
        Token::KwStaticAssert => "KwStaticAssert"@,
        Token::KwTest => "KwTest"@,
        Token::KwTestbench => "KwTestbench"@,
        Token::KwTask => "KwTask"@,
        Token::KwVar => "KwVar"@,
        Token::KwDrive => "KwDrive"@,
        Token::KwPeek => "KwPeek"@,
        Token::KwSettle => "KwSettle"@,
        Token::KwPrint => "KwPrint"@,
        Token::KwSystolic => "KwSystolic"@,
        Token::KwDataflow => "KwDataflow"@,
        Token::KwIsa => "KwIsa"@,
        Token::KwInstr => "KwInstr"@,
        Token::KwFormat => "KwFormat"@,
        Token::KwRegisters => "KwRegisters"@,
        Token::KwEncodingWidth => "KwEncodingWidth"@,
        Token::KwProve => "KwProve"@,
        Token::KwEquiv => "KwEquiv"@,
        Token::KwConstrain => "KwConstrain"@,
        Token::KwOverride => "KwOverride"@,
        Token::ArithShiftRight => "ArithShiftRight"@,
        Token::LongArrow => "LongArrow"@,
        Token::BiArrow => "BiArrow"@,
        Token::StarStar => "StarStar"@,
        Token::Concat => "Concat"@,
        Token::PipeOp => "PipeOp"@,
        Token::EqEq => "EqEq"@,
        Token::NotEq => "NotEq"@,
        Token::LessEq => "LessEq"@,
        Token::GreaterEq => "GreaterEq"@,
        Token::ShiftLeft => "ShiftLeft"@,
        Token::ShiftRight => "ShiftRight"@,
        Token::FatArrow => "FatArrow"@,
        Token::ThinArrow => "ThinArrow"@,
        Token::DashDash => "DashDash"@,
        Token::RangeInclusive => "RangeInclusive"@,
        Token::RangeExclusive => "RangeExclusive"@,
        Token::Plus => "Plus"@,
        Token::Minus => "Minus"@,
        Token::Star => "Star"@,
        Token::Slash => "Slash"@,
        Token::Percent => "Percent"@,
        Token::Ampersand => "Ampersand"@,
        Token::Pipe => "Pipe"@,
        Token::Caret => "Caret"@,
        Token::Tilde => "Tilde"@,
        Token::Less => "Less"@,
        Token::Greater => "Greater"@,
        Token::Eq => "Eq"@,
        Token::At => "At"@,
        Token::Question => "Question"@,
        Token::LParen => "LParen"@,
        Token::RParen => "RParen"@,
        Token::LBracket => "LBracket"@,
        Token::RBracket => "RBracket"@,
        Token::LBrace => "LBrace"@,
        Token::RBrace => "RBrace"@,
        Token::Colon => "Colon"@,
        Token::Comma => "Comma"@,
        Token::Dot => "Dot"@,
        Token::Underscore => "Underscore"@,
        Token::Backslash => "Backslash"@,
        Token::Ident => "Ident"@,
        Token::DocComment => "DocComment"@,
        Token::LineComment => "LineComment"@,
        Token::BlockComment => "BlockComment"@,
        Token::Numeric(n) => "Numeric("@ + numeric_debug(n) + ")"@,
        Token::StringLit(s) => "StringLit("@ + debug_text(s@) + ")"@,
    }
}

/// An optional token as `{:?}` writes it.
pub open spec fn opt_token_debug(t: Option<Token>) -> Seq<char> {
    match t {
        Some(x) => "Some("@ + token_debug(x) + ")"@,
        None => "None"@,
    }
}

fn base_text(b: NumericBase) -> (r: &'static str)
    ensures
        r@ == base_debug(b),
{
    match b {
        NumericBase::Binary => "Binary",
        NumericBase::Decimal => "Decimal",
        NumericBase::Hex => "Hex",
    }
}

/// A numeric literal as `{:?}` writes it.
pub fn numeric_text(n: &NumericLiteral) -> (r: String)
    ensures
        r@ == numeric_debug(*n),
{
    match n {
        NumericLiteral::Decimal(v) => concat(concat("Decimal(", decimal(*v).as_str()).as_str(), ")"),
        NumericLiteral::Hex(v) => concat(concat("Hex(", decimal(*v).as_str()).as_str(), ")"),
        NumericLiteral::Binary(v) => concat(concat("Binary(", decimal(*v).as_str()).as_str(), ")"),
        NumericLiteral::Sized { width, value, base, dont_care_mask } => {
            let s = concat("Sized { width: ", decimal(*width as u128).as_str());
            let s = concat(s.as_str(), ", value: ");
            let s = concat(s.as_str(), decimal(*value).as_str());
            let s = concat(s.as_str(), ", base: ");
            let s = concat(s.as_str(), base_text(*base));
            let s = concat(s.as_str(), ", dont_care_mask: ");
            let s = concat(s.as_str(), decimal(*dont_care_mask).as_str());
            concat(s.as_str(), " }")
        },
    }
}

/// A token as `{:?}` writes it.
pub fn token_text(t: &Token) -> (r: String)
    ensures
        r@ == token_debug(*t),
{
    match t {
        Token::Newline => String::from_str("Newline"),
        Token::Indent => String::from_str("Indent"),
        Token::Dedent => String::from_str("Dedent"),
        Token::KwModule => String::from_str("KwModule"),
        Token::KwSignal => String::from_str("KwSignal"),
        Token::KwReg => String::from_str("KwReg"),
        Token::KwComb => String::from_str("KwComb"),
        Token::KwIn => String::from_str("KwIn"),
        Token::KwOut => String::from_str("KwOut"),
        Token::KwInout => String::from_str("KwInout"),
        Token::KwInst => String::from_str("KwInst"),
        Token::KwExtern => String::from_str("KwExtern"),
        Token::KwDomain => String::from_str("KwDomain"),
        Token::KwStruct => String::from_str("KwStruct"),
        Token::KwEnum => String::from_str("KwEnum"),
        Token::KwInterface => String::from_str("KwInterface"),
        Token::KwType => String::from_str("KwType"),
        Token::KwConst => String::from_str("KwConst"),
        Token::KwLet => String::from_str("KwLet"),
        Token::KwFn => String::from_str("KwFn"),
        Token::KwGroup => String::from_str("KwGroup"),
        Token::KwFsm => String::from_str("KwFsm"),
        Token::KwPipeline => String::from_str("KwPipeline"),
        Token::KwStage => String::from_str("KwStage"),
        Token::KwOn => String::from_str("KwOn"),
        Token::KwReset => String::from_str("KwReset"),
        Token::KwTick => String::from_str("KwTick"),
        Token::KwMatch => String::from_str("KwMatch"),
        Token::KwIf => String::from_str("KwIf"),
        Token::KwElif => String::from_str("KwElif"),
        Token::KwElse => String::from_str("KwElse"),
        Token::KwThen => String::from_str("KwThen"),
        Token::KwFor => String::from_str("KwFor"),
        Token::KwGen => String::from_str("KwGen"),
        Token::KwWhen => String::from_str("KwWhen"),
        Token::KwPriority => String::from_str("KwPriority"),
        Token::KwParallel => String::from_str("KwParallel"),
        Token::KwOtherwise => String::from_str("KwOtherwise"),
        Token::KwAssert => String::from_str("KwAssert"),
        Token::KwAssume => String::from_str("KwAssume"),
        Token::KwCover => String::from_str("KwCover"),
        Token::KwProperty => String::from_str("KwProperty"),
        Token::KwSequence => String::from_str("KwSequence"),
        Token::KwAlways => String::from_str("KwAlways"),
        Token::KwEventually => String::from_str("KwEventually"),
        Token::KwUntil => String::from_str("KwUntil"),
        Token::KwImplies => String::from_str("KwImplies"),
        Token::KwVerify => String::from_str("KwVerify"),
        Token::KwForall => String::from_str("KwForall"),
        Token::KwNext => String::from_str("KwNext"),
        Token::KwTrue => String::from_str("KwTrue"),
        Token::KwFalse => String::from_str("KwFalse"),
        Token::KwAnd => String::from_str("KwAnd"),
        Token::KwOr => String::from_str("KwOr"),
        Token::KwNot => String::from_str("KwNot"),
        Token::KwImport => String::from_str("KwImport"),
        Token::KwFrom => String::from_str("KwFrom"),
        Token::KwAs => String::from_str("KwAs"),
        Token::KwPub => String::from_str("KwPub"),
        Token::KwUnchecked => String::from_str("KwUnchecked"),
        Token::KwStaticAssert => String::from_str("KwStaticAssert"),
        Token::KwTest => String::from_str("KwTest"),
        Token::KwTestbench => String::from_str("KwTestbench"),
        Token::KwTask => String::from_str("KwTask"),
        Token::KwVar => String::from_str("KwVar"),
        Token::KwDrive => String::from_str("KwDrive"),
        Token::KwPeek => String::from_str("KwPeek"),
        Token::KwSettle => String::from_str("KwSettle"),
        Token::KwPrint => String::from_str("KwPrint"),
        Token::KwSystolic => String::from_str("KwSystolic"),
        Token::KwDataflow => String::from_str("KwDataflow"),
        Token::KwIsa => String::from_str("KwIsa"),
        Token::KwInstr => String::from_str("KwInstr"),
        Token::KwFormat => String::from_str("KwFormat"),
        Token::KwRegisters => String::from_str("KwRegisters"),
        Token::KwEncodingWidth => String::from_str("KwEncodingWidth"),
        Token::KwProve => String::from_str("KwProve"),
        Token::KwEquiv => String::from_str("KwEquiv"),
        Token::KwConstrain => String::from_str("KwConstrain"),
        Token::KwOverride => String::from_str("KwOverride"),
        Token::ArithShiftRight => String::from_str("ArithShiftRight"),
        Token::LongArrow => String::from_str("LongArrow"),
        Token::BiArrow => String::from_str("BiArrow"),
        Token::StarStar => String::from_str("StarStar"),
        Token::Concat => String::from_str("Concat"),
        Token::PipeOp => String::from_str("PipeOp"),
        Token::EqEq => String::from_str("EqEq"),
        Token::NotEq => String::from_str("NotEq"),
        Token::LessEq => String::from_str("LessEq"),
        Token::GreaterEq => String::from_str("GreaterEq"),
        Token::ShiftLeft => String::from_str("ShiftLeft"),
        Token::ShiftRight => String::from_str("ShiftRight"),
        Token::FatArrow => String::from_str("FatArrow"),
        Token::ThinArrow => String::from_str("ThinArrow"),
        Token::DashDash => String::from_str("DashDash"),
        Token::RangeInclusive => String::from_str("RangeInclusive"),
        Token::RangeExclusive => String::from_str("RangeExclusive"),
        Token::Plus => String::from_str("Plus"),
        Token::Minus => String::from_str("Minus"),
        Token::Star => String::from_str("Star"),
        Token::Slash => String::from_str("Slash"),
        Token::Percent => String::from_str("Percent"),
        Token::Ampersand => String::from_str("Ampersand"),
        Token::Pipe => String::from_str("Pipe"),
        Token::Caret => String::from_str("Caret"),
        Token::Tilde => String::from_str("Tilde"),
        Token::Less => String::from_str("Less"),
        Token::Greater => String::from_str("Greater"),
        Token::Eq => String::from_str("Eq"),
        Token::At => String::from_str("At"),
        Token::Question => String::from_str("Question"),
        Token::LParen => String::from_str("LParen"),
        Token::RParen => String::from_str("RParen"),
        Token::LBracket => String::from_str("LBracket"),
        Token::RBracket => String::from_str("RBracket"),
        Token::LBrace => String::from_str("LBrace"),
        Token::RBrace => String::from_str("RBrace"),
        Token::Colon => String::from_str("Colon"),
        Token::Comma => String::from_str("Comma"),
        Token::Dot => String::from_str("Dot"),
        Token::Underscore => String::from_str("Underscore"),
        Token::Backslash => String::from_str("Backslash"),
        Token::Ident => String::from_str("Ident"),
        Token::DocComment => String::from_str("DocComment"),
        Token::LineComment => String::from_str("LineComment"),
        Token::BlockComment => String::from_str("BlockComment"),
        Token::Numeric(n) => concat(concat("Numeric(", numeric_text(n).as_str()).as_str(), ")"),
        Token::StringLit(s) => string_lit_text(debug_quote(s.as_str()).as_str()),
    }
}

/// A string literal token as `{:?}` writes it, from the string's own quoted form.
pub fn string_lit_text(quoted: &str) -> (r: String)
    ensures
        r@ == "StringLit("@ + quoted@ + ")"@,
{
    concat(concat("StringLit(", quoted).as_str(), ")")
}

/// An optional token as `{:?}` writes it.
pub fn opt_token_text(t: Option<&Token>) -> (r: String)
    ensures
        r@ == match t {
            Some(x) => opt_token_debug(Some(*x)),
            None => opt_token_debug(None),
        },
{
    match t {
        Some(x) => concat(concat("Some(", token_text(x).as_str()).as_str(), ")"),
        None => String::from_str("None"),
    }
}

} // verus!
