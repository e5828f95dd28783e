use vstd::prelude::*;

verus! {

/// Numeric literal value parsed from source.
#[derive(Debug, Clone, Copy, PartialEq, Eq)]
pub enum NumericLiteral {
    /// Unsized decimal: `42`, `1_000_000`
    Decimal(u128),
    /// Unsized hex: `0xFF`
    Hex(u128),
    /// Unsized binary: `0b1010`
    Binary(u128),
    /// Sized literal: `8'b1010_0011`, `16'hDEAD`
    Sized {
        width: u32,
        value: u128,
        base: NumericBase,
        /// Bitmask where 1 = don't-care bit (from `?` in binary literals).
        dont_care_mask: u128,
    },
}

/// Radix of a sized literal.
#[derive(Debug, Clone, Copy, PartialEq, Eq)]
pub enum NumericBase {
    Binary,
    Decimal,
    Hex,
}

/// True when `s[start..end]` equals `lit`.
pub fn bytes_equal(s: &[u8], start: usize, end: usize, lit: &[u8]) -> (b: bool)
    requires
        start <= end <= s@.len(),
    ensures
        b == (s@.subrange(start as int, end as int) == lit@),
{
    if end - start != lit.len() {
        proof {
            assert(s@.subrange(start as int, end as int).len() != lit@.len());
        }
        return false;
    }
    let mut i: usize = 0;
    while i < lit.len()
        invariant
            end - start == lit@.len(),
            start <= end <= s@.len(),
            i <= lit@.len(),
            forall|j: int| 0 <= j < i ==> s@[start + j] == lit@[j],
        decreases lit@.len() - i,
    {
        if s[start + i] != lit[i] {
            proof {
                assert(s@.subrange(start as int, end as int)[i as int] != lit@[i as int]);
            }
            return false;
        }
        i = i + 1;
    }
    proof {
        assert(s@.subrange(start as int, end as int) =~= lit@);
    }
    true
}

/// A lexical token of SiliconScript.
#[derive(Debug, Clone, PartialEq)]
pub enum Token {
    // Synthetic tokens, produced by the indentation pass and for line breaks
    Newline,
    Indent,
    Dedent,
    // Keywords
    /// `module`
    KwModule,
    /// `signal`
    KwSignal,
    /// `reg`
    KwReg,
    /// `comb`
    KwComb,
    /// `in`
    KwIn,
    /// `out`
    KwOut,
    /// `inout`
    KwInout,
    /// `inst`
    KwInst,
    /// `extern`
    KwExtern,
    /// `domain`
    KwDomain,
    /// `struct`
    KwStruct,
    /// `enum`
    KwEnum,
    /// `interface`
    KwInterface,
    /// `type`
    KwType,
    /// `const`
    KwConst,
    /// `let`
    KwLet,
    /// `fn`
    KwFn,
    /// `group`
    KwGroup,
    /// `fsm`
    KwFsm,
    /// `pipeline`
    KwPipeline,
    /// `stage`
    KwStage,
    /// `on`
    KwOn,
    /// `reset`
    KwReset,
    /// `tick`
    KwTick,
    /// `match`
    KwMatch,
    /// `if`
    KwIf,
    /// `elif`
    KwElif,
    /// `else`
    KwElse,
    /// `then`
    KwThen,
    /// `for`
    KwFor,
    /// `gen`
    KwGen,
    /// `when`
    KwWhen,
    /// `priority`
    KwPriority,
    /// `parallel`
    KwParallel,
    /// `otherwise`
    KwOtherwise,
    /// `assert`
    KwAssert,
    /// `assume`
    KwAssume,
    /// `cover`
    KwCover,
    /// `property`
    KwProperty,
    /// `sequence`
    KwSequence,
    /// `always`
    KwAlways,
    /// `eventually`
    KwEventually,
    /// `until`
    KwUntil,
    /// `implies`
    KwImplies,
    /// `verify`
    KwVerify,
    /// `forall`
    KwForall,
    /// `next`
    KwNext,
    /// `true`
    KwTrue,
    /// `false`
    KwFalse,
    /// `and`
    KwAnd,
    /// `or`
    KwOr,
    /// `not`
    KwNot,
    /// `import`
    KwImport,
    /// `from`
    KwFrom,
    /// `as`
    KwAs,
    /// `pub`
    KwPub,
    /// `unchecked`
    KwUnchecked,
    /// `static_assert`
    KwStaticAssert,
    /// `test`
    KwTest,
    /// `testbench`
    KwTestbench,
    /// `task`
    KwTask,
    /// `var`
    KwVar,
    /// `drive`
    KwDrive,
    /// `peek`
    KwPeek,
    /// `settle`
    KwSettle,
    /// `print`
    KwPrint,
    /// `systolic`
    KwSystolic,
    /// `dataflow`
    KwDataflow,
    /// `isa`
    KwIsa,
    /// `instr`
    KwInstr,
    /// `format`
    KwFormat,
    /// `registers`
    KwRegisters,
    /// `encoding_width`
    KwEncodingWidth,
    /// `prove`
    KwProve,
    /// `equiv`
    KwEquiv,
    /// `constrain`
    KwConstrain,
    /// `override`
    KwOverride,
    // Operators and delimiters
    /// `>>>`
    ArithShiftRight,
    /// `-->`
    LongArrow,
    /// `<->`
    BiArrow,
    /// `**`
    StarStar,
    /// `++`
    Concat,
    /// `|>`
    PipeOp,
    /// `==`
    EqEq,
    /// `!=`
    NotEq,
    /// `<=`
    LessEq,
    /// `>=`
    GreaterEq,
    /// `<<`
    ShiftLeft,
    /// `>>`
    ShiftRight,
    /// `=>`
    FatArrow,
    /// `->`
    ThinArrow,
    /// `--`
    DashDash,
    /// `..=`
    RangeInclusive,
    /// `..`
    RangeExclusive,
    /// `+`
    Plus,
    /// `-`
    Minus,
    /// `*`
    Star,
    /// `/`
    Slash,
    /// `%`
    Percent,
    /// `&`
    Ampersand,
    /// `|`
    Pipe,
    /// `^`
    Caret,
    /// `~`
    Tilde,
    /// `<`
    Less,
    /// `>`
    Greater,
    /// `=`
    Eq,
    /// `@`
    At,
    /// `?`
    Question,
    /// `(`
    LParen,
    /// `)`
    RParen,
    /// `[`
    LBracket,
    /// `]`
    RBracket,
    /// `{`
    LBrace,
    /// `}`
    RBrace,
    /// `:`
    Colon,
    /// `,`
    Comma,
    /// `.`
    Dot,
    /// `_`
    Underscore,
    /// `\\`
    Backslash,
    /// Numeric literal
    Numeric(NumericLiteral),
    /// String literal; holds the text between the quotes
    StringLit(String),
    /// Identifier; its text is read back from the source span
    Ident,
    /// `///` documentation comment
    DocComment,
    /// `//` line comment
    LineComment,
    /// Nestable `/* ... */` block comment
    BlockComment,
}

/// Position of a token's variant in the declaration order; two tokens have
/// the same variant exactly when their kinds are equal.
pub open spec fn token_kind(t: Token) -> u8 {
    match t {
        Token::Newline => 0u8,
        Token::Indent => 1u8,
        Token::Dedent => 2u8,
        Token::KwModule => 3u8,
        Token::KwSignal => 4u8,
        Token::KwReg => 5u8,
        Token::KwComb => 6u8,
        Token::KwIn => 7u8,
        Token::KwOut => 8u8,
        Token::KwInout => 9u8,
        Token::KwInst => 10u8,
        Token::KwExtern => 11u8,
        Token::KwDomain => 12u8,
        Token::KwStruct => 13u8,
        Token::KwEnum => 14u8,
        Token::KwInterface => 15u8,
        Token::KwType => 16u8,
        Token::KwConst => 17u8,
        Token::KwLet => 18u8,
        Token::KwFn => 19u8,
        Token::KwGroup => 20u8,
        Token::KwFsm => 21u8,
        Token::KwPipeline => 22u8,
        Token::KwStage => 23u8,
        Token::KwOn => 24u8,
        Token::KwReset => 25u8,
        Token::KwTick => 26u8,
        Token::KwMatch => 27u8,
        Token::KwIf => 28u8,
        Token::KwElif => 29u8,
        Token::KwElse => 30u8,
        Token::KwThen => 31u8,
        Token::KwFor => 32u8,
        Token::KwGen => 33u8,
        Token::KwWhen => 34u8,
        Token::KwPriority => 35u8,
        Token::KwParallel => 36u8,
        Token::KwOtherwise => 37u8,
        Token::KwAssert => 38u8,
        Token::KwAssume => 39u8,
        Token::KwCover => 40u8,
        Token::KwProperty => 41u8,
        Token::KwSequence => 42u8,
        Token::KwAlways => 43u8,
        Token::KwEventually => 44u8,
        Token::KwUntil => 45u8,
        Token::KwImplies => 46u8,
        Token::KwVerify => 47u8,
        Token::KwForall => 48u8,
        Token::KwNext => 49u8,
        Token::KwTrue => 50u8,
        Token::KwFalse => 51u8,
        Token::KwAnd => 52u8,
        Token::KwOr => 53u8,
        Token::KwNot => 54u8,
        Token::KwImport => 55u8,
        Token::KwFrom => 56u8,
        Token::KwAs => 57u8,
        Token::KwPub => 58u8,
        Token::KwUnchecked => 59u8,
        Token::KwStaticAssert => 60u8,
        Token::KwTest => 61u8,
        Token::KwTestbench => 62u8,
        Token::KwTask => 63u8,
        Token::KwVar => 64u8,
        Token::KwDrive => 65u8,
        Token::KwPeek => 66u8,
        Token::KwSettle => 67u8,
        Token::KwPrint => 68u8,
        Token::KwSystolic => 69u8,
        Token::KwDataflow => 70u8,
        Token::KwIsa => 71u8,
        Token::KwInstr => 72u8,
        Token::KwFormat => 73u8,
        Token::KwRegisters => 74u8,
        Token::KwEncodingWidth => 75u8,
        Token::KwProve => 76u8,
        Token::KwEquiv => 77u8,
        Token::KwConstrain => 78u8,
        Token::KwOverride => 79u8,
        Token::ArithShiftRight => 80u8,
        Token::LongArrow => 81u8,
        Token::BiArrow => 82u8,
        Token::StarStar => 83u8,
        Token::Concat => 84u8,
        Token::PipeOp => 85u8,
        Token::EqEq => 86u8,
        Token::NotEq => 87u8,
        Token::LessEq => 88u8,
        Token::GreaterEq => 89u8,
        Token::ShiftLeft => 90u8,
        Token::ShiftRight => 91u8,
        Token::FatArrow => 92u8,
        Token::ThinArrow => 93u8,
        Token::DashDash => 94u8,
        Token::RangeInclusive => 95u8,
        Token::RangeExclusive => 96u8,
        Token::Plus => 97u8,
        Token::Minus => 98u8,
        Token::Star => 99u8,
        Token::Slash => 100u8,
        Token::Percent => 101u8,
        Token::Ampersand => 102u8,
        Token::Pipe => 103u8,
        Token::Caret => 104u8,
        Token::Tilde => 105u8,
        Token::Less => 106u8,
        Token::Greater => 107u8,
        Token::Eq => 108u8,
        Token::At => 109u8,
        Token::Question => 110u8,
        Token::LParen => 111u8,
        Token::RParen => 112u8,
        Token::LBracket => 113u8,
        Token::RBracket => 114u8,
        Token::LBrace => 115u8,
        Token::RBrace => 116u8,
        Token::Colon => 117u8,
        Token::Comma => 118u8,
        Token::Dot => 119u8,
        Token::Underscore => 120u8,
        Token::Backslash => 121u8,
        Token::Numeric(..) => 122u8,
        Token::StringLit(..) => 123u8,
        Token::Ident => 124u8,
        Token::DocComment => 125u8,
        Token::LineComment => 126u8,
        Token::BlockComment => 127u8,
    }
}

/// The keyword spelled by `w`, if any.
#[verifier::opaque]
pub open spec fn keyword_of(w: Seq<u8>) -> Option<Token> {
    if w == seq![109u8, 111u8, 100u8, 117u8, 108u8, 101u8] { Some(Token::KwModule) }
    else if w == seq![115u8, 105u8, 103u8, 110u8, 97u8, 108u8] { Some(Token::KwSignal) }
    else if w == seq![114u8, 101u8, 103u8] { Some(Token::KwReg) }
    else if w == seq![99u8, 111u8, 109u8, 98u8] { Some(Token::KwComb) }
    else if w == seq![105u8, 110u8] { Some(Token::KwIn) }
    else if w == seq![111u8, 117u8, 116u8] { Some(Token::KwOut) }
    else if w == seq![105u8, 110u8, 111u8, 117u8, 116u8] { Some(Token::KwInout) }
    else if w == seq![105u8, 110u8, 115u8, 116u8] { Some(Token::KwInst) }
    else if w == seq![101u8, 120u8, 116u8, 101u8, 114u8, 110u8] { Some(Token::KwExtern) }
    else if w == seq![100u8, 111u8, 109u8, 97u8, 105u8, 110u8] { Some(Token::KwDomain) }
    else if w == seq![115u8, 116u8, 114u8, 117u8, 99u8, 116u8] { Some(Token::KwStruct) }
    else if w == seq![101u8, 110u8, 117u8, 109u8] { Some(Token::KwEnum) }
    else if w == seq![105u8, 110u8, 116u8, 101u8, 114u8, 102u8, 97u8, 99u8, 101u8] { Some(Token::KwInterface) }
    else if w == seq![116u8, 121u8, 112u8, 101u8] { Some(Token::KwType) }
    else if w == seq![99u8, 111u8, 110u8, 115u8, 116u8] { Some(Token::KwConst) }
    else if w == seq![108u8, 101u8, 116u8] { Some(Token::KwLet) }
    else if w == seq![102u8, 110u8] { Some(Token::KwFn) }
    else if w == seq![103u8, 114u8, 111u8, 117u8, 112u8] { Some(Token::KwGroup) }
    else if w == seq![102u8, 115u8, 109u8] { Some(Token::KwFsm) }
    else if w == seq![112u8, 105u8, 112u8, 101u8, 108u8, 105u8, 110u8, 101u8] { Some(Token::KwPipeline) }
    else if w == seq![115u8, 116u8, 97u8, 103u8, 101u8] { Some(Token::KwStage) }
    else if w == seq![111u8, 110u8] { Some(Token::KwOn) }
    else if w == seq![114u8, 101u8, 115u8, 101u8, 116u8] { Some(Token::KwReset) }
    else if w == seq![116u8, 105u8, 99u8, 107u8] { Some(Token::KwTick) }
    else if w == seq![109u8, 97u8, 116u8, 99u8, 104u8] { Some(Token::KwMatch) }
    else if w == seq![105u8, 102u8] { Some(Token::KwIf) }
    else if w == seq![101u8, 108u8, 105u8, 102u8] { Some(Token::KwElif) }
    else if w == seq![101u8, 108u8, 115u8, 101u8] { Some(Token::KwElse) }
    else if w == seq![116u8, 104u8, 101u8, 110u8] { Some(Token::KwThen) }
    else if w == seq![102u8, 111u8, 114u8] { Some(Token::KwFor) }
    else if w == seq![103u8, 101u8, 110u8] { Some(Token::KwGen) }
    else if w == seq![119u8, 104u8, 101u8, 110u8] { Some(Token::KwWhen) }
    else if w == seq![112u8, 114u8, 105u8, 111u8, 114u8, 105u8, 116u8, 121u8] { Some(Token::KwPriority) }
    else if w == seq![112u8, 97u8, 114u8, 97u8, 108u8, 108u8, 101u8, 108u8] { Some(Token::KwParallel) }
    else if w == seq![111u8, 116u8, 104u8, 101u8, 114u8, 119u8, 105u8, 115u8, 101u8] { Some(Token::KwOtherwise) }
    else if w == seq![97u8, 115u8, 115u8, 101u8, 114u8, 116u8] { Some(Token::KwAssert) }
    else if w == seq![97u8, 115u8, 115u8, 117u8, 109u8, 101u8] { Some(Token::KwAssume) }
    else if w == seq![99u8, 111u8, 118u8, 101u8, 114u8] { Some(Token::KwCover) }
    else if w == seq![112u8, 114u8, 111u8, 112u8, 101u8, 114u8, 116u8, 121u8] { Some(Token::KwProperty) }
    else if w == seq![115u8, 101u8, 113u8, 117u8, 101u8, 110u8, 99u8, 101u8] { Some(Token::KwSequence) }
    else if w == seq![97u8, 108u8, 119u8, 97u8, 121u8, 115u8] { Some(Token::KwAlways) }
    else if w == seq![101u8, 118u8, 101u8, 110u8, 116u8, 117u8, 97u8, 108u8, 108u8, 121u8] { Some(Token::KwEventually) }
    else if w == seq![117u8, 110u8, 116u8, 105u8, 108u8] { Some(Token::KwUntil) }
    else if w == seq![105u8, 109u8, 112u8, 108u8, 105u8, 101u8, 115u8] { Some(Token::KwImplies) }
    else if w == seq![118u8, 101u8, 114u8, 105u8, 102u8, 121u8] { Some(Token::KwVerify) }
    else if w == seq![102u8, 111u8, 114u8, 97u8, 108u8, 108u8] { Some(Token::KwForall) }
    else if w == seq![110u8, 101u8, 120u8, 116u8] { Some(Token::KwNext) }
    else if w == seq![116u8, 114u8, 117u8, 101u8] { Some(Token::KwTrue) }
    else if w == seq![102u8, 97u8, 108u8, 115u8, 101u8] { Some(Token::KwFalse) }
    else if w == seq![97u8, 110u8, 100u8] { Some(Token::KwAnd) }
    else if w == seq![111u8, 114u8] { Some(Token::KwOr) }
    else if w == seq![110u8, 111u8, 116u8] { Some(Token::KwNot) }
    else if w == seq![105u8, 109u8, 112u8, 111u8, 114u8, 116u8] { Some(Token::KwImport) }
    else if w == seq![102u8, 114u8, 111u8, 109u8] { Some(Token::KwFrom) }
    else if w == seq![97u8, 115u8] { Some(Token::KwAs) }
    else if w == seq![112u8, 117u8, 98u8] { Some(Token::KwPub) }
    else if w == seq![117u8, 110u8, 99u8, 104u8, 101u8, 99u8, 107u8, 101u8, 100u8] { Some(Token::KwUnchecked) }
    else if w == seq![115u8, 116u8, 97u8, 116u8, 105u8, 99u8, 95u8, 97u8, 115u8, 115u8, 101u8, 114u8, 116u8] { Some(Token::KwStaticAssert) }
    else if w == seq![116u8, 101u8, 115u8, 116u8] { Some(Token::KwTest) }
    else if w == seq![116u8, 101u8, 115u8, 116u8, 98u8, 101u8, 110u8, 99u8, 104u8] { Some(Token::KwTestbench) }
    else if w == seq![116u8, 97u8, 115u8, 107u8] { Some(Token::KwTask) }
    else if w == seq![118u8, 97u8, 114u8] { Some(Token::KwVar) }
    else if w == seq![100u8, 114u8, 105u8, 118u8, 101u8] { Some(Token::KwDrive) }
    else if w == seq![112u8, 101u8, 101u8, 107u8] { Some(Token::KwPeek) }
    else if w == seq![115u8, 101u8, 116u8, 116u8, 108u8, 101u8] { Some(Token::KwSettle) }
    else if w == seq![112u8, 114u8, 105u8, 110u8, 116u8] { Some(Token::KwPrint) }
    else if w == seq![115u8, 121u8, 115u8, 116u8, 111u8, 108u8, 105u8, 99u8] { Some(Token::KwSystolic) }
    else if w == seq![100u8, 97u8, 116u8, 97u8, 102u8, 108u8, 111u8, 119u8] { Some(Token::KwDataflow) }
    else if w == seq![105u8, 115u8, 97u8] { Some(Token::KwIsa) }
    else if w == seq![105u8, 110u8, 115u8, 116u8, 114u8] { Some(Token::KwInstr) }
    else if w == seq![102u8, 111u8, 114u8, 109u8, 97u8, 116u8] { Some(Token::KwFormat) }
    else if w == seq![114u8, 101u8, 103u8, 105u8, 115u8, 116u8, 101u8, 114u8, 115u8] { Some(Token::KwRegisters) }
    else if w == seq![101u8, 110u8, 99u8, 111u8, 100u8, 105u8, 110u8, 103u8, 95u8, 119u8, 105u8, 100u8, 116u8, 104u8] { Some(Token::KwEncodingWidth) }
    else if w == seq![112u8, 114u8, 111u8, 118u8, 101u8] { Some(Token::KwProve) }
    else if w == seq![101u8, 113u8, 117u8, 105u8, 118u8] { Some(Token::KwEquiv) }
    else if w == seq![99u8, 111u8, 110u8, 115u8, 116u8, 114u8, 97u8, 105u8, 110u8] { Some(Token::KwConstrain) }
    else if w == seq![111u8, 118u8, 101u8, 114u8, 114u8, 105u8, 100u8, 101u8] { Some(Token::KwOverride) }
    else { None }
}

/// The operator or delimiter spelled by `w`, if any.
#[verifier::opaque]
pub open spec fn punct_of(w: Seq<u8>) -> Option<Token> {
    if w == seq![62u8, 62u8, 62u8] { Some(Token::ArithShiftRight) }
    else if w == seq![45u8, 45u8, 62u8] { Some(Token::LongArrow) }
    else if w == seq![60u8, 45u8, 62u8] { Some(Token::BiArrow) }
    else if w == seq![42u8, 42u8] { Some(Token::StarStar) }
    else if w == seq![43u8, 43u8] { Some(Token::Concat) }
    else if w == seq![124u8, 62u8] { Some(Token::PipeOp) }
    else if w == seq![61u8, 61u8] { Some(Token::EqEq) }
    else if w == seq![33u8, 61u8] { Some(Token::NotEq) }
    else if w == seq![60u8, 61u8] { Some(Token::LessEq) }
    else if w == seq![62u8, 61u8] { Some(Token::GreaterEq) }
    else if w == seq![60u8, 60u8] { Some(Token::ShiftLeft) }
    else if w == seq![62u8, 62u8] { Some(Token::ShiftRight) }
    else if w == seq![61u8, 62u8] { Some(Token::FatArrow) }
    else if w == seq![45u8, 62u8] { Some(Token::ThinArrow) }
    else if w == seq![45u8, 45u8] { Some(Token::DashDash) }
    else if w == seq![46u8, 46u8, 61u8] { Some(Token::RangeInclusive) }
    else if w == seq![46u8, 46u8] { Some(Token::RangeExclusive) }
    else if w == seq![43u8] { Some(Token::Plus) }
    else if w == seq![45u8] { Some(Token::Minus) }
    else if w == seq![42u8] { Some(Token::Star) }
    else if w == seq![47u8] { Some(Token::Slash) }
    else if w == seq![37u8] { Some(Token::Percent) }
    else if w == seq![38u8] { Some(Token::Ampersand) }
    else if w == seq![124u8] { Some(Token::Pipe) }
    else if w == seq![94u8] { Some(Token::Caret) }
    else if w == seq![126u8] { Some(Token::Tilde) }
    else if w == seq![60u8] { Some(Token::Less) }
    else if w == seq![62u8] { Some(Token::Greater) }
    else if w == seq![61u8] { Some(Token::Eq) }
    else if w == seq![64u8] { Some(Token::At) }
    else if w == seq![63u8] { Some(Token::Question) }
    else if w == seq![40u8] { Some(Token::LParen) }
    else if w == seq![41u8] { Some(Token::RParen) }
    else if w == seq![91u8] { Some(Token::LBracket) }
    else if w == seq![93u8] { Some(Token::RBracket) }
    else if w == seq![123u8] { Some(Token::LBrace) }
    else if w == seq![125u8] { Some(Token::RBrace) }
    else if w == seq![58u8] { Some(Token::Colon) }
    else if w == seq![44u8] { Some(Token::Comma) }
    else if w == seq![46u8] { Some(Token::Dot) }
    else if w == seq![95u8] { Some(Token::Underscore) }
    else if w == seq![92u8] { Some(Token::Backslash) }
    else { None }
}

/// True when the token is a keyword.
pub open spec fn token_is_keyword(t: Token) -> bool {
    match t {
        Token::KwModule
        | Token::KwSignal
        | Token::KwReg
        | Token::KwComb
        | Token::KwIn
        | Token::KwOut
        | Token::KwInout
        | Token::KwInst
        | Token::KwExtern
        | Token::KwDomain
        | Token::KwStruct
        | Token::KwEnum
        | Token::KwInterface
        | Token::KwType
        | Token::KwConst
        | Token::KwLet
        | Token::KwFn
        | Token::KwGroup
        | Token::KwFsm
        | Token::KwPipeline
        | Token::KwStage
        | Token::KwOn
        | Token::KwReset
        | Token::KwTick
        | Token::KwMatch
        | Token::KwIf
        | Token::KwElif
        | Token::KwElse
        | Token::KwThen
        | Token::KwFor
        | Token::KwGen
        | Token::KwWhen
        | Token::KwPriority
        | Token::KwParallel
        | Token::KwOtherwise
        | Token::KwAssert
        | Token::KwAssume
        | Token::KwCover
        | Token::KwProperty
        | Token::KwSequence
        | Token::KwAlways
        | Token::KwEventually
        | Token::KwUntil
        | Token::KwImplies
        | Token::KwVerify
        | Token::KwForall
        | Token::KwNext
        | Token::KwTrue
        | Token::KwFalse
        | Token::KwAnd
        | Token::KwOr
        | Token::KwNot
        | Token::KwImport
        | Token::KwFrom
        | Token::KwAs
        | Token::KwPub
        | Token::KwUnchecked
        | Token::KwStaticAssert
        | Token::KwTest
        | Token::KwTestbench
        | Token::KwTask
        | Token::KwVar
        | Token::KwDrive
        | Token::KwPeek
        | Token::KwSettle
        | Token::KwPrint
        | Token::KwSystolic
        | Token::KwDataflow
        | Token::KwIsa
        | Token::KwInstr
        | Token::KwFormat
        | Token::KwRegisters
        | Token::KwEncodingWidth
        | Token::KwProve
        | Token::KwEquiv
        | Token::KwConstrain
        | Token::KwOverride => true,
        _ => false,
    }
}

impl Token {
    /// Position of the variant in the declaration order.
    pub fn kind(&self) -> (k: u8)
        ensures
            k == token_kind(*self),
    {
        match self {
            Token::Newline => 0u8,
            Token::Indent => 1u8,
            Token::Dedent => 2u8,
            Token::KwModule => 3u8,
            Token::KwSignal => 4u8,
            Token::KwReg => 5u8,
            Token::KwComb => 6u8,
            Token::KwIn => 7u8,
            Token::KwOut => 8u8,
            Token::KwInout => 9u8,
            Token::KwInst => 10u8,
            Token::KwExtern => 11u8,
            Token::KwDomain => 12u8,
            Token::KwStruct => 13u8,
            Token::KwEnum => 14u8,
            Token::KwInterface => 15u8,
            Token::KwType => 16u8,
            Token::KwConst => 17u8,
            Token::KwLet => 18u8,
            Token::KwFn => 19u8,
            Token::KwGroup => 20u8,
            Token::KwFsm => 21u8,
            Token::KwPipeline => 22u8,
            Token::KwStage => 23u8,
            Token::KwOn => 24u8,
            Token::KwReset => 25u8,
            Token::KwTick => 26u8,
            Token::KwMatch => 27u8,
            Token::KwIf => 28u8,
            Token::KwElif => 29u8,
            Token::KwElse => 30u8,
            Token::KwThen => 31u8,
            Token::KwFor => 32u8,
            Token::KwGen => 33u8,
            Token::KwWhen => 34u8,
            Token::KwPriority => 35u8,
            Token::KwParallel => 36u8,
            Token::KwOtherwise => 37u8,
            Token::KwAssert => 38u8,
            Token::KwAssume => 39u8,
            Token::KwCover => 40u8,
            Token::KwProperty => 41u8,
            Token::KwSequence => 42u8,
            Token::KwAlways => 43u8,
            Token::KwEventually => 44u8,
            Token::KwUntil => 45u8,
            Token::KwImplies => 46u8,
            Token::KwVerify => 47u8,
            Token::KwForall => 48u8,
            Token::KwNext => 49u8,
            Token::KwTrue => 50u8,
            Token::KwFalse => 51u8,
            Token::KwAnd => 52u8,
            Token::KwOr => 53u8,
            Token::KwNot => 54u8,
            Token::KwImport => 55u8,
            Token::KwFrom => 56u8,
            Token::KwAs => 57u8,
            Token::KwPub => 58u8,
            Token::KwUnchecked => 59u8,
            Token::KwStaticAssert => 60u8,
            Token::KwTest => 61u8,
            Token::KwTestbench => 62u8,
            Token::KwTask => 63u8,
            Token::KwVar => 64u8,
            Token::KwDrive => 65u8,
            Token::KwPeek => 66u8,
            Token::KwSettle => 67u8,
            Token::KwPrint => 68u8,
            Token::KwSystolic => 69u8,
            Token::KwDataflow => 70u8,
            Token::KwIsa => 71u8,
            Token::KwInstr => 72u8,
            Token::KwFormat => 73u8,
            Token::KwRegisters => 74u8,
            Token::KwEncodingWidth => 75u8,
            Token::KwProve => 76u8,
            Token::KwEquiv => 77u8,
            Token::KwConstrain => 78u8,
            Token::KwOverride => 79u8,
            Token::ArithShiftRight => 80u8,
            Token::LongArrow => 81u8,
            Token::BiArrow => 82u8,
            Token::StarStar => 83u8,
            Token::Concat => 84u8,
            Token::PipeOp => 85u8,
            Token::EqEq => 86u8,
            Token::NotEq => 87u8,
            Token::LessEq => 88u8,
            Token::GreaterEq => 89u8,
            Token::ShiftLeft => 90u8,
            Token::ShiftRight => 91u8,
            Token::FatArrow => 92u8,
            Token::ThinArrow => 93u8,
            Token::DashDash => 94u8,
            Token::RangeInclusive => 95u8,
            Token::RangeExclusive => 96u8,
            Token::Plus => 97u8,
            Token::Minus => 98u8,
            Token::Star => 99u8,
            Token::Slash => 100u8,
            Token::Percent => 101u8,
            Token::Ampersand => 102u8,
            Token::Pipe => 103u8,
            Token::Caret => 104u8,
            Token::Tilde => 105u8,
            Token::Less => 106u8,
            Token::Greater => 107u8,
            Token::Eq => 108u8,
            Token::At => 109u8,
            Token::Question => 110u8,
            Token::LParen => 111u8,
            Token::RParen => 112u8,
            Token::LBracket => 113u8,
            Token::RBracket => 114u8,
            Token::LBrace => 115u8,
            Token::RBrace => 116u8,
            Token::Colon => 117u8,
            Token::Comma => 118u8,
            Token::Dot => 119u8,
            Token::Underscore => 120u8,
            Token::Backslash => 121u8,
            Token::Numeric(..) => 122u8,
            Token::StringLit(..) => 123u8,
            Token::Ident => 124u8,
            Token::DocComment => 125u8,
            Token::LineComment => 126u8,
            Token::BlockComment => 127u8,
        }
    }

    /// True when the token is a keyword.
    pub fn is_keyword(&self) -> (b: bool)
        ensures
            b == token_is_keyword(*self),
    {
        match self {
            Token::KwModule
            | Token::KwSignal
            | Token::KwReg
            | Token::KwComb
            | Token::KwIn
            | Token::KwOut
            | Token::KwInout
            | Token::KwInst
            | Token::KwExtern
            | Token::KwDomain
            | Token::KwStruct
            | Token::KwEnum
            | Token::KwInterface
            | Token::KwType
            | Token::KwConst
            | Token::KwLet
            | Token::KwFn
            | Token::KwGroup
            | Token::KwFsm
            | Token::KwPipeline
            | Token::KwStage
            | Token::KwOn
            | Token::KwReset
            | Token::KwTick
            | Token::KwMatch
            | Token::KwIf
            | Token::KwElif
            | Token::KwElse
            | Token::KwThen
            | Token::KwFor
            | Token::KwGen
            | Token::KwWhen
            | Token::KwPriority
            | Token::KwParallel
            | Token::KwOtherwise
            | Token::KwAssert
            | Token::KwAssume
            | Token::KwCover
            | Token::KwProperty
            | Token::KwSequence
            | Token::KwAlways
            | Token::KwEventually
            | Token::KwUntil
            | Token::KwImplies
            | Token::KwVerify
            | Token::KwForall
            | Token::KwNext
            | Token::KwTrue
            | Token::KwFalse
            | Token::KwAnd
            | Token::KwOr
            | Token::KwNot
            | Token::KwImport
            | Token::KwFrom
            | Token::KwAs
            | Token::KwPub
            | Token::KwUnchecked
            | Token::KwStaticAssert
            | Token::KwTest
            | Token::KwTestbench
            | Token::KwTask
            | Token::KwVar
            | Token::KwDrive
            | Token::KwPeek
            | Token::KwSettle
            | Token::KwPrint
            | Token::KwSystolic
            | Token::KwDataflow
            | Token::KwIsa
            | Token::KwInstr
            | Token::KwFormat
            | Token::KwRegisters
            | Token::KwEncodingWidth
            | Token::KwProve
            | Token::KwEquiv
            | Token::KwConstrain
            | Token::KwOverride => true,
            _ => false,
        }
    }
}

/// The keyword spelled by the bytes `s[start..end]`, if any.
pub fn keyword_token(s: &[u8], start: usize, end: usize) -> (r: Option<Token>)
    requires
        start <= end <= s@.len(),
    ensures
        r == keyword_of(s@.subrange(start as int, end as int)),
{
    reveal(keyword_of);
    let ghost wd = s@.subrange(start as int, end as int);
    if bytes_equal(s, start, end, &[109u8, 111u8, 100u8, 117u8, 108u8, 101u8]) {
        proof { assert(wd =~= seq![109u8, 111u8, 100u8, 117u8, 108u8, 101u8]); }
        return Some(Token::KwModule);
    }
    assert(wd != seq![109u8, 111u8, 100u8, 117u8, 108u8, 101u8]);
    if bytes_equal(s, start, end, &[115u8, 105u8, 103u8, 110u8, 97u8, 108u8]) {
        proof { assert(wd =~= seq![115u8, 105u8, 103u8, 110u8, 97u8, 108u8]); }
        return Some(Token::KwSignal);
    }
    assert(wd != seq![115u8, 105u8, 103u8, 110u8, 97u8, 108u8]);
    if bytes_equal(s, start, end, &[114u8, 101u8, 103u8]) {
        proof { assert(wd =~= seq![114u8, 101u8, 103u8]); }
        return Some(Token::KwReg);
    }
    assert(wd != seq![114u8, 101u8, 103u8]);
    if bytes_equal(s, start, end, &[99u8, 111u8, 109u8, 98u8]) {
        proof { assert(wd =~= seq![99u8, 111u8, 109u8, 98u8]); }
        return Some(Token::KwComb);
    }
    assert(wd != seq![99u8, 111u8, 109u8, 98u8]);
    if bytes_equal(s, start, end, &[105u8, 110u8]) {
        proof { assert(wd =~= seq![105u8, 110u8]); }
        return Some(Token::KwIn);
    }
    assert(wd != seq![105u8, 110u8]);
    if bytes_equal(s, start, end, &[111u8, 117u8, 116u8]) {
        proof { assert(wd =~= seq![111u8, 117u8, 116u8]); }
        return Some(Token::KwOut);
    }
    assert(wd != seq![111u8, 117u8, 116u8]);
    if bytes_equal(s, start, end, &[105u8, 110u8, 111u8, 117u8, 116u8]) {
        proof { assert(wd =~= seq![105u8, 110u8, 111u8, 117u8, 116u8]); }
        return Some(Token::KwInout);
    }
    assert(wd != seq![105u8, 110u8, 111u8, 117u8, 116u8]);
    if bytes_equal(s, start, end, &[105u8, 110u8, 115u8, 116u8]) {
        proof { assert(wd =~= seq![105u8, 110u8, 115u8, 116u8]); }
        return Some(Token::KwInst);
    }
    assert(wd != seq![105u8, 110u8, 115u8, 116u8]);
    if bytes_equal(s, start, end, &[101u8, 120u8, 116u8, 101u8, 114u8, 110u8]) {
        proof { assert(wd =~= seq![101u8, 120u8, 116u8, 101u8, 114u8, 110u8]); }
        return Some(Token::KwExtern);
    }
    assert(wd != seq![101u8, 120u8, 116u8, 101u8, 114u8, 110u8]);
    if bytes_equal(s, start, end, &[100u8, 111u8, 109u8, 97u8, 105u8, 110u8]) {
        proof { assert(wd =~= seq![100u8, 111u8, 109u8, 97u8, 105u8, 110u8]); }
        return Some(Token::KwDomain);
    }
    assert(wd != seq![100u8, 111u8, 109u8, 97u8, 105u8, 110u8]);
    if bytes_equal(s, start, end, &[115u8, 116u8, 114u8, 117u8, 99u8, 116u8]) {
        proof { assert(wd =~= seq![115u8, 116u8, 114u8, 117u8, 99u8, 116u8]); }
        return Some(Token::KwStruct);
    }
    assert(wd != seq![115u8, 116u8, 114u8, 117u8, 99u8, 116u8]);
    if bytes_equal(s, start, end, &[101u8, 110u8, 117u8, 109u8]) {
        proof { assert(wd =~= seq![101u8, 110u8, 117u8, 109u8]); }
        return Some(Token::KwEnum);
    }
    assert(wd != seq![101u8, 110u8, 117u8, 109u8]);
    if bytes_equal(s, start, end, &[105u8, 110u8, 116u8, 101u8, 114u8, 102u8, 97u8, 99u8, 101u8]) {
        proof { assert(wd =~= seq![105u8, 110u8, 116u8, 101u8, 114u8, 102u8, 97u8, 99u8, 101u8]); }
        return Some(Token::KwInterface);
    }
    assert(wd != seq![105u8, 110u8, 116u8, 101u8, 114u8, 102u8, 97u8, 99u8, 101u8]);
    if bytes_equal(s, start, end, &[116u8, 121u8, 112u8, 101u8]) {
        proof { assert(wd =~= seq![116u8, 121u8, 112u8, 101u8]); }
        return Some(Token::KwType);
    }
    assert(wd != seq![116u8, 121u8, 112u8, 101u8]);
    if bytes_equal(s, start, end, &[99u8, 111u8, 110u8, 115u8, 116u8]) {
        proof { assert(wd =~= seq![99u8, 111u8, 110u8, 115u8, 116u8]); }
        return Some(Token::KwConst);
    }
    assert(wd != seq![99u8, 111u8, 110u8, 115u8, 116u8]);
    if bytes_equal(s, start, end, &[108u8, 101u8, 116u8]) {
        proof { assert(wd =~= seq![108u8, 101u8, 116u8]); }
        return Some(Token::KwLet);
    }
    assert(wd != seq![108u8, 101u8, 116u8]);
    if bytes_equal(s, start, end, &[102u8, 110u8]) {
        proof { assert(wd =~= seq![102u8, 110u8]); }
        return Some(Token::KwFn);
    }
    assert(wd != seq![102u8, 110u8]);
    if bytes_equal(s, start, end, &[103u8, 114u8, 111u8, 117u8, 112u8]) {
        proof { assert(wd =~= seq![103u8, 114u8, 111u8, 117u8, 112u8]); }
        return Some(Token::KwGroup);
    }
    assert(wd != seq![103u8, 114u8, 111u8, 117u8, 112u8]);
    if bytes_equal(s, start, end, &[102u8, 115u8, 109u8]) {
        proof { assert(wd =~= seq![102u8, 115u8, 109u8]); }
        return Some(Token::KwFsm);
    }
    assert(wd != seq![102u8, 115u8, 109u8]);
    if bytes_equal(s, start, end, &[112u8, 105u8, 112u8, 101u8, 108u8, 105u8, 110u8, 101u8]) {
        proof { assert(wd =~= seq![112u8, 105u8, 112u8, 101u8, 108u8, 105u8, 110u8, 101u8]); }
        return Some(Token::KwPipeline);
    }
    assert(wd != seq![112u8, 105u8, 112u8, 101u8, 108u8, 105u8, 110u8, 101u8]);
    if bytes_equal(s, start, end, &[115u8, 116u8, 97u8, 103u8, 101u8]) {
        proof { assert(wd =~= seq![115u8, 116u8, 97u8, 103u8, 101u8]); }
        return Some(Token::KwStage);
    }
    assert(wd != seq![115u8, 116u8, 97u8, 103u8, 101u8]);
    if bytes_equal(s, start, end, &[111u8, 110u8]) {
        proof { assert(wd =~= seq![111u8, 110u8]); }
        return Some(Token::KwOn);
    }
    assert(wd != seq![111u8, 110u8]);
    if bytes_equal(s, start, end, &[114u8, 101u8, 115u8, 101u8, 116u8]) {
        proof { assert(wd =~= seq![114u8, 101u8, 115u8, 101u8, 116u8]); }
        return Some(Token::KwReset);
    }
    assert(wd != seq![114u8, 101u8, 115u8, 101u8, 116u8]);
    if bytes_equal(s, start, end, &[116u8, 105u8, 99u8, 107u8]) {
        proof { assert(wd =~= seq![116u8, 105u8, 99u8, 107u8]); }
        return Some(Token::KwTick);
    }
    assert(wd != seq![116u8, 105u8, 99u8, 107u8]);
    if bytes_equal(s, start, end, &[109u8, 97u8, 116u8, 99u8, 104u8]) {
        proof { assert(wd =~= seq![109u8, 97u8, 116u8, 99u8, 104u8]); }
        return Some(Token::KwMatch);
    }
    assert(wd != seq![109u8, 97u8, 116u8, 99u8, 104u8]);
    if bytes_equal(s, start, end, &[105u8, 102u8]) {
        proof { assert(wd =~= seq![105u8, 102u8]); }
        return Some(Token::KwIf);
    }
    assert(wd != seq![105u8, 102u8]);
    if bytes_equal(s, start, end, &[101u8, 108u8, 105u8, 102u8]) {
        proof { assert(wd =~= seq![101u8, 108u8, 105u8, 102u8]); }
        return Some(Token::KwElif);
    }
    assert(wd != seq![101u8, 108u8, 105u8, 102u8]);
    if bytes_equal(s, start, end, &[101u8, 108u8, 115u8, 101u8]) {
        proof { assert(wd =~= seq![101u8, 108u8, 115u8, 101u8]); }
        return Some(Token::KwElse);
    }
    assert(wd != seq![101u8, 108u8, 115u8, 101u8]);
    if bytes_equal(s, start, end, &[116u8, 104u8, 101u8, 110u8]) {
        proof { assert(wd =~= seq![116u8, 104u8, 101u8, 110u8]); }
        return Some(Token::KwThen);
    }
    assert(wd != seq![116u8, 104u8, 101u8, 110u8]);
    if bytes_equal(s, start, end, &[102u8, 111u8, 114u8]) {
        proof { assert(wd =~= seq![102u8, 111u8, 114u8]); }
        return Some(Token::KwFor);
    }
    assert(wd != seq![102u8, 111u8, 114u8]);
    if bytes_equal(s, start, end, &[103u8, 101u8, 110u8]) {
        proof { assert(wd =~= seq![103u8, 101u8, 110u8]); }
        return Some(Token::KwGen);
    }
    assert(wd != seq![103u8, 101u8, 110u8]);
    if bytes_equal(s, start, end, &[119u8, 104u8, 101u8, 110u8]) {
        proof { assert(wd =~= seq![119u8, 104u8, 101u8, 110u8]); }
        return Some(Token::KwWhen);
    }
    assert(wd != seq![119u8, 104u8, 101u8, 110u8]);
    if bytes_equal(s, start, end, &[112u8, 114u8, 105u8, 111u8, 114u8, 105u8, 116u8, 121u8]) {
        proof { assert(wd =~= seq![112u8, 114u8, 105u8, 111u8, 114u8, 105u8, 116u8, 121u8]); }
        return Some(Token::KwPriority);
    }
    assert(wd != seq![112u8, 114u8, 105u8, 111u8, 114u8, 105u8, 116u8, 121u8]);
    if bytes_equal(s, start, end, &[112u8, 97u8, 114u8, 97u8, 108u8, 108u8, 101u8, 108u8]) {
        proof { assert(wd =~= seq![112u8, 97u8, 114u8, 97u8, 108u8, 108u8, 101u8, 108u8]); }
        return Some(Token::KwParallel);
    }
    assert(wd != seq![112u8, 97u8, 114u8, 97u8, 108u8, 108u8, 101u8, 108u8]);
    if bytes_equal(s, start, end, &[111u8, 116u8, 104u8, 101u8, 114u8, 119u8, 105u8, 115u8, 101u8]) {
        proof { assert(wd =~= seq![111u8, 116u8, 104u8, 101u8, 114u8, 119u8, 105u8, 115u8, 101u8]); }
        return Some(Token::KwOtherwise);
    }
    assert(wd != seq![111u8, 116u8, 104u8, 101u8, 114u8, 119u8, 105u8, 115u8, 101u8]);
    if bytes_equal(s, start, end, &[97u8, 115u8, 115u8, 101u8, 114u8, 116u8]) {
        proof { assert(wd =~= seq![97u8, 115u8, 115u8, 101u8, 114u8, 116u8]); }
        return Some(Token::KwAssert);
    }
    assert(wd != seq![97u8, 115u8, 115u8, 101u8, 114u8, 116u8]);
    if bytes_equal(s, start, end, &[97u8, 115u8, 115u8, 117u8, 109u8, 101u8]) {
        proof { assert(wd =~= seq![97u8, 115u8, 115u8, 117u8, 109u8, 101u8]); }
        return Some(Token::KwAssume);
    }
    assert(wd != seq![97u8, 115u8, 115u8, 117u8, 109u8, 101u8]);
    if bytes_equal(s, start, end, &[99u8, 111u8, 118u8, 101u8, 114u8]) {
        proof { assert(wd =~= seq![99u8, 111u8, 118u8, 101u8, 114u8]); }
        return Some(Token::KwCover);
    }
    assert(wd != seq![99u8, 111u8, 118u8, 101u8, 114u8]);
    if bytes_equal(s, start, end, &[112u8, 114u8, 111u8, 112u8, 101u8, 114u8, 116u8, 121u8]) {
        proof { assert(wd =~= seq![112u8, 114u8, 111u8, 112u8, 101u8, 114u8, 116u8, 121u8]); }
        return Some(Token::KwProperty);
    }
    assert(wd != seq![112u8, 114u8, 111u8, 112u8, 101u8, 114u8, 116u8, 121u8]);
    if bytes_equal(s, start, end, &[115u8, 101u8, 113u8, 117u8, 101u8, 110u8, 99u8, 101u8]) {
        proof { assert(wd =~= seq![115u8, 101u8, 113u8, 117u8, 101u8, 110u8, 99u8, 101u8]); }
        return Some(Token::KwSequence);
    }
    assert(wd != seq![115u8, 101u8, 113u8, 117u8, 101u8, 110u8, 99u8, 101u8]);
    if bytes_equal(s, start, end, &[97u8, 108u8, 119u8, 97u8, 121u8, 115u8]) {
        proof { assert(wd =~= seq![97u8, 108u8, 119u8, 97u8, 121u8, 115u8]); }
        return Some(Token::KwAlways);
    }
    assert(wd != seq![97u8, 108u8, 119u8, 97u8, 121u8, 115u8]);
    if bytes_equal(s, start, end, &[101u8, 118u8, 101u8, 110u8, 116u8, 117u8, 97u8, 108u8, 108u8, 121u8]) {
        proof { assert(wd =~= seq![101u8, 118u8, 101u8, 110u8, 116u8, 117u8, 97u8, 108u8, 108u8, 121u8]); }
        return Some(Token::KwEventually);
    }
    assert(wd != seq![101u8, 118u8, 101u8, 110u8, 116u8, 117u8, 97u8, 108u8, 108u8, 121u8]);
    if bytes_equal(s, start, end, &[117u8, 110u8, 116u8, 105u8, 108u8]) {
        proof { assert(wd =~= seq![117u8, 110u8, 116u8, 105u8, 108u8]); }
        return Some(Token::KwUntil);
    }
    assert(wd != seq![117u8, 110u8, 116u8, 105u8, 108u8]);
    if bytes_equal(s, start, end, &[105u8, 109u8, 112u8, 108u8, 105u8, 101u8, 115u8]) {
        proof { assert(wd =~= seq![105u8, 109u8, 112u8, 108u8, 105u8, 101u8, 115u8]); }
        return Some(Token::KwImplies);
    }
    assert(wd != seq![105u8, 109u8, 112u8, 108u8, 105u8, 101u8, 115u8]);
    if bytes_equal(s, start, end, &[118u8, 101u8, 114u8, 105u8, 102u8, 121u8]) {
        proof { assert(wd =~= seq![118u8, 101u8, 114u8, 105u8, 102u8, 121u8]); }
        return Some(Token::KwVerify);
    }
    assert(wd != seq![118u8, 101u8, 114u8, 105u8, 102u8, 121u8]);
    if bytes_equal(s, start, end, &[102u8, 111u8, 114u8, 97u8, 108u8, 108u8]) {
        proof { assert(wd =~= seq![102u8, 111u8, 114u8, 97u8, 108u8, 108u8]); }
        return Some(Token::KwForall);
    }
    assert(wd != seq![102u8, 111u8, 114u8, 97u8, 108u8, 108u8]);
    if bytes_equal(s, start, end, &[110u8, 101u8, 120u8, 116u8]) {
        proof { assert(wd =~= seq![110u8, 101u8, 120u8, 116u8]); }
        return Some(Token::KwNext);
    }
    assert(wd != seq![110u8, 101u8, 120u8, 116u8]);
    if bytes_equal(s, start, end, &[116u8, 114u8, 117u8, 101u8]) {
        proof { assert(wd =~= seq![116u8, 114u8, 117u8, 101u8]); }
        return Some(Token::KwTrue);
    }
    assert(wd != seq![116u8, 114u8, 117u8, 101u8]);
    if bytes_equal(s, start, end, &[102u8, 97u8, 108u8, 115u8, 101u8]) {
        proof { assert(wd =~= seq![102u8, 97u8, 108u8, 115u8, 101u8]); }
        return Some(Token::KwFalse);
    }
    assert(wd != seq![102u8, 97u8, 108u8, 115u8, 101u8]);
    if bytes_equal(s, start, end, &[97u8, 110u8, 100u8]) {
        proof { assert(wd =~= seq![97u8, 110u8, 100u8]); }
        return Some(Token::KwAnd);
    }
    assert(wd != seq![97u8, 110u8, 100u8]);
    if bytes_equal(s, start, end, &[111u8, 114u8]) {
        proof { assert(wd =~= seq![111u8, 114u8]); }
        return Some(Token::KwOr);
    }
    assert(wd != seq![111u8, 114u8]);
    if bytes_equal(s, start, end, &[110u8, 111u8, 116u8]) {
        proof { assert(wd =~= seq![110u8, 111u8, 116u8]); }
        return Some(Token::KwNot);
    }
    assert(wd != seq![110u8, 111u8, 116u8]);
    if bytes_equal(s, start, end, &[105u8, 109u8, 112u8, 111u8, 114u8, 116u8]) {
        proof { assert(wd =~= seq![105u8, 109u8, 112u8, 111u8, 114u8, 116u8]); }
        return Some(Token::KwImport);
    }
    assert(wd != seq![105u8, 109u8, 112u8, 111u8, 114u8, 116u8]);
    if bytes_equal(s, start, end, &[102u8, 114u8, 111u8, 109u8]) {
        proof { assert(wd =~= seq![102u8, 114u8, 111u8, 109u8]); }
        return Some(Token::KwFrom);
    }
    assert(wd != seq![102u8, 114u8, 111u8, 109u8]);
    if bytes_equal(s, start, end, &[97u8, 115u8]) {
        proof { assert(wd =~= seq![97u8, 115u8]); }
        return Some(Token::KwAs);
    }
    assert(wd != seq![97u8, 115u8]);
    if bytes_equal(s, start, end, &[112u8, 117u8, 98u8]) {
        proof { assert(wd =~= seq![112u8, 117u8, 98u8]); }
        return Some(Token::KwPub);
    }
    assert(wd != seq![112u8, 117u8, 98u8]);
    if bytes_equal(s, start, end, &[117u8, 110u8, 99u8, 104u8, 101u8, 99u8, 107u8, 101u8, 100u8]) {
        proof { assert(wd =~= seq![117u8, 110u8, 99u8, 104u8, 101u8, 99u8, 107u8, 101u8, 100u8]); }
        return Some(Token::KwUnchecked);
    }
    assert(wd != seq![117u8, 110u8, 99u8, 104u8, 101u8, 99u8, 107u8, 101u8, 100u8]);
    if bytes_equal(s, start, end, &[115u8, 116u8, 97u8, 116u8, 105u8, 99u8, 95u8, 97u8, 115u8, 115u8, 101u8, 114u8, 116u8]) {
        proof { assert(wd =~= seq![115u8, 116u8, 97u8, 116u8, 105u8, 99u8, 95u8, 97u8, 115u8, 115u8, 101u8, 114u8, 116u8]); }
        return Some(Token::KwStaticAssert);
    }
    assert(wd != seq![115u8, 116u8, 97u8, 116u8, 105u8, 99u8, 95u8, 97u8, 115u8, 115u8, 101u8, 114u8, 116u8]);
    if bytes_equal(s, start, end, &[116u8, 101u8, 115u8, 116u8]) {
        proof { assert(wd =~= seq![116u8, 101u8, 115u8, 116u8]); }
        return Some(Token::KwTest);
    }
    assert(wd != seq![116u8, 101u8, 115u8, 116u8]);
    if bytes_equal(s, start, end, &[116u8, 101u8, 115u8, 116u8, 98u8, 101u8, 110u8, 99u8, 104u8]) {
        proof { assert(wd =~= seq![116u8, 101u8, 115u8, 116u8, 98u8, 101u8, 110u8, 99u8, 104u8]); }
        return Some(Token::KwTestbench);
    }
    assert(wd != seq![116u8, 101u8, 115u8, 116u8, 98u8, 101u8, 110u8, 99u8, 104u8]);
    if bytes_equal(s, start, end, &[116u8, 97u8, 115u8, 107u8]) {
        proof { assert(wd =~= seq![116u8, 97u8, 115u8, 107u8]); }
        return Some(Token::KwTask);
    }
    assert(wd != seq![116u8, 97u8, 115u8, 107u8]);
    if bytes_equal(s, start, end, &[118u8, 97u8, 114u8]) {
        proof { assert(wd =~= seq![118u8, 97u8, 114u8]); }
        return Some(Token::KwVar);
    }
    assert(wd != seq![118u8, 97u8, 114u8]);
    if bytes_equal(s, start, end, &[100u8, 114u8, 105u8, 118u8, 101u8]) {
        proof { assert(wd =~= seq![100u8, 114u8, 105u8, 118u8, 101u8]); }
        return Some(Token::KwDrive);
    }
    assert(wd != seq![100u8, 114u8, 105u8, 118u8, 101u8]);
    if bytes_equal(s, start, end, &[112u8, 101u8, 101u8, 107u8]) {
        proof { assert(wd =~= seq![112u8, 101u8, 101u8, 107u8]); }
        return Some(Token::KwPeek);
    }
    assert(wd != seq![112u8, 101u8, 101u8, 107u8]);
    if bytes_equal(s, start, end, &[115u8, 101u8, 116u8, 116u8, 108u8, 101u8]) {
        proof { assert(wd =~= seq![115u8, 101u8, 116u8, 116u8, 108u8, 101u8]); }
        return Some(Token::KwSettle);
    }
    assert(wd != seq![115u8, 101u8, 116u8, 116u8, 108u8, 101u8]);
    if bytes_equal(s, start, end, &[112u8, 114u8, 105u8, 110u8, 116u8]) {
        proof { assert(wd =~= seq![112u8, 114u8, 105u8, 110u8, 116u8]); }
        return Some(Token::KwPrint);
    }
    assert(wd != seq![112u8, 114u8, 105u8, 110u8, 116u8]);
    if bytes_equal(s, start, end, &[115u8, 121u8, 115u8, 116u8, 111u8, 108u8, 105u8, 99u8]) {
        proof { assert(wd =~= seq![115u8, 121u8, 115u8, 116u8, 111u8, 108u8, 105u8, 99u8]); }
        return Some(Token::KwSystolic);
    }
    assert(wd != seq![115u8, 121u8, 115u8, 116u8, 111u8, 108u8, 105u8, 99u8]);
    if bytes_equal(s, start, end, &[100u8, 97u8, 116u8, 97u8, 102u8, 108u8, 111u8, 119u8]) {
        proof { assert(wd =~= seq![100u8, 97u8, 116u8, 97u8, 102u8, 108u8, 111u8, 119u8]); }
        return Some(Token::KwDataflow);
    }
    assert(wd != seq![100u8, 97u8, 116u8, 97u8, 102u8, 108u8, 111u8, 119u8]);
    if bytes_equal(s, start, end, &[105u8, 115u8, 97u8]) {
        proof { assert(wd =~= seq![105u8, 115u8, 97u8]); }
        return Some(Token::KwIsa);
    }
    assert(wd != seq![105u8, 115u8, 97u8]);
    if bytes_equal(s, start, end, &[105u8, 110u8, 115u8, 116u8, 114u8]) {
        proof { assert(wd =~= seq![105u8, 110u8, 115u8, 116u8, 114u8]); }
        return Some(Token::KwInstr);
    }
    assert(wd != seq![105u8, 110u8, 115u8, 116u8, 114u8]);
    if bytes_equal(s, start, end, &[102u8, 111u8, 114u8, 109u8, 97u8, 116u8]) {
        proof { assert(wd =~= seq![102u8, 111u8, 114u8, 109u8, 97u8, 116u8]); }
        return Some(Token::KwFormat);
    }
    assert(wd != seq![102u8, 111u8, 114u8, 109u8, 97u8, 116u8]);
    if bytes_equal(s, start, end, &[114u8, 101u8, 103u8, 105u8, 115u8, 116u8, 101u8, 114u8, 115u8]) {
        proof { assert(wd =~= seq![114u8, 101u8, 103u8, 105u8, 115u8, 116u8, 101u8, 114u8, 115u8]); }
        return Some(Token::KwRegisters);
    }
    assert(wd != seq![114u8, 101u8, 103u8, 105u8, 115u8, 116u8, 101u8, 114u8, 115u8]);
    if bytes_equal(s, start, end, &[101u8, 110u8, 99u8, 111u8, 100u8, 105u8, 110u8, 103u8, 95u8, 119u8, 105u8, 100u8, 116u8, 104u8]) {
        proof { assert(wd =~= seq![101u8, 110u8, 99u8, 111u8, 100u8, 105u8, 110u8, 103u8, 95u8, 119u8, 105u8, 100u8, 116u8, 104u8]); }
        return Some(Token::KwEncodingWidth);
    }
    assert(wd != seq![101u8, 110u8, 99u8, 111u8, 100u8, 105u8, 110u8, 103u8, 95u8, 119u8, 105u8, 100u8, 116u8, 104u8]);
    if bytes_equal(s, start, end, &[112u8, 114u8, 111u8, 118u8, 101u8]) {
        proof { assert(wd =~= seq![112u8, 114u8, 111u8, 118u8, 101u8]); }
        return Some(Token::KwProve);
    }
    assert(wd != seq![112u8, 114u8, 111u8, 118u8, 101u8]);
    if bytes_equal(s, start, end, &[101u8, 113u8, 117u8, 105u8, 118u8]) {
        proof { assert(wd =~= seq![101u8, 113u8, 117u8, 105u8, 118u8]); }
        return Some(Token::KwEquiv);
    }
    assert(wd != seq![101u8, 113u8, 117u8, 105u8, 118u8]);
    if bytes_equal(s, start, end, &[99u8, 111u8, 110u8, 115u8, 116u8, 114u8, 97u8, 105u8, 110u8]) {
        proof { assert(wd =~= seq![99u8, 111u8, 110u8, 115u8, 116u8, 114u8, 97u8, 105u8, 110u8]); }
        return Some(Token::KwConstrain);
    }
    assert(wd != seq![99u8, 111u8, 110u8, 115u8, 116u8, 114u8, 97u8, 105u8, 110u8]);
    if bytes_equal(s, start, end, &[111u8, 118u8, 101u8, 114u8, 114u8, 105u8, 100u8, 101u8]) {
        proof { assert(wd =~= seq![111u8, 118u8, 101u8, 114u8, 114u8, 105u8, 100u8, 101u8]); }
        return Some(Token::KwOverride);
    }
    assert(wd != seq![111u8, 118u8, 101u8, 114u8, 114u8, 105u8, 100u8, 101u8]);
    None
}

/// The operator or delimiter spelled by the bytes `s[start..end]`, if any.
pub fn punct_token(s: &[u8], start: usize, end: usize) -> (r: Option<Token>)
    requires
        start <= end <= s@.len(),
    ensures
        r == punct_of(s@.subrange(start as int, end as int)),
{
    reveal(punct_of);
    let ghost wd = s@.subrange(start as int, end as int);
    if bytes_equal(s, start, end, &[62u8, 62u8, 62u8]) {
        proof { assert(wd =~= seq![62u8, 62u8, 62u8]); }
        return Some(Token::ArithShiftRight);
    }
    assert(wd != seq![62u8, 62u8, 62u8]);
    if bytes_equal(s, start, end, &[45u8, 45u8, 62u8]) {
        proof { assert(wd =~= seq![45u8, 45u8, 62u8]); }
        return Some(Token::LongArrow);
    }
    assert(wd != seq![45u8, 45u8, 62u8]);
    if bytes_equal(s, start, end, &[60u8, 45u8, 62u8]) {
        proof { assert(wd =~= seq![60u8, 45u8, 62u8]); }
        return Some(Token::BiArrow);
    }
    assert(wd != seq![60u8, 45u8, 62u8]);
    if bytes_equal(s, start, end, &[42u8, 42u8]) {
        proof { assert(wd =~= seq![42u8, 42u8]); }
        return Some(Token::StarStar);
    }
    assert(wd != seq![42u8, 42u8]);
    if bytes_equal(s, start, end, &[43u8, 43u8]) {
        proof { assert(wd =~= seq![43u8, 43u8]); }
        return Some(Token::Concat);
    }
    assert(wd != seq![43u8, 43u8]);
    if bytes_equal(s, start, end, &[124u8, 62u8]) {
        proof { assert(wd =~= seq![124u8, 62u8]); }
        return Some(Token::PipeOp);
    }
    assert(wd != seq![124u8, 62u8]);
    if bytes_equal(s, start, end, &[61u8, 61u8]) {
        proof { assert(wd =~= seq![61u8, 61u8]); }
        return Some(Token::EqEq);
    }
    assert(wd != seq![61u8, 61u8]);
    if bytes_equal(s, start, end, &[33u8, 61u8]) {
        proof { assert(wd =~= seq![33u8, 61u8]); }
        return Some(Token::NotEq);
    }
    assert(wd != seq![33u8, 61u8]);
    if bytes_equal(s, start, end, &[60u8, 61u8]) {
        proof { assert(wd =~= seq![60u8, 61u8]); }
        return Some(Token::LessEq);
    }
    assert(wd != seq![60u8, 61u8]);
    if bytes_equal(s, start, end, &[62u8, 61u8]) {
        proof { assert(wd =~= seq![62u8, 61u8]); }
        return Some(Token::GreaterEq);
    }
    assert(wd != seq![62u8, 61u8]);
    if bytes_equal(s, start, end, &[60u8, 60u8]) {
        proof { assert(wd =~= seq![60u8, 60u8]); }
        return Some(Token::ShiftLeft);
    }
    assert(wd != seq![60u8, 60u8]);
    if bytes_equal(s, start, end, &[62u8, 62u8]) {
        proof { assert(wd =~= seq![62u8, 62u8]); }
        return Some(Token::ShiftRight);
    }
    assert(wd != seq![62u8, 62u8]);
    if bytes_equal(s, start, end, &[61u8, 62u8]) {
        proof { assert(wd =~= seq![61u8, 62u8]); }
        return Some(Token::FatArrow);
    }
    assert(wd != seq![61u8, 62u8]);
    if bytes_equal(s, start, end, &[45u8, 62u8]) {
        proof { assert(wd =~= seq![45u8, 62u8]); }
        return Some(Token::ThinArrow);
    }
    assert(wd != seq![45u8, 62u8]);
    if bytes_equal(s, start, end, &[45u8, 45u8]) {
        proof { assert(wd =~= seq![45u8, 45u8]); }
        return Some(Token::DashDash);
    }
    assert(wd != seq![45u8, 45u8]);
    if bytes_equal(s, start, end, &[46u8, 46u8, 61u8]) {
        proof { assert(wd =~= seq![46u8, 46u8, 61u8]); }
        return Some(Token::RangeInclusive);
    }
    assert(wd != seq![46u8, 46u8, 61u8]);
    if bytes_equal(s, start, end, &[46u8, 46u8]) {
        proof { assert(wd =~= seq![46u8, 46u8]); }
        return Some(Token::RangeExclusive);
    }
    assert(wd != seq![46u8, 46u8]);
    if end - start == 1 && s[start] == 43u8 {
        proof { assert(wd =~= seq![43u8]); }
        return Some(Token::Plus);
    }
    assert(wd != seq![43u8]) by { if wd == seq![43u8] { assert(seq![43u8][0] == 43u8); assert(wd.len() == 1); assert(wd[0] == s@[start as int]); } }
    if end - start == 1 && s[start] == 45u8 {
        proof { assert(wd =~= seq![45u8]); }
        return Some(Token::Minus);
    }
    assert(wd != seq![45u8]) by { if wd == seq![45u8] { assert(seq![45u8][0] == 45u8); assert(wd.len() == 1); assert(wd[0] == s@[start as int]); } }
    if end - start == 1 && s[start] == 42u8 {
        proof { assert(wd =~= seq![42u8]); }
        return Some(Token::Star);
    }
    assert(wd != seq![42u8]) by { if wd == seq![42u8] { assert(seq![42u8][0] == 42u8); assert(wd.len() == 1); assert(wd[0] == s@[start as int]); } }
    if end - start == 1 && s[start] == 47u8 {
        proof { assert(wd =~= seq![47u8]); }
        return Some(Token::Slash);
    }
    assert(wd != seq![47u8]) by { if wd == seq![47u8] { assert(seq![47u8][0] == 47u8); assert(wd.len() == 1); assert(wd[0] == s@[start as int]); } }
    if end - start == 1 && s[start] == 37u8 {
        proof { assert(wd =~= seq![37u8]); }
        return Some(Token::Percent);
    }
    assert(wd != seq![37u8]) by { if wd == seq![37u8] { assert(seq![37u8][0] == 37u8); assert(wd.len() == 1); assert(wd[0] == s@[start as int]); } }
    if end - start == 1 && s[start] == 38u8 {
        proof { assert(wd =~= seq![38u8]); }
        return Some(Token::Ampersand);
    }
    assert(wd != seq![38u8]) by { if wd == seq![38u8] { assert(seq![38u8][0] == 38u8); assert(wd.len() == 1); assert(wd[0] == s@[start as int]); } }
    if end - start == 1 && s[start] == 124u8 {
        proof { assert(wd =~= seq![124u8]); }
        return Some(Token::Pipe);
    }
    assert(wd != seq![124u8]) by { if wd == seq![124u8] { assert(seq![124u8][0] == 124u8); assert(wd.len() == 1); assert(wd[0] == s@[start as int]); } }
    if end - start == 1 && s[start] == 94u8 {
        proof { assert(wd =~= seq![94u8]); }
        return Some(Token::Caret);
    }
    assert(wd != seq![94u8]) by { if wd == seq![94u8] { assert(seq![94u8][0] == 94u8); assert(wd.len() == 1); assert(wd[0] == s@[start as int]); } }
    if end - start == 1 && s[start] == 126u8 {
        proof { assert(wd =~= seq![126u8]); }
        return Some(Token::Tilde);
    }
    assert(wd != seq![126u8]) by { if wd == seq![126u8] { assert(seq![126u8][0] == 126u8); assert(wd.len() == 1); assert(wd[0] == s@[start as int]); } }
    if end - start == 1 && s[start] == 60u8 {
        proof { assert(wd =~= seq![60u8]); }
        return Some(Token::Less);
    }
    assert(wd != seq![60u8]) by { if wd == seq![60u8] { assert(seq![60u8][0] == 60u8); assert(wd.len() == 1); assert(wd[0] == s@[start as int]); } }
    if end - start == 1 && s[start] == 62u8 {
        proof { assert(wd =~= seq![62u8]); }
        return Some(Token::Greater);
    }
    assert(wd != seq![62u8]) by { if wd == seq![62u8] { assert(seq![62u8][0] == 62u8); assert(wd.len() == 1); assert(wd[0] == s@[start as int]); } }
    if end - start == 1 && s[start] == 61u8 {
        proof { assert(wd =~= seq![61u8]); }
        return Some(Token::Eq);
    }
    assert(wd != seq![61u8]) by { if wd == seq![61u8] { assert(seq![61u8][0] == 61u8); assert(wd.len() == 1); assert(wd[0] == s@[start as int]); } }
    if end - start == 1 && s[start] == 64u8 {
        proof { assert(wd =~= seq![64u8]); }
        return Some(Token::At);
    }
    assert(wd != seq![64u8]) by { if wd == seq![64u8] { assert(seq![64u8][0] == 64u8); assert(wd.len() == 1); assert(wd[0] == s@[start as int]); } }
    if end - start == 1 && s[start] == 63u8 {
        proof { assert(wd =~= seq![63u8]); }
        return Some(Token::Question);
    }
    assert(wd != seq![63u8]) by { if wd == seq![63u8] { assert(seq![63u8][0] == 63u8); assert(wd.len() == 1); assert(wd[0] == s@[start as int]); } }
    if end - start == 1 && s[start] == 40u8 {
        proof { assert(wd =~= seq![40u8]); }
        return Some(Token::LParen);
    }
    assert(wd != seq![40u8]) by { if wd == seq![40u8] { assert(seq![40u8][0] == 40u8); assert(wd.len() == 1); assert(wd[0] == s@[start as int]); } }
    if end - start == 1 && s[start] == 41u8 {
        proof { assert(wd =~= seq![41u8]); }
        return Some(Token::RParen);
    }
    assert(wd != seq![41u8]) by { if wd == seq![41u8] { assert(seq![41u8][0] == 41u8); assert(wd.len() == 1); assert(wd[0] == s@[start as int]); } }
    if end - start == 1 && s[start] == 91u8 {
        proof { assert(wd =~= seq![91u8]); }
        return Some(Token::LBracket);
    }
    assert(wd != seq![91u8]) by { if wd == seq![91u8] { assert(seq![91u8][0] == 91u8); assert(wd.len() == 1); assert(wd[0] == s@[start as int]); } }
    if end - start == 1 && s[start] == 93u8 {
        proof { assert(wd =~= seq![93u8]); }
        return Some(Token::RBracket);
    }
    assert(wd != seq![93u8]) by { if wd == seq![93u8] { assert(seq![93u8][0] == 93u8); assert(wd.len() == 1); assert(wd[0] == s@[start as int]); } }
    if end - start == 1 && s[start] == 123u8 {
        proof { assert(wd =~= seq![123u8]); }
        return Some(Token::LBrace);
    }
    assert(wd != seq![123u8]) by { if wd == seq![123u8] { assert(seq![123u8][0] == 123u8); assert(wd.len() == 1); assert(wd[0] == s@[start as int]); } }
    if end - start == 1 && s[start] == 125u8 {
        proof { assert(wd =~= seq![125u8]); }
        return Some(Token::RBrace);
    }
    assert(wd != seq![125u8]) by { if wd == seq![125u8] { assert(seq![125u8][0] == 125u8); assert(wd.len() == 1); assert(wd[0] == s@[start as int]); } }
    if end - start == 1 && s[start] == 58u8 {
        proof { assert(wd =~= seq![58u8]); }
        return Some(Token::Colon);
    }
    assert(wd != seq![58u8]) by { if wd == seq![58u8] { assert(seq![58u8][0] == 58u8); assert(wd.len() == 1); assert(wd[0] == s@[start as int]); } }
    if end - start == 1 && s[start] == 44u8 {
        proof { assert(wd =~= seq![44u8]); }
        return Some(Token::Comma);
    }
    assert(wd != seq![44u8]) by { if wd == seq![44u8] { assert(seq![44u8][0] == 44u8); assert(wd.len() == 1); assert(wd[0] == s@[start as int]); } }
    if end - start == 1 && s[start] == 46u8 {
        proof { assert(wd =~= seq![46u8]); }
        return Some(Token::Dot);
    }
    assert(wd != seq![46u8]) by { if wd == seq![46u8] { assert(seq![46u8][0] == 46u8); assert(wd.len() == 1); assert(wd[0] == s@[start as int]); } }
    if end - start == 1 && s[start] == 95u8 {
        proof { assert(wd =~= seq![95u8]); }
        return Some(Token::Underscore);
    }
    assert(wd != seq![95u8]) by { if wd == seq![95u8] { assert(seq![95u8][0] == 95u8); assert(wd.len() == 1); assert(wd[0] == s@[start as int]); } }
    if end - start == 1 && s[start] == 92u8 {
        proof { assert(wd =~= seq![92u8]); }
        return Some(Token::Backslash);
    }
    assert(wd != seq![92u8]) by { if wd == seq![92u8] { assert(seq![92u8][0] == 92u8); assert(wd.len() == 1); assert(wd[0] == s@[start as int]); } }
    None
}

impl Token {
    /// A copy of the token that is equal to it.
    pub fn duplicate(&self) -> (r: Token)
        ensures
            r == *self,
    {
        match self {
            Token::Numeric(n) => Token::Numeric(*n),
            Token::StringLit(s) => Token::StringLit(s.clone()),
            Token::Newline => Token::Newline,
            Token::Indent => Token::Indent,
            Token::Dedent => Token::Dedent,
            Token::KwModule => Token::KwModule,
            Token::KwSignal => Token::KwSignal,
            Token::KwReg => Token::KwReg,
            Token::KwComb => Token::KwComb,
            Token::KwIn => Token::KwIn,
            Token::KwOut => Token::KwOut,
            Token::KwInout => Token::KwInout,
            Token::KwInst => Token::KwInst,
            Token::KwExtern => Token::KwExtern,
            Token::KwDomain => Token::KwDomain,
            Token::KwStruct => Token::KwStruct,
            Token::KwEnum => Token::KwEnum,
            Token::KwInterface => Token::KwInterface,
            Token::KwType => Token::KwType,
            Token::KwConst => Token::KwConst,
            Token::KwLet => Token::KwLet,
            Token::KwFn => Token::KwFn,
            Token::KwGroup => Token::KwGroup,
            Token::KwFsm => Token::KwFsm,
            Token::KwPipeline => Token::KwPipeline,
            Token::KwStage => Token::KwStage,
            Token::KwOn => Token::KwOn,
            Token::KwReset => Token::KwReset,
            Token::KwTick => Token::KwTick,
            Token::KwMatch => Token::KwMatch,
            Token::KwIf => Token::KwIf,
            Token::KwElif => Token::KwElif,
            Token::KwElse => Token::KwElse,
            Token::KwThen => Token::KwThen,
            Token::KwFor => Token::KwFor,
            Token::KwGen => Token::KwGen,
            Token::KwWhen => Token::KwWhen,
            Token::KwPriority => Token::KwPriority,
            Token::KwParallel => Token::KwParallel,
            Token::KwOtherwise => Token::KwOtherwise,
            Token::KwAssert => Token::KwAssert,
            Token::KwAssume => Token::KwAssume,
            Token::KwCover => Token::KwCover,
            Token::KwProperty => Token::KwProperty,
            Token::KwSequence => Token::KwSequence,
            Token::KwAlways => Token::KwAlways,
            Token::KwEventually => Token::KwEventually,
            Token::KwUntil => Token::KwUntil,
            Token::KwImplies => Token::KwImplies,
            Token::KwVerify => Token::KwVerify,
            Token::KwForall => Token::KwForall,
            Token::KwNext => Token::KwNext,
            Token::KwTrue => Token::KwTrue,
            Token::KwFalse => Token::KwFalse,
            Token::KwAnd => Token::KwAnd,
            Token::KwOr => Token::KwOr,
            Token::KwNot => Token::KwNot,
            Token::KwImport => Token::KwImport,
            Token::KwFrom => Token::KwFrom,
            Token::KwAs => Token::KwAs,
            Token::KwPub => Token::KwPub,
            Token::KwUnchecked => Token::KwUnchecked,
            Token::KwStaticAssert => Token::KwStaticAssert,
            Token::KwTest => Token::KwTest,
            Token::KwTestbench => Token::KwTestbench,
            Token::KwTask => Token::KwTask,
            Token::KwVar => Token::KwVar,
            Token::KwDrive => Token::KwDrive,
            Token::KwPeek => Token::KwPeek,
            Token::KwSettle => Token::KwSettle,
            Token::KwPrint => Token::KwPrint,
            Token::KwSystolic => Token::KwSystolic,
            Token::KwDataflow => Token::KwDataflow,
            Token::KwIsa => Token::KwIsa,
            Token::KwInstr => Token::KwInstr,
            Token::KwFormat => Token::KwFormat,
            Token::KwRegisters => Token::KwRegisters,
            Token::KwEncodingWidth => Token::KwEncodingWidth,
            Token::KwProve => Token::KwProve,
            Token::KwEquiv => Token::KwEquiv,
            Token::KwConstrain => Token::KwConstrain,
            Token::KwOverride => Token::KwOverride,
            Token::ArithShiftRight => Token::ArithShiftRight,
            Token::LongArrow => Token::LongArrow,
            Token::BiArrow => Token::BiArrow,
            Token::StarStar => Token::StarStar,
            Token::Concat => Token::Concat,
            Token::PipeOp => Token::PipeOp,
            Token::EqEq => Token::EqEq,
            Token::NotEq => Token::NotEq,
            Token::LessEq => Token::LessEq,
            Token::GreaterEq => Token::GreaterEq,
            Token::ShiftLeft => Token::ShiftLeft,
            Token::ShiftRight => Token::ShiftRight,
            Token::FatArrow => Token::FatArrow,
            Token::ThinArrow => Token::ThinArrow,
            Token::DashDash => Token::DashDash,
            Token::RangeInclusive => Token::RangeInclusive,
            Token::RangeExclusive => Token::RangeExclusive,
            Token::Plus => Token::Plus,
            Token::Minus => Token::Minus,
            Token::Star => Token::Star,
            Token::Slash => Token::Slash,
            Token::Percent => Token::Percent,
            Token::Ampersand => Token::Ampersand,
            Token::Pipe => Token::Pipe,
            Token::Caret => Token::Caret,
            Token::Tilde => Token::Tilde,
            Token::Less => Token::Less,
            Token::Greater => Token::Greater,
            Token::Eq => Token::Eq,
            Token::At => Token::At,
            Token::Question => Token::Question,
            Token::LParen => Token::LParen,
            Token::RParen => Token::RParen,
            Token::LBracket => Token::LBracket,
            Token::RBracket => Token::RBracket,
            Token::LBrace => Token::LBrace,
            Token::RBrace => Token::RBrace,
            Token::Colon => Token::Colon,
            Token::Comma => Token::Comma,
            Token::Dot => Token::Dot,
            Token::Underscore => Token::Underscore,
            Token::Backslash => Token::Backslash,
            Token::Ident => Token::Ident,
            Token::DocComment => Token::DocComment,
            Token::LineComment => Token::LineComment,
            Token::BlockComment => Token::BlockComment,
        }
    }
}

} // verus!
