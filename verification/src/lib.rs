//! SiliconScript front end: tokenizer, recursive-descent parser, AST and
//! semantic analysis, with their behaviour stated as Verus contracts.
pub mod span;
pub mod text;
pub mod lexer;
pub mod ast;
pub mod parser;
pub mod sema;
