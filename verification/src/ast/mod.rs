//! The syntax tree.

pub mod expr;
pub mod types;
pub mod stmt;
pub mod item;

use vstd::prelude::*;

use crate::span::{Span, Spanned};

verus! {

/// A name with its span.
pub type Ident = Spanned<String>;

/// `@name(args)` on an item.
#[derive(Debug, PartialEq)]
pub struct Attribute {
    pub name: Ident,
    pub args: Vec<Spanned<expr::Expr>>,
    pub span: Span,
}

/// A `///` comment attached to an item.
#[derive(Debug, Clone, PartialEq)]
pub struct DocComment {
    pub text: String,
    pub span: Span,
}

} // verus!
