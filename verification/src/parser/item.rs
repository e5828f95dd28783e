//! Top-level items.

use vstd::prelude::*;

use crate::ast::item::Item;
use super::{ParseError, Parser};

verus! {

/// Parse a top-level item: not supported yet, so always an error at the
/// next token.
pub fn parse_item(p: &mut Parser<'_>) -> (r: Result<Item, ParseError>)
    ensures
        final(p).same(*old(p)),
        r matches Err(e) && e.message@ == "item parsing not yet implemented"@ && e.span
            == old(p).peek_span_spec(),
{
    Err(p.error("item parsing not yet implemented"))
}

} // verus!
