//! Recursive-descent parser over the token stream.

pub mod expr;
pub mod grammar;
pub mod types;
pub mod type_grammar;
pub mod stmt;
pub mod stmt_grammar;
pub mod item;

use vstd::prelude::*;
use vstd::string::StringSliceAdditionalSpecFns;
use vstd::utf8::decode_utf8;

use crate::ast::item::SourceFile;
use crate::lexer::{opt_token_debug, opt_token_text, starts_char, token_debug, token_kind, token_text, text_between, Token};
use crate::span::{Span, Spanned};
use crate::text::{concat, decimal_text};
use type_grammar::{half_span, split_shift};

verus! {

/// A failure to parse, at a span.
#[derive(Debug, Clone)]
pub struct ParseError {
    pub message: String,
    pub span: Span,
}

/// The text `parse error at S..E: MESSAGE`.
pub open spec fn parse_error_text(start: nat, end: nat, message: Seq<char>) -> Seq<char> {
    "parse error at "@ + decimal_text(start) + ".."@ + decimal_text(end) + ": "@ + message
}

impl ParseError {
    /// The error as text: `parse error at S..E: MESSAGE`.
    pub fn to_string(&self) -> (r: String)
        ensures
            r@ == parse_error_text(self.span.start as nat, self.span.end as nat, self.message@),
    {
        let s = concat("parse error at ", crate::text::decimal(self.span.start as u128).as_str());
        let s = concat(s.as_str(), "..");
        let s = concat(s.as_str(), crate::text::decimal(self.span.end as u128).as_str());
        let s = concat(s.as_str(), ": ");
        concat(s.as_str(), self.message.as_str())
    }
}

/// The span lies inside `src`, and both its ends start a character.
pub open spec fn span_fits(src: Seq<u8>, sp: Span) -> bool {
    sp.start <= sp.end <= src.len() && starts_char(src, sp.start as int) && starts_char(
        src,
        sp.end as int,
    )
}

/// The span of every identifier token fits in `src`: the parser reads
/// identifier names from the source through these spans.
pub open spec fn tokens_fit(src: Seq<u8>, toks: Seq<Spanned<Token>>) -> bool {
    forall|i: int| 0 <= i < toks.len() && #[trigger] toks[i].node == Token::Ident ==> span_fits(src, toks[i].span)
}

/// How much input is left to consume: one unit per token, two for `>>`,
/// which a type's closing angle brackets may split into two `>`.
pub open spec fn weight(s: Seq<Spanned<Token>>) -> nat
    decreases s.len(),
{
    if s.len() == 0 {
        0
    } else {
        (if s[0].node == Token::ShiftRight { 2nat } else { 1nat }) + weight(s.drop_first())
    }
}

/// The message for an unexpected token.
pub open spec fn expected_message(expected: Seq<char>, found: Option<Token>) -> Seq<char> {
    "expected "@ + expected + ", found "@ + opt_token_debug(found)
}

/// Does `tokens` pass [`tokens_fit`] for `source`?
pub fn spans_fit(source: &str, tokens: &Vec<Spanned<Token>>) -> (b: bool)
    ensures
        b == tokens_fit(source.spec_bytes(), tokens@),
{
    let bytes = source.as_bytes();
    let n = bytes.len();
    let mut i: usize = 0;
    while i < tokens.len()
        invariant
            bytes@ == source.spec_bytes(),
            n == bytes@.len(),
            i <= tokens@.len(),
            forall|k: int| 0 <= k < i && #[trigger] tokens@[k].node == Token::Ident ==> span_fits(bytes@, tokens@[k].span),
        decreases tokens@.len() - i,
    {
        let t = &tokens[i];
        if t.node.kind() == 124u8 {
            proof {
                assert(t.node == Token::Ident);
            }
            let s = t.span.start as usize;
            let e = t.span.end as usize;
            if !(s <= e && e <= n) {
                return false;
            }
            if s < n && bytes[s] >= 128u8 && bytes[s] < 192u8 {
                return false;
            }
            if e < n && bytes[e] >= 128u8 && bytes[e] < 192u8 {
                return false;
            }
        } else {
            proof {
                assert(t.node != Token::Ident);
            }
        }
        i = i + 1;
    }
    true
}


/// Moving forward over unchanged tokens leaves no more input.
pub broadcast proof fn lemma_moved_on_progress<'a>(new: Parser<'a>, old: Parser<'a>)
    requires
        old.wf(),
        new.moved_on(old),
    ensures
        #![trigger new.progressed(old)]
        #![trigger new.moved_on(old), new.measure(), old.measure()]
        new.progressed(old),
        new.spec_pos() > old.spec_pos() ==> new.measure() < old.measure(),
    decreases new.spec_pos() - old.spec_pos(),
{
    let t = old.spec_tokens();
    if new.spec_pos() > old.spec_pos() {
        lemma_weight_step(t, old.spec_pos());
        let mid = Parser { source: old.source, tokens: old.tokens, pos: (old.pos + 1) as usize };
        lemma_moved_on_progress(new, mid);
    }
}

/// Dropping the first remaining token removes its weight.
pub proof fn lemma_weight_step(t: Seq<Spanned<Token>>, a: int)
    requires
        0 <= a < t.len(),
    ensures
        weight(t.subrange(a, t.len() as int)) >= 1 + weight(t.subrange(a + 1, t.len() as int)),
{
    assert(t.subrange(a, t.len() as int).drop_first() =~= t.subrange(a + 1, t.len() as int));
}

/// The position of the first token at or after `k` that is not a line
/// break; `k` itself when it is past the last token.
pub open spec fn newline_run_end(toks: Seq<Spanned<Token>>, k: int) -> int
    decreases toks.len() - k,
{
    if 0 <= k < toks.len() && toks[k].node == Token::Newline {
        newline_run_end(toks, k + 1)
    } else {
        k
    }
}

/// A call of `f` on a parser in state `a` may return `out`.
pub open spec fn call_from<'src, T, F: FnMut(&mut Parser<'src>) -> Result<T, ParseError>>(
    f: F,
    a: Parser<'src>,
    out: Result<T, ParseError>,
) -> bool {
    exists|q: &mut Parser<'src>| #[trigger] call_ensures(f, (q,), out) && mut_ref_current(q) == a
}

/// A parse error as its message and span.
pub open spec fn error_view(e: ParseError) -> (Seq<char>, Span) {
    (e.message@, e.span)
}

/// The result of reading a list, with its items as a sequence and an error
/// as its message and span.
pub open spec fn list_view<T>(r: Result<Vec<T>, ParseError>) -> Result<Seq<T>, (Seq<char>, Span)> {
    match r {
        Ok(v) => Ok(v@),
        Err(e) => Err(error_view(e)),
    }
}

/// A list's reading stops at `p`: its next token is `close`, or there is none.
pub open spec fn list_stops(close: Token, p: Parser) -> bool {
    p.checks(close) || p.spec_pos() >= p.spec_tokens().len()
}

/// Ending a list of `items` at `a` with its closing token: the token is
/// consumed, or the error names what was found.
pub open spec fn close_outcome<'src, T>(close: Token, a: Parser<'src>, items: Seq<T>) -> (
    Parser<'src>,
    Result<Seq<T>, (Seq<char>, Span)>,
) {
    if a.checks(close) {
        (a.at(a.spec_pos() + 1), Ok(items))
    } else {
        (a, Err((expected_message(token_debug(close), a.peek_spec()), a.peek_span_spec())))
    }
}

/// `items` put before the items of a successful outcome.
pub open spec fn prepend_outcome<'src, T>(
    items: Seq<T>,
    o: Option<(Parser<'src>, Result<Seq<T>, (Seq<char>, Span)>)>,
) -> Option<(Parser<'src>, Result<Seq<T>, (Seq<char>, Span)>)> {
    match o {
        Some((fin, Ok(v))) => Some((fin, Ok(items + v))),
        _ => o,
    }
}

/// Where the next item of a list is read from `p`, if it is not at its end:
/// a comma list reads at `p`; a block first skips line breaks.
pub open spec fn call_site<'src>(block: bool, close: Token, p: Parser<'src>) -> Option<Parser<'src>> {
    if list_stops(close, p) {
        None
    } else if !block {
        Some(p)
    } else if list_stops(close, p.after_newlines()) {
        None
    } else {
        Some(p.after_newlines())
    }
}

/// Where a list that is at its end expects its closing token.
pub open spec fn stop_state<'src>(block: bool, close: Token, p: Parser<'src>) -> Parser<'src> {
    if block && !list_stops(close, p) {
        p.after_newlines()
    } else {
        p
    }
}

/// After an item read from `a` left the parser at `q`: whether the list
/// goes on, and where. A comma list goes on past a comma (after line breaks)
/// unless the item moved the parser back; a block goes on after line breaks
/// when the item consumed input, and otherwise expects its end at `q`.
pub open spec fn after_item<'src>(block: bool, a: Parser<'src>, q: Parser<'src>) -> (bool, Parser<'src>) {
    if block {
        if q.spec_pos() <= q.spec_tokens().len() && q.remaining() < a.remaining() {
            (true, q.after_newlines())
        } else {
            (false, q)
        }
    } else if !(q.spec_pos() <= q.spec_tokens().len() && q.remaining() <= a.remaining()) {
        (false, q)
    } else if !q.after_newlines().checks(Token::Comma) {
        (false, q.after_newlines())
    } else {
        (true, q.after_newlines().at(q.after_newlines().spec_pos() + 1).after_newlines())
    }
}

/// The outcome of reading a list from `p` (a comma list, or a block when
/// `block`) up to `close`, when the calls of the item reader are `calls`:
/// each the state it was called in, the state it left, and what it
/// returned. The final state and the items, or the first error; `None`
/// when `calls` is not how such a reading goes.
pub open spec fn list_outcome<'src, T>(
    block: bool,
    close: Token,
    p: Parser<'src>,
    calls: Seq<(Parser<'src>, Parser<'src>, Result<T, ParseError>)>,
) -> Option<(Parser<'src>, Result<Seq<T>, (Seq<char>, Span)>)>
    decreases calls.len(),
{
    match call_site(block, close, p) {
        None => if calls.len() == 0 {
            Some(close_outcome(close, stop_state(block, close, p), Seq::<T>::empty()))
        } else {
            None
        },
        Some(a) => if calls.len() == 0 || calls[0].0 != a {
            None
        } else {
            match calls[0].2 {
                Err(e) => if calls.len() == 1 {
                    Some((calls[0].1, Err(error_view(e))))
                } else {
                    None
                },
                Ok(x) => {
                    let (more, n) = after_item(block, a, calls[0].1);
                    if !more {
                        if calls.len() == 1 {
                            Some(close_outcome(close, n, seq![x]))
                        } else {
                            None
                        }
                    } else {
                        prepend_outcome(seq![x], list_outcome(block, close, n, calls.drop_first()))
                    }
                },
            }
        },
    }
}

/// The state reached and the items read after `calls`, each of which read
/// an item and let the list go on; `None` when they do not.
pub open spec fn list_prefix<'src, T>(
    block: bool,
    close: Token,
    p: Parser<'src>,
    calls: Seq<(Parser<'src>, Parser<'src>, Result<T, ParseError>)>,
) -> Option<(Parser<'src>, Seq<T>)>
    decreases calls.len(),
{
    if calls.len() == 0 {
        Some((p, Seq::<T>::empty()))
    } else {
        match list_prefix(block, close, p, calls.drop_last()) {
            None => None,
            Some((cur, items)) => {
                let c = calls.last();
                match call_site(block, close, cur) {
                    Some(a) => if c.0 == a {
                        match c.2 {
                            Ok(x) => if after_item(block, a, c.1).0 {
                                Some((after_item(block, a, c.1).1, items.push(x)))
                            } else {
                                None
                            },
                            Err(_) => None,
                        }
                    } else {
                        None
                    },
                    None => None,
                }
            },
        }
    }
}

/// A reading that went on through `calls` ends as the rest of it does,
/// with the items read so far in front.
pub proof fn lemma_list_prefix<'src, T>(
    block: bool,
    close: Token,
    p: Parser<'src>,
    calls: Seq<(Parser<'src>, Parser<'src>, Result<T, ParseError>)>,
    rest: Seq<(Parser<'src>, Parser<'src>, Result<T, ParseError>)>,
)
    requires
        list_prefix(block, close, p, calls) is Some,
    ensures
        list_outcome(block, close, p, calls + rest) == prepend_outcome(
            list_prefix(block, close, p, calls).unwrap().1,
            list_outcome(block, close, list_prefix(block, close, p, calls).unwrap().0, rest),
        ),
    decreases calls.len(),
{
    if calls.len() == 0 {
        assert(calls + rest =~= rest);
        match list_outcome(block, close, p, rest) {
            Some((fin, Ok(v))) => {
                assert(Seq::<T>::empty() + v =~= v);
            },
            _ => {},
        }
    } else {
        let init = calls.drop_last();
        let c = calls.last();
        let more = seq![c] + rest;
        lemma_list_prefix(block, close, p, init, more);
        assert(init + more =~= calls + rest);
        let (cur, items) = list_prefix(block, close, p, init).unwrap();
        let a = call_site(block, close, cur).unwrap();
        let x = c.2.unwrap();
        let n = after_item(block, a, c.1).1;
        assert(more[0] == c);
        assert(more.drop_first() =~= rest);
        assert(list_outcome(block, close, cur, more) == prepend_outcome(seq![x], list_outcome(block, close, n, rest)));
        match list_outcome(block, close, n, rest) {
            Some((fin, Ok(v))) => {
                assert(items + (seq![x] + v) =~= items.push(x) + v);
            },
            _ => {},
        }
    }
}

/// A parser: the source text, its tokens and the position of the next token.
pub struct Parser<'src> {
    source: &'src str,
    pub(crate) tokens: Vec<Spanned<Token>>,
    pub(crate) pos: usize,
}

impl<'src> Parser<'src> {
    /// The bytes of the source text.
    pub closed spec fn spec_source(&self) -> Seq<u8> {
        self.source.spec_bytes()
    }

    /// The tokens.
    pub closed spec fn spec_tokens(&self) -> Seq<Spanned<Token>> {
        self.tokens@
    }

    /// The position of the next token.
    pub closed spec fn spec_pos(&self) -> int {
        self.pos as int
    }

    /// The position is within the tokens, and identifier spans fit the source.
    pub open spec fn wf(&self) -> bool {
        self.spec_pos() <= self.spec_tokens().len() && tokens_fit(self.spec_source(), self.spec_tokens())
    }

    /// The input left to consume.
    pub open spec fn measure(&self) -> nat {
        weight(self.spec_tokens().subrange(self.spec_pos(), self.spec_tokens().len() as int))
    }

    /// The next token, if any.
    pub open spec fn peek_spec(&self) -> Option<Token> {
        if 0 <= self.spec_pos() < self.spec_tokens().len() {
            Some(self.spec_tokens()[self.spec_pos()].node)
        } else {
            None
        }
    }

    /// The span of the next token, or an empty span at the end of the source.
    pub open spec fn peek_span_spec(&self) -> Span {
        if 0 <= self.spec_pos() < self.spec_tokens().len() {
            self.spec_tokens()[self.spec_pos()].span
        } else {
            Span {
                start: (self.spec_source().len() as usize) as u32,
                end: (self.spec_source().len() as usize) as u32,
            }
        }
    }

    /// The span of the previous token, or an empty span at the end of the source.
    pub open spec fn prev_span_spec(&self) -> Span {
        if 1 <= self.spec_pos() <= self.spec_tokens().len() {
            self.spec_tokens()[self.spec_pos() - 1].span
        } else {
            Span {
                start: (self.spec_source().len() as usize) as u32,
                end: (self.spec_source().len() as usize) as u32,
            }
        }
    }

    /// The next token has the same variant as `t`.
    pub open spec fn checks(&self, t: Token) -> bool {
        self.peek_spec() matches Some(x) && token_kind(x) == token_kind(t)
    }

    /// `self` is `old` moved on by one token.
    pub open spec fn advanced_one(self, old: Parser<'src>) -> bool {
        &&& self.spec_source() == old.spec_source()
        &&& self.spec_tokens() == old.spec_tokens()
        &&& self.spec_pos() == old.spec_pos() + 1
    }

    /// `self` holds the same source and tokens as `old`, at the same position.
    pub open spec fn same(self, old: Parser<'src>) -> bool {
        &&& self.spec_source() == old.spec_source()
        &&& self.spec_tokens() == old.spec_tokens()
        &&& self.spec_pos() == old.spec_pos()
    }

    /// `self` continues `old`: same source and tokens, the position not moved
    /// back and still within the tokens.
    pub open spec fn moved_on(self, old: Parser<'src>) -> bool {
        &&& self.spec_source() == old.spec_source()
        &&& self.spec_tokens() == old.spec_tokens()
        &&& old.spec_pos() <= self.spec_pos() <= self.spec_tokens().len()
    }

    /// The same parser at position `k`.
    pub closed spec fn at(self, k: int) -> Parser<'src> {
        Parser { pos: k as usize, ..self }
    }

    /// The parser after the line breaks at its position.
    pub open spec fn after_newlines(self) -> Parser<'src> {
        self.at(newline_run_end(self.spec_tokens(), self.spec_pos()))
    }

    /// The number of tokens from the position to the end.
    pub open spec fn remaining(self) -> int {
        self.spec_tokens().len() - self.spec_pos()
    }

    /// The next token, if any, as an owned value.
    pub(crate) fn peek_token(&self) -> (r: Option<Token>)
        ensures
            r == self.peek_spec(),
    {
        match self.peek() {
            Some(t) => Some(t.duplicate()),
            None => None,
        }
    }

    /// The token `k` places after the next one, if any.
    pub(crate) fn peek_ahead(&self, k: usize) -> (r: Option<Token>)
        ensures
            r == (if 0 <= self.spec_pos() + k < self.spec_tokens().len() {
                Some(self.spec_tokens()[self.spec_pos() + k].node)
            } else {
                None
            }),
    {
        if k < self.tokens.len() && self.pos < self.tokens.len() - k {
            Some(self.tokens[self.pos + k].node.duplicate())
        } else {
            None
        }
    }

    /// The position of the next token.
    pub(crate) fn position(&self) -> (r: usize)
        ensures
            r == self.spec_pos(),
    {
        self.pos
    }

    /// Move back to an earlier position.
    pub(crate) fn rewind(&mut self, saved: usize)
        requires
            saved <= old(self).spec_pos(),
        ensures
            final(self).spec_source() == old(self).spec_source(),
            final(self).spec_tokens() == old(self).spec_tokens(),
            final(self).spec_pos() == saved,
    {
        self.pos = saved;
    }

    /// The end of the token before the next one (of the first token at
    /// position 0), or `default` when there is no such token.
    pub(crate) fn end_before(&self, default: u32) -> (r: u32)
        ensures
            r == (if self.spec_pos() == 0 {
                if self.spec_tokens().len() > 0 { self.spec_tokens()[0].span.end } else { default }
            } else if self.spec_pos() - 1 < self.spec_tokens().len() {
                self.spec_tokens()[self.spec_pos() - 1].span.end
            } else {
                default
            }),
    {
        let i = if self.pos == 0 { 0 } else { self.pos - 1 };
        if i < self.tokens.len() {
            self.tokens[i].span.end
        } else {
            default
        }
    }

    /// `self` continues `old` with no more input left than `old` had: the
    /// same source, tokens whose remaining input did not grow, still well formed.
    pub open spec fn progressed(self, old: Parser<'src>) -> bool {
        &&& self.wf()
        &&& self.spec_source() == old.spec_source()
        &&& self.measure() <= old.measure()
    }

    /// Consume the first half of a `>>` token as a `>`, leaving the second
    /// half as the next token.
    pub(crate) fn take_half_shift(&mut self) -> (r: Spanned<Token>)
        requires
            old(self).wf(),
            old(self).peek_spec() == Some(Token::ShiftRight),
        ensures
            final(self).progressed(*old(self)),
            final(self).measure() < old(self).measure(),
            r.node == Token::Greater,
            final(self).spec_tokens() == split_shift(old(self).spec_tokens(), old(self).spec_pos()),
            final(self).spec_pos() == old(self).spec_pos() + 1,
            r.span == half_span(old(self).spec_tokens()[old(self).spec_pos()].span),
    {
        let n = self.tokens.len();
        let sr = self.tokens[self.pos].span;
        let mid = ((sr.start as u64 + sr.end as u64) / 2) as u32;
        let g1 = Spanned::new(Token::Greater, Span::new(sr.start, mid));
        let g2 = Spanned::new(Token::Greater, Span::new(mid, sr.end));
        let ghost old_toks = self.tokens@;
        let ghost pos = self.pos as int;
        self.tokens.set(self.pos, g2);
        self.tokens.insert(self.pos, g1);
        proof {
            let t = self.tokens@;
            assert(t.len() == old_toks.len() + 1);
            assert forall|i: int| 0 <= i < t.len() && #[trigger] t[i].node == Token::Ident implies span_fits(
                self.source.spec_bytes(),
                t[i].span,
            ) by {
                if i < pos {
                    assert(t[i] == old_toks[i]);
                } else if i > pos + 1 {
                    assert(t[i] == old_toks[i - 1]);
                }
            }
            let rest = old_toks.subrange(pos + 1, old_toks.len() as int);
            assert(old_toks.subrange(pos, old_toks.len() as int).drop_first() =~= rest);
            assert(t.subrange(pos + 1, t.len() as int).drop_first() =~= rest);
            assert(t[pos + 1] == g2);
        }
        self.pos = self.pos + 1;
        Spanned::new(Token::Greater, Span::new(sr.start, mid))
    }

    /// Start parsing `tokens` of `source` at the first token.
    pub fn new(source: &'src str, tokens: Vec<Spanned<Token>>) -> (p: Self)
        requires
            tokens_fit(source.spec_bytes(), tokens@),
        ensures
            p.wf(),
            p.spec_source() == source.spec_bytes(),
            p.spec_tokens() == tokens@,
            p.spec_pos() == 0,
    {
        Self { source, tokens, pos: 0 }
    }

    /// The next token, if any.
    pub fn peek(&self) -> (r: Option<&Token>)
        ensures
            match r {
                Some(t) => self.peek_spec() == Some(*t),
                None => self.peek_spec() is None,
            },
    {
        if self.pos < self.tokens.len() {
            Some(&self.tokens[self.pos].node)
        } else {
            None
        }
    }

    /// The span of the next token, or an empty span at the end of the source.
    pub fn peek_span(&self) -> (r: Span)
        ensures
            r == self.peek_span_spec(),
    {
        if self.pos < self.tokens.len() {
            self.tokens[self.pos].span
        } else {
            let end = self.source.len() as u32;
            Span::new(end, end)
        }
    }

    /// Consume and return the next token.
    pub fn advance(&mut self) -> (r: Spanned<Token>)
        requires
            old(self).spec_pos() < old(self).spec_tokens().len(),
        ensures
            r == old(self).spec_tokens()[old(self).spec_pos()],
            final(self).advanced_one(*old(self)),
            *final(self) == old(self).at(old(self).spec_pos() + 1),
            old(self).wf() ==> final(self).progressed(*old(self)) && final(self).measure() < old(self).measure(),
    {
        let n = self.tokens.len();
        let t = &self.tokens[self.pos];
        let tok = Spanned { node: t.node.duplicate(), span: t.span };
        self.pos = self.pos + 1;
        proof {
            if old(self).wf() {
                lemma_moved_on_progress(*self, *old(self));
            }
        }
        tok
    }

    /// Is the next token of the same variant as `expected` (its payload aside)?
    pub fn check(&self, expected: Token) -> (r: bool)
        ensures
            r == self.checks(expected),
    {
        match self.peek() {
            Some(tok) => tok.kind() == expected.kind(),
            None => false,
        }
    }

    /// Is the next token an identifier?
    pub fn check_ident(&self) -> (r: bool)
        ensures
            r == (self.peek_spec() == Some(Token::Ident)),
    {
        match self.peek() {
            Some(tok) => {
                let k = tok.kind();
                proof {
                    if k == 124u8 {
                        assert(*tok == Token::Ident);
                    }
                }
                k == 124u8
            },
            None => false,
        }
    }

    /// Consume the next token if it is of the variant of `expected`.
    pub fn eat(&mut self, expected: Token) -> (r: Option<Spanned<Token>>)
        ensures
            old(self).checks(expected) ==> r == Some(old(self).spec_tokens()[old(self).spec_pos()])
                && final(self).advanced_one(*old(self)) && *final(self) == old(self).at(old(self).spec_pos() + 1),
            !old(self).checks(expected) ==> r is None && final(self).same(*old(self)) && *final(self) == *old(self),
            old(self).wf() ==> final(self).progressed(*old(self)),
            old(self).wf() && r is Some ==> final(self).measure() < old(self).measure(),
    {
        if self.check(expected) {
            Some(self.advance())
        } else {
            None
        }
    }

    /// Consume the next token, which must be of the variant of `expected`.
    pub fn expect_token(&mut self, expected: Token) -> (r: Result<Spanned<Token>, ParseError>)
        ensures
            old(self).checks(expected) ==> r == Ok::<Spanned<Token>, ParseError>(
                old(self).spec_tokens()[old(self).spec_pos()],
            ) && final(self).advanced_one(*old(self)) && *final(self) == old(self).at(old(self).spec_pos() + 1),
            !old(self).checks(expected) ==> (r matches Err(e) && final(self).same(*old(self)) && *final(self) == *old(self)
                && e.message@ == expected_message(token_debug(expected), old(self).peek_spec())
                && e.span == old(self).peek_span_spec()),
            old(self).wf() ==> final(self).progressed(*old(self)),
            old(self).wf() && r is Ok ==> final(self).measure() < old(self).measure(),
    {
        if self.check(expected.duplicate()) {
            Ok(self.advance())
        } else {
            let s = concat("expected ", token_text(&expected).as_str());
            let s = concat(s.as_str(), ", found ");
            let message = concat(s.as_str(), opt_token_text(self.peek()).as_str());
            Err(ParseError { message, span: self.peek_span() })
        }
    }

    /// Consume an identifier and read its name from the source.
    pub fn expect_ident(&mut self) -> (r: Result<Spanned<String>, ParseError>)
        requires
            old(self).wf(),
        ensures
            final(self).wf(),
            old(self).peek_spec() == Some(Token::Ident) ==> (r matches Ok(id) && final(self).advanced_one(
                *old(self),
            ) && id.span == old(self).spec_tokens()[old(self).spec_pos()].span && id.node@
                == decode_utf8(old(self).spec_source().subrange(id.span.start as int, id.span.end as int))),
            old(self).peek_spec() != Some(Token::Ident) ==> (r matches Err(e) && final(self).same(*old(self))
                && e.message@ == expected_message("identifier"@, old(self).peek_spec())
                && e.span == old(self).peek_span_spec()),
            final(self).progressed(*old(self)),
            r is Ok ==> final(self).measure() < old(self).measure(),
    {
        if self.check_ident() {
            let tok = self.advance();
            proof {
                assert(self.tokens@[self.pos - 1].node == Token::Ident);
            }
            let text = self.text(tok.span).to_owned();
            Ok(Spanned::new(text, tok.span))
        } else {
            let s = concat("expected ", "identifier");
            let s = concat(s.as_str(), ", found ");
            let message = concat(s.as_str(), opt_token_text(self.peek()).as_str());
            Err(ParseError { message, span: self.peek_span() })
        }
    }

    /// The source text of a span.
    pub fn text(&self, span: Span) -> (r: &str)
        requires
            span_fits(self.spec_source(), span),
        ensures
            r@ == decode_utf8(self.spec_source().subrange(span.start as int, span.end as int)),
            r.spec_bytes() == self.spec_source().subrange(span.start as int, span.end as int),
    {
        text_between(self.source, span.start as usize, span.end as usize)
    }

    /// Consume line breaks.
    pub fn skip_newlines(&mut self)
        ensures
            final(self).spec_source() == old(self).spec_source(),
            final(self).spec_tokens() == old(self).spec_tokens(),
            old(self).spec_pos() <= final(self).spec_pos(),
            forall|k: int| old(self).spec_pos() <= k < final(self).spec_pos() ==> (#[trigger] old(self).spec_tokens()[k]).node == Token::Newline,
            final(self).peek_spec() != Some(Token::Newline),
            old(self).spec_pos() <= old(self).spec_tokens().len() ==> final(self).spec_pos() <= final(self).spec_tokens().len(),
            old(self).wf() ==> final(self).progressed(*old(self)),
            *final(self) == old(self).after_newlines(),
    {
        let ghost start = self.pos;
        while self.pos < self.tokens.len() && self.tokens[self.pos].node.kind() == 0u8
            invariant
                self.source == old(self).source,
                self.tokens == old(self).tokens,
                start == old(self).pos,
                start <= self.pos,
                forall|k: int| start <= k < self.pos ==> (#[trigger] self.tokens@[k]).node == Token::Newline,
                start <= self.tokens@.len() ==> self.pos <= self.tokens@.len(),
                newline_run_end(self.tokens@, self.pos as int) == newline_run_end(self.tokens@, start as int),
            decreases self.tokens@.len() - self.pos,
        {
            proof {
                assert(self.tokens@[self.pos as int].node == Token::Newline);
            }
            self.pos = self.pos + 1;
        }
        proof {
            if self.pos < self.tokens@.len() {
                assert(token_kind(self.tokens@[self.pos as int].node) != 0);
            }
            assert(newline_run_end(self.tokens@, self.pos as int) == self.pos);
            if old(self).wf() {
                lemma_moved_on_progress(*self, *old(self));
            }
        }
    }

    /// Are all tokens consumed?
    pub fn is_at_end(&self) -> (r: bool)
        ensures
            r == (self.spec_pos() >= self.spec_tokens().len()),
    {
        self.pos >= self.tokens.len()
    }

    /// The span of the previous token, or an empty span at the end of the source.
    pub fn prev_span(&self) -> (r: Span)
        ensures
            r == self.prev_span_spec(),
    {
        if 1 <= self.pos && self.pos <= self.tokens.len() {
            self.tokens[self.pos - 1].span
        } else {
            let end = self.source.len() as u32;
            Span::new(end, end)
        }
    }


    /// Parse `:` and an indented block of items, each read by `f`: line
    /// breaks around items are skipped, and the block ends with its `Dedent`.
    /// Each item is what a call of `f` returned, in order, and the first
    /// error of `f` is the block's error. An item that consumes no input
    /// ends the block there. The contract ties each call of `f` to the state
    /// it was made in and what it returned; the state that a call leaves
    /// behind is what the reading goes on from.
    pub fn parse_block<T>(&mut self, f: impl FnMut(&mut Self) -> Result<T, ParseError>) -> (r: Result<Vec<T>, ParseError>)
        requires
            forall|q: &mut Self| #[trigger] f.requires((q,)),
        ensures
            !old(self).checks(Token::Colon) ==> (r matches Err(e) && e.message@ == expected_message(
                token_debug(Token::Colon),
                old(self).peek_spec(),
            ) && e.span == old(self).peek_span_spec() && *final(self) == *old(self)),
            ({
                let c = old(self).at(old(self).spec_pos() + 1).after_newlines();
                old(self).checks(Token::Colon) && !c.checks(Token::Indent) ==> (r matches Err(e) && e.message@
                    == expected_message(token_debug(Token::Indent), c.peek_spec()) && e.span == c.peek_span_spec()
                    && *final(self) == c)
            }),
            ({
                let c = old(self).at(old(self).spec_pos() + 1).after_newlines();
                old(self).checks(Token::Colon) && c.checks(Token::Indent) ==> exists|
                    calls: Seq<(Parser<'src>, Parser<'src>, Result<T, ParseError>)>,
                |
                    #[trigger] list_outcome(true, Token::Dedent, c.at(c.spec_pos() + 1), calls) == Some(
                        (*final(self), list_view(r)),
                    ) && forall|i: int| 0 <= i < calls.len() ==> #[trigger] call_from(f, calls[i].0, calls[i].2)
            }),
    {
        let mut g = f;
        let ghost f0 = g;
        match self.expect_token(Token::Colon) {
            Ok(_) => {},
            Err(e) => {
                return Err(e);
            },
        }
        self.skip_newlines();
        let ghost c0 = *self;
        match self.expect_token(Token::Indent) {
            Ok(_) => {},
            Err(e) => {
                return Err(e);
            },
        }
        let ghost p0 = *self;
        let ghost mut calls: Seq<(Parser<'src>, Parser<'src>, Result<T, ParseError>)> = seq![];
        let mut items: Vec<T> = Vec::new();
        loop
            invariant
                forall|q: &mut Self| #[trigger] g.requires((q,)),
                g == f0,
                f == f0,
                old(self).checks(Token::Colon),
                c0 == old(self).at(old(self).spec_pos() + 1).after_newlines(),
                c0.checks(Token::Indent),
                p0 == c0.at(c0.spec_pos() + 1),
                list_prefix(true, Token::Dedent, p0, calls) == Some((*self, items@)),
                forall|i: int| 0 <= i < calls.len() ==> #[trigger] call_from(f0, calls[i].0, calls[i].2),
            decreases self.tokens@.len() - self.pos,
        {
            let ghost p = *self;
            let ghost old_calls = calls;
            let ghost old_items = items@;
            if self.check(Token::Dedent) || self.is_at_end() || {
                self.skip_newlines();
                self.check(Token::Dedent) || self.is_at_end()
            } {
                let ghost stop = *self;
                let end = self.expect_token(Token::Dedent);
                let result = match end {
                    Ok(_) => Ok(items),
                    Err(e) => Err(e),
                };
                proof {
                    lemma_list_prefix(true, Token::Dedent, p0, calls, seq![]);
                    assert(calls + seq![] =~= calls);
                    assert(old_items + Seq::<T>::empty() =~= old_items);
                    assert(stop == stop_state(true, Token::Dedent, p));
                    assert(list_outcome(true, Token::Dedent, p0, calls) == Some((*self, list_view(result))));
                }
                return result;
            }
            let ghost a = *self;
            let start = self.tokens.len() - self.pos;
            let res = g(self);
            let ghost q = *self;
            let ghost rg = res;
            let ghost c = (a, q, rg);
            proof {
                assert(call_from(f0, a, rg));
                calls = calls.push(c);
                assert forall|i: int| 0 <= i < calls.len() implies #[trigger] call_from(f0, calls[i].0, calls[i].2) by {
                    if i < old_calls.len() {
                        assert(calls[i] == old_calls[i]);
                    }
                }
                lemma_list_prefix(true, Token::Dedent, p0, old_calls, seq![c]);
                assert(old_calls + seq![c] =~= calls);
                assert(seq![c].drop_first() =~= Seq::<(Parser<'src>, Parser<'src>, Result<T, ParseError>)>::empty());
                assert(call_site(true, Token::Dedent, p) == Some(a));
            }
            match res {
                Err(e) => {
                    let result = Err(e);
                    proof {
                        assert(list_outcome(true, Token::Dedent, p0, calls) == Some((*self, list_view(result))));
                    }
                    return result;
                },
                Ok(x) => {
                    let ghost xg = x;
                    items.push(x);
                    if !(self.pos <= self.tokens.len() && self.tokens.len() - self.pos < start) {
                        let end = self.expect_token(Token::Dedent);
                        let result = match end {
                            Ok(_) => Ok(items),
                            Err(e) => Err(e),
                        };
                        proof {
                            assert(old_items + seq![xg] =~= items@);
                            assert(list_outcome(true, Token::Dedent, p0, calls) == Some((*self, list_view(result))));
                        }
                        return result;
                    }
                    self.skip_newlines();
                    proof {
                        assert(calls.drop_last() =~= old_calls);
                        assert(calls.last() == c);
                        assert(items@ =~= old_items.push(xg));
                    }
                },
            }
        }
    }

    /// Parse items read by `f`, separated by commas, up to and including
    /// `close_token`; line breaks around items are skipped. Each item is what
    /// a call of `f` returned, in order, and the first error of `f` is the
    /// list's error. An item that moves the parser back ends the list there.
    /// The contract ties each call of `f` to the state it was made in and
    /// what it returned; the state that a call leaves behind is what the
    /// reading goes on from.
    pub fn parse_comma_list<T>(
        &mut self,
        close_token: Token,
        f: impl FnMut(&mut Self) -> Result<T, ParseError>,
    ) -> (r: Result<Vec<T>, ParseError>)
        requires
            forall|q: &mut Self| #[trigger] f.requires((q,)),
        ensures
            exists|calls: Seq<(Parser<'src>, Parser<'src>, Result<T, ParseError>)>|
                #[trigger] list_outcome(false, close_token, old(self).after_newlines(), calls) == Some(
                    (*final(self), list_view(r)),
                ) && forall|i: int| 0 <= i < calls.len() ==> #[trigger] call_from(f, calls[i].0, calls[i].2),
    {
        let mut g = f;
        let ghost f0 = g;
        self.skip_newlines();
        let ghost p0 = *self;
        let ghost mut calls: Seq<(Parser<'src>, Parser<'src>, Result<T, ParseError>)> = seq![];
        let mut items: Vec<T> = Vec::new();
        loop
            invariant
                forall|q: &mut Self| #[trigger] g.requires((q,)),
                g == f0,
                f == f0,
                p0 == old(self).after_newlines(),
                list_prefix(false, close_token, p0, calls) == Some((*self, items@)),
                forall|i: int| 0 <= i < calls.len() ==> #[trigger] call_from(f0, calls[i].0, calls[i].2),
            decreases self.tokens@.len() - self.pos,
        {
            let ghost p = *self;
            let ghost old_calls = calls;
            let ghost old_items = items@;
            if self.check(close_token.duplicate()) || self.is_at_end() {
                let end = self.expect_token(close_token.duplicate());
                let result = match end {
                    Ok(_) => Ok(items),
                    Err(e) => Err(e),
                };
                proof {
                    lemma_list_prefix(false, close_token, p0, calls, seq![]);
                    assert(calls + seq![] =~= calls);
                    assert(old_items + Seq::<T>::empty() =~= old_items);
                    assert(list_outcome(false, close_token, p0, calls) == Some((*self, list_view(result))));
                }
                return result;
            }
            let start = self.tokens.len() - self.pos;
            let res = g(self);
            let ghost q = *self;
            let ghost rg = res;
            let ghost c = (p, q, rg);
            proof {
                assert(call_from(f0, p, rg));
                calls = calls.push(c);
                assert forall|i: int| 0 <= i < calls.len() implies #[trigger] call_from(f0, calls[i].0, calls[i].2) by {
                    if i < old_calls.len() {
                        assert(calls[i] == old_calls[i]);
                    }
                }
                lemma_list_prefix(false, close_token, p0, old_calls, seq![c]);
                assert(old_calls + seq![c] =~= calls);
                assert(seq![c].drop_first() =~= Seq::<(Parser<'src>, Parser<'src>, Result<T, ParseError>)>::empty());
                assert(call_site(false, close_token, p) == Some(p));
            }
            match res {
                Err(e) => {
                    let result = Err(e);
                    proof {
                        assert(list_outcome(false, close_token, p0, calls) == Some((*self, list_view(result))));
                    }
                    return result;
                },
                Ok(x) => {
                    let ghost xg = x;
                    items.push(x);
                    if !(self.pos <= self.tokens.len() && self.tokens.len() - self.pos <= start) {
                        let end = self.expect_token(close_token.duplicate());
                        let result = match end {
                            Ok(_) => Ok(items),
                            Err(e) => Err(e),
                        };
                        proof {
                            assert(old_items + seq![xg] =~= items@);
                            assert(list_outcome(false, close_token, p0, calls) == Some((*self, list_view(result))));
                        }
                        return result;
                    }
                    self.skip_newlines();
                    if !self.check(Token::Comma) {
                        let end = self.expect_token(close_token.duplicate());
                        let result = match end {
                            Ok(_) => Ok(items),
                            Err(e) => Err(e),
                        };
                        proof {
                            assert(old_items + seq![xg] =~= items@);
                            assert(list_outcome(false, close_token, p0, calls) == Some((*self, list_view(result))));
                        }
                        return result;
                    }
                    self.advance();
                    self.skip_newlines();
                    proof {
                        assert(calls.drop_last() =~= old_calls);
                        assert(calls.last() == c);
                        assert(items@ =~= old_items.push(xg));
                    }
                },
            }
        }
    }

    /// Parse the items of a source file, skipping blank lines between them.
    pub fn parse_file(&mut self) -> (r: Result<SourceFile, ParseError>)
        ensures
            final(self).spec_source() == old(self).spec_source(),
            final(self).spec_tokens() == old(self).spec_tokens(),
            old(self).spec_pos() <= final(self).spec_pos(),
            forall|k: int| old(self).spec_pos() <= k < final(self).spec_pos() ==> (#[trigger] old(self).spec_tokens()[k]).node == Token::Newline,
            match r {
                Ok(f) => f.items@.len() == 0 && final(self).spec_pos() >= final(self).spec_tokens().len(),
                Err(e) => final(self).spec_pos() < final(self).spec_tokens().len()
                    && final(self).spec_tokens()[final(self).spec_pos()].node != Token::Newline
                    && e.message@ == "item parsing not yet implemented"@
                    && e.span == final(self).spec_tokens()[final(self).spec_pos()].span,
            },
    {
        let mut items: Vec<crate::ast::item::Item> = Vec::new();
        self.skip_newlines();
        if !self.is_at_end() {
            let item = item::parse_item(self)?;
            items.push(item);
        }
        Ok(SourceFile { items })
    }

    /// Parse `tokens` of `source` as a source file.
    pub fn parse(source: &str, tokens: Vec<Spanned<Token>>) -> (r: Result<SourceFile, ParseError>)
        requires
            tokens_fit(source.spec_bytes(), tokens@),
        ensures
            (forall|k: int| 0 <= k < tokens@.len() ==> (#[trigger] tokens@[k]).node == Token::Newline) ==> (r matches Ok(f)
                && f.items@.len() == 0),
            !(forall|k: int| 0 <= k < tokens@.len() ==> (#[trigger] tokens@[k]).node == Token::Newline) ==> (r matches Err(e)
                && e.message@ == "item parsing not yet implemented"@ && exists|j: int|
                0 <= j < tokens@.len() && (#[trigger] tokens@[j]).node != Token::Newline && e.span == tokens@[j].span
                    && forall|k: int| 0 <= k < j ==> (#[trigger] tokens@[k]).node == Token::Newline),
    {
        let ghost toks = tokens@;
        let mut parser = Parser::new(source, tokens);
        let r = parser.parse_file();
        proof {
            match r {
                Ok(_) => {
                    assert forall|k: int| 0 <= k < toks.len() implies (#[trigger] toks[k]).node == Token::Newline by {
                        assert(0 <= k < parser.spec_pos());
                    }
                },
                Err(_) => {
                    let j = parser.spec_pos();
                    assert(toks[j].node != Token::Newline);
                },
            }
        }
        r
    }

    /// An error with the given message at the next token.
    pub fn error(&self, msg: &str) -> (r: ParseError)
        ensures
            r.message@ == msg@,
            r.span == self.peek_span_spec(),
    {
        ParseError { message: msg.to_owned(), span: self.peek_span() }
    }
}

} // verus!
