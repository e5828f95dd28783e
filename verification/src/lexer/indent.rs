//! Indentation: `Newline` tokens become `Newline` followed by `Indent` or
//! `Dedent` tokens where the indentation of the next line changes.

use vstd::prelude::*;
use vstd::string::StringSliceAdditionalSpecFns;

use super::token::Token;
use super::lex::{same_token, same_tokens};
use crate::span::{Span, Spanned};
use crate::text::decimal_text;

verus! {

broadcast use vstd::seq_lib::group_seq_properties;

/// The indentation at `pos`: spaces count 1 and tabs 4, up to the first other byte.
pub open spec fn indent_of(src: Seq<u8>, pos: int) -> nat
    decreases src.len() - pos,
{
    if 0 <= pos < src.len() && src[pos] == 32u8 {
        1 + indent_of(src, pos + 1)
    } else if 0 <= pos < src.len() && src[pos] == 9u8 {
        4 + indent_of(src, pos + 1)
    } else {
        0
    }
}

/// The line that starts at `pos` holds only spaces and tabs up to a line
/// break or the end of the text.
pub open spec fn blank_from(src: Seq<u8>, pos: int) -> bool
    decreases src.len() - pos,
{
    if pos < 0 || pos >= src.len() {
        true
    } else if src[pos] == 32u8 || src[pos] == 9u8 {
        blank_from(src, pos + 1)
    } else {
        src[pos] == 10u8 || src[pos] == 13u8
    }
}

/// `n` copies of `t`.
pub open spec fn repeat(t: Spanned<Token>, n: nat) -> Seq<Spanned<Token>> {
    Seq::new(n, |_k: int| t)
}

/// The indentation stack with every level above `level` popped (the
/// outermost level always stays).
pub open spec fn pop_above(st: Seq<u32>, level: nat) -> Seq<u32>
    decreases st.len(),
{
    if st.len() > 1 && st.last() > level {
        pop_above(st.drop_last(), level)
    } else {
        st
    }
}

/// The span of the layout tokens for the line that starts at `s` with
/// indentation `level`.
pub open spec fn level_span(s: u32, level: nat) -> Span {
    Span { start: s, end: (s + level) as u32 }
}

/// One token processed: output so far and indentation stack, or the span of
/// a dedent that matches no outer level.
pub open spec fn layout_step(
    src: Seq<u8>,
    tok: Spanned<Token>,
    out: Seq<Spanned<Token>>,
    st: Seq<u32>,
) -> Result<(Seq<Spanned<Token>>, Seq<u32>), Span> {
    if tok.node == Token::Newline {
        let nl = Spanned { node: Token::Newline, span: tok.span };
        let s = tok.span.end;
        if blank_from(src, s as int) {
            Ok((out.push(nl), st))
        } else {
            let level = indent_of(src, s as int);
            let sp = level_span(s, level);
            if level > st.last() {
                Ok((out.push(nl).push(Spanned { node: Token::Indent, span: sp }), st.push(level as u32)))
            } else if level < st.last() {
                let kept = pop_above(st, level);
                let out2 = out.push(nl) + repeat(
                    Spanned { node: Token::Dedent, span: sp },
                    (st.len() - kept.len()) as nat,
                );
                if kept.last() != level {
                    Err(sp)
                } else {
                    Ok((out2, kept))
                }
            } else {
                Ok((out.push(nl), st))
            }
        }
    } else {
        Ok((out.push(tok), st))
    }
}

/// The state after the first `k` tokens.
pub open spec fn layout_prefix(src: Seq<u8>, toks: Seq<Spanned<Token>>, k: int) -> Result<
    (Seq<Spanned<Token>>, Seq<u32>),
    Span,
>
    decreases k,
{
    if k <= 0 {
        Ok((Seq::empty(), seq![0u32]))
    } else {
        match layout_prefix(src, toks, k - 1) {
            Ok((out, st)) => layout_step(src, toks[k - 1], out, st),
            Err(sp) => Err(sp),
        }
    }
}

/// The tokens with layout: every open indentation level is closed by a
/// `Dedent` at the end of the text.
pub open spec fn layout(src: Seq<u8>, toks: Seq<Spanned<Token>>) -> Result<Seq<Spanned<Token>>, Span> {
    match layout_prefix(src, toks, toks.len() as int) {
        Ok((out, st)) => Ok(
            out + repeat(
                Spanned {
                    node: Token::Dedent,
                    span: Span { start: src.len() as u32, end: src.len() as u32 },
                },
                (st.len() - 1) as nat,
            ),
        ),
        Err(sp) => Err(sp),
    }
}

/// The message of an indentation error for a line indented to `level`.
pub open spec fn dedent_message(level: nat) -> Seq<char> {
    "dedent to level "@ + decimal_text(level) + " does not match any outer indentation level"@
}

/// An indentation that matches no enclosing level.
#[derive(Debug, Clone)]
pub struct IndentError {
    pub message: String,
    pub span: Span,
}

/// The text `indentation error at S..E: MESSAGE`.
pub open spec fn indent_error_text(start: nat, end: nat, message: Seq<char>) -> Seq<char> {
    "indentation error at "@ + decimal_text(start) + ".."@ + decimal_text(end) + ": "@ + message
}

impl IndentError {
    /// The error as text: `indentation error at S..E: MESSAGE`.
    pub fn to_string(&self) -> (r: String)
        ensures
            r@ == indent_error_text(self.span.start as nat, self.span.end as nat, self.message@),
    {
        let s = crate::text::concat(
            "indentation error at ",
            crate::text::decimal(self.span.start as u128).as_str(),
        );
        let s = crate::text::concat(s.as_str(), "..");
        let s = crate::text::concat(s.as_str(), crate::text::decimal(self.span.end as u128).as_str());
        let s = crate::text::concat(s.as_str(), ": ");
        crate::text::concat(s.as_str(), self.message.as_str())
    }
}

/// Whether the line that starts at `pos` is blank.
fn is_blank_line(source: &str, pos: usize) -> (r: bool)
    ensures
        r == blank_from(source.spec_bytes(), pos as int),
{
    let bytes = source.as_bytes();
    let mut i = pos;
    while i < bytes.len()
        invariant
            bytes@ == source.spec_bytes(),
            pos <= i,
            blank_from(bytes@, pos as int) == blank_from(bytes@, i as int),
        decreases bytes@.len() - i,
    {
        let c = bytes[i];
        if c == 32u8 || c == 9u8 {
            i = i + 1;
        } else {
            return c == 10u8 || c == 13u8;
        }
    }
    true
}

/// The indentation of the line that starts at `pos`.
fn measure_indent(source: &str, pos: usize) -> (r: u32)
    requires
        4 * source.spec_bytes().len() <= u32::MAX,
    ensures
        r == indent_of(source.spec_bytes(), pos as int),
        pos < source.spec_bytes().len() || r == 0,
        pos < source.spec_bytes().len() ==> r <= 4 * (source.spec_bytes().len() - pos),
{
    let bytes = source.as_bytes();
    let ghost src = bytes@;
    proof {
        lemma_indent_bound(src, pos as int);
    }
    if pos >= bytes.len() {
        return 0;
    }
    let mut i = pos;
    let mut count: u32 = 0;
    while i < bytes.len()
        invariant
            bytes@ == src,
            src == source.spec_bytes(),
            4 * src.len() <= u32::MAX,
            pos <= i,
            count + indent_of(src, i as int) == indent_of(src, pos as int),
            count <= 4 * (i - pos),
            indent_of(src, pos as int) <= 4 * (src.len() - pos),
        decreases src.len() - i,
    {
        let c = bytes[i];
        if c == 32u8 {
            count = count + 1;
            i = i + 1;
        } else if c == 9u8 {
            count = count + 4;
            i = i + 1;
        } else {
            return count;
        }
    }
    count
}

proof fn lemma_indent_bound(src: Seq<u8>, pos: int)
    ensures
        indent_of(src, pos) <= 4 * (if pos < src.len() { src.len() - pos } else { 0 }),
        pos >= src.len() ==> indent_of(src, pos) == 0,
    decreases src.len() - pos,
{
    if 0 <= pos < src.len() {
        lemma_indent_bound(src, pos + 1);
    }
}

/// The message for a dedent to `level`.
pub fn dedent_error_message(level: u32) -> (r: String)
    ensures
        r@ == dedent_message(level as nat),
{
    let s = crate::text::concat("dedent to level ", crate::text::decimal(level as u128).as_str());
    crate::text::concat(s.as_str(), " does not match any outer indentation level")
}

/// Insert `Indent` and `Dedent` tokens: after each `Newline` that ends a
/// line before a non-blank line, an `Indent` when that line is indented
/// deeper than the current level, one `Dedent` per level closed when it is
/// indented less (an error when no outer level matches); all open levels
/// are closed at the end of the text.
pub fn process_indentation(source: &str, tokens: Vec<Spanned<Token>>) -> (r: Result<
    Vec<Spanned<Token>>,
    IndentError,
>)
    requires
        4 * source.spec_bytes().len() <= u32::MAX,
    ensures
        match r {
            Ok(v) => layout(source.spec_bytes(), tokens@) == Ok::<Seq<Spanned<Token>>, Span>(v@),
            Err(e) => layout(source.spec_bytes(), tokens@) == Err::<Seq<Spanned<Token>>, Span>(e.span)
                && e.message@ == dedent_message((e.span.end - e.span.start) as nat),
        },
{
    let ghost src = source.spec_bytes();
    let mut result: Vec<Spanned<Token>> = Vec::new();
    let mut indent_stack: Vec<u32> = Vec::new();
    indent_stack.push(0);
    let mut i: usize = 0;
    while i < tokens.len()
        invariant
            src == source.spec_bytes(),
            4 * src.len() <= u32::MAX,
            i <= tokens@.len(),
            layout_prefix(src, tokens@, i as int) == Ok::<(Seq<Spanned<Token>>, Seq<u32>), Span>(
                (result@, indent_stack@),
            ),
            indent_stack@.len() >= 1,
        decreases tokens@.len() - i,
    {
        let tok = &tokens[i];
        let ghost out0 = result@;
        let ghost st0 = indent_stack@;
        if tok.node.kind() == 0 {
            proof {
                assert(tok.node == Token::Newline);
            }
            let newline_span = tok.span;
            let line_start = newline_span.end as usize;
            let nl = Spanned { node: Token::Newline, span: newline_span };
            if is_blank_line(source, line_start) {
                result.push(nl);
            } else {
                let indent_level = measure_indent(source, line_start);
                let current = indent_stack[indent_stack.len() - 1];
                let sp = Span { start: line_start as u32, end: line_start as u32 + indent_level };
                if indent_level > current {
                    result.push(nl);
                    result.push(Spanned { node: Token::Indent, span: sp });
                    indent_stack.push(indent_level);
                } else if indent_level < current {
                    result.push(nl);
                    let ghost out1 = result@;
                    let ded = Spanned { node: Token::Dedent, span: sp };
                    while indent_stack.len() > 1 && indent_stack[indent_stack.len() - 1] > indent_level
                        invariant
                            indent_stack@.len() >= 1,
                            indent_stack@.len() <= st0.len(),
                            ded == (Spanned { node: Token::Dedent, span: sp }),
                            pop_above(st0, indent_level as nat) == pop_above(indent_stack@, indent_level as nat),
                            result@ == out1 + repeat(ded, (st0.len() - indent_stack@.len()) as nat),
                        decreases indent_stack@.len(),
                    {
                        let ghost before = indent_stack@;
                        let ghost r0 = result@;
                        indent_stack.pop();
                        proof {
                            assert(indent_stack@ == before.drop_last());
                        }
                        result.push(Spanned { node: Token::Dedent, span: sp });
                        proof {
                            let m = (st0.len() - before.len()) as nat;
                            assert(repeat(ded, m + 1) =~= repeat(ded, m).push(ded));
                            assert(result@.len() == r0.len() + 1);
                            assert(result@.last() == ded);
                            assert(result@ =~= r0.push(ded));
                            assert(r0 == out1 + repeat(ded, m));
                            assert((out1 + repeat(ded, m)).push(ded) =~= out1 + repeat(ded, m).push(ded));
                            assert(indent_stack@.len() == before.len() - 1);
                            assert(result@ =~= out1 + repeat(ded, (st0.len() - indent_stack@.len()) as nat));
                        }
                    }
                    proof {
                        assert(pop_above(indent_stack@, indent_level as nat) == indent_stack@);
                    }
                    if indent_stack[indent_stack.len() - 1] != indent_level {
                        let message = dedent_error_message(indent_level);
                        proof {
                            lemma_layout_prefix_err(src, tokens@, i as int + 1, tokens@.len() as int);
                        }
                        return Err(IndentError { message, span: sp });
                    }
                } else {
                    result.push(nl);
                }
            }
        } else {
            proof {
                assert(tok.node != Token::Newline);
            }
            result.push(Spanned { node: tok.node.duplicate(), span: tok.span });
        }
        i = i + 1;
        proof {
            assert(layout_prefix(src, tokens@, i as int) == layout_step(src, tokens@[i - 1], out0, st0));
        }
    }
    let eof_pos = source.len() as u32;
    let ghost out1 = result@;
    let ghost st1 = indent_stack@;
    let ded = Spanned { node: Token::Dedent, span: Span { start: eof_pos, end: eof_pos } };
    while indent_stack.len() > 1
        invariant
            indent_stack@.len() >= 1,
            indent_stack@.len() <= st1.len(),
            ded == (Spanned { node: Token::Dedent, span: Span { start: eof_pos, end: eof_pos } }),
            result@ == out1 + repeat(ded, (st1.len() - indent_stack@.len()) as nat),
        decreases indent_stack@.len(),
    {
        let ghost before = indent_stack@;
        let ghost r0 = result@;
        indent_stack.pop();
        result.push(Spanned { node: Token::Dedent, span: Span { start: eof_pos, end: eof_pos } });
        proof {
            let m = (st1.len() - before.len()) as nat;
            assert(repeat(ded, m + 1) =~= repeat(ded, m).push(ded));
            assert(result@ == r0.push(ded));
            assert((out1 + repeat(ded, m)).push(ded) =~= out1 + repeat(ded, m).push(ded));
            assert(indent_stack@.len() == before.len() - 1);
            assert(result@ =~= out1 + repeat(ded, (st1.len() - indent_stack@.len()) as nat));
        }
    }
    Ok(result)
}

/// Once an error occurs, the later prefixes carry it.
proof fn lemma_layout_prefix_err(src: Seq<u8>, toks: Seq<Spanned<Token>>, k: int, m: int)
    requires
        1 <= k <= m,
        layout_prefix(src, toks, k) is Err,
    ensures
        layout_prefix(src, toks, m) == layout_prefix(src, toks, k),
    decreases m - k,
{
    if m > k {
        lemma_layout_prefix_err(src, toks, k, m - 1);
    }
}

// ---------------------------------------------------------------------------
// Laws of the layout
// ---------------------------------------------------------------------------

/// `Indent` or `Dedent`.
pub open spec fn is_layout_token(t: Token) -> bool {
    t == Token::Indent || t == Token::Dedent
}

/// The tokens other than `Indent` and `Dedent`.
pub open spec fn strip_layout(s: Seq<Spanned<Token>>) -> Seq<Spanned<Token>> {
    s.filter(not_layout())
}

/// The test for tokens other than `Indent` and `Dedent`.
pub open spec fn not_layout() -> spec_fn(Spanned<Token>) -> bool {
    |t: Spanned<Token>| !is_layout_token(t.node)
}

/// The test for tokens that are `k`.
pub open spec fn node_is(k: Token) -> spec_fn(Spanned<Token>) -> bool {
    |t: Spanned<Token>| t.node == k
}

/// How many tokens of `s` are `k`.
pub open spec fn count_node(s: Seq<Spanned<Token>>, k: Token) -> nat {
    s.filter(node_is(k)).len()
}

proof fn lemma_filter_push(s: Seq<Spanned<Token>>, x: Spanned<Token>, p: spec_fn(Spanned<Token>) -> bool)
    ensures
        s.push(x).filter(p) == s.filter(p) + (if p(x) { seq![x] } else { Seq::empty() }),
{
    assert(s.push(x) =~= s + seq![x]);
    Seq::filter_distributes_over_add(s, seq![x], p);
    reveal_with_fuel(Seq::filter, 2);
    assert(seq![x].drop_last() =~= Seq::<Spanned<Token>>::empty());
}

proof fn lemma_filter_repeat(x: Spanned<Token>, n: nat, p: spec_fn(Spanned<Token>) -> bool)
    ensures
        p(x) ==> repeat(x, n).filter(p).len() == n,
        !p(x) ==> repeat(x, n).filter(p) == Seq::<Spanned<Token>>::empty(),
    decreases n,
{
    if n == 0 {
        assert(repeat(x, 0) =~= Seq::<Spanned<Token>>::empty());
        reveal_with_fuel(Seq::filter, 1);
    } else {
        lemma_filter_repeat(x, (n - 1) as nat, p);
        assert(repeat(x, n) =~= repeat(x, (n - 1) as nat).push(x));
        lemma_filter_push(repeat(x, (n - 1) as nat), x, p);
    }
}

proof fn lemma_filter_concat(a: Seq<Spanned<Token>>, b: Seq<Spanned<Token>>, p: spec_fn(Spanned<Token>) -> bool)
    ensures
        (a + b).filter(p) == a.filter(p) + b.filter(p),
{
    Seq::filter_distributes_over_add(a, b, p);
}

/// What the layout keeps after the first `k` tokens.
proof fn lemma_layout_prefix_facts(src: Seq<u8>, toks: Seq<Spanned<Token>>, k: int)
    requires
        0 <= k <= toks.len(),
        layout_prefix(src, toks, k) is Ok,
    ensures
        ({
            let (out, st) = layout_prefix(src, toks, k)->Ok_0;
            &&& st.len() >= 1
            &&& strip_layout(out) == strip_layout(toks.take(k))
            &&& (forall|j: int| 0 <= j < k ==> !is_layout_token(#[trigger] toks[j].node)) ==> count_node(
                out,
                Token::Indent,
            ) == count_node(out, Token::Dedent) + st.len() - 1
        }),
    decreases k,
{
    let pk = not_layout();
    let pi = node_is(Token::Indent);
    let pd = node_is(Token::Dedent);
    if k == 0 {
        assert(toks.take(0) =~= Seq::<Spanned<Token>>::empty());
        reveal_with_fuel(Seq::filter, 1);
    } else {
        lemma_layout_prefix_facts(src, toks, k - 1);
        let (out, st) = layout_prefix(src, toks, k - 1)->Ok_0;
        let tok = toks[k - 1];
        assert(toks.take(k) =~= toks.take(k - 1).push(tok));
        lemma_filter_push(toks.take(k - 1), tok, pk);
        lemma_filter_push(out, tok, pk);
        lemma_filter_push(out, tok, pi);
        lemma_filter_push(out, tok, pd);
        if tok.node == Token::Newline {
            let nl = Spanned { node: Token::Newline, span: tok.span };
            let s = tok.span.end;
            lemma_filter_push(out, nl, pk);
            lemma_filter_push(out, nl, pi);
            lemma_filter_push(out, nl, pd);
            assert(nl == tok);
            if !blank_from(src, s as int) {
                let level = indent_of(src, s as int);
                let sp = level_span(s, level);
                let ind = Spanned { node: Token::Indent, span: sp };
                let ded = Spanned { node: Token::Dedent, span: sp };
                if level > st.last() {
                    lemma_filter_push(out.push(nl), ind, pk);
                    lemma_filter_push(out.push(nl), ind, pi);
                    lemma_filter_push(out.push(nl), ind, pd);
                } else if level < st.last() {
                    let kept = pop_above(st, level);
                    lemma_pop_above_len(st, level);
                    let n = (st.len() - kept.len()) as nat;
                    lemma_filter_concat(out.push(nl), repeat(ded, n), pk);
                    lemma_filter_concat(out.push(nl), repeat(ded, n), pi);
                    lemma_filter_concat(out.push(nl), repeat(ded, n), pd);
                    lemma_filter_repeat(ded, n, pk);
                    lemma_filter_repeat(ded, n, pi);
                    lemma_filter_repeat(ded, n, pd);
                }
            }
        }
    }
}

proof fn lemma_pop_above_len(st: Seq<u32>, level: nat)
    requires
        st.len() >= 1,
    ensures
        1 <= pop_above(st, level).len() <= st.len(),
    decreases st.len(),
{
    if st.len() > 1 && st.last() > level {
        lemma_pop_above_len(st.drop_last(), level);
    }
}

/// Layout only adds tokens: without its `Indent` and `Dedent` tokens the
/// output is the input without them.
pub proof fn law_layout_keeps_tokens(src: Seq<u8>, toks: Seq<Spanned<Token>>)
    requires
        layout(src, toks) is Ok,
    ensures
        strip_layout(layout(src, toks)->Ok_0) == strip_layout(toks),
{
    lemma_layout_prefix_facts(src, toks, toks.len() as int);
    let (out, st) = layout_prefix(src, toks, toks.len() as int)->Ok_0;
    let ded = Spanned {
        node: Token::Dedent,
        span: Span { start: src.len() as u32, end: src.len() as u32 },
    };
    let pk = not_layout();
    lemma_filter_concat(out, repeat(ded, (st.len() - 1) as nat), pk);
    lemma_filter_repeat(ded, (st.len() - 1) as nat, pk);
    assert(toks.take(toks.len() as int) =~= toks);
    assert(strip_layout(out) + Seq::<Spanned<Token>>::empty() =~= strip_layout(out));
}

/// Every indentation level that is opened is closed: for input without
/// `Indent` and `Dedent` tokens, the output holds as many of each.
pub proof fn law_layout_balanced(src: Seq<u8>, toks: Seq<Spanned<Token>>)
    requires
        layout(src, toks) is Ok,
        forall|j: int| 0 <= j < toks.len() ==> !is_layout_token(#[trigger] toks[j].node),
    ensures
        count_node(layout(src, toks)->Ok_0, Token::Indent) == count_node(
            layout(src, toks)->Ok_0,
            Token::Dedent,
        ),
{
    lemma_layout_prefix_facts(src, toks, toks.len() as int);
    let (out, st) = layout_prefix(src, toks, toks.len() as int)->Ok_0;
    let ded = Spanned {
        node: Token::Dedent,
        span: Span { start: #[verifier::truncate] (src.len() as u32), end: #[verifier::truncate] (src.len() as u32) },
    };
    let pi = node_is(Token::Indent);
    let pd = node_is(Token::Dedent);
    lemma_filter_concat(out, repeat(ded, (st.len() - 1) as nat), pi);
    lemma_filter_concat(out, repeat(ded, (st.len() - 1) as nat), pd);
    lemma_filter_repeat(ded, (st.len() - 1) as nat, pi);
    lemma_filter_repeat(ded, (st.len() - 1) as nat, pd);
}

/// Every `Indent` of `s` comes directly after a `Newline`.
pub open spec fn indents_follow_newlines(s: Seq<Spanned<Token>>) -> bool {
    forall|j: int| 0 <= j < s.len() && #[trigger] s[j].node == Token::Indent ==> j >= 1 && s[j - 1].node == Token::Newline
}

proof fn lemma_prefix_indents(src: Seq<u8>, toks: Seq<Spanned<Token>>, k: int)
    requires
        0 <= k <= toks.len(),
        layout_prefix(src, toks, k) is Ok,
        forall|j: int| 0 <= j < toks.len() ==> !is_layout_token(#[trigger] toks[j].node),
    ensures
        indents_follow_newlines(layout_prefix(src, toks, k)->Ok_0.0),
    decreases k,
{
    if k > 0 {
        if layout_prefix(src, toks, k - 1) is Err {
            assert(layout_prefix(src, toks, k) is Err);
        }
        lemma_prefix_indents(src, toks, k - 1);
        let (out, st) = layout_prefix(src, toks, k - 1)->Ok_0;
        let tok = toks[k - 1];
        assert(!is_layout_token(tok.node));
        let next = layout_prefix(src, toks, k)->Ok_0.0;
        assert(next == layout_step(src, tok, out, st)->Ok_0.0);
        assert forall|j: int| 0 <= j < next.len() && #[trigger] next[j].node == Token::Indent implies j >= 1
            && next[j - 1].node == Token::Newline by {
            if j < out.len() {
                assert(next[j] == out[j]);
                if j >= 1 {
                    assert(next[j - 1] == out[j - 1]);
                }
            } else if j > out.len() {
                assert(next[j - 1].node == Token::Newline || next[j].node != Token::Indent);
            }
        }
    }
}

/// Every indentation level is opened at the start of a line: for input
/// without `Indent` and `Dedent` tokens, each `Indent` of the output comes
/// directly after a `Newline`.
pub proof fn law_layout_indent_after_newline(src: Seq<u8>, toks: Seq<Spanned<Token>>)
    requires
        layout(src, toks) is Ok,
        forall|j: int| 0 <= j < toks.len() ==> !is_layout_token(#[trigger] toks[j].node),
    ensures
        indents_follow_newlines(layout(src, toks)->Ok_0),
{
    lemma_prefix_indents(src, toks, toks.len() as int);
    let (out, st) = layout_prefix(src, toks, toks.len() as int)->Ok_0;
    let all = layout(src, toks)->Ok_0;
    assert forall|j: int| 0 <= j < all.len() && #[trigger] all[j].node == Token::Indent implies j >= 1
        && all[j - 1].node == Token::Newline by {
        assert(j < out.len());
        assert(all[j] == out[j]);
        if j >= 1 {
            assert(all[j - 1] == out[j - 1]);
        }
    }
}

/// No prefix of `s` holds more `Dedent` than `Indent` tokens.
pub open spec fn dedents_never_ahead(s: Seq<Spanned<Token>>) -> bool {
    forall|j: int| 0 <= j <= s.len() ==> count_node(#[trigger] s.take(j), Token::Dedent) <= count_node(
        s.take(j),
        Token::Indent,
    )
}

proof fn lemma_append_run(a: Seq<Spanned<Token>>, x: Spanned<Token>, n: nat)
    requires
        dedents_never_ahead(a),
        x.node != Token::Indent,
        x.node == Token::Dedent ==> count_node(a, Token::Dedent) + n <= count_node(a, Token::Indent),
    ensures
        dedents_never_ahead(a + repeat(x, n)),
{
    let s = a + repeat(x, n);
    let pi = node_is(Token::Indent);
    let pd = node_is(Token::Dedent);
    assert forall|j: int| 0 <= j <= s.len() implies count_node(#[trigger] s.take(j), Token::Dedent) <= count_node(
        s.take(j),
        Token::Indent,
    ) by {
        if j <= a.len() {
            assert(s.take(j) =~= a.take(j));
        } else {
            let m = (j - a.len()) as nat;
            assert(s.take(j) =~= a + repeat(x, m));
            assert(a.take(a.len() as int) =~= a);
            lemma_filter_concat(a, repeat(x, m), pi);
            lemma_filter_concat(a, repeat(x, m), pd);
            lemma_filter_repeat(x, m, pi);
            lemma_filter_repeat(x, m, pd);
        }
    }
}

proof fn lemma_prefix_never_ahead(src: Seq<u8>, toks: Seq<Spanned<Token>>, k: int)
    requires
        0 <= k <= toks.len(),
        layout_prefix(src, toks, k) is Ok,
        forall|j: int| 0 <= j < toks.len() ==> !is_layout_token(#[trigger] toks[j].node),
    ensures
        dedents_never_ahead(layout_prefix(src, toks, k)->Ok_0.0),
    decreases k,
{
    if k == 0 {
        let e = Seq::<Spanned<Token>>::empty();
        assert forall|j: int| 0 <= j <= e.len() implies count_node(#[trigger] e.take(j), Token::Dedent) <= count_node(
            e.take(j),
            Token::Indent,
        ) by {
            assert(e.take(j) =~= e);
        }
    } else {
        if layout_prefix(src, toks, k - 1) is Err {
            assert(layout_prefix(src, toks, k) is Err);
        }
        lemma_prefix_never_ahead(src, toks, k - 1);
        lemma_layout_prefix_facts(src, toks, k - 1);
        let (out, st) = layout_prefix(src, toks, k - 1)->Ok_0;
        let tok = toks[k - 1];
        assert(!is_layout_token(tok.node));
        assert(forall|j: int| 0 <= j < k - 1 ==> !is_layout_token(#[trigger] toks[j].node));
        let pi = node_is(Token::Indent);
        let pd = node_is(Token::Dedent);
        if tok.node != Token::Newline {
            lemma_append_run(out, tok, 1);
            assert(out + repeat(tok, 1) =~= out.push(tok));
        } else {
            let nl = Spanned { node: Token::Newline, span: tok.span };
            lemma_append_run(out, nl, 1);
            assert(out + repeat(nl, 1) =~= out.push(nl));
            lemma_filter_push(out, nl, pi);
            lemma_filter_push(out, nl, pd);
            let s = tok.span.end;
            if !blank_from(src, s as int) {
                let level = indent_of(src, s as int);
                let sp = level_span(s, level);
                let ind = Spanned { node: Token::Indent, span: sp };
                let ded = Spanned { node: Token::Dedent, span: sp };
                if level > st.last() {
                    let p1 = out.push(nl);
                    let p2 = p1.push(ind);
                    assert forall|j: int| 0 <= j <= p2.len() implies count_node(#[trigger] p2.take(j), Token::Dedent)
                        <= count_node(p2.take(j), Token::Indent) by {
                        if j <= p1.len() {
                            assert(p2.take(j) =~= p1.take(j));
                        } else {
                            assert(p2.take(j) =~= p1.push(ind));
                            assert(p1.take(p1.len() as int) =~= p1);
                            lemma_filter_push(p1, ind, pi);
                            lemma_filter_push(p1, ind, pd);
                        }
                    }
                } else if level < st.last() {
                    let kept = pop_above(st, level);
                    lemma_pop_above_len(st, level);
                    let n = (st.len() - kept.len()) as nat;
                    lemma_append_run(out.push(nl), ded, n);
                }
            }
        }
    }
}

/// Each `Dedent` closes an earlier `Indent`: for input without `Indent` and
/// `Dedent` tokens, no prefix of the output holds more `Dedent` than
/// `Indent` tokens.
pub proof fn law_layout_dedents_never_ahead(src: Seq<u8>, toks: Seq<Spanned<Token>>)
    requires
        layout(src, toks) is Ok,
        forall|j: int| 0 <= j < toks.len() ==> !is_layout_token(#[trigger] toks[j].node),
    ensures
        dedents_never_ahead(layout(src, toks)->Ok_0),
{
    lemma_prefix_never_ahead(src, toks, toks.len() as int);
    lemma_layout_prefix_facts(src, toks, toks.len() as int);
    let (out, st) = layout_prefix(src, toks, toks.len() as int)->Ok_0;
    let ded = Spanned {
        node: Token::Dedent,
        span: Span { start: #[verifier::truncate] (src.len() as u32), end: #[verifier::truncate] (src.len() as u32) },
    };
    lemma_append_run(out, ded, (st.len() - 1) as nat);
}

/// Layout of prefixes of two token sequences that agree token for token
/// agrees too.
proof fn lemma_layout_prefix_same(src: Seq<u8>, a: Seq<Spanned<Token>>, b: Seq<Spanned<Token>>, k: int)
    requires
        same_tokens(a, b),
        0 <= k <= a.len(),
    ensures
        match (layout_prefix(src, a, k), layout_prefix(src, b, k)) {
            (Ok((o1, s1)), Ok((o2, s2))) => same_tokens(o1, o2) && s1 == s2,
            (Err(e1), Err(e2)) => e1 == e2,
            _ => false,
        },
    decreases k,
{
    if k > 0 {
        lemma_layout_prefix_same(src, a, b, k - 1);
        let x = a[k - 1];
        let y = b[k - 1];
        assert(same_token(x, y));
        assert((x.node == Token::Newline) == (y.node == Token::Newline));
        match (layout_prefix(src, a, k - 1), layout_prefix(src, b, k - 1)) {
            (Ok((o1, st)), Ok((o2, _))) => {
                if x.node != Token::Newline {
                    assert(same_tokens(o1.push(x), o2.push(y))) by {
                        assert forall|i: int| 0 <= i < o1.len() + 1 implies #[trigger] same_token(o1.push(x)[i], o2.push(y)[i]) by {
                            if i < o1.len() {
                                assert(same_token(o1[i], o2[i]));
                            }
                        }
                    }
                } else {
                    let nl = Spanned { node: Token::Newline, span: x.span };
                    let s = x.span.end;
                    let level = indent_of(src, s as int);
                    let sp = level_span(s, level);
                    let ind = Spanned { node: Token::Indent, span: sp };
                    let ded = Spanned { node: Token::Dedent, span: sp };
                    lemma_same_tokens_append(o1, o2, seq![nl]);
                    assert(o1 + seq![nl] =~= o1.push(nl));
                    assert(o2 + seq![nl] =~= o2.push(nl));
                    lemma_same_tokens_append(o1.push(nl), o2.push(nl), seq![ind]);
                    assert(o1.push(nl) + seq![ind] =~= o1.push(nl).push(ind));
                    assert(o2.push(nl) + seq![ind] =~= o2.push(nl).push(ind));
                    if level < st.last() {
                        let kept = pop_above(st, level);
                        lemma_same_tokens_append(o1.push(nl), o2.push(nl), repeat(ded, (st.len() - kept.len()) as nat));
                    }
                }
            },
            _ => {},
        }
    }
}

/// Appending the same tokens keeps two sequences in agreement.
proof fn lemma_same_tokens_append(o1: Seq<Spanned<Token>>, o2: Seq<Spanned<Token>>, t: Seq<Spanned<Token>>)
    requires
        same_tokens(o1, o2),
    ensures
        same_tokens(o1 + t, o2 + t),
{
    assert forall|i: int| 0 <= i < o1.len() + t.len() implies #[trigger] same_token((o1 + t)[i], (o2 + t)[i]) by {
        if i < o1.len() {
            assert(same_token(o1[i], o2[i]));
        } else {
            assert((o1 + t)[i] == t[i - o1.len()]);
            assert((o2 + t)[i] == t[i - o1.len()]);
        }
    }
}

/// Layout gives the same answer, token for token, on token sequences that
/// agree token for token.
pub proof fn law_layout_respects_same_tokens(src: Seq<u8>, a: Seq<Spanned<Token>>, b: Seq<Spanned<Token>>)
    requires
        same_tokens(a, b),
    ensures
        match (layout(src, a), layout(src, b)) {
            (Ok(o1), Ok(o2)) => same_tokens(o1, o2),
            (Err(e1), Err(e2)) => e1 == e2,
            _ => false,
        },
{
    lemma_layout_prefix_same(src, a, b, a.len() as int);
    match (layout_prefix(src, a, a.len() as int), layout_prefix(src, b, b.len() as int)) {
        (Ok((o1, st)), Ok((o2, _))) => {
            let ded = Spanned {
                node: Token::Dedent,
                span: Span { start: src.len() as u32, end: src.len() as u32 },
            };
            lemma_same_tokens_append(o1, o2, repeat(ded, (st.len() - 1) as nat));
        },
        _ => {},
    }
}

/// Layout keeps the spans of identifiers: where every identifier of the
/// input fits the source, every identifier of the output does.
proof fn lemma_layout_prefix_fits(src: Seq<u8>, toks: Seq<Spanned<Token>>, k: int)
    requires
        crate::parser::tokens_fit(src, toks),
        0 <= k <= toks.len(),
        layout_prefix(src, toks, k) is Ok,
    ensures
        crate::parser::tokens_fit(src, layout_prefix(src, toks, k)->Ok_0.0),
    decreases k,
{
    if k > 0 {
        if layout_prefix(src, toks, k - 1) is Err {
            assert(layout_prefix(src, toks, k) is Err);
        }
        lemma_layout_prefix_fits(src, toks, k - 1);
        let (out, st) = layout_prefix(src, toks, k - 1)->Ok_0;
        let x = toks[k - 1];
        let next = layout_prefix(src, toks, k)->Ok_0.0;
        assert forall|i: int| 0 <= i < next.len() && #[trigger] next[i].node == Token::Ident implies crate::parser::span_fits(
            src,
            next[i].span,
        ) by {
            if i < out.len() {
                assert(next[i] == out[i]);
            } else if i == out.len() {
                assert(next[i] == x || next[i].node != Token::Ident);
            }
        }
    }
}

/// Every identifier of the layout fits the source where every identifier of
/// its input does.
pub proof fn lemma_layout_fits(src: Seq<u8>, toks: Seq<Spanned<Token>>)
    requires
        crate::parser::tokens_fit(src, toks),
        layout(src, toks) is Ok,
    ensures
        crate::parser::tokens_fit(src, layout(src, toks)->Ok_0),
{
    lemma_layout_prefix_fits(src, toks, toks.len() as int);
    let (out, st) = layout_prefix(src, toks, toks.len() as int)->Ok_0;
    let all = layout(src, toks)->Ok_0;
    assert forall|i: int| 0 <= i < all.len() && #[trigger] all[i].node == Token::Ident implies crate::parser::span_fits(
        src,
        all[i].span,
    ) by {
        assert(i < out.len());
        assert(all[i] == out[i]);
    }
}

} // verus!
