//! Lexical analysis: source text to tokens with indentation structure.

mod token;
mod numeric;
mod lex;
mod indent;
mod debug;

pub use token::{Token, NumericLiteral, NumericBase, token_kind, token_is_keyword, keyword_of, punct_of};
pub use lex::{lex, LexError, lex_error_end, char_end, starts_char, text_between, unexpected_character_message, tokenization, token_spec, no_token_at, lex_fails_at, lex_error_text, same_token, same_tokens, law_tokenization_unique, law_lex_failure_excludes_tokenization, law_keyword_spelling_is_one_token};
pub use indent::{process_indentation, IndentError, dedent_error_message, layout, dedent_message, indent_error_text, strip_layout, count_node, is_layout_token, law_layout_keeps_tokens, law_layout_balanced, law_layout_dedents_never_ahead, law_layout_indent_after_newline, dedents_never_ahead, indents_follow_newlines, law_layout_respects_same_tokens, lemma_layout_fits};
pub use debug::{string_lit_text, token_debug, opt_token_debug, numeric_debug, token_text, opt_token_text, numeric_text};
pub use numeric::{parse_numeric, parse_numeric_bytes, numeric_literal_spec};

use vstd::prelude::*;
use vstd::string::StringSliceAdditionalSpecFns;

use crate::span::Spanned;
use crate::text::debug_text;

verus! {

/// The tokens other than line and block comments.
pub open spec fn strip_comments(s: Seq<Spanned<Token>>) -> Seq<Spanned<Token>> {
    s.filter(not_comment())
}

/// The test for tokens other than line and block comments.
pub open spec fn not_comment() -> spec_fn(Spanned<Token>) -> bool {
    |t: Spanned<Token>| t.node != Token::LineComment && t.node != Token::BlockComment
}

/// A failure of [`tokenize`].
#[derive(Debug)]
pub enum TokenizeError {
    Lex(LexError),
    Indent(IndentError),
}

impl TokenizeError {
    /// The error as text, as the inner error writes it.
    pub fn to_string(&self) -> (r: String)
        ensures
            r@ == match self {
                TokenizeError::Lex(e) => lex_error_text(e.span.start as nat, e.span.end as nat, e.message@),
                TokenizeError::Indent(e) => indent_error_text(e.span.start as nat, e.span.end as nat, e.message@),
            },
    {
        match self {
            TokenizeError::Lex(e) => e.to_string(),
            TokenizeError::Indent(e) => e.to_string(),
        }
    }
}

/// The tokens without comments, in order.
fn remove_comments(raw: Vec<Spanned<Token>>) -> (r: Vec<Spanned<Token>>)
    ensures
        r@ == strip_comments(raw@),
{
    let mut out: Vec<Spanned<Token>> = Vec::new();
    let mut i: usize = 0;
    while i < raw.len()
        invariant
            i <= raw@.len(),
            out@ == raw@.take(i as int).filter(not_comment()),
        decreases raw@.len() - i,
    {
        let t = &raw[i];
        let k = t.node.kind();
        proof {
            assert(raw@.take(i + 1) =~= raw@.take(i as int).push(raw@[i as int]));
            raw@.take(i as int).lemma_filter_push(raw@[i as int], not_comment());
        }
        if k != 126u8 && k != 127u8 {
            out.push(Spanned { node: t.node.duplicate(), span: t.span });
        }
        i = i + 1;
    }
    proof {
        assert(raw@.take(raw@.len() as int) =~= raw@);
    }
    out
}

/// Dropping comments from token sequences that agree token for token gives
/// sequences that agree.
proof fn lemma_strip_same(a: Seq<Spanned<Token>>, b: Seq<Spanned<Token>>)
    requires
        same_tokens(a, b),
    ensures
        same_tokens(strip_comments(a), strip_comments(b)),
    decreases a.len(),
{
    if a.len() > 0 {
        let a1 = a.drop_last();
        let b1 = b.drop_last();
        assert(same_tokens(a1, b1)) by {
            assert forall|i: int| 0 <= i < a1.len() implies #[trigger] same_token(a1[i], b1[i]) by {
                assert(same_token(a[i], b[i]));
            }
        }
        lemma_strip_same(a1, b1);
        let x = a.last();
        let y = b.last();
        assert(same_token(a[a.len() - 1], b[b.len() - 1]));
        assert(a =~= a1.push(x));
        assert(b =~= b1.push(y));
        a1.lemma_filter_push(x, not_comment());
        b1.lemma_filter_push(y, not_comment());
        let f1 = strip_comments(a1);
        let f2 = strip_comments(b1);
        if not_comment()(x) {
            assert(same_tokens(f1.push(x), f2.push(y))) by {
                assert forall|i: int| 0 <= i < f1.len() + 1 implies #[trigger] same_token(f1.push(x)[i], f2.push(y)[i]) by {
                    if i < f1.len() {
                        assert(same_token(f1[i], f2[i]));
                    }
                }
            }
        }
    }
}

/// Dropping comments keeps identifiers that fit the source.
proof fn lemma_strip_fits(src: Seq<u8>, a: Seq<Spanned<Token>>)
    requires
        crate::parser::tokens_fit(src, a),
    ensures
        crate::parser::tokens_fit(src, strip_comments(a)),
{
    let f = strip_comments(a);
    assert forall|i: int| 0 <= i < f.len() && #[trigger] f[i].node == Token::Ident implies crate::parser::span_fits(
        src,
        f[i].span,
    ) by {
        assert(f.contains(f[i]));
        a.lemma_filter_contains_rev(not_comment(), f[i]);
        let j = choose|j: int| 0 <= j < a.len() && a[j] == f[i];
        assert(a[j].node == Token::Ident);
    }
}

/// Lex `source`, drop comments and add the indentation tokens. The source
/// has at most one tokenization (string literals compared by their text);
/// the result is its layout without comments, token for token, or the
/// layout's error, and a lexing error comes exactly where there is none.
pub fn tokenize(source: &str) -> (r: Result<Vec<Spanned<Token>>, TokenizeError>)
    requires
        4 * source.spec_bytes().len() <= u32::MAX,
    ensures
        r matches Ok(v) ==> crate::parser::tokens_fit(source.spec_bytes(), v@),
        r matches Ok(v) ==> forall|i: int| 0 <= i < v@.len() ==> #[trigger] v@[i].node != Token::LineComment
            && v@[i].node != Token::BlockComment,
        forall|raw: Seq<Spanned<Token>>|
            #[trigger] tokenization(source.spec_bytes(), raw, source.spec_bytes().len() as int) ==> match r {
                Ok(v) => layout(source.spec_bytes(), strip_comments(raw)) matches Ok(w) && same_tokens(v@, w),
                Err(TokenizeError::Lex(_)) => false,
                Err(TokenizeError::Indent(e)) => layout(source.spec_bytes(), strip_comments(raw))
                    == Err::<Seq<Spanned<Token>>, crate::span::Span>(e.span),
            },
        match r {
            Ok(v) => exists|raw: Seq<Spanned<Token>>|
                #[trigger] tokenization(source.spec_bytes(), raw, source.spec_bytes().len() as int)
                    && layout(source.spec_bytes(), strip_comments(raw)) == Ok::<Seq<Spanned<Token>>, crate::span::Span>(v@),
            Err(TokenizeError::Lex(e)) => {
                &&& lex_fails_at(source.spec_bytes(), e.span.start as int)
                &&& e.span.start < e.span.end <= source.spec_bytes().len()
                &&& e.span.end == lex_error_end(source.spec_bytes(), e.span.start as int)
                &&& e.message@ == "unexpected character: "@ + debug_text(
                    vstd::utf8::decode_utf8(
                        source.spec_bytes().subrange(e.span.start as int, e.span.end as int),
                    ),
                )
            },
            Err(TokenizeError::Indent(e)) => exists|raw: Seq<Spanned<Token>>|
                #[trigger] tokenization(source.spec_bytes(), raw, source.spec_bytes().len() as int)
                    && layout(source.spec_bytes(), strip_comments(raw)) == Err::<Seq<Spanned<Token>>, crate::span::Span>(e.span)
                    && e.message@ == dedent_message((e.span.end - e.span.start) as nat),
        },
{
    let ghost b = source.spec_bytes();
    let raw = match lex(source) {
        Ok(v) => v,
        Err(e) => {
            proof {
                assert forall|raw: Seq<Spanned<Token>>| !#[trigger] tokenization(b, raw, b.len() as int) by {
                    law_lex_failure_excludes_tokenization(b, e.span.start as int, raw);
                }
            }
            return Err(TokenizeError::Lex(e));
        },
    };
    let ghost raw_seq = raw@;
    let no_comments = remove_comments(raw);
    proof {
        assert(tokenization(b, raw_seq, b.len() as int));
        assert forall|x: Seq<Spanned<Token>>| #[trigger] tokenization(b, x, b.len() as int) implies ({
            let o1 = layout(b, strip_comments(raw_seq));
            let o2 = layout(b, strip_comments(x));
            match (o1, o2) {
                (Ok(w1), Ok(w2)) => same_tokens(w1, w2),
                (Err(e1), Err(e2)) => e1 == e2,
                _ => false,
            }
        }) by {
            law_tokenization_unique(b, raw_seq, x);
            lemma_strip_same(raw_seq, x);
            law_layout_respects_same_tokens(b, strip_comments(raw_seq), strip_comments(x));
        }
        assert(crate::parser::tokens_fit(b, raw_seq));
        lemma_strip_fits(b, raw_seq);
    }
    match process_indentation(source, no_comments) {
        Ok(v) => {
            proof {
                lemma_layout_fits(b, strip_comments(raw_seq));
                let stripped = strip_comments(raw_seq);
                law_layout_keeps_tokens(b, stripped);
                assert forall|i: int| 0 <= i < v@.len() implies #[trigger] v@[i].node != Token::LineComment
                    && v@[i].node != Token::BlockComment by {
                    let t = v@[i];
                    if t.node == Token::LineComment || t.node == Token::BlockComment {
                        v@.lemma_filter_contains(indent::not_layout(), i);
                        assert(strip_layout(stripped).contains(t));
                        stripped.lemma_filter_contains_rev(indent::not_layout(), t);
                        let j = choose|j: int| 0 <= j < stripped.len() && stripped[j] == t;
                        raw_seq.lemma_filter_pred(not_comment(), j);
                    }
                }
                assert forall|x: Seq<Spanned<Token>>| #[trigger] tokenization(b, x, b.len() as int) implies layout(
                    b,
                    strip_comments(x),
                ) matches Ok(w) && same_tokens(v@, w) by {
                    let w = layout(b, strip_comments(x))->Ok_0;
                    assert(same_tokens(v@, w));
                }
            }
            Ok(v)
        },
        Err(e) => Err(TokenizeError::Indent(e)),
    }
}

} // verus!
