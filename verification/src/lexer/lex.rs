use vstd::prelude::*;
use vstd::string::StringSliceAdditionalSpecFns;
use vstd::utf8::*;

use super::numeric::{first_tick, numeric_literal_spec, parse_numeric_bytes, sized_base};
use super::token::{keyword_of, keyword_token, punct_of, punct_token, Token};
use crate::span::{Span, Spanned};
use crate::text::{debug_text, decimal_text};

verus! {

broadcast use vstd::utf8::group_utf8_lib;

// ---------------------------------------------------------------------------
// Byte classes
// ---------------------------------------------------------------------------

/// Byte classes used by the lexical grammar.
pub open spec fn in_class(class: u8, c: u8) -> bool {
    if class == 0 {
        c == 32u8 || c == 9u8
    } else if class == 1 {
        (97 <= c <= 122) || (65 <= c <= 90) || c == 95u8 || (48 <= c <= 57)
    } else if class == 2 {
        48 <= c <= 57
    } else if class == 3 {
        (48 <= c <= 57) || c == 95u8
    } else if class == 4 {
        (48 <= c <= 57) || (97 <= c <= 102) || (65 <= c <= 70) || c == 95u8
    } else if class == 5 {
        c == 48u8 || c == 49u8 || c == 95u8
    } else if class == 6 {
        (48 <= c <= 57) || (97 <= c <= 102) || (65 <= c <= 70) || c == 95u8 || c == 63u8
    } else if class == 7 {
        c != 10u8
    } else {
        c != 34u8
    }
}

/// Space or tab: the bytes skipped between tokens.
pub open spec fn is_ws(c: u8) -> bool {
    in_class(0, c)
}

/// A byte that may start an identifier.
pub open spec fn is_ident_start(c: u8) -> bool {
    (97 <= c <= 122) || (65 <= c <= 90) || c == 95u8
}

/// Every byte of `t[lo..hi]` is in the class.
pub open spec fn all_in(t: Seq<u8>, lo: int, hi: int, class: u8) -> bool {
    forall|j: int| lo <= j < hi ==> #[trigger] in_class(class, t[j])
}

// ---------------------------------------------------------------------------
// Token patterns
// ---------------------------------------------------------------------------

/// `\n` or `\r`: a line break.
pub open spec fn newline_text(t: Seq<u8>) -> bool {
    t.len() == 1 && (t[0] == 10u8 || t[0] == 13u8)
}

/// `[a-zA-Z_][a-zA-Z0-9_]*`
pub open spec fn ident_text(t: Seq<u8>) -> bool {
    t.len() >= 1 && is_ident_start(t[0]) && all_in(t, 1, t.len() as int, 1)
}

/// `[0-9][0-9_]*`
pub open spec fn dec_text(t: Seq<u8>) -> bool {
    t.len() >= 1 && in_class(2, t[0]) && all_in(t, 1, t.len() as int, 3)
}

/// `0[xX][0-9a-fA-F_]+`
pub open spec fn hex_text(t: Seq<u8>) -> bool {
    t.len() >= 3 && t[0] == 48u8 && (t[1] == 120u8 || t[1] == 88u8) && all_in(t, 2, t.len() as int, 4)
}

/// `0[bB][01_]+`
pub open spec fn bin_text(t: Seq<u8>) -> bool {
    t.len() >= 3 && t[0] == 48u8 && (t[1] == 98u8 || t[1] == 66u8) && all_in(t, 2, t.len() as int, 5)
}

/// `[0-9]+'[bBhHdD][0-9a-fA-F_?]+`
pub open spec fn sized_text(t: Seq<u8>) -> bool {
    match first_tick(t) {
        Some(k) => k >= 1 && all_in(t, 0, k, 2) && t.len() >= k + 3 && sized_base(t[k + 1]) is Some
            && all_in(t, k + 2, t.len() as int, 6),
        None => false,
    }
}

/// Any of the numeric literal patterns.
pub open spec fn numeric_text(t: Seq<u8>) -> bool {
    dec_text(t) || hex_text(t) || bin_text(t) || sized_text(t)
}

/// `"[^"]*"`
pub open spec fn string_text(t: Seq<u8>) -> bool {
    t.len() >= 2 && t[0] == 34u8 && t[t.len() - 1] == 34u8 && all_in(t, 1, t.len() - 1, 8)
}

/// `//[^\n]*` (documentation comments, `///[^\n]*`, are among them).
pub open spec fn line_text(t: Seq<u8>) -> bool {
    t.len() >= 2 && t[0] == 47u8 && t[1] == 47u8 && all_in(t, 0, t.len() as int, 7)
}

/// `/*`: the opening of a block comment.
pub open spec fn block_open(t: Seq<u8>) -> bool {
    t == seq![47u8, 42u8]
}

/// The text matches one of the token patterns of the language.
pub open spec fn matches_pattern(t: Seq<u8>) -> bool {
    newline_text(t) || ident_text(t) || punct_of(t) is Some || numeric_text(t) || string_text(t)
        || line_text(t) || block_open(t)
}

/// No text longer than `b[i..e]` that starts at `i` matches a token pattern.
pub open spec fn longest_at(b: Seq<u8>, i: int, e: int) -> bool {
    forall|e2: int| e < e2 <= b.len() ==> !#[trigger] matches_pattern(b.subrange(i, e2))
}

/// End of a block comment whose body starts at `j` at nesting `depth`:
/// `/*` opens a nested comment, `*/` closes one, the outermost close ends it.
pub open spec fn block_close(b: Seq<u8>, j: int, depth: nat) -> Option<int>
    decreases b.len() - j,
{
    if j < 0 || j >= b.len() {
        None
    } else if j + 1 < b.len() && b[j] == 47u8 && b[j + 1] == 42u8 {
        block_close(b, j + 2, depth + 1)
    } else if j + 1 < b.len() && b[j] == 42u8 && b[j + 1] == 47u8 {
        if depth <= 1 {
            Some(j + 2)
        } else {
            block_close(b, j + 2, (depth - 1) as nat)
        }
    } else {
        block_close(b, j + 1, depth)
    }
}

/// The token read from the text `t`, given that `t` is the longest
/// pattern match at its position (block comments are handled apart).
pub open spec fn token_matches(t: Seq<u8>, tok: Token) -> bool {
    match tok {
        Token::Newline => newline_text(t),
        Token::Ident => ident_text(t) && keyword_of(t) is None && t != seq![95u8],
        Token::Numeric(n) => numeric_text(t) && numeric_literal_spec(t) == Some(n),
        Token::StringLit(s) => string_text(t) && encode_utf8(s@) == t.subrange(1, t.len() - 1),
        Token::DocComment => line_text(t) && t.len() >= 3 && t[2] == 47u8,
        Token::LineComment => line_text(t) && !(t.len() >= 3 && t[2] == 47u8),
        _ => keyword_of(t) == Some(tok) || punct_of(t) == Some(tok),
    }
}

/// `b[s..e]` is the text of a token `tok` read at position `s`.
pub open spec fn token_spec(b: Seq<u8>, s: int, e: int, tok: Token) -> bool {
    0 <= s < e <= b.len() && if s + 1 < b.len() && b[s] == 47u8 && b[s + 1] == 42u8 {
        tok == Token::BlockComment && block_close(b, s + 2, 1) == Some(e)
    } else {
        longest_at(b, s, e) && token_matches(b.subrange(s, e), tok)
    }
}

/// Where the previous token ends (0 before the first token).
pub open spec fn prev_end(toks: Seq<Spanned<Token>>, k: int) -> int {
    if k == 0 { 0 } else { toks[k - 1].span.end as int }
}

/// `toks` is the token sequence of `b[0..p]`: each token is read by
/// longest match where the previous one ended, after skipping spaces and tabs,
/// and only spaces and tabs follow the last token up to `p`.
pub open spec fn tokenization(b: Seq<u8>, toks: Seq<Spanned<Token>>, p: int) -> bool {
    &&& forall|k: int|
        0 <= k < toks.len() ==> prev_end(toks, k) <= (#[trigger] toks[k]).span.start && token_spec(
            b,
            toks[k].span.start as int,
            toks[k].span.end as int,
            toks[k].node,
        ) && all_in(b, prev_end(toks, k), toks[k].span.start as int, 0)
    &&& prev_end(toks, toks.len() as int) <= p <= b.len()
    &&& all_in(b, prev_end(toks, toks.len() as int), p, 0)
}

/// No token can be read at position `p`: the byte there starts no pattern,
/// or the longest match is a numeric literal whose value is invalid, or a
/// block comment is never closed.
pub open spec fn no_token_at(b: Seq<u8>, p: int) -> bool {
    0 <= p < b.len() && !is_ws(b[p]) && if p + 1 < b.len() && b[p] == 47u8 && b[p + 1] == 42u8 {
        block_close(b, p + 2, 1) is None
    } else {
        (forall|e2: int| p < e2 <= b.len() ==> !#[trigger] matches_pattern(b.subrange(p, e2)))
            || exists|e: int|
            #![trigger b.subrange(p, e)]
            p < e <= b.len() && longest_at(b, p, e) && numeric_text(b.subrange(p, e))
                && numeric_literal_spec(b.subrange(p, e)) is None
    }
}


/// The first position at or after `q` that starts a character.
pub open spec fn char_end(b: Seq<u8>, q: int) -> int
    decreases b.len() - q,
{
    if q >= b.len() || starts_char(b, q) {
        q
    } else {
        char_end(b, q + 1)
    }
}

/// Where the text that cannot be read at `p` ends: after the `/*` of a
/// block comment that is never closed, after the whole of a numeric literal
/// whose value is invalid, and otherwise after the one character at `p`.
pub open spec fn lex_error_end(b: Seq<u8>, p: int) -> int {
    if p + 1 < b.len() && b[p] == 47u8 && b[p + 1] == 42u8 {
        p + 2
    } else if exists|e: int| #![trigger b.subrange(p, e)] p < e <= b.len() && longest_at(b, p, e) && numeric_text(b.subrange(p, e)) {
        choose|e: int| #![trigger b.subrange(p, e)] p < e <= b.len() && longest_at(b, p, e) && numeric_text(b.subrange(p, e))
    } else {
        char_end(b, p + 1)
    }
}

/// At most one longest numeric text starts at a position.
proof fn lemma_numeric_end_unique(b: Seq<u8>, p: int, e: int)
    requires
        p < e <= b.len(),
        longest_at(b, p, e),
        numeric_text(b.subrange(p, e)),
        !(p + 1 < b.len() && b[p] == 47u8 && b[p + 1] == 42u8),
    ensures
        lex_error_end(b, p) == e,
{
    let c = choose|e2: int| #![trigger b.subrange(p, e2)] p < e2 <= b.len() && longest_at(b, p, e2) && numeric_text(b.subrange(p, e2));
    assert(matches_pattern(b.subrange(p, e)));
    assert(matches_pattern(b.subrange(p, c)));
}

/// Where no token pattern matches at `p`, the unreadable text is one character.
proof fn lemma_no_match_end(b: Seq<u8>, p: int)
    requires
        0 <= p < b.len(),
        forall|e2: int| p < e2 <= b.len() ==> !#[trigger] matches_pattern(b.subrange(p, e2)),
        !(p + 1 < b.len() && b[p] == 47u8 && b[p + 1] == 42u8),
    ensures
        lex_error_end(b, p) == char_end(b, p + 1),
{
    assert forall|e: int| #![trigger b.subrange(p, e)] p < e <= b.len() && longest_at(b, p, e) implies !numeric_text(b.subrange(p, e)) by {
        assert(!matches_pattern(b.subrange(p, e)));
    }
}

// ---------------------------------------------------------------------------
// Facts about the patterns
// ---------------------------------------------------------------------------

/// A byte that begins some operator or delimiter.
pub open spec fn punct_first(c: u8) -> bool {
    c == 62u8 || c == 45u8 || c == 60u8 || c == 42u8 || c == 43u8 || c == 124u8 || c == 61u8
        || c == 33u8 || c == 46u8 || c == 47u8 || c == 37u8 || c == 38u8 || c == 94u8 || c == 126u8
        || c == 64u8 || c == 63u8 || c == 40u8 || c == 41u8 || c == 91u8 || c == 93u8 || c == 123u8
        || c == 125u8 || c == 58u8 || c == 44u8 || c == 95u8 || c == 92u8
}

proof fn lemma_punct_shape(t: Seq<u8>)
    requires
        punct_of(t) is Some,
    ensures
        1 <= t.len() <= 3,
        punct_first(t[0]),
        t[0] == 95u8 ==> t.len() == 1,
        t[0] == 47u8 ==> t.len() == 1,
{
    reveal(punct_of);
}

proof fn lemma_keyword_shape(t: Seq<u8>)
    requires
        keyword_of(t) is Some,
    ensures
        ident_text(t),
        97 <= t[0] <= 122,
{
    reveal(keyword_of);
    assert(t.len() >= 2);
    assert(all_in(t, 1, t.len() as int, 1));
}

proof fn lemma_first_tick_props(t: Seq<u8>)
    ensures
        first_tick(t) matches Some(k) ==> 0 <= k < t.len() && t[k] == 39u8 && forall|j: int|
            0 <= j < k ==> t[j] != 39u8,
    decreases t.len(),
{
    if t.len() > 0 && t[0] != 39u8 {
        lemma_first_tick_props(t.drop_first());
        if let Some(k) = first_tick(t) {
            assert forall|j: int| 0 <= j < k implies t[j] != 39u8 by {
                if j > 0 {
                    assert(t[j] == t.drop_first()[j - 1]);
                }
            }
        }
    }
}

proof fn lemma_first_tick_from(t: Seq<u8>, k: int)
    requires
        0 <= k < t.len(),
        t[k] == 39u8,
        forall|j: int| 0 <= j < k ==> t[j] != 39u8,
    ensures
        first_tick(t) == Some(k),
    decreases k,
{
    if k > 0 {
        lemma_first_tick_from(t.drop_first(), k - 1);
    }
}

/// The first byte of any pattern match.
proof fn lemma_pattern_first(t: Seq<u8>)
    requires
        matches_pattern(t),
    ensures
        t.len() >= 1,
        newline_text(t) || is_ident_start(t[0]) || punct_first(t[0]) || in_class(2, t[0]) || t[0]
            == 34u8 || t[0] == 47u8,
        !is_ws(t[0]),
        numeric_text(t) ==> in_class(2, t[0]),
{
    if punct_of(t) is Some {
        lemma_punct_shape(t);
    }
    if sized_text(t) {
        lemma_first_tick_props(t);
    }
}

/// In valid UTF-8, the byte after an ASCII byte starts a character.
proof fn lemma_after_ascii(b: Seq<u8>, k: int)
    requires
        valid_utf8(b),
        0 <= k < b.len(),
        b[k] < 128,
    ensures
        k + 1 < b.len() ==> !is_continuation_byte(b[k + 1]),
    decreases b.len(),
{
    let l = length_of_first_scalar(b);
    let p = pop_first_scalar(b);
    assert(valid_first_scalar(b));
    if k < l {
        if l == 1 {
            if k + 1 < b.len() {
                assert(p.len() > 0);
                assert(valid_utf8(p));
                assert(valid_first_scalar(p));
                assert(p[0] == b[1]);
            }
        }
    } else {
        assert(p.len() == b.len() - l);
        assert(p[k - l] == b[k]);
        lemma_after_ascii(p, k - l);
        if k + 1 < b.len() {
            assert(p[k - l + 1] == b[k + 1]);
        }
    }
}

/// In valid UTF-8, the first byte starts a character.
proof fn lemma_first_byte(b: Seq<u8>)
    requires
        valid_utf8(b),
        b.len() > 0,
    ensures
        !is_continuation_byte(b[0]),
{
    assert(valid_first_scalar(b));
}

/// Index `i` of `b` starts a character (or is the end).
pub open spec fn starts_char(b: Seq<u8>, i: int) -> bool {
    i == b.len() || (0 <= i < b.len() && !is_continuation_byte(b[i]))
}

// ---------------------------------------------------------------------------
// Scanning helpers
// ---------------------------------------------------------------------------

/// Does the byte belong to the class?
fn in_class_exec(class: u8, c: u8) -> (r: bool)
    ensures
        r == in_class(class, c),
{
    if class == 0 {
        c == 32u8 || c == 9u8
    } else if class == 1 {
        (97 <= c && c <= 122) || (65 <= c && c <= 90) || c == 95u8 || (48 <= c && c <= 57)
    } else if class == 2 {
        48 <= c && c <= 57
    } else if class == 3 {
        (48 <= c && c <= 57) || c == 95u8
    } else if class == 4 {
        (48 <= c && c <= 57) || (97 <= c && c <= 102) || (65 <= c && c <= 70) || c == 95u8
    } else if class == 5 {
        c == 48u8 || c == 49u8 || c == 95u8
    } else if class == 6 {
        (48 <= c && c <= 57) || (97 <= c && c <= 102) || (65 <= c && c <= 70) || c == 95u8
            || c == 63u8
    } else if class == 7 {
        c != 10u8
    } else {
        c != 34u8
    }
}

/// End of the longest run of bytes of the class that starts at `i`.
fn run_end(b: &[u8], i: usize, class: u8) -> (e: usize)
    requires
        i <= b@.len(),
    ensures
        i <= e <= b@.len(),
        all_in(b@, i as int, e as int, class),
        e < b@.len() ==> !in_class(class, b@[e as int]),
{
    let mut e = i;
    while e < b.len() && in_class_exec(class, b[e])
        invariant
            i <= e <= b@.len(),
            all_in(b@, i as int, e as int, class),
        decreases b@.len() - e,
    {
        e = e + 1;
    }
    e
}

/// A copy of `b[i..e]`.
fn copy_range(b: &[u8], i: usize, e: usize) -> (v: Vec<u8>)
    requires
        i <= e <= b@.len(),
    ensures
        v@ == b@.subrange(i as int, e as int),
{
    let mut v: Vec<u8> = Vec::new();
    let mut k = i;
    while k < e
        invariant
            i <= k <= e <= b@.len(),
            v@ =~= b@.subrange(i as int, k as int),
        decreases e - k,
    {
        v.push(b[k]);
        k = k + 1;
    }
    v
}

/// The end of the block comment whose body starts at `j`, as [`block_close`].
fn block_close_exec(b: &[u8], j: usize) -> (r: Option<usize>)
    requires
        j <= b@.len(),
    ensures
        match block_close(b@, j as int, 1) {
            Some(e) => r matches Some(x) && x == e,
            None => r is None,
        },
        r matches Some(e) ==> j + 2 <= e <= b@.len() && b@[e - 1] == 47u8,
{
    let mut k = j;
    let mut depth: usize = 1;
    while k < b.len()
        invariant
            j <= k <= b@.len(),
            1 <= depth <= k - j + 1,
            block_close(b@, j as int, 1) == block_close(b@, k as int, depth as nat),
        decreases b@.len() - k,
    {
        if k + 1 < b.len() && b[k] == 47u8 && b[k + 1] == 42u8 {
            depth = depth + 1;
            k = k + 2;
        } else if k + 1 < b.len() && b[k] == 42u8 && b[k + 1] == 47u8 {
            if depth <= 1 {
                return Some(k + 2);
            }
            depth = depth - 1;
            k = k + 2;
        } else {
            k = k + 1;
        }
    }
    None
}

// ---------------------------------------------------------------------------
// Reading one token
// ---------------------------------------------------------------------------

/// Read an identifier, keyword or `_` at `i`.
fn scan_ident(b: &[u8], i: usize) -> (r: (Token, usize))
    requires
        i < b@.len(),
        is_ident_start(b@[i as int]),
        valid_utf8(b@),
    ensures
        token_spec(b@, i as int, r.1 as int, r.0),
        starts_char(b@, r.1 as int),
{
    let n = b.len();
    let e = run_end(b, i + 1, 1);
    let ghost t = b@.subrange(i as int, e as int);
    assert(b@[e - 1] < 128) by {
        if e - 1 > i {
            assert(in_class(1, b@[e - 1]));
        }
    }
    assert(ident_text(t)) by {
        assert forall|j: int| 1 <= j < t.len() implies #[trigger] in_class(1, t[j]) by {
            assert(t[j] == b@[i + j]);
        }
    }
    assert(longest_at(b@, i as int, e as int)) by {
        assert forall|e2: int| e < e2 <= b@.len() implies !#[trigger] matches_pattern(
            b@.subrange(i as int, e2),
        ) by {
            let t2 = b@.subrange(i as int, e2);
            assert(t2[0] == b@[i as int]);
            assert(t2[e - i] == b@[e as int]);
            if punct_of(t2) is Some {
                lemma_punct_shape(t2);
            }
            if sized_text(t2) {
                lemma_first_tick_props(t2);
                assert(in_class(2, t2[0]));
            }
            if ident_text(t2) {
                assert(in_class(1, t2[e - i]));
            }
        }
    }
    proof {
        lemma_after_ascii(b@, e - 1);
    }
    let kw = keyword_token(b, i, e);
    match kw {
        Some(k) => {
            proof {
                lemma_keyword_shape(t);
                reveal(keyword_of);
            }
            (k, e)
        },
        None => {
            if e - i == 1 && b[i] == 95u8 {
                proof {
                    assert(t =~= seq![95u8]);
                    reveal(punct_of);
                }
                (Token::Underscore, e)
            } else {
                proof {
                    if t == seq![95u8] {
                        assert(t[0] == 95u8);
                    }
                }
                (Token::Ident, e)
            }
        },
    }
}

proof fn lemma_digit_pattern(t: Seq<u8>)
    requires
        matches_pattern(t),
        t.len() >= 1,
        in_class(2, t[0]),
    ensures
        numeric_text(t),
{
    lemma_pattern_first(t);
    if punct_of(t) is Some {
        lemma_punct_shape(t);
    }
    if line_text(t) {
    }
}

/// `b[i..]` starts with `0x` or `0X`.
pub open spec fn hex_start(bs: Seq<u8>, i: int) -> bool {
    bs[i] == 48u8 && i + 1 < bs.len() && (bs[i + 1] == 120u8 || bs[i + 1] == 88u8)
}

/// `b[i..]` starts with `0b` or `0B`.
pub open spec fn bin_start(bs: Seq<u8>, i: int) -> bool {
    bs[i] == 48u8 && i + 1 < bs.len() && (bs[i + 1] == 98u8 || bs[i + 1] == 66u8)
}

/// `b[d..]` starts with `'` and a base letter.
pub open spec fn sized_start(bs: Seq<u8>, d: int) -> bool {
    d + 1 < bs.len() && bs[d] == 39u8 && sized_base(bs[d + 1]) is Some
}

/// `e` is where the longest run of the class that starts at `s` ends.
pub open spec fn run_to(bs: Seq<u8>, s: int, e: int, class: u8) -> bool {
    s <= e <= bs.len() && all_in(bs, s, e, class) && (e < bs.len() ==> !in_class(class, bs[e]))
}

/// The runs that bound the numeric literal patterns starting at digit `i`:
/// `dec_e` ends `[0-9][0-9_]*`, `d` ends the leading digits, and `hx`, `bx`
/// and `se` end the digit runs after `0x`, `0b` and `N'<base>` (0 when
/// that prefix is absent).
pub open spec fn number_runs(bs: Seq<u8>, i: int, dec_e: int, hx: int, bx: int, d: int, se: int) -> bool {
    &&& 0 <= i < bs.len() && in_class(2, bs[i])
    &&& run_to(bs, i + 1, dec_e, 3)
    &&& run_to(bs, i, d, 2)
    &&& if hex_start(bs, i) { run_to(bs, i + 2, hx, 4) } else { hx == 0 }
    &&& if bin_start(bs, i) { run_to(bs, i + 2, bx, 5) } else { bx == 0 }
    &&& if sized_start(bs, d) { run_to(bs, d + 2, se, 6) } else { se == 0 }
}

/// The end of the longest numeric literal match.
pub open spec fn number_end(i: int, dec_e: int, hx: int, bx: int, d: int, se: int) -> int {
    if se > d + 2 {
        se
    } else if hx > i + 2 {
        hx
    } else if bx > i + 2 {
        bx
    } else {
        dec_e
    }
}

proof fn lemma_dec_bound(bs: Seq<u8>, i: int, dec_e: int, e2: int)
    requires
        0 <= i < e2 <= bs.len(),
        run_to(bs, i + 1, dec_e, 3),
        dec_text(bs.subrange(i, e2)),
    ensures
        e2 <= dec_e,
{
    let t = bs.subrange(i, e2);
    if e2 > dec_e {
        assert(t[dec_e - i] == bs[dec_e]);
        assert(in_class(3, t[dec_e - i]));
    }
}

proof fn lemma_hex_bound(bs: Seq<u8>, i: int, hx: int, e2: int)
    requires
        0 <= i < e2 <= bs.len(),
        hex_start(bs, i) ==> run_to(bs, i + 2, hx, 4),
        hex_text(bs.subrange(i, e2)),
    ensures
        hex_start(bs, i),
        i + 3 <= e2 <= hx,
{
    let t = bs.subrange(i, e2);
    assert(t[0] == bs[i] && t[1] == bs[i + 1]);
    if e2 > hx {
        assert(t[hx - i] == bs[hx]);
        assert(in_class(4, t[hx - i]));
    }
}

proof fn lemma_bin_bound(bs: Seq<u8>, i: int, bx: int, e2: int)
    requires
        0 <= i < e2 <= bs.len(),
        bin_start(bs, i) ==> run_to(bs, i + 2, bx, 5),
        bin_text(bs.subrange(i, e2)),
    ensures
        bin_start(bs, i),
        i + 3 <= e2 <= bx,
{
    let t = bs.subrange(i, e2);
    assert(t[0] == bs[i] && t[1] == bs[i + 1]);
    if e2 > bx {
        assert(t[bx - i] == bs[bx]);
        assert(in_class(5, t[bx - i]));
    }
}

proof fn lemma_sized_bound(bs: Seq<u8>, i: int, d: int, se: int, e2: int)
    requires
        0 <= i < e2 <= bs.len(),
        run_to(bs, i, d, 2),
        sized_start(bs, d) ==> run_to(bs, d + 2, se, 6),
        sized_text(bs.subrange(i, e2)),
    ensures
        sized_start(bs, d),
        d + 3 <= e2 <= se,
{
    let t = bs.subrange(i, e2);
    lemma_first_tick_props(t);
    let k = first_tick(t).unwrap();
    if d < i + k {
        assert(t[d - i] == bs[d]);
        assert(in_class(2, t[d - i]));
    }
    if d > i + k {
        assert(in_class(2, bs[i + k]));
        assert(t[k] == bs[i + k]);
    }
    assert(t[k] == bs[d]);
    assert(t[k + 1] == bs[d + 1]);
    if e2 > se {
        assert(t[se - i] == bs[se]);
        assert(in_class(6, t[se - i]));
    }
}

/// The text that ends at [`number_end`] is a numeric literal.
proof fn lemma_number_text(bs: Seq<u8>, i: int, dec_e: int, hx: int, bx: int, d: int, se: int)
    requires
        number_runs(bs, i, dec_e, hx, bx, d, se),
    ensures
        i < number_end(i, dec_e, hx, bx, d, se) <= bs.len(),
        numeric_text(bs.subrange(i, number_end(i, dec_e, hx, bx, d, se))),
        bs[number_end(i, dec_e, hx, bx, d, se) - 1] < 128,
{
    let e = number_end(i, dec_e, hx, bx, d, se);
    let t = bs.subrange(i, e);
    assert(t[e - 1 - i] == bs[e - 1]);
    if se > d + 2 {
        assert(sized_start(bs, d));
        assert forall|j: int| 0 <= j < d - i implies #[trigger] in_class(2, t[j]) by {
            assert(t[j] == bs[i + j]);
        }
        assert forall|j: int| 0 <= j < d - i implies t[j] != 39u8 by {
            assert(in_class(2, t[j]));
        }
        lemma_first_tick_from(t, d - i);
        assert(t[d - i + 1] == bs[d + 1]);
        assert forall|j: int| d - i + 2 <= j < t.len() implies #[trigger] in_class(6, t[j]) by {
            assert(t[j] == bs[i + j]);
        }
        assert(sized_text(t));
        assert(in_class(6, t[e - 1 - i]));
    } else if hx > i + 2 {
        assert(hex_start(bs, i));
        assert forall|j: int| 2 <= j < t.len() implies #[trigger] in_class(4, t[j]) by {
            assert(t[j] == bs[i + j]);
        }
        assert(hex_text(t));
        assert(in_class(4, t[e - 1 - i]));
    } else if bx > i + 2 {
        assert(bin_start(bs, i));
        assert forall|j: int| 2 <= j < t.len() implies #[trigger] in_class(5, t[j]) by {
            assert(t[j] == bs[i + j]);
        }
        assert(bin_text(t));
        assert(in_class(5, t[e - 1 - i]));
    } else {
        assert forall|j: int| 1 <= j < t.len() implies #[trigger] in_class(3, t[j]) by {
            assert(t[j] == bs[i + j]);
        }
        assert(dec_text(t));
        if e - 1 > i {
            assert(in_class(3, t[e - 1 - i]));
        }
    }
}

/// No numeric literal that starts at `i` ends after [`number_end`].
proof fn lemma_number_longest(bs: Seq<u8>, i: int, dec_e: int, hx: int, bx: int, d: int, se: int)
    requires
        number_runs(bs, i, dec_e, hx, bx, d, se),
    ensures
        longest_at(bs, i, number_end(i, dec_e, hx, bx, d, se)),
{
    let e = number_end(i, dec_e, hx, bx, d, se);
    // Which prefixes exclude which.
    if hex_start(bs, i) || bin_start(bs, i) {
        assert(!in_class(2, bs[i + 1]));
        assert(!in_class(3, bs[i + 1]));
        if d > i + 1 {
            assert(in_class(2, bs[i + 1]));
        }
        assert(d == i + 1);
        assert(!sized_start(bs, d));
        if dec_e > i + 1 {
            assert(in_class(3, bs[i + 1]));
        }
    }
    if sized_start(bs, d) {
        if dec_e > d {
            assert(in_class(3, bs[d]));
        }
        if dec_e < d {
            assert(in_class(2, bs[dec_e]));
        }
    }
    assert forall|e2: int| e < e2 <= bs.len() implies !#[trigger] matches_pattern(
        bs.subrange(i, e2),
    ) by {
        let t2 = bs.subrange(i, e2);
        if matches_pattern(t2) {
            assert(t2[0] == bs[i]);
            lemma_digit_pattern(t2);
            if dec_text(t2) {
                lemma_dec_bound(bs, i, dec_e, e2);
            } else if hex_text(t2) {
                lemma_hex_bound(bs, i, hx, e2);
            } else if bin_text(t2) {
                lemma_bin_bound(bs, i, bx, e2);
            } else {
                lemma_sized_bound(bs, i, d, se, e2);
            }
        }
    }
}

/// Read a numeric literal at `i`; `Err` carries the end of a literal whose
/// value is invalid.
fn scan_number(b: &[u8], i: usize) -> (r: Result<(Token, usize), usize>)
    requires
        i < b@.len(),
        in_class(2, b@[i as int]),
        valid_utf8(b@),
    ensures
        r matches Ok((tok, e)) ==> token_spec(b@, i as int, e as int, tok) && starts_char(b@, e as int),
        r matches Err(e) ==> no_token_at(b@, i as int) && i < e <= b@.len() && starts_char(b@, e as int)
            && e == lex_error_end(b@, i as int),
{
    let n = b.len();
    let dec_e = run_end(b, i + 1, 3);
    let mut hx: usize = 0;
    let mut bx: usize = 0;
    if b[i] == 48u8 && i + 1 < n && (b[i + 1] == 120u8 || b[i + 1] == 88u8) {
        hx = run_end(b, i + 2, 4);
    }
    if b[i] == 48u8 && i + 1 < n && (b[i + 1] == 98u8 || b[i + 1] == 66u8) {
        bx = run_end(b, i + 2, 5);
    }
    let d = run_end(b, i, 2);
    let mut se: usize = 0;
    if d < n && d + 1 < n && b[d] == 39u8 {
        let c = b[d + 1];
        if c == 98u8 || c == 66u8 || c == 104u8 || c == 72u8 || c == 100u8 || c == 68u8 {
            se = run_end(b, d + 2, 6);
        }
    }
    let e = if se > d && se - d > 2 {
        se
    } else if hx > i && hx - i > 2 {
        hx
    } else if bx > i && bx - i > 2 {
        bx
    } else {
        dec_e
    };
    proof {
        let ghost (ii, de, h, bb, dd, s) = (i as int, dec_e as int, hx as int, bx as int, d as int, se as int);
        assert(number_runs(b@, ii, de, h, bb, dd, s));
        lemma_number_text(b@, ii, de, h, bb, dd, s);
        lemma_number_longest(b@, ii, de, h, bb, dd, s);
        lemma_after_ascii(b@, e - 1);
    }
    let v = copy_range(b, i, e);
    match parse_numeric_bytes(v.as_slice()) {
        Some(lit) => Ok((Token::Numeric(lit), e)),
        None => {
            proof {
                lemma_numeric_end_unique(b@, i as int, e as int);
            }
            Err(e)
        },
    }
}


// ---------------------------------------------------------------------------
// The remaining token kinds
// ---------------------------------------------------------------------------

/// A pattern match that starts with none of the bytes that begin a pattern.
proof fn lemma_no_pattern_from(t: Seq<u8>)
    requires
        t.len() >= 1,
        t[0] != 10u8 && t[0] != 13u8,
        !is_ident_start(t[0]),
        !punct_first(t[0]),
        !in_class(2, t[0]),
        t[0] != 34u8,
        t[0] != 47u8,
    ensures
        !matches_pattern(t),
{
    if matches_pattern(t) {
        lemma_pattern_first(t);
    }
}

/// A match that starts with an operator byte other than `/` and `_` is an operator.
proof fn lemma_punct_pattern(t: Seq<u8>)
    requires
        matches_pattern(t),
        punct_first(t[0]),
        t[0] != 47u8,
        t[0] != 95u8,
    ensures
        punct_of(t) is Some,
        t.len() <= 3,
{
    lemma_pattern_first(t);
    if punct_of(t) is Some {
        lemma_punct_shape(t);
    }
}

fn is_ident_start_exec(c: u8) -> (r: bool)
    ensures
        r == is_ident_start(c),
{
    (97 <= c && c <= 122) || (65 <= c && c <= 90) || c == 95u8
}

fn punct_first_exec(c: u8) -> (r: bool)
    ensures
        r == punct_first(c),
{
    c == 62u8 || c == 45u8 || c == 60u8 || c == 42u8 || c == 43u8 || c == 124u8 || c == 61u8
        || c == 33u8 || c == 46u8 || c == 47u8 || c == 37u8 || c == 38u8 || c == 94u8 || c
        == 126u8 || c == 64u8 || c == 63u8 || c == 40u8 || c == 41u8 || c == 91u8 || c == 93u8
        || c == 123u8 || c == 125u8 || c == 58u8 || c == 44u8 || c == 95u8 || c == 92u8
}

/// Read an operator or delimiter at `i` (whose byte is neither `/` nor `_`):
/// the longest of three, two or one bytes that spells one.
fn scan_punct(b: &[u8], i: usize) -> (r: Option<(Token, usize)>)
    requires
        i < b@.len(),
        punct_first(b@[i as int]),
        b@[i as int] != 47u8,
        b@[i as int] != 95u8,
        valid_utf8(b@),
    ensures
        r matches Some((tok, e)) ==> token_spec(b@, i as int, e as int, tok) && starts_char(
            b@,
            e as int,
        ),
        r is None ==> no_token_at(b@, i as int),
{
    let n = b.len();
    let ghost bs = b@;
    assert forall|e2: int| i + 3 < e2 <= bs.len() implies !#[trigger] matches_pattern(
        bs.subrange(i as int, e2),
    ) by {
        let t2 = bs.subrange(i as int, e2);
        assert(t2[0] == bs[i as int]);
        if matches_pattern(t2) {
            lemma_punct_pattern(t2);
        }
    }
    let mut len: usize = 3;
    while len > 0
        invariant
            0 <= len <= 3,
            n == bs.len(),
            bs == b@,
            i < n,
            punct_first(bs[i as int]),
            bs[i as int] != 47u8,
            bs[i as int] != 95u8,
            valid_utf8(bs),
            forall|e2: int| i + len < e2 <= bs.len() ==> !#[trigger] matches_pattern(
                bs.subrange(i as int, e2),
            ),
        decreases len,
    {
        if len <= n - i {
            let e = i + len;
            if let Some(tok) = punct_token(b, i, e) {
                proof {
                    let t = bs.subrange(i as int, e as int);
                    assert(t[0] == bs[i as int]);
                    lemma_punct_shape(t);
                    reveal(punct_of);
                    assert(bs[e - 1] < 128) by {
                        assert(t[e - 1 - i] == bs[e - 1]);
                        reveal(punct_of);
                    }
                    lemma_after_ascii(bs, e - 1);
                }
                return Some((tok, e));
            }
            proof {
                let t = bs.subrange(i as int, e as int);
                assert(t[0] == bs[i as int]);
                if matches_pattern(t) {
                    lemma_punct_pattern(t);
                }
            }
        }
        len = len - 1;
    }
    None
}

/// Read a string literal at `i` (a `"`); `None` when it is never closed.
fn scan_string(source: &str, b: &[u8], i: usize) -> (r: Option<(Token, usize)>)
    requires
        b@ == source.spec_bytes(),
        i < b@.len(),
        b@[i as int] == 34u8,
    ensures
        r matches Some((tok, e)) ==> token_spec(b@, i as int, e as int, tok) && starts_char(
            b@,
            e as int,
        ),
        r is None ==> no_token_at(b@, i as int),
{
    let ghost bs = b@;
    let n = b.len();
    let q = run_end(b, i + 1, 8);
    assert forall|e2: int| i < e2 <= bs.len() && matches_pattern(bs.subrange(i as int, e2))
        implies string_text(bs.subrange(i as int, e2)) && e2 == q + 1 by {
        let t2 = bs.subrange(i as int, e2);
        assert(t2[0] == bs[i as int]);
        lemma_pattern_first(t2);
        if punct_of(t2) is Some {
            lemma_punct_shape(t2);
        }
        if sized_text(t2) {
            lemma_first_tick_props(t2);
        }
        assert(string_text(t2));
        assert(t2[e2 - 1 - i] == bs[e2 - 1]);
        if e2 - 1 < q {
            assert(in_class(8, bs[e2 - 1]));
        }
        if e2 - 1 > q {
            assert(t2[q - i] == bs[q as int]);
            assert(in_class(8, t2[q - i]));
        }
    }
    if q == n {
        return None;
    }
    let e = q + 1;
    proof {
        let t = bs.subrange(i as int, e as int);
        assert(t[0] == bs[i as int]);
        assert(t[e - 1 - i] == bs[q as int]);
        assert forall|j: int| 1 <= j < t.len() - 1 implies #[trigger] in_class(8, t[j]) by {
            assert(t[j] == bs[i + j]);
        }
        assert(string_text(t));
        lemma_after_ascii(bs, q as int);
        lemma_after_ascii(bs, i as int);
        lemma_boundary(bs, i + 1);
    }
    let (_, rest) = source.split_at(i + 1);
    proof {
        assert(rest.spec_bytes() == bs.subrange(i + 1, bs.len() as int));
        assert(rest.spec_bytes()[q - i - 1] == bs[q as int]);
        lemma_boundary(rest.spec_bytes(), (q - i - 1) as int);
    }
    let (body, _) = rest.split_at(q - i - 1);
    proof {
        assert(body.spec_bytes() == bs.subrange(i + 1, q as int));
        assert(bs.subrange(i as int, e as int).subrange(1, (e - i - 1) as int) == bs.subrange(
            i + 1,
            q as int,
        ));
    }
    let s = body.to_owned();
    Some((Token::StringLit(s), e))
}

/// The token read at `i`, which holds no space or tab; `Err` carries the end
/// of the text that could not be read.
fn scan_token(source: &str, b: &[u8], i: usize) -> (r: Result<(Token, usize), usize>)
    requires
        b@ == source.spec_bytes(),
        i < b@.len(),
        !is_ws(b@[i as int]),
        starts_char(b@, i as int),
    ensures
        r matches Ok((tok, e)) ==> token_spec(b@, i as int, e as int, tok) && starts_char(
            b@,
            e as int,
        ),
        r matches Err(e) ==> no_token_at(b@, i as int) && i < e <= b@.len() && starts_char(
            b@,
            e as int,
        ) && e == lex_error_end(b@, i as int),
{
    let ghost bs = b@;
    let n = b.len();
    let c = b[i];
    if c == 10u8 || c == 13u8 {
        proof {
            let t = bs.subrange(i as int, i + 1);
            assert(t[0] == c);
            assert forall|e2: int| i + 1 < e2 <= bs.len() implies !#[trigger] matches_pattern(
                bs.subrange(i as int, e2),
            ) by {
                let t2 = bs.subrange(i as int, e2);
                assert(t2[0] == c);
                if matches_pattern(t2) {
                    lemma_pattern_first(t2);
                    if punct_of(t2) is Some {
                        lemma_punct_shape(t2);
                    }
                }
            }
            lemma_after_ascii(bs, i as int);
        }
        Ok((Token::Newline, i + 1))
    } else if is_ident_start_exec(c) {
        Ok(scan_ident(b, i))
    } else if in_class_exec(2, c) {
        scan_number(b, i)
    } else if c == 34u8 {
        match scan_string(source, b, i) {
            Some(p) => Ok(p),
            None => {
                proof {
                    lemma_after_ascii(bs, i as int);
                    lemma_no_match_end(bs, i as int);
                }
                Err(i + 1)
            },
        }
    } else if c == 47u8 && i + 1 < n && b[i + 1] == 42u8 {
        proof {
            lemma_after_ascii(bs, i + 1);
        }
        match block_close_exec(b, i + 2) {
            Some(e) => {
                proof {
                    lemma_after_ascii(bs, e - 1);
                }
                Ok((Token::BlockComment, e))
            },
            None => Err(i + 2),
        }
    } else if c == 47u8 && i + 1 < n && b[i + 1] == 47u8 {
        let e = run_end(b, i, 7);
        proof {
            let t = bs.subrange(i as int, e as int);
            assert(t[0] == bs[i as int] && t[1] == bs[i + 1]);
            assert forall|j: int| 0 <= j < t.len() implies #[trigger] in_class(7, t[j]) by {
                assert(t[j] == bs[i + j]);
            }
            assert(line_text(t));
            assert forall|e2: int| e < e2 <= bs.len() implies !#[trigger] matches_pattern(
                bs.subrange(i as int, e2),
            ) by {
                let t2 = bs.subrange(i as int, e2);
                assert(t2[0] == bs[i as int] && t2[1] == bs[i + 1]);
                if punct_of(t2) is Some {
                    lemma_punct_shape(t2);
                }
                if sized_text(t2) {
                    lemma_first_tick_props(t2);
                }
                assert(t2[e - i] == bs[e as int]);
                assert(!in_class(7, t2[e - i]));
                assert(!line_text(t2));
                assert(!ident_text(t2));
            }
            if i + 2 < e {
                assert(t[2] == bs[i + 2]);
            }
        }
        if i + 2 < e && b[i + 2] == 47u8 {
            Ok((Token::DocComment, e))
        } else {
            Ok((Token::LineComment, e))
        }
    } else if c == 47u8 {
        proof {
            let t = bs.subrange(i as int, i + 1);
            assert(t =~= seq![47u8]);
            reveal(punct_of);
            assert forall|e2: int| i + 1 < e2 <= bs.len() implies !#[trigger] matches_pattern(
                bs.subrange(i as int, e2),
            ) by {
                let t2 = bs.subrange(i as int, e2);
                assert(t2[0] == bs[i as int] && t2[1] == bs[i + 1]);
                if punct_of(t2) is Some {
                    lemma_punct_shape(t2);
                }
                if sized_text(t2) {
                    lemma_first_tick_props(t2);
                }
                assert(!line_text(t2));
                assert(!ident_text(t2));
            }
            lemma_after_ascii(bs, i as int);
        }
        Ok((Token::Slash, i + 1))
    } else if punct_first_exec(c) {
        match scan_punct(b, i) {
            Some(p) => Ok(p),
            None => {
                proof {
                    lemma_after_ascii(bs, i as int);
                    lemma_no_match_end(bs, i as int);
                }
                Err(i + 1)
            },
        }
    } else {
        proof {
            assert forall|e2: int| i < e2 <= bs.len() implies !#[trigger] matches_pattern(
                bs.subrange(i as int, e2),
            ) by {
                let t2 = bs.subrange(i as int, e2);
                assert(t2[0] == c);
                lemma_no_pattern_from(t2);
            }
        }
        proof {
            lemma_no_match_end(bs, i as int);
        }
        let mut q = i + 1;
        while q < n && b[q] >= 128u8 && b[q] < 192u8
            invariant
                i < q <= n,
                n == bs.len(),
                bs == b@,
                char_end(bs, q as int) == char_end(bs, i + 1),
            decreases n - q,
        {
            q = q + 1;
        }
        Err(q)
    }
}

// ---------------------------------------------------------------------------
// The lexer
// ---------------------------------------------------------------------------

/// A failure to read a token.
#[derive(Debug, Clone)]
pub struct LexError {
    pub message: String,
    pub span: Span,
}

/// The message for text that no token matches; `quoted` is the text as
/// `{:?}` writes it.
pub fn unexpected_character_message(quoted: &str) -> (r: String)
    ensures
        r@ == "unexpected character: "@ + quoted@,
{
    crate::text::concat("unexpected character: ", quoted)
}

/// The text `lex error at S..E: MESSAGE`.
pub open spec fn lex_error_text(start: nat, end: nat, message: Seq<char>) -> Seq<char> {
    "lex error at "@ + decimal_text(start) + ".."@ + decimal_text(end) + ": "@ + message
}

impl LexError {
    /// The error as text: `lex error at S..E: MESSAGE`.
    pub fn to_string(&self) -> (r: String)
        ensures
            r@ == lex_error_text(self.span.start as nat, self.span.end as nat, self.message@),
    {
        let s = crate::text::concat("lex error at ", crate::text::decimal(self.span.start as u128).as_str());
        let s = crate::text::concat(s.as_str(), "..");
        let s = crate::text::concat(s.as_str(), crate::text::decimal(self.span.end as u128).as_str());
        let s = crate::text::concat(s.as_str(), ": ");
        crate::text::concat(s.as_str(), self.message.as_str())
    }
}

/// `s` starts a character of the valid UTF-8 text `b`, so it is a boundary.
proof fn lemma_boundary(b: Seq<u8>, s: int)
    requires
        valid_utf8(b),
        starts_char(b, s),
    ensures
        is_char_boundary(b, s),
{
    if s == b.len() {
        is_char_boundary_start_end_of_seq(b);
    } else {
        is_char_boundary_iff_not_is_continuation_byte(b, s);
    }
}

/// The text of `source` between the byte offsets `s` and `e`.
pub fn text_between(source: &str, s: usize, e: usize) -> (r: &str)
    requires
        s <= e <= source.spec_bytes().len(),
        starts_char(source.spec_bytes(), s as int),
        starts_char(source.spec_bytes(), e as int),
    ensures
        r.spec_bytes() == source.spec_bytes().subrange(s as int, e as int),
        r@ == decode_utf8(source.spec_bytes().subrange(s as int, e as int)),
{
    let ghost bs = source.spec_bytes();
    proof {
        lemma_boundary(bs, s as int);
    }
    let (_, rest) = source.split_at(s);
    proof {
        let rb = rest.spec_bytes();
        assert(rb == bs.subrange(s as int, bs.len() as int));
        if e < bs.len() {
            assert(rb[e - s] == bs[e as int]);
        }
        lemma_boundary(rb, e - s);
    }
    let (mid, _) = rest.split_at(e - s);
    proof {
        assert(mid.spec_bytes() == bs.subrange(s as int, e as int));
        encode_utf8_decode_utf8(mid@);
    }
    mid
}

/// `toks` is the token sequence of all of `b` except for the text from `s`
/// on, where no token can be read.
pub open spec fn lex_fails_at(b: Seq<u8>, s: int) -> bool {
    exists|toks: Seq<Spanned<Token>>| #[trigger] tokenization(b, toks, s) && no_token_at(b, s)
}

/// Split `source` into tokens: at each position, after spaces and tabs,
/// the longest text that a token pattern matches (keywords before
/// identifiers, `///` before `//`); `\n` and `\r` are each a `Newline`.
pub fn lex(source: &str) -> (r: Result<Vec<Spanned<Token>>, LexError>)
    requires
        source.spec_bytes().len() <= u32::MAX,
    ensures
        r matches Ok(toks) ==> tokenization(
            source.spec_bytes(),
            toks@,
            source.spec_bytes().len() as int,
        ) && forall|k: int| 0 <= k < toks@.len() ==> crate::parser::span_fits(source.spec_bytes(), #[trigger] toks@[k].span),
        r matches Err(e) ==> {
            &&& lex_fails_at(source.spec_bytes(), e.span.start as int)
            &&& e.span.start < e.span.end <= source.spec_bytes().len()
            &&& e.span.end == lex_error_end(source.spec_bytes(), e.span.start as int)
            &&& e.message@ == "unexpected character: "@ + debug_text(
                decode_utf8(source.spec_bytes().subrange(e.span.start as int, e.span.end as int)),
            )
        },
{
    let b = source.as_bytes();
    let ghost bs = b@;
    let n = b.len();
    let mut toks: Vec<Spanned<Token>> = Vec::new();
    let mut i: usize = 0;
    proof {
        lemma_first_byte_or_empty(bs);
    }
    while i < n
        invariant
            bs == b@,
            bs == source.spec_bytes(),
            n == bs.len(),
            n <= u32::MAX,
            i <= n,
            valid_utf8(bs),
            tokenization(bs, toks@, i as int),
            starts_char(bs, i as int),
            forall|k: int| 0 <= k < toks@.len() ==> crate::parser::span_fits(bs, #[trigger] toks@[k].span),
        decreases n - i,
    {
        let j = run_end(b, i, 0);
        proof {
            assert forall|k: int| prev_end(toks@, toks@.len() as int) <= k < j implies #[trigger] in_class(0, bs[k]) by {
                if k >= i {
                } else {
                }
            }
            if j > i {
                assert(in_class(0, bs[j - 1]));
                lemma_after_ascii(bs, j - 1);
            }
        }
        if j == n {
            i = j;
        } else {
            match scan_token(source, b, j) {
                Ok((tok, e)) => {
                    let ghost old_toks = toks@;
                    toks.push(Spanned { node: tok, span: Span { start: j as u32, end: e as u32 } });
                    proof {
                        assert(toks@.subrange(0, old_toks.len() as int) =~= old_toks);
                        lemma_tokenization_push(bs, old_toks, toks@, j as int, e as int);
                        assert forall|k: int| 0 <= k < toks@.len() implies crate::parser::span_fits(bs, #[trigger] toks@[k].span) by {
                            if k < old_toks.len() {
                                assert(toks@[k] == old_toks[k]);
                            }
                        }
                    }
                    i = e;
                },
                Err(q) => {
                    let text = text_between(source, j, q);
                    let quoted = crate::text::debug_quote(text);
                    let message = unexpected_character_message(quoted.as_str());
                    proof {
                        assert(tokenization(bs, toks@, j as int));
                    }
                    return Err(LexError { message, span: Span { start: j as u32, end: q as u32 } });
                },
            }
        }
    }
    Ok(toks)
}

/// The start of a valid UTF-8 text starts a character.
proof fn lemma_first_byte_or_empty(b: Seq<u8>)
    requires
        valid_utf8(b),
    ensures
        starts_char(b, 0),
{
    if b.len() > 0 {
        lemma_first_byte(b);
    }
}

/// Appending the token read at `j` extends a tokenization that reaches `j`.
proof fn lemma_tokenization_push(
    b: Seq<u8>,
    toks: Seq<Spanned<Token>>,
    toks2: Seq<Spanned<Token>>,
    j: int,
    e: int,
)
    requires
        tokenization(b, toks, j),
        toks2.len() == toks.len() + 1,
        toks2.subrange(0, toks.len() as int) == toks,
        toks2[toks.len() as int].span.start == j,
        toks2[toks.len() as int].span.end == e,
        token_spec(b, j, e, toks2[toks.len() as int].node),
    ensures
        tokenization(b, toks2, e),
{
    assert forall|k: int| 0 <= k < toks2.len() implies prev_end(toks2, k) <= (#[trigger] toks2[k]).span.start
        && token_spec(b, toks2[k].span.start as int, toks2[k].span.end as int, toks2[k].node)
        && all_in(b, prev_end(toks2, k), toks2[k].span.start as int, 0) by {
        if k < toks.len() {
            assert(toks2[k] == toks[k]);
            if k > 0 {
                assert(toks2[k - 1] == toks[k - 1]);
            }
        } else {
            if k > 0 {
                assert(toks2[k - 1] == toks[k - 1]);
            }
        }
    }
}

// ---------------------------------------------------------------------------
// The tokenization is unique
// ---------------------------------------------------------------------------

/// The same token at the same span; a string literal's text is compared by
/// its characters.
pub open spec fn same_token(a: Spanned<Token>, b: Spanned<Token>) -> bool {
    &&& a.span == b.span
    &&& match a.node {
        Token::StringLit(x) => b.node matches Token::StringLit(y) && x@ == y@,
        _ => a.node == b.node,
    }
}

/// Two token sequences that agree token for token, as [`same_token`] says.
pub open spec fn same_tokens(a: Seq<Spanned<Token>>, b: Seq<Spanned<Token>>) -> bool {
    a.len() == b.len() && forall|i: int| 0 <= i < a.len() ==> #[trigger] same_token(a[i], b[i])
}

/// A token that a text matches is one that some pattern matches.
proof fn lemma_token_pattern(t: Seq<u8>, tok: Token)
    requires
        token_matches(t, tok),
    ensures
        matches_pattern(t),
{
    if keyword_of(t) == Some(tok) {
        lemma_keyword_shape(t);
    }
}

/// One text is read as one token (a string literal's text up to its characters).
proof fn lemma_token_of_text(t: Seq<u8>, a: Token, b: Token)
    requires
        token_matches(t, a),
        token_matches(t, b),
    ensures
        same_token(Spanned { node: a, span: Span { start: 0, end: 0 } }, Spanned { node: b, span: Span { start: 0, end: 0 } }),
{
    lemma_token_pattern(t, a);
    lemma_pattern_first(t);
    if keyword_of(t) is Some {
        lemma_keyword_shape(t);
    }
    if punct_of(t) is Some {
        lemma_punct_shape(t);
    }
    if sized_text(t) {
        lemma_first_tick_props(t);
    }
    if t.len() == 1 && t[0] == 95u8 {
        assert(t =~= seq![95u8]);
    }
    match (a, b) {
        (Token::StringLit(x), Token::StringLit(y)) => {
            encode_utf8_decode_utf8(x@);
            encode_utf8_decode_utf8(y@);
        },
        (Token::Numeric(x), Token::Numeric(y)) => {},
        (Token::StringLit(x), _) => {},
        (_, Token::StringLit(y)) => {},
        (Token::Numeric(x), _) => {},
        (_, Token::Numeric(y)) => {},
        (Token::Ident, _) => {},
        (_, Token::Ident) => {},
        (Token::Newline, _) => {},
        (_, Token::Newline) => {},
        (Token::DocComment, _) => {},
        (_, Token::DocComment) => {},
        (Token::LineComment, _) => {},
        (_, Token::LineComment) => {},
        _ => {},
    }
}

/// A token read at `s` starts with a byte that is not a space or a tab.
proof fn lemma_token_start(b: Seq<u8>, s: int, e: int, tok: Token)
    requires
        token_spec(b, s, e, tok),
    ensures
        0 <= s < b.len(),
        !is_ws(b[s]),
{
    if !(s + 1 < b.len() && b[s] == 47u8 && b[s + 1] == 42u8) {
        let t = b.subrange(s, e);
        lemma_token_pattern(t, tok);
        lemma_pattern_first(t);
        assert(t[0] == b[s]);
    }
}

/// Where two tokens are read at one position, they are the same token.
proof fn lemma_token_determined(b: Seq<u8>, s: int, e1: int, t1: Token, e2: int, t2: Token)
    requires
        token_spec(b, s, e1, t1),
        token_spec(b, s, e2, t2),
    ensures
        e1 == e2,
        same_token(Spanned { node: t1, span: Span { start: 0, end: 0 } }, Spanned { node: t2, span: Span { start: 0, end: 0 } }),
{
    if !(s + 1 < b.len() && b[s] == 47u8 && b[s + 1] == 42u8) {
        lemma_token_pattern(b.subrange(s, e1), t1);
        lemma_token_pattern(b.subrange(s, e2), t2);
        if e1 < e2 {
            assert(!matches_pattern(b.subrange(s, e2)));
        } else if e2 < e1 {
            assert(!matches_pattern(b.subrange(s, e1)));
        }
        lemma_token_of_text(b.subrange(s, e1), t1, t2);
    }
}

/// Two tokenizations of prefixes of `b` agree on their first `k` tokens.
/// What a tokenization says of its token `i`.
proof fn lemma_tokenization_at(b: Seq<u8>, x: Seq<Spanned<Token>>, p: int, i: int)
    requires
        tokenization(b, x, p),
        0 <= i < x.len(),
    ensures
        prev_end(x, i) <= x[i].span.start,
        token_spec(b, x[i].span.start as int, x[i].span.end as int, x[i].node),
        all_in(b, prev_end(x, i), x[i].span.start as int, 0),
{
}

/// Tokens read where the previous ones ended agree.
proof fn lemma_agree_step(b: Seq<u8>, x: Seq<Spanned<Token>>, p: int, y: Seq<Spanned<Token>>, q: int, i: int)
    requires
        tokenization(b, x, p),
        tokenization(b, y, q),
        0 <= i < x.len(),
        i < y.len(),
        prev_end(x, i) == prev_end(y, i),
    ensures
        same_token(x[i], y[i]),
{
    lemma_tokenization_at(b, x, p, i);
    lemma_tokenization_at(b, y, q, i);
    let xs = x[i].span.start as int;
    let ys = y[i].span.start as int;
    lemma_token_start(b, xs, x[i].span.end as int, x[i].node);
    lemma_token_start(b, ys, y[i].span.end as int, y[i].node);
    if xs < ys {
        assert(in_class(0, b[xs]));
    } else if ys < xs {
        assert(in_class(0, b[ys]));
    }
    lemma_token_determined(b, xs, x[i].span.end as int, x[i].node, y[i].span.end as int, y[i].node);
}

/// Two tokenizations of prefixes of `b` agree on their first `k` tokens.
proof fn lemma_tokenization_agree(b: Seq<u8>, x: Seq<Spanned<Token>>, p: int, y: Seq<Spanned<Token>>, q: int, k: int)
    requires
        tokenization(b, x, p),
        tokenization(b, y, q),
        0 <= k <= x.len(),
        k <= y.len(),
    ensures
        forall|i: int| 0 <= i < k ==> #[trigger] same_token(x[i], y[i]),
    decreases k,
{
    if k > 0 {
        lemma_tokenization_agree(b, x, p, y, q, k - 1);
        let i = k - 1;
        if i > 0 {
            assert(same_token(x[i - 1], y[i - 1]));
        }
        lemma_agree_step(b, x, p, y, q, i);
    }
}

/// The tokenization of a text is unique: two token sequences that both read
/// all of `b` agree token for token.
pub proof fn law_tokenization_unique(b: Seq<u8>, x: Seq<Spanned<Token>>, y: Seq<Spanned<Token>>)
    requires
        tokenization(b, x, b.len() as int),
        tokenization(b, y, b.len() as int),
    ensures
        same_tokens(x, y),
{
    if x.len() <= y.len() {
        lemma_tokenization_agree(b, x, b.len() as int, y, b.len() as int, x.len() as int);
        if x.len() < y.len() {
            let i = x.len() as int;
            assert(prev_end(y, i) == prev_end(x, i)) by {
                if i > 0 {
                    assert(same_token(x[i - 1], y[i - 1]));
                }
            }
            assert(prev_end(y, i) <= y[i].span.start);
            lemma_token_start(b, y[i].span.start as int, y[i].span.end as int, y[i].node);
            assert(in_class(0, b[y[i].span.start as int]));
        }
    } else {
        lemma_tokenization_agree(b, x, b.len() as int, y, b.len() as int, y.len() as int);
        let i = y.len() as int;
        assert(prev_end(y, i) == prev_end(x, i)) by {
            if i > 0 {
                assert(same_token(x[i - 1], y[i - 1]));
            }
        }
        assert(prev_end(x, i) <= x[i].span.start);
        lemma_token_start(b, x[i].span.start as int, x[i].span.end as int, x[i].node);
        assert(in_class(0, b[x[i].span.start as int]));
    }
}

/// A text on which lexing fails has no tokenization.
pub proof fn law_lex_failure_excludes_tokenization(b: Seq<u8>, s: int, y: Seq<Spanned<Token>>)
    requires
        lex_fails_at(b, s),
    ensures
        !tokenization(b, y, b.len() as int),
{
    if tokenization(b, y, b.len() as int) {
        lemma_failure_and_tokenization(b, s, y);
    }
}

/// Lexing cannot both fail at `s` and read all of `b`: from the two, any
/// conclusion follows.
#[verifier::spinoff_prover]
#[verifier::rlimit(60)]
proof fn lemma_failure_and_tokenization(b: Seq<u8>, s: int, y: Seq<Spanned<Token>>)
    requires
        lex_fails_at(b, s),
        tokenization(b, y, b.len() as int),
    ensures
        s < 0,
{
    let x = choose|x: Seq<Spanned<Token>>| #[trigger] tokenization(b, x, s) && no_token_at(b, s);
    assert(tokenization(b, x, s));
    if y.len() < x.len() {
        lemma_tokenization_agree(b, x, s, y, b.len() as int, y.len() as int);
        let i = y.len() as int;
        assert(prev_end(y, i) == prev_end(x, i)) by {
            if i > 0 {
                assert(same_token(x[i - 1], y[i - 1]));
            }
        }
        lemma_tokenization_at(b, x, s, i);
        lemma_token_start(b, x[i].span.start as int, x[i].span.end as int, x[i].node);
        assert(in_class(0, b[x[i].span.start as int]));
    } else {
        lemma_tokenization_agree(b, x, s, y, b.len() as int, x.len() as int);
        let i = x.len() as int;
        assert(prev_end(y, i) == prev_end(x, i)) by {
            if i > 0 {
                assert(same_token(x[i - 1], y[i - 1]));
            }
        }
        if y.len() == x.len() {
            assert(in_class(0, b[s]));
        } else {
            let ys = y[i].span.start as int;
            let ye = y[i].span.end as int;
            lemma_tokenization_at(b, y, b.len() as int, i);
            lemma_token_start(b, ys, ye, y[i].node);
            if ys < s {
                assert(in_class(0, b[ys]));
            } else if s < ys {
                assert(in_class(0, b[s]));
            } else {
                lemma_token_excludes_failure(b, s, ye, y[i].node);
            }
        }
    }
}

/// Where a token is read, reading does not fail.
proof fn lemma_token_excludes_failure(b: Seq<u8>, s: int, e: int, tok: Token)
    requires
        token_spec(b, s, e, tok),
    ensures
        !no_token_at(b, s),
{
    if no_token_at(b, s) &&  !(s + 1 < b.len() && b[s] == 47u8 && b[s + 1] == 42u8) {
        let t = b.subrange(s, e);
        lemma_token_pattern(t, tok);
        assert(matches_pattern(b.subrange(s, e)));
        let e2 = choose|e2: int| #![trigger b.subrange(s, e2)] s < e2 <= b.len() && longest_at(b, s, e2) && numeric_text(b.subrange(s, e2))
            && numeric_literal_spec(b.subrange(s, e2)) is None;
        lemma_token_pattern(t, tok);
        if e < e2 {
            assert(!matches_pattern(b.subrange(s, e2)));
        } else if e2 < e {
            assert(!matches_pattern(b.subrange(s, e)));
        }
        lemma_pattern_first(t);
        if keyword_of(t) is Some {
            lemma_keyword_shape(t);
        }
        if punct_of(t) is Some {
            lemma_punct_shape(t);
        }
        if sized_text(t) {
            lemma_first_tick_props(t);
        }
    }
}

/// A keyword's spelling, read alone, is one token: that keyword, over the
/// whole text; every tokenization of the text is that one.
pub proof fn law_keyword_spelling_is_one_token(w: Seq<u8>)
    requires
        keyword_of(w) is Some,
    ensures
        ({
            let t = Spanned { node: keyword_of(w)->0, span: Span { start: 0, end: w.len() as u32 } };
            &&& super::token::token_is_keyword(keyword_of(w)->0)
            &&& tokenization(w, seq![t], w.len() as int)
            &&& forall|x: Seq<Spanned<Token>>| #[trigger] tokenization(w, x, w.len() as int) ==> x == seq![t]
        }),
{
    lemma_keyword_shape(w);
    reveal(keyword_of);
    let k = keyword_of(w)->0;
    assert(w.len() <= 20);
    let t = Spanned { node: k, span: Span { start: 0, end: w.len() as u32 } };
    let one = seq![t];
    assert(w.subrange(0, w.len() as int) =~= w);
    assert(token_spec(w, 0, w.len() as int, k));
    assert(tokenization(w, one, w.len() as int)) by {
        assert(prev_end(one, 0) == 0);
        assert(prev_end(one, 1) == w.len());
    }
    assert forall|x: Seq<Spanned<Token>>| #[trigger] tokenization(w, x, w.len() as int) implies x == one by {
        law_tokenization_unique(w, x, one);
        assert(same_token(x[0], one[0]));
        assert(x =~= one);
    }
}

} // verus!
