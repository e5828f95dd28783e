use vstd::prelude::*;
use vstd::string::StringSliceAdditionalSpecFns;

use super::token::{NumericBase, NumericLiteral};

verus! {

/// `s` with every `_` byte removed.
pub open spec fn strip_underscores(s: Seq<u8>) -> Seq<u8>
    decreases s.len(),
{
    if s.len() == 0 {
        s
    } else {
        let r = strip_underscores(s.drop_last());
        if s.last() == 95u8 { r } else { r.push(s.last()) }
    }
}

/// `s` with every `?` byte replaced by `0`.
pub open spec fn zero_dont_cares(s: Seq<u8>) -> Seq<u8> {
    s.map_values(|c: u8| if c == 63u8 { 48u8 } else { c })
}

/// The digit value of an ASCII byte (`0`-`9`, then `a`/`A` = 10 up to `z`/`Z` = 35);
/// 99 for any other byte.
pub open spec fn digit_value(c: u8) -> int {
    if 48 <= c <= 57 {
        c - 48
    } else if 97 <= c <= 122 {
        c - 87
    } else if 65 <= c <= 90 {
        c - 55
    } else {
        99
    }
}

/// Every byte of `ds` is a digit of the given radix.
pub open spec fn all_digits(ds: Seq<u8>, radix: int) -> bool {
    forall|i: int| 0 <= i < ds.len() ==> #[trigger] digit_value(ds[i]) < radix
}

/// The value of the digit string `ds`, most significant digit first.
pub open spec fn digits_value(ds: Seq<u8>, radix: int) -> int
    decreases ds.len(),
{
    if ds.len() == 0 {
        0
    } else {
        digits_value(ds.drop_last(), radix) * radix + digit_value(ds.last())
    }
}

/// The result of Rust's `from_str_radix` for an unsigned type whose largest
/// value is `max`: an optional leading `+`, then at least one digit of the
/// radix, and a value that fits.
pub open spec fn from_str_radix_spec(s: Seq<u8>, radix: int, max: int) -> Option<int> {
    let ds = if s.len() > 0 && s[0] == 43u8 { s.drop_first() } else { s };
    if ds.len() == 0 || !all_digits(ds, radix) || digits_value(ds, radix) > max {
        None
    } else {
        Some(digits_value(ds, radix))
    }
}

/// Index of the first `'` byte in `s`, if any.
pub open spec fn first_tick(s: Seq<u8>) -> Option<int>
    decreases s.len(),
{
    if s.len() == 0 {
        None
    } else if s[0] == 39u8 {
        Some(0)
    } else {
        match first_tick(s.drop_first()) {
            Some(i) => Some(i + 1),
            None => None,
        }
    }
}

/// The don't-care mask of a sized binary literal's digits: one bit per digit,
/// most significant first, set for each `?`; only the low 128 bits are kept.
pub open spec fn dont_care_mask(ds: Seq<u8>) -> u128
    decreases ds.len(),
{
    if ds.len() == 0 {
        0
    } else {
        let m = dont_care_mask(ds.drop_last());
        if ds.last() == 63u8 { (m << 1u128) | 1u128 } else { m << 1u128 }
    }
}

/// The base selected by the letter after the `'` of a sized literal.
pub open spec fn sized_base(c: u8) -> Option<NumericBase> {
    if c == 98u8 || c == 66u8 {
        Some(NumericBase::Binary)
    } else if c == 104u8 || c == 72u8 {
        Some(NumericBase::Hex)
    } else if c == 100u8 || c == 68u8 {
        Some(NumericBase::Decimal)
    } else {
        None
    }
}

/// The radix of a base.
pub open spec fn base_radix(b: NumericBase) -> int {
    match b {
        NumericBase::Binary => 2,
        NumericBase::Decimal => 10,
        NumericBase::Hex => 16,
    }
}

/// The literal denoted by a sized literal `width'<base><digits>`, where
/// `width_text` is the text before the `'` and `rest` the text after it.
pub open spec fn sized_literal_spec(width_text: Seq<u8>, rest: Seq<u8>) -> Option<NumericLiteral> {
    match from_str_radix_spec(width_text, 10, u32::MAX as int) {
        None => None,
        Some(width) => {
            if rest.len() == 0 || width == 0 || width > 128 {
                None
            } else {
                match sized_base(rest[0]) {
                    None => None,
                    Some(base) => {
                        let stripped = strip_underscores(rest.drop_first());
                        if base != NumericBase::Binary && stripped.contains(63u8) {
                            None
                        } else {
                            let mask = if base == NumericBase::Binary {
                                dont_care_mask(stripped)
                            } else {
                                0u128
                            };
                            match from_str_radix_spec(
                                zero_dont_cares(stripped),
                                base_radix(base),
                                u128::MAX as int,
                            ) {
                                None => None,
                                Some(value) => {
                                    if width < 128 && value >= (1u128 << (width as u128)) {
                                        None
                                    } else {
                                        Some(
                                            NumericLiteral::Sized {
                                                width: width as u32,
                                                value: value as u128,
                                                base,
                                                dont_care_mask: mask,
                                            },
                                        )
                                    }
                                }
                            }
                        }
                    }
                }
            }
        }
    }
}

/// The literal denoted by an unsized literal (underscores already removed):
/// `0x`/`0X` hexadecimal, `0b`/`0B` binary, otherwise decimal.
pub open spec fn unsized_literal_spec(clean: Seq<u8>) -> Option<NumericLiteral> {
    if clean.len() >= 2 && clean[0] == 48u8 && (clean[1] == 120u8 || clean[1] == 88u8) {
        match from_str_radix_spec(clean.skip(2), 16, u128::MAX as int) {
            Some(v) => Some(NumericLiteral::Hex(v as u128)),
            None => None,
        }
    } else if clean.len() >= 2 && clean[0] == 48u8 && (clean[1] == 98u8 || clean[1] == 66u8) {
        match from_str_radix_spec(clean.skip(2), 2, u128::MAX as int) {
            Some(v) => Some(NumericLiteral::Binary(v as u128)),
            None => None,
        }
    } else {
        match from_str_radix_spec(clean, 10, u128::MAX as int) {
            Some(v) => Some(NumericLiteral::Decimal(v as u128)),
            None => None,
        }
    }
}

/// The literal denoted by the text `s` of a numeric literal, or `None` when
/// it is malformed or does not fit.
pub open spec fn numeric_literal_spec(s: Seq<u8>) -> Option<NumericLiteral> {
    match first_tick(s) {
        Some(t) => sized_literal_spec(s.take(t), s.skip(t + 1)),
        None => unsized_literal_spec(strip_underscores(s)),
    }
}

proof fn lemma_digits_value_nonneg(ds: Seq<u8>, radix: int)
    requires
        radix >= 1,
        all_digits(ds, radix),
    ensures
        digits_value(ds, radix) >= 0,
    decreases ds.len(),
{
    if ds.len() > 0 {
        assert(all_digits(ds.drop_last(), radix)) by {
            assert forall|i: int| 0 <= i < ds.drop_last().len() implies #[trigger] digit_value(
                ds.drop_last()[i],
            ) < radix by {
                assert(ds.drop_last()[i] == ds[i]);
            }
        }
        lemma_digits_value_nonneg(ds.drop_last(), radix);
        assert(digit_value(ds[ds.len() - 1]) < radix);
        assert(digits_value(ds.drop_last(), radix) * radix >= 0) by (nonlinear_arith)
            requires
                digits_value(ds.drop_last(), radix) >= 0,
                radix >= 1,
        ;
    }
}

/// A prefix of a digit string never has a larger value than the whole string.
proof fn lemma_digits_value_prefix(ds: Seq<u8>, radix: int, k: int)
    requires
        radix >= 1,
        all_digits(ds, radix),
        0 <= k <= ds.len(),
    ensures
        digits_value(ds.take(k), radix) <= digits_value(ds, radix),
    decreases ds.len(),
{
    if k < ds.len() {
        let p = ds.drop_last();
        assert(all_digits(p, radix)) by {
            assert forall|i: int| 0 <= i < p.len() implies #[trigger] digit_value(p[i]) < radix by {
                assert(p[i] == ds[i]);
            }
        }
        lemma_digits_value_prefix(p, radix, k);
        assert(p.take(k) =~= ds.take(k));
        lemma_digits_value_nonneg(p, radix);
        assert(digit_value(ds[ds.len() - 1]) >= 0);
        let v = digits_value(p, radix);
        assert(v * radix >= v) by (nonlinear_arith)
            requires
                v >= 0,
                radix >= 1,
        ;
    } else {
        assert(ds.take(k) =~= ds);
    }
}

/// The digit value of an ASCII byte, as in [`digit_value`].
fn digit_of(c: u8) -> (d: u128)
    ensures
        d == digit_value(c),
{
    if 48 <= c && c <= 57 {
        (c - 48) as u128
    } else if 97 <= c && c <= 122 {
        (c - 87) as u128
    } else if 65 <= c && c <= 90 {
        (c - 55) as u128
    } else {
        99
    }
}

/// Rust's `from_str_radix` for `u128` on the bytes `ds[lo..hi]`.
pub fn parse_radix(ds: &[u8], lo: usize, hi: usize, radix: u128) -> (r: Option<u128>)
    requires
        lo <= hi <= ds@.len(),
        radix == 2 || radix == 10 || radix == 16,
    ensures
        match from_str_radix_spec(ds@.subrange(lo as int, hi as int), radix as int, u128::MAX as int) {
            Some(v) => r matches Some(x) && x == v,
            None => r is None,
        },
{
    let ghost s = ds@.subrange(lo as int, hi as int);
    let mut start: usize = lo;
    if hi > lo && ds[lo] == 43u8 {
        start = lo + 1;
    }
    let ghost digits = if s.len() > 0 && s[0] == 43u8 { s.drop_first() } else { s };
    assert(digits =~= ds@.subrange(start as int, hi as int));
    if start == hi {
        return None;
    }
    let mut i: usize = start;
    let mut v: u128 = 0;
    while i < hi
        invariant
            lo <= start <= i <= hi <= ds@.len(),
            digits =~= ds@.subrange(start as int, hi as int),
            s == ds@.subrange(lo as int, hi as int),
            digits == (if s.len() > 0 && s[0] == 43u8 { s.drop_first() } else { s }),
            radix == 2 || radix == 10 || radix == 16,
            all_digits(ds@.subrange(start as int, i as int), radix as int),
            v == digits_value(ds@.subrange(start as int, i as int), radix as int),
        decreases hi - i,
    {
        let d = digit_of(ds[i]);
        let ghost pre = ds@.subrange(start as int, i as int);
        let ghost next = ds@.subrange(start as int, i + 1);
        assert(next.drop_last() =~= pre);
        assert(next.last() == ds@[i as int]);
        if d >= radix {
            proof {
                assert(digits[i - start] == ds@[i as int]);
                assert(!all_digits(digits, radix as int));
            }
            return None;
        }
        assert(all_digits(next, radix as int)) by {
            assert forall|j: int| 0 <= j < next.len() implies #[trigger] digit_value(next[j])
                < radix by {
                if j < next.len() - 1 {
                    assert(next[j] == pre[j]);
                }
            }
        }
        let m = v.checked_mul(radix);
        if m.is_none() {
            proof {
                if all_digits(digits, radix as int) {
                    assert(next =~= digits.take(i + 1 - start));
                    lemma_digits_value_prefix(digits, radix as int, i + 1 - start);
                    lemma_digits_value_nonneg(pre, radix as int);
                }
            }
            return None;
        }
        let m = m.unwrap();
        let a = m.checked_add(d);
        if a.is_none() {
            proof {
                if all_digits(digits, radix as int) {
                    assert(next =~= digits.take(i + 1 - start));
                    lemma_digits_value_prefix(digits, radix as int, i + 1 - start);
                }
            }
            return None;
        }
        v = a.unwrap();
        i = i + 1;
    }
    assert(ds@.subrange(start as int, i as int) =~= digits);
    Some(v)
}

proof fn lemma_first_tick(s: Seq<u8>, k: int)
    requires
        0 <= k <= s.len(),
        forall|j: int| 0 <= j < k ==> s[j] != 39u8,
    ensures
        k < s.len() && s[k] == 39u8 ==> first_tick(s) == Some(k),
        k == s.len() ==> first_tick(s) is None,
    decreases k,
{
    if k > 0 {
        lemma_first_tick(s.drop_first(), k - 1);
    } else if s.len() > 0 {
    }
}

/// Index of the first `'` byte.
fn find_tick(b: &[u8]) -> (r: Option<usize>)
    ensures
        match first_tick(b@) {
            Some(t) => r matches Some(x) && x == t,
            None => r is None,
        },
        r matches Some(t) ==> t < b@.len(),
{
    let mut i: usize = 0;
    while i < b.len()
        invariant
            i <= b@.len(),
            forall|j: int| 0 <= j < i ==> b@[j] != 39u8,
        decreases b@.len() - i,
    {
        if b[i] == 39u8 {
            proof {
                lemma_first_tick(b@, i as int);
            }
            return Some(i);
        }
        i = i + 1;
    }
    proof {
        lemma_first_tick(b@, i as int);
    }
    None
}

/// The bytes `b[lo..hi]` without their underscores.
fn strip_range(b: &[u8], lo: usize, hi: usize) -> (v: Vec<u8>)
    requires
        lo <= hi <= b@.len(),
    ensures
        v@ == strip_underscores(b@.subrange(lo as int, hi as int)),
{
    let mut v: Vec<u8> = Vec::new();
    let mut i: usize = lo;
    while i < hi
        invariant
            lo <= i <= hi <= b@.len(),
            v@ == strip_underscores(b@.subrange(lo as int, i as int)),
        decreases hi - i,
    {
        let ghost pre = b@.subrange(lo as int, i as int);
        assert(b@.subrange(lo as int, i + 1).drop_last() =~= pre);
        if b[i] != 95u8 {
            v.push(b[i]);
        }
        i = i + 1;
    }
    v
}

/// True when `v` holds a `?` byte.
fn has_question(v: &Vec<u8>) -> (r: bool)
    ensures
        r == v@.contains(63u8),
{
    let mut i: usize = 0;
    while i < v.len()
        invariant
            i <= v@.len(),
            forall|j: int| 0 <= j < i ==> v@[j] != 63u8,
        decreases v@.len() - i,
    {
        if v[i] == 63u8 {
            proof {
                assert(v@[i as int] == 63u8);
            }
            return true;
        }
        i = i + 1;
    }
    false
}

/// The don't-care mask of the digits `v`.
fn mask_of(v: &Vec<u8>) -> (m: u128)
    ensures
        m == dont_care_mask(v@),
{
    let mut m: u128 = 0;
    let mut i: usize = 0;
    while i < v.len()
        invariant
            i <= v@.len(),
            m == dont_care_mask(v@.subrange(0, i as int)),
        decreases v@.len() - i,
    {
        assert(v@.subrange(0, i + 1).drop_last() =~= v@.subrange(0, i as int));
        if v[i] == 63u8 {
            m = (m << 1u128) | 1u128;
        } else {
            m = m << 1u128;
        }
        i = i + 1;
    }
    assert(v@.subrange(0, i as int) =~= v@);
    m
}

/// `v` with every `?` replaced by `0`.
fn zero_dont_cares_exec(v: &Vec<u8>) -> (w: Vec<u8>)
    ensures
        w@ == zero_dont_cares(v@),
{
    let mut w: Vec<u8> = Vec::new();
    let mut i: usize = 0;
    while i < v.len()
        invariant
            i <= v@.len(),
            w@ =~= zero_dont_cares(v@.subrange(0, i as int)),
        decreases v@.len() - i,
    {
        if v[i] == 63u8 {
            w.push(48u8);
        } else {
            w.push(v[i]);
        }
        i = i + 1;
    }
    assert(v@.subrange(0, i as int) =~= v@);
    w
}

proof fn lemma_radix_max(s: Seq<u8>, radix: int, small: int, big: int)
    requires
        small <= big,
    ensures
        from_str_radix_spec(s, radix, small) == (match from_str_radix_spec(s, radix, big) {
            Some(v) => if v <= small { Some(v) } else { None },
            None => None,
        }),
{
}

/// The sized literal whose `'` stands at index `t` of `b`.
fn sized_literal(b: &[u8], t: usize) -> (r: Option<NumericLiteral>)
    requires
        t < b@.len(),
    ensures
        r == sized_literal_spec(b@.take(t as int), b@.skip(t + 1)),
{
    let ghost wt = b@.take(t as int);
    let ghost rest = b@.skip(t + 1);
    assert(b@.subrange(0, t as int) =~= wt);
    proof {
        lemma_radix_max(wt, 10, u32::MAX as int, u128::MAX as int);
    }
    let w = parse_radix(b, 0, t, 10);
    if w.is_none() {
        return None;
    }
    let w = w.unwrap();
    assert(from_str_radix_spec(wt, 10, u128::MAX as int) == Some(w as int));
    if w > 0xffff_ffffu128 {
        assert(from_str_radix_spec(wt, 10, u32::MAX as int) is None);
        return None;
    }
    assert(from_str_radix_spec(wt, 10, u32::MAX as int) == Some(w as int));
    assert(t < b@.len());
    let width = w as u32;
    let n = b.len();
    if t == n - 1 {
        assert(rest.len() == 0);
        return None;
    }
    if width == 0 || width > 128 {
        return None;
    }
    assert(rest[0] == b@[t + 1]);
    let c = b[t + 1];
    let base = if c == 98u8 || c == 66u8 {
        NumericBase::Binary
    } else if c == 104u8 || c == 72u8 {
        NumericBase::Hex
    } else if c == 100u8 || c == 68u8 {
        NumericBase::Decimal
    } else {
        return None;
    };
    assert(rest.drop_first() =~= b@.subrange(t + 2, b@.len() as int));
    let stripped = strip_range(b, t + 2, b.len());
    let is_binary = match base {
        NumericBase::Binary => true,
        _ => false,
    };
    if !is_binary && has_question(&stripped) {
        return None;
    }
    let mask = if is_binary { mask_of(&stripped) } else { 0u128 };
    let radix: u128 = match base {
        NumericBase::Binary => 2,
        NumericBase::Decimal => 10,
        NumericBase::Hex => 16,
    };
    let clean = zero_dont_cares_exec(&stripped);
    assert(clean@.subrange(0, clean@.len() as int) =~= clean@);
    let value = parse_radix(clean.as_slice(), 0, clean.len(), radix);
    if value.is_none() {
        return None;
    }
    let value = value.unwrap();
    if width < 128 && value >= (1u128 << (width as u128)) {
        return None;
    }
    Some(NumericLiteral::Sized { width, value, base, dont_care_mask: mask })
}

/// The unsized literal spelled by `clean` (underscores already removed).
fn unsized_literal(clean: &Vec<u8>) -> (r: Option<NumericLiteral>)
    ensures
        r == unsized_literal_spec(clean@),
{
    let n = clean.len();
    assert(clean@.subrange(2, n as int) =~= clean@.skip(2)) by {
        if n >= 2 {
        }
    }
    assert(clean@.subrange(0, n as int) =~= clean@);
    if n >= 2 && clean[0] == 48u8 && (clean[1] == 120u8 || clean[1] == 88u8) {
        match parse_radix(clean.as_slice(), 2, n, 16) {
            Some(v) => Some(NumericLiteral::Hex(v)),
            None => None,
        }
    } else if n >= 2 && clean[0] == 48u8 && (clean[1] == 98u8 || clean[1] == 66u8) {
        match parse_radix(clean.as_slice(), 2, n, 2) {
            Some(v) => Some(NumericLiteral::Binary(v)),
            None => None,
        }
    } else {
        match parse_radix(clean.as_slice(), 0, n, 10) {
            Some(v) => Some(NumericLiteral::Decimal(v)),
            None => None,
        }
    }
}

/// Parse the bytes of a numeric literal.
pub fn parse_numeric_bytes(b: &[u8]) -> (r: Option<NumericLiteral>)
    ensures
        r == numeric_literal_spec(b@),
{
    match find_tick(b) {
        Some(t) => sized_literal(b, t),
        None => {
            let clean = strip_range(b, 0, b.len());
            assert(b@.subrange(0, b@.len() as int) =~= b@);
            unsized_literal(&clean)
        },
    }
}

/// Parse a numeric literal string into a [`NumericLiteral`].
///
/// Formats:
/// - Decimal: `42`, `1_000_000`
/// - Hex: `0xFF`, `0xDEAD_BEEF`
/// - Binary: `0b1010_0011`
/// - Sized: `8'b1010_0011`, `16'hDEAD`, `8'd255`
///
/// Underscores are allowed anywhere after the prefix for readability.
/// Don't-care bits (`?`) are only valid in sized binary literals.
/// Returns `None` for malformed literals, values that do not fit in 128 bits,
/// widths outside `1..=128`, and sized values that do not fit their width.
pub fn parse_numeric(s: &str) -> (r: Option<NumericLiteral>)
    ensures
        r == numeric_literal_spec(s.spec_bytes()),
{
    parse_numeric_bytes(s.as_bytes())
}

proof fn lemma_strip_facts(s: Seq<u8>)
    ensures
        forall|j: int| 0 <= j < strip_underscores(s).len() ==> (#[trigger] strip_underscores(s)[j]) != 95u8
            && s.contains(strip_underscores(s)[j]),
        forall|i: int| 0 <= i < s.len() && s[i] != 95u8 ==> strip_underscores(s).contains(#[trigger] s[i]),
    decreases s.len(),
{
    if s.len() > 0 {
        let p = s.drop_last();
        lemma_strip_facts(p);
        let r = strip_underscores(p);
        assert forall|j: int| 0 <= j < strip_underscores(s).len() implies (#[trigger] strip_underscores(s)[j]) != 95u8
            && s.contains(strip_underscores(s)[j]) by {
            if j < r.len() {
                assert(strip_underscores(s)[j] == r[j]);
                let i = choose|i: int| 0 <= i < p.len() && p[i] == r[j];
                assert(s[i] == p[i]);
            } else {
                assert(strip_underscores(s)[j] == s.last());
                assert(s[s.len() - 1] == s.last());
            }
        }
        assert forall|i: int| 0 <= i < s.len() && s[i] != 95u8 implies strip_underscores(s).contains(#[trigger] s[i]) by {
            if i < s.len() - 1 {
                assert(p[i] == s[i]);
                let j = choose|j: int| 0 <= j < r.len() && r[j] == p[i];
                assert(strip_underscores(s)[j] == r[j]);
            } else {
                assert(strip_underscores(s).last() == s.last());
                assert(strip_underscores(s)[strip_underscores(s).len() - 1] == s[i]);
            }
        }
    }
}

proof fn lemma_strip_identity(t: Seq<u8>)
    requires
        forall|j: int| 0 <= j < t.len() ==> #[trigger] t[j] != 95u8,
    ensures
        strip_underscores(t) == t,
    decreases t.len(),
{
    if t.len() > 0 {
        let p = t.drop_last();
        assert forall|j: int| 0 <= j < p.len() implies #[trigger] p[j] != 95u8 by {
            assert(p[j] == t[j]);
        }
        lemma_strip_identity(p);
        assert(t[t.len() - 1] != 95u8);
        assert(p.push(t.last()) =~= t);
    }
}

proof fn lemma_first_tick_none(s: Seq<u8>)
    ensures
        first_tick(s) is None <==> !s.contains(39u8),
    decreases s.len(),
{
    if s.len() > 0 {
        lemma_first_tick_none(s.drop_first());
        if s[0] != 39u8 {
            assert forall|i: int| 0 <= i < s.len() && s[i] == 39u8 implies s.drop_first().contains(39u8) by {
                assert(i > 0);
                assert(s.drop_first()[i - 1] == s[i]);
            }
            assert forall|i: int| 0 <= i < s.len() - 1 && s.drop_first()[i] == 39u8 implies s.contains(39u8) by {
                assert(s[i + 1] == s.drop_first()[i]);
            }
        } else {
            assert(s[0] == 39u8);
        }
    }
}

/// Underscores in a literal without a `'` do not matter: the text reads as
/// the same literal with every `_` removed.
pub proof fn law_unsized_underscores_ignored(s: Seq<u8>)
    requires
        !s.contains(39u8),
    ensures
        numeric_literal_spec(s) == numeric_literal_spec(strip_underscores(s)),
{
    let t = strip_underscores(s);
    lemma_strip_facts(s);
    lemma_first_tick_none(s);
    lemma_first_tick_none(t);
    assert forall|j: int| 0 <= j < t.len() implies #[trigger] t[j] != 95u8 by {}
    lemma_strip_identity(t);
    if t.contains(39u8) {
        let j = choose|j: int| 0 <= j < t.len() && t[j] == 39u8;
        assert(s.contains(t[j]));
    }
}

proof fn lemma_radix_rejects_question(s: Seq<u8>, radix: int, max: int, k: int)
    requires
        0 <= k < s.len(),
        s[k] == 63u8,
        radix <= 36,
    ensures
        from_str_radix_spec(s, radix, max) is None,
{
    if s[0] == 43u8 {
        assert(s.drop_first()[k - 1] == 63u8);
        assert(digit_value(s.drop_first()[k - 1]) == 99);
    } else {
        assert(digit_value(s[k]) == 99);
    }
}

/// A leading byte other than `?` adds no don't-care bit.
proof fn lemma_mask_leading(c: u8, ds: Seq<u8>)
    requires
        c != 63u8,
    ensures
        dont_care_mask(seq![c] + ds) == dont_care_mask(ds),
    decreases ds.len(),
{
    if ds.len() == 0 {
        let t = seq![c] + ds;
        assert(t.drop_last() =~= Seq::<u8>::empty());
        assert(t.last() == c);
        assert(dont_care_mask(Seq::<u8>::empty()) == 0);
        assert(0u128 << 1u128 == 0u128) by (bit_vector);
        assert(dont_care_mask(t) == dont_care_mask(t.drop_last()) << 1u128);
    } else {
        let t = seq![c] + ds;
        lemma_mask_leading(c, ds.drop_last());
        assert(t.drop_last() =~= seq![c] + ds.drop_last());
        assert(t.last() == ds.last());
    }
}

/// The value of a binary digit string whose `?` are read as `0` has no bit
/// in common with the don't-care mask of the string.
proof fn lemma_mask_disjoint(ds: Seq<u8>)
    requires
        all_digits(zero_dont_cares(ds), 2),
        digits_value(zero_dont_cares(ds), 2) <= u128::MAX,
    ensures
        (digits_value(zero_dont_cares(ds), 2) as u128) & dont_care_mask(ds) == 0,
    decreases ds.len(),
{
    if ds.len() == 0 {
        assert(0u128 & 0u128 == 0u128) by (bit_vector);
    } else {
        let p = ds.drop_last();
        let z = zero_dont_cares(ds);
        let zp = zero_dont_cares(p);
        assert(z.drop_last() =~= zp);
        assert(all_digits(zp, 2)) by {
            assert forall|i: int| 0 <= i < zp.len() implies #[trigger] digit_value(zp[i]) < 2 by {
                assert(zp[i] == z[i]);
            }
        }
        lemma_digits_value_nonneg(zp, 2);
        let d0 = digit_value(z.last());
        assert(0 <= d0 < 2) by {
            assert(digit_value(z[z.len() - 1]) < 2);
        }
        lemma_mask_disjoint(p);
        let vp = digits_value(zp, 2) as u128;
        let m = dont_care_mask(p);
        let d = d0 as u128;
        let q: u128 = if ds.last() == 63u8 { 1 } else { 0 };
        assert(ds.last() == 63u8 ==> z.last() == 48u8);
        assert(q == 1 ==> d == 0);
        assert(((vp << 1u128) | d) & ((m << 1u128) | q) == 0) by (bit_vector)
            requires
                vp & m == 0,
                d <= 1,
                q <= 1,
                q == 1 ==> d == 0,
        ;
        assert(vp * 2 + d <= u128::MAX);
        assert((vp << 1u128) | d == vp * 2 + d) by (bit_vector)
            requires
                vp * 2 + d <= u128::MAX,
                d <= 1,
        ;
        let m2 = m << 1u128;
        assert(m2 | 0u128 == m2) by (bit_vector);
        assert(dont_care_mask(ds) == (m << 1u128) | q);
    }
}

/// A sized literal has a width from 1 to 128 and a value that fits in that
/// many bits; only a binary one has don't-care bits, and those bits of its
/// value are 0.
pub proof fn law_sized_literal_bounds(s: Seq<u8>)
    requires
        numeric_literal_spec(s) matches Some(NumericLiteral::Sized { .. }),
    ensures
        numeric_literal_spec(s) matches Some(NumericLiteral::Sized { width, value, base, dont_care_mask }) && 1
            <= width <= 128 && (width < 128 ==> value < (1u128 << (width as u128))) && (base != NumericBase::Binary
            ==> dont_care_mask == 0) && value & dont_care_mask == 0,
{
    match first_tick(s) {
        Some(t) => {
            let wt = s.take(t);
            let rest = s.skip(t + 1);
            let wd = if wt.len() > 0 && wt[0] == 43u8 { wt.drop_first() } else { wt };
            lemma_digits_value_nonneg(wd, 10);
            let width = from_str_radix_spec(wt, 10, u32::MAX as int).unwrap();
            assert(0 < width <= 128);
            let base = sized_base(rest[0]).unwrap();
            let stripped = strip_underscores(rest.drop_first());
            let z = zero_dont_cares(stripped);
            let vd = if z.len() > 0 && z[0] == 43u8 { z.drop_first() } else { z };
            lemma_digits_value_nonneg(vd, base_radix(base));
            let v = from_str_radix_spec(z, base_radix(base), u128::MAX as int).unwrap();
            assert(0 <= v <= u128::MAX);
            assert(!(width < 128 && v >= (1u128 << (width as u128))));
            if base == NumericBase::Binary {
                if z.len() > 0 && z[0] == 43u8 {
                    let tail = stripped.drop_first();
                    assert(stripped[0] == 43u8);
                    assert(stripped =~= seq![43u8] + tail);
                    lemma_mask_leading(43u8, tail);
                    assert(vd =~= zero_dont_cares(tail));
                    lemma_mask_disjoint(tail);
                } else {
                    lemma_mask_disjoint(stripped);
                }
            } else {
                assert((v as u128) & 0u128 == 0u128) by (bit_vector);
            }
        },
        None => {},
    }
}

/// A `?` is accepted only as a digit of a sized binary literal.
pub proof fn law_dont_care_only_in_sized_binary(s: Seq<u8>)
    requires
        s.contains(63u8),
        numeric_literal_spec(s) is Some,
    ensures
        numeric_literal_spec(s) matches Some(NumericLiteral::Sized { base, .. }) && base == NumericBase::Binary,
{
    let q = choose|i: int| 0 <= i < s.len() && s[i] == 63u8;
    match first_tick(s) {
        Some(t) => {
            lemma_first_tick_index(s);
            let w = s.take(t);
            let rest = s.skip(t + 1);
            if q < t {
                assert(w[q] == 63u8);
                lemma_radix_rejects_question(w, 10, u32::MAX as int, q);
            } else {
                assert(q != t);
                assert(rest[q - t - 1] == 63u8);
                if q > t + 1 {
                    let body = rest.drop_first();
                    assert(body[q - t - 2] == 63u8);
                    lemma_strip_facts(body);
                    assert(strip_underscores(body).contains(body[q - t - 2]));
                }
            }
        },
        None => {
            let clean = strip_underscores(s);
            lemma_strip_facts(s);
            assert(clean.contains(s[q]));
            let k = choose|k: int| 0 <= k < clean.len() && clean[k] == 63u8;
            if clean.len() >= 2 && clean[0] == 48u8 && (clean[1] == 120u8 || clean[1] == 88u8
                || clean[1] == 98u8 || clean[1] == 66u8) {
                assert(clean.skip(2)[k - 2] == 63u8);
                lemma_radix_rejects_question(clean.skip(2), 16, u128::MAX as int, k - 2);
                lemma_radix_rejects_question(clean.skip(2), 2, u128::MAX as int, k - 2);
            } else {
                lemma_radix_rejects_question(clean, 10, u128::MAX as int, k);
            }
        },
    }
}

proof fn lemma_first_tick_index(s: Seq<u8>)
    requires
        first_tick(s) is Some,
    ensures
        first_tick(s) matches Some(t) && 0 <= t < s.len() && s[t] == 39u8,
    decreases s.len(),
{
    if s[0] != 39u8 {
        lemma_first_tick_index(s.drop_first());
    }
}

} // verus!
