//! Unicode-whitespace tokenisation of UTF-8 text held as bytes, and decimal
//! integer parsing with the error kinds of `str::parse`.

use vstd::prelude::*;
use crate::text::occurs_at;
use vstd::string::StringSliceAdditionalSpecFns;

verus! {

/// Byte length of the whitespace character that starts at byte `i` of the
/// UTF-8 text `s`, or 0 when none starts there. The characters are those
/// with the Unicode `White_Space` property (`char::is_whitespace`):
/// U+0009..U+000D, U+0020, U+0085, U+00A0, U+1680, U+2000..U+200A, U+2028,
/// U+2029, U+202F, U+205F and U+3000.
pub open spec fn ws_len(s: Seq<u8>, i: int) -> int {
    if i < 0 || i >= s.len() {
        0
    } else if (9 <= s[i] && s[i] <= 13) || s[i] == 32 {
        1
    } else if s[i] == 0xC2 && i + 1 < s.len() && (s[i + 1] == 0x85 || s[i + 1] == 0xA0) {
        2
    } else if i + 2 < s.len() && ((s[i] == 0xE1 && s[i + 1] == 0x9A && s[i + 2] == 0x80) || (
    s[i] == 0xE2 && s[i + 1] == 0x80 && ((0x80 <= s[i + 2] && s[i + 2] <= 0x8A) || s[i + 2]
        == 0xA8 || s[i + 2] == 0xA9 || s[i + 2] == 0xAF)) || (s[i] == 0xE2 && s[i + 1] == 0x81
        && s[i + 2] == 0x9F) || (s[i] == 0xE3 && s[i + 1] == 0x80 && s[i + 2] == 0x80)) {
        3
    } else {
        0
    }
}

/// End of the run of non-whitespace bytes that starts at `i`.
pub open spec fn token_end(s: Seq<u8>, i: int) -> int
    decreases s.len() - i,
{
    if i >= s.len() || ws_len(s, i) > 0 {
        i
    } else {
        token_end(s, i + 1)
    }
}

pub proof fn lemma_token_end_bounds(s: Seq<u8>, i: int)
    ensures
        i <= token_end(s, i),
        i <= s.len() ==> token_end(s, i) <= s.len(),
        token_end(s, i) < s.len() ==> ws_len(s, token_end(s, i)) > 0,
        forall|k: int| i <= k < token_end(s, i) ==> ws_len(s, k) == 0,
    decreases s.len() - i,
{
    if i >= s.len() || ws_len(s, i) > 0 {
    } else {
        lemma_token_end_bounds(s, i + 1);
    }
}

/// The whitespace-separated words of `s` from byte `i` on, as
/// `str::split_whitespace` yields them.
pub open spec fn words_from(s: Seq<u8>, i: int) -> Seq<Seq<u8>>
    decreases s.len() - i,
{
    if i < 0 || i >= s.len() {
        Seq::empty()
    } else if ws_len(s, i) > 0 {
        words_from(s, i + ws_len(s, i))
    } else {
        let e = token_end(s, i + 1);
        proof {
            lemma_token_end_bounds(s, i + 1);
        }
        seq![s.subrange(i, e)] + words_from(s, e)
    }
}

/// The words of the whole of `s`.
pub open spec fn words(s: Seq<u8>) -> Seq<Seq<u8>> {
    words_from(s, 0)
}

/// Exec form of [`ws_len`].
pub fn whitespace_len_at(s: &[u8], i: usize) -> (r: usize)
    ensures
        r as int == ws_len(s@, i as int),
        r <= 3,
{
    let n = s.len();
    if i >= n {
        return 0;
    }
    let b = s[i];
    if (9 <= b && b <= 13) || b == 32 {
        return 1;
    }
    if b == 0xC2 && n - i > 1 && (s[i + 1] == 0x85 || s[i + 1] == 0xA0) {
        return 2;
    }
    if n - i > 2 {
        let b1 = s[i + 1];
        let b2 = s[i + 2];
        if (b == 0xE1 && b1 == 0x9A && b2 == 0x80) || (b == 0xE2 && b1 == 0x80 && ((0x80 <= b2
            && b2 <= 0x8A) || b2 == 0xA8 || b2 == 0xA9 || b2 == 0xAF)) || (b == 0xE2 && b1 == 0x81
            && b2 == 0x9F) || (b == 0xE3 && b1 == 0x80 && b2 == 0x80) {
            return 3;
        }
    }
    0
}

/// The first word of `s` at or after byte `from`, as a byte range, with the
/// words that follow it starting at the range's end.
pub fn next_word(s: &[u8], from: usize) -> (r: Option<(usize, usize)>)
    ensures
        match r {
            None => words_from(s@, from as int) == Seq::<Seq<u8>>::empty(),
            Some((a, b)) => {
                &&& from <= a < b <= s.len()
                &&& words_from(s@, from as int) == seq![s@.subrange(a as int, b as int)]
                    + words_from(s@, b as int)
            },
        },
{
    let n = s.len();
    let mut i = from;
    while i < n && whitespace_len_at(s, i) > 0
        invariant
            from <= i,
            n == s.len(),
            words_from(s@, i as int) == words_from(s@, from as int),
        decreases n - i,
    {
        let w = whitespace_len_at(s, i);
        i = i + w;
    }
    if i >= n {
        return None;
    }
    let mut j = i + 1;
    while j < n && whitespace_len_at(s, j) == 0
        invariant
            i < j <= n,
            n == s.len(),
            token_end(s@, j as int) == token_end(s@, i as int + 1),
        decreases n - j,
    {
        j += 1;
    }
    proof {
        lemma_token_end_bounds(s@, i as int + 1);
    }
    Some((i, j))
}

/// First byte at or after `i` that does not start a whitespace character.
pub open spec fn skip_ws(s: Seq<u8>, i: int) -> int
    decreases s.len() - i,
{
    if i < 0 || i >= s.len() || ws_len(s, i) == 0 {
        i
    } else {
        skip_ws(s, i + ws_len(s, i))
    }
}

/// End of `s[lo..e]` once trailing whitespace characters are removed.
pub open spec fn trim_end_pos(s: Seq<u8>, lo: int, e: int) -> int
    decreases e - lo,
{
    if e <= lo {
        e
    } else if ws_len(s, e - 1) == 1 {
        trim_end_pos(s, lo, e - 1)
    } else if e - 2 >= lo && ws_len(s, e - 2) == 2 {
        trim_end_pos(s, lo, e - 2)
    } else if e - 3 >= lo && ws_len(s, e - 3) == 3 {
        trim_end_pos(s, lo, e - 3)
    } else {
        e
    }
}

/// `str::trim` on the UTF-8 text `s`.
pub open spec fn trimmed(s: Seq<u8>) -> Seq<u8> {
    let a = skip_ws(s, 0);
    s.subrange(a, trim_end_pos(s, a, s.len() as int))
}

pub proof fn lemma_skip_ws_bounds(s: Seq<u8>, i: int)
    requires
        0 <= i <= s.len(),
    ensures
        i <= skip_ws(s, i) <= s.len(),
    decreases s.len() - i,
{
    if i >= s.len() || ws_len(s, i) == 0 {
    } else {
        lemma_skip_ws_bounds(s, i + ws_len(s, i));
    }
}

pub proof fn lemma_trim_end_bounds(s: Seq<u8>, lo: int, e: int)
    requires
        lo <= e,
    ensures
        lo <= trim_end_pos(s, lo, e) <= e,
    decreases e - lo,
{
    if e <= lo {
    } else if ws_len(s, e - 1) == 1 {
        lemma_trim_end_bounds(s, lo, e - 1);
    } else if e - 2 >= lo && ws_len(s, e - 2) == 2 {
        lemma_trim_end_bounds(s, lo, e - 2);
    } else if e - 3 >= lo && ws_len(s, e - 3) == 3 {
        lemma_trim_end_bounds(s, lo, e - 3);
    }
}

/// Exec form of [`skip_ws`].
pub fn skip_whitespace(s: &[u8], i: usize) -> (r: usize)
    requires
        i <= s.len(),
    ensures
        r as int == skip_ws(s@, i as int),
        i <= r <= s.len(),
{
    let mut k = i;
    while k < s.len() && whitespace_len_at(s, k) > 0
        invariant
            i <= k <= s.len(),
            skip_ws(s@, k as int) == skip_ws(s@, i as int),
        decreases s.len() - k,
    {
        k = k + whitespace_len_at(s, k);
    }
    k
}

/// Exec form of [`trim_end_pos`].
pub fn trim_end_from(s: &[u8], lo: usize, e: usize) -> (r: usize)
    requires
        lo <= e <= s.len(),
    ensures
        r as int == trim_end_pos(s@, lo as int, e as int),
        lo <= r <= e,
{
    let mut k = e;
    loop
        invariant
            lo <= k <= e <= s.len(),
            trim_end_pos(s@, lo as int, k as int) == trim_end_pos(s@, lo as int, e as int),
        decreases k - lo,
    {
        if k <= lo {
            return k;
        }
        if whitespace_len_at(s, k - 1) == 1 {
            k = k - 1;
        } else if k - lo >= 2 && whitespace_len_at(s, k - 2) == 2 {
            k = k - 2;
        } else if k - lo >= 3 && whitespace_len_at(s, k - 3) == 3 {
            k = k - 3;
        } else {
            return k;
        }
    }
}

/// Position of the first byte equal to `c` at or after `i`, or the length.
pub open spec fn byte_pos_from(s: Seq<u8>, i: int, c: u8) -> int
    decreases s.len() - i,
{
    if i < 0 || i >= s.len() {
        s.len() as int
    } else if s[i] == c {
        i
    } else {
        byte_pos_from(s, i + 1, c)
    }
}

pub proof fn lemma_byte_pos_bounds(s: Seq<u8>, i: int, c: u8)
    requires
        0 <= i <= s.len(),
    ensures
        i <= byte_pos_from(s, i, c) <= s.len(),
        byte_pos_from(s, i, c) < s.len() ==> s[byte_pos_from(s, i, c)] == c,
        forall|k: int| i <= k < byte_pos_from(s, i, c) ==> s[k] != c,
    decreases s.len() - i,
{
    if i >= s.len() || s[i] == c {
    } else {
        lemma_byte_pos_bounds(s, i + 1, c);
    }
}

/// Exec form of [`byte_pos_from`].
pub fn find_byte_from(s: &[u8], i: usize, c: u8) -> (r: usize)
    requires
        i <= s.len(),
    ensures
        r as int == byte_pos_from(s@, i as int, c),
        i <= r <= s.len(),
{
    let mut k = i;
    while k < s.len() && s[k] != c
        invariant
            i <= k <= s.len(),
            byte_pos_from(s@, k as int, c) == byte_pos_from(s@, i as int, c),
        decreases s.len() - k,
    {
        k += 1;
    }
    k
}

/// Whether the bytes `s[a..b]` are exactly `lit`.
pub fn range_is(s: &[u8], a: usize, b: usize, lit: &[u8]) -> (r: bool)
    requires
        a <= b <= s.len(),
    ensures
        r == (s@.subrange(a as int, b as int) == lit@),
{
    if b - a != lit.len() {
        assert(s@.subrange(a as int, b as int).len() != lit@.len());
        return false;
    }
    crate::text::bytes_at(s, lit, a)
}

/// Whether the bytes `s[a..b]` start with `lit`.
pub fn range_starts_with(s: &[u8], a: usize, b: usize, lit: &[u8]) -> (r: bool)
    requires
        a <= b <= s.len(),
    ensures
        r == (lit@.len() <= b - a && s@.subrange(a as int, b as int).subrange(0, lit@.len() as int) == lit@),
{
    if b - a < lit.len() {
        return false;
    }
    let r = crate::text::bytes_at(s, lit, a);
    assert(s@.subrange(a as int, b as int).subrange(0, lit@.len() as int) =~= s@.subrange(a as int, a + lit@.len()));
    r
}


/// Why a decimal integer failed to parse (the kinds of `core::num::IntErrorKind`
/// that an unsigned parse can produce).
#[derive(Clone, Copy, Debug, PartialEq, Eq, Structural)]
pub enum IntErrorKind {
    Empty,
    InvalidDigit,
    PosOverflow,
}

pub open spec fn is_digit(b: u8) -> bool {
    48 <= b && b <= 57
}

/// Scan of the digits `d[k..]` onto the value `acc`, stopping at the first
/// byte that is not a digit or that takes the value above `max`.
pub open spec fn digit_scan(d: Seq<u8>, k: int, acc: int, max: int) -> Result<int, IntErrorKind>
    decreases d.len() - k,
{
    if k < 0 || k >= d.len() {
        Ok(acc)
    } else if !is_digit(d[k]) {
        Err(IntErrorKind::InvalidDigit)
    } else if acc * 10 + (d[k] - 48) > max {
        Err(IntErrorKind::PosOverflow)
    } else {
        digit_scan(d, k + 1, acc * 10 + (d[k] - 48), max)
    }
}

/// Result of parsing the text `s` as an unsigned decimal integer no larger
/// than `max`, as `u64::from_str` (and its `u32` and `usize` siblings) do:
/// one optional leading `+`, then decimal digits only.
pub open spec fn parse_uint(s: Seq<u8>, max: int) -> Result<int, IntErrorKind> {
    if s.len() == 0 {
        Err(IntErrorKind::Empty)
    } else if (s[0] == 43 || s[0] == 45) && s.len() == 1 {
        Err(IntErrorKind::InvalidDigit)
    } else if s[0] == 43 {
        digit_scan(s, 1, 0, max)
    } else {
        digit_scan(s, 0, 0, max)
    }
}

pub proof fn lemma_digit_scan_bounded(d: Seq<u8>, k: int, acc: int, max: int)
    requires
        0 <= acc <= max,
    ensures
        digit_scan(d, k, acc, max) matches Ok(v) ==> 0 <= v <= max,
    decreases d.len() - k,
{
    if k < 0 || k >= d.len() {
    } else if !is_digit(d[k]) {
    } else if acc * 10 + (d[k] - 48) > max {
    } else {
        lemma_digit_scan_bounded(d, k + 1, acc * 10 + (d[k] - 48), max);
    }
}

/// Parses `s` as an unsigned decimal integer no larger than `max`.
pub fn parse_uint_bytes(s: &[u8], max: u64) -> (r: Result<u64, IntErrorKind>)
    ensures
        match r {
            Ok(v) => parse_uint(s@, max as int) == Ok::<int, IntErrorKind>(v as int),
            Err(e) => parse_uint(s@, max as int) == Err::<int, IntErrorKind>(e),
        },
        r matches Ok(v) ==> v <= max,
{
    let n = s.len();
    if n == 0 {
        return Err(IntErrorKind::Empty);
    }
    if (s[0] == 43 || s[0] == 45) && n == 1 {
        return Err(IntErrorKind::InvalidDigit);
    }
    let mut k: usize = if s[0] == 43 { 1 } else { 0 };
    let ghost start = k as int;
    let mut acc: u64 = 0;
    while k < n
        invariant
            n == s.len(),
            k <= n,
            acc <= max,
            digit_scan(s@, k as int, acc as int, max as int) == digit_scan(s@, start, 0, max as int),
            parse_uint(s@, max as int) == digit_scan(s@, start, 0, max as int),
        decreases n - k,
    {
        let b = s[k];
        if !(48 <= b && b <= 57) {
            return Err(IntErrorKind::InvalidDigit);
        }
        let digit = (b - 48) as u64;
        if digit > max || acc > (max - digit) / 10 {
            if digit <= max {
                assert(acc * 10 + digit > max) by (nonlinear_arith)
                    requires
                        acc > (max - digit) / 10,
                        digit <= max,
                ;
            }
            return Err(IntErrorKind::PosOverflow);
        }
        assert(acc * 10 + digit <= max) by (nonlinear_arith)
            requires
                acc <= (max - digit) / 10,
                digit <= 9,
        ;
        acc = acc * 10 + digit;
        k += 1;
    }
    Ok(acc)
}


/// The words of the UTF-8 text `s`, as characters.
pub open spec fn word_texts(s: Seq<u8>) -> Seq<Seq<char>> {
    words(s).map_values(|w: Seq<u8>| vstd::utf8::decode_utf8(w))
}

/// The whitespace-separated words of `s`.
///
/// Calls `str::split_whitespace`, which yields the maximal runs of
/// characters without the Unicode `White_Space` property, in order; the
/// contract restates that through [`words`], each word decoded.
#[verifier::external_body]
pub(crate) fn split_whitespace_words(s: &str) -> (r: Vec<String>)
    ensures
        r@.len() == word_texts(s.spec_bytes()).len(),
        forall|i: int| 0 <= i < r@.len() ==> (#[trigger] r@[i])@ == word_texts(s.spec_bytes())[i],
{
    s.split_whitespace().map(|w| w.to_string()).collect()
}

} // verus!
