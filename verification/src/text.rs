//! Byte-level text helpers shared by the payload and rule parsers.

use vstd::prelude::*;
use vstd::string::StringSliceAdditionalSpecFns;

verus! {

broadcast use vstd::utf8::group_utf8_lib;

/// ASCII lower-casing of one byte, as `u8::to_ascii_lowercase` does it.
pub open spec fn lower(b: u8) -> u8 {
    if 65 <= b && b <= 90 {
        (b + 32) as u8
    } else {
        b
    }
}

pub fn ascii_lower(b: u8) -> (r: u8)
    ensures
        r == lower(b),
{
    if 65 <= b && b <= 90 {
        b + 32
    } else {
        b
    }
}

/// `value` begins with `prefix`, comparing bytes without regard to ASCII case.
pub open spec fn starts_with_ci(value: Seq<u8>, prefix: Seq<u8>) -> bool {
    &&& value.len() >= prefix.len()
    &&& forall|i: int| 0 <= i < prefix.len() ==> lower(#[trigger] value[i]) == lower(prefix[i])
}

/// Whether `value` starts with `prefix`, ignoring ASCII case.
pub fn starts_with_ignore_ascii_case(value: &[u8], prefix: &[u8]) -> (r: bool)
    ensures
        r == starts_with_ci(value@, prefix@),
{
    if value.len() < prefix.len() {
        return false;
    }
    let mut i: usize = 0;
    while i < prefix.len()
        invariant
            i <= prefix.len() <= value.len(),
            forall|j: int| 0 <= j < i ==> lower(#[trigger] value@[j]) == lower(prefix@[j]),
        decreases prefix.len() - i,
    {
        if ascii_lower(value[i]) != ascii_lower(prefix[i]) {
            return false;
        }
        i += 1;
    }
    true
}


/// `needle` occurs in `hay` starting at byte `i`.
pub open spec fn occurs_at(hay: Seq<u8>, needle: Seq<u8>, i: int) -> bool {
    &&& 0 <= i
    &&& i + needle.len() <= hay.len()
    &&& hay.subrange(i, i + needle.len()) == needle
}

/// The first occurrence of `needle` in `hay`, if any.
#[verifier::opaque]
pub open spec fn first_occurrence(hay: Seq<u8>, needle: Seq<u8>) -> Option<int> {
    if exists|i: int| occurs_at(hay, needle, i) {
        Some(choose|i: int| occurs_at(hay, needle, i) && forall|j: int| 0 <= j < i ==> !occurs_at(hay, needle, j))
    } else {
        None
    }
}

proof fn lemma_least_occurrence(hay: Seq<u8>, needle: Seq<u8>, i: int)
    requires
        occurs_at(hay, needle, i),
    ensures
        exists|k: int| occurs_at(hay, needle, k) && forall|j: int| 0 <= j < k ==> !occurs_at(hay, needle, j),
    decreases i,
{
    if exists|j: int| 0 <= j < i && occurs_at(hay, needle, j) {
        let j = choose|j: int| 0 <= j < i && occurs_at(hay, needle, j);
        lemma_least_occurrence(hay, needle, j);
    } else {
        assert(occurs_at(hay, needle, i) && forall|j: int| 0 <= j < i ==> !occurs_at(hay, needle, j));
    }
}

pub proof fn lemma_first_occurrence(hay: Seq<u8>, needle: Seq<u8>)
    ensures
        first_occurrence(hay, needle) matches Some(i) ==> occurs_at(hay, needle, i) && forall|j: int|
            0 <= j < i ==> !occurs_at(hay, needle, j),
        first_occurrence(hay, needle) is None ==> forall|j: int| !occurs_at(hay, needle, j),
{
    reveal(first_occurrence);
    if exists|i: int| occurs_at(hay, needle, i) {
        let i = choose|i: int| occurs_at(hay, needle, i);
        lemma_least_occurrence(hay, needle, i);
    }
}

/// Whether `needle` occurs at byte `i` of `hay` (exec check).
pub fn bytes_at(hay: &[u8], needle: &[u8], i: usize) -> (r: bool)
    ensures
        r == occurs_at(hay@, needle@, i as int),
{
    if i > hay.len() || needle.len() > hay.len() - i {
        return false;
    }
    let mut k: usize = 0;
    while k < needle.len()
        invariant
            i + needle.len() <= hay.len(),
            k <= needle.len(),
            forall|j: int| 0 <= j < k ==> hay@[i + j] == needle@[j],
        decreases needle.len() - k,
    {
        if hay[i + k] != needle[k] {
            assert(hay@.subrange(i as int, i + needle.len())[k as int] != needle@[k as int]);
            return false;
        }
        k += 1;
    }
    assert(hay@.subrange(i as int, i + needle.len()) =~= needle@);
    true
}

/// Position of the first window of `haystack` equal to `needle`
/// (`haystack.windows(needle.len()).position(..)`).
pub fn find_bytes(haystack: &[u8], needle: &[u8]) -> (r: Option<usize>)
    requires
        needle.len() > 0,
    ensures
        match r {
            Some(i) => occurs_at(haystack@, needle@, i as int) && forall|j: int|
                0 <= j < i ==> !occurs_at(haystack@, needle@, j),
            None => forall|j: int| !occurs_at(haystack@, needle@, j),
        },
        r matches Some(i) ==> first_occurrence(haystack@, needle@) == Some(i as int),
        r is None <==> first_occurrence(haystack@, needle@) is None,
{
    reveal(first_occurrence);
    if needle.len() > haystack.len() {
        return None;
    }
    let last = haystack.len() - needle.len();
    let mut i: usize = 0;
    while i <= last
        invariant
            last + needle.len() == haystack.len(),
            needle.len() > 0,
            forall|j: int| 0 <= j < i ==> !occurs_at(haystack@, needle@, j),
        decreases last + 1 - i,
    {
        if bytes_at(haystack, needle, i) {
            proof {
                reveal(first_occurrence);
                let ii = i as int;
                assert(occurs_at(haystack@, needle@, ii) && forall|j: int| 0 <= j < ii ==> !occurs_at(haystack@, needle@, j));
                let w = choose|k: int| occurs_at(haystack@, needle@, k) && forall|j: int| 0 <= j < k ==> !occurs_at(haystack@, needle@, j);
                assert(occurs_at(haystack@, needle@, w));
                if w < ii {
                } else if w > ii {
                    assert(!occurs_at(haystack@, needle@, ii));
                }
                assert(w == ii);
            }
            return Some(i);
        }
        i += 1;
    }
    proof {
        reveal(first_occurrence);
    }
    None
}


/// `needle` occurs at byte `i` of `hay` once `hay` is ASCII lower-cased.
pub open spec fn occurs_lower_at(hay: Seq<u8>, needle: Seq<u8>, i: int) -> bool {
    &&& 0 <= i
    &&& i + needle.len() <= hay.len()
    &&& forall|k: int| 0 <= k < needle.len() ==> lower(#[trigger] hay[i + k]) == needle[k]
}

/// The ASCII lower-cased text of `hay` contains `needle`.
///
/// For an ASCII `needle` this is what
/// `String::from_utf8_lossy(hay).to_ascii_lowercase().contains(needle)`
/// answers: lossy decoding keeps every ASCII byte in place and only replaces
/// invalid sequences by a non-ASCII character.
pub open spec fn contains_lower(hay: Seq<u8>, needle: Seq<u8>) -> bool {
    exists|i: int| occurs_lower_at(hay, needle, i)
}

/// Whether `needle` occurs at byte `i` of the ASCII lower-cased `hay`.
pub fn lowercase_at(hay: &[u8], needle: &[u8], i: usize) -> (r: bool)
    ensures
        r == occurs_lower_at(hay@, needle@, i as int),
{
    if i > hay.len() || needle.len() > hay.len() - i {
        return false;
    }
    let mut k: usize = 0;
    while k < needle.len()
        invariant
            i + needle.len() <= hay.len(),
            k <= needle.len(),
            forall|j: int| 0 <= j < k ==> lower(#[trigger] hay@[i + j]) == needle@[j],
        decreases needle.len() - k,
    {
        if ascii_lower(hay[i + k]) != needle[k] {
            return false;
        }
        k += 1;
    }
    true
}

/// Whether the ASCII lower-cased `hay` contains `needle`.
pub fn contains_lowercase(hay: &[u8], needle: &[u8]) -> (r: bool)
    ensures
        r == contains_lower(hay@, needle@),
{
    if needle.len() == 0 {
        assert(occurs_lower_at(hay@, needle@, 0));
        return true;
    }
    if needle.len() > hay.len() {
        return false;
    }
    let last = hay.len() - needle.len();
    let mut i: usize = 0;
    while i <= last
        invariant
            last + needle.len() == hay.len(),
            needle.len() > 0,
            forall|j: int| 0 <= j < i ==> !occurs_lower_at(hay@, needle@, j),
        decreases last + 1 - i,
    {
        if lowercase_at(hay, needle, i) {
            return true;
        }
        i += 1;
    }
    false
}


/// Whether `bytes` is well-formed UTF-8.
///
/// Calls `std::str::from_utf8`, which succeeds exactly on well-formed UTF-8;
/// the contract restates that through vstd's `valid_utf8`.
#[verifier::external_body]
pub(crate) fn utf8_is_valid(bytes: &[u8]) -> (r: bool)
    ensures
        r == vstd::utf8::valid_utf8(bytes@),
{
    std::str::from_utf8(bytes).is_ok()
}


pub open spec fn digit_char(d: int) -> char {
    if d == 0 { '0' } else if d == 1 { '1' } else if d == 2 { '2' } else if d == 3 { '3' }
    else if d == 4 { '4' } else if d == 5 { '5' } else if d == 6 { '6' } else if d == 7 { '7' }
    else if d == 8 { '8' } else { '9' }
}

/// Decimal text of `n`, as `Display` for unsigned integers writes it.
pub open spec fn decimal(n: nat) -> Seq<char>
    decreases n,
{
    if n < 10 {
        seq![digit_char(n as int)]
    } else {
        decimal(n / 10).push(digit_char((n % 10) as int))
    }
}

fn digit_str(d: u64) -> (s: &'static str)
    requires
        d < 10,
    ensures
        s@ == seq![digit_char(d as int)],
{
    proof {
        reveal_strlit("0");
        reveal_strlit("1");
        reveal_strlit("2");
        reveal_strlit("3");
        reveal_strlit("4");
        reveal_strlit("5");
        reveal_strlit("6");
        reveal_strlit("7");
        reveal_strlit("8");
        reveal_strlit("9");
    }
    if d == 0 { "0" } else if d == 1 { "1" } else if d == 2 { "2" } else if d == 3 { "3" }
    else if d == 4 { "4" } else if d == 5 { "5" } else if d == 6 { "6" } else if d == 7 { "7" }
    else if d == 8 { "8" } else { "9" }
}

/// Appends the decimal text of `n` to `out`.
pub fn push_decimal(out: &mut String, n: u64)
    ensures
        final(out)@ == old(out)@ + decimal(n as nat),
    decreases n,
{
    if n >= 10 {
        push_decimal(out, n / 10);
    }
    out.append(digit_str(n % 10));
    assert(decimal(n as nat) == if n < 10 { seq![digit_char(n as int)] } else { decimal((n / 10) as nat).push(digit_char((n % 10) as int)) });
}

/// The decimal text of `n`.
pub fn u64_to_decimal(n: u64) -> (s: String)
    ensures
        s@ == decimal(n as nat),
{
    let mut s = String::new();
    push_decimal(&mut s, n);
    assert(s@ =~= decimal(n as nat));
    s
}

/// In well-formed UTF-8 text, an ASCII byte is a whole character: a
/// character starts at it and right after it.
pub proof fn lemma_ascii_boundary(bytes: Seq<u8>, i: int)
    requires
        vstd::utf8::valid_utf8(bytes),
        0 <= i < bytes.len(),
        bytes[i] < 0x80,
    ensures
        vstd::utf8::is_char_boundary(bytes, i),
        vstd::utf8::is_char_boundary(bytes, i + 1),
{
    vstd::utf8::is_char_boundary_iff_not_is_continuation_byte(bytes, i);
    if i + 1 == bytes.len() {
        vstd::utf8::is_char_boundary_start_end_of_seq(bytes);
    } else {
        vstd::utf8::valid_utf8_split(bytes, i);
        let suf = bytes.subrange(i, bytes.len() as int);
        assert(vstd::utf8::valid_utf8(suf));
        assert(suf[0] == bytes[i]);
        let rest = vstd::utf8::pop_first_scalar(suf);
        assert(rest =~= bytes.subrange(i + 1, bytes.len() as int));
        assert(vstd::utf8::valid_utf8(rest));
        assert(rest[0] == bytes[i + 1]);
        assert(vstd::utf8::valid_first_scalar(rest));
        vstd::utf8::is_char_boundary_iff_not_is_continuation_byte(bytes, i + 1);
    }
}

/// The text of bytes `a..b` of `s`, which start and end on characters.
pub fn substring(s: &str, a: usize, b: usize) -> (r: String)
    requires
        a <= b <= s.spec_bytes().len(),
        vstd::utf8::is_char_boundary(s.spec_bytes(), a as int),
        vstd::utf8::is_char_boundary(s.spec_bytes(), b as int),
    ensures
        vstd::utf8::encode_utf8(r@) == s.spec_bytes().subrange(a as int, b as int),
        r@ == vstd::utf8::decode_utf8(s.spec_bytes().subrange(a as int, b as int)),
{
    let ghost all = s.spec_bytes();
    let (head, _) = s.split_at(b);
    proof {
        vstd::utf8::valid_utf8_split(all, b as int);
        let h = all.subrange(0, b as int);
        assert(head.spec_bytes() == h);
        if a < b {
            vstd::utf8::is_char_boundary_iff_not_is_continuation_byte(all, a as int);
            vstd::utf8::is_char_boundary_iff_not_is_continuation_byte(h, a as int);
            assert(h[a as int] == all[a as int]);
        } else {
            vstd::utf8::is_char_boundary_start_end_of_seq(h);
        }
    }
    let (_, mid) = head.split_at(a);
    proof {
        assert(mid.spec_bytes() =~= all.subrange(a as int, b as int));
    }
    String::from_str(mid)
}

/// UTF-8 encoding distributes over concatenation.
pub proof fn lemma_encode_concat(a: Seq<char>, b: Seq<char>)
    ensures
        vstd::utf8::encode_utf8(a + b) == vstd::utf8::encode_utf8(a) + vstd::utf8::encode_utf8(b),
    decreases a.len(),
{
    if a.len() == 0 {
        assert(a + b =~= b);
        assert(vstd::utf8::encode_utf8(a) =~= Seq::<u8>::empty());
        assert(Seq::<u8>::empty() + vstd::utf8::encode_utf8(b) =~= vstd::utf8::encode_utf8(b));
    } else {
        lemma_encode_concat(a.drop_first(), b);
        assert((a + b).drop_first() =~= a.drop_first() + b);
        assert((a + b)[0] == a[0]);
        let e0 = vstd::utf8::encode_scalar(a[0] as u32);
        assert(e0 + (vstd::utf8::encode_utf8(a.drop_first()) + vstd::utf8::encode_utf8(b)) =~= (e0
            + vstd::utf8::encode_utf8(a.drop_first())) + vstd::utf8::encode_utf8(b));
    }
}

/// Appends `s` to `out`, tracking the bytes of the text.
pub fn append_tracked(out: &mut String, s: &str)
    ensures
        final(out)@ == old(out)@ + s@,
        vstd::utf8::encode_utf8(final(out)@) == vstd::utf8::encode_utf8(old(out)@) + s.spec_bytes(),
{
    proof {
        lemma_encode_concat(out@, s@);
    }
    out.append(s);
}

/// Appends the decimal text of `n` to `out`.
pub fn push_decimal_u128(out: &mut String, n: u128)
    ensures
        final(out)@ == old(out)@ + decimal(n as nat),
    decreases n,
{
    if n >= 10 {
        push_decimal_u128(out, n / 10);
    }
    out.append(digit_str((n % 10) as u64));
    assert(decimal(n as nat) == if n < 10 { seq![digit_char(n as int)] } else { decimal((n / 10) as nat).push(digit_char((n % 10) as int)) });
}

} // verus!
