//! The order of text keys: lexicographic on UTF-8 bytes, which is the
//! order `String` compares by (and the order a `BTreeMap` keyed by text
//! walks its keys in).

use vstd::prelude::*;
use vstd::string::StringSliceAdditionalSpecFns;

verus! {

broadcast use vstd::utf8::group_utf8_lib;

/// `a` sorts strictly before `b`, byte by byte, a proper prefix first.
pub open spec fn bytes_less(a: Seq<u8>, b: Seq<u8>) -> bool
    decreases a.len(),
{
    if a.len() == 0 {
        b.len() > 0
    } else if b.len() == 0 {
        false
    } else if a[0] != b[0] {
        a[0] < b[0]
    } else {
        bytes_less(a.drop_first(), b.drop_first())
    }
}

pub proof fn lemma_bytes_less_irreflexive(a: Seq<u8>)
    ensures
        !bytes_less(a, a),
    decreases a.len(),
{
    if a.len() > 0 {
        lemma_bytes_less_irreflexive(a.drop_first());
    }
}

pub proof fn lemma_bytes_less_asymmetric(a: Seq<u8>, b: Seq<u8>)
    ensures
        !(bytes_less(a, b) && bytes_less(b, a)),
    decreases a.len(),
{
    if a.len() > 0 && b.len() > 0 && a[0] == b[0] {
        lemma_bytes_less_asymmetric(a.drop_first(), b.drop_first());
    }
}

pub proof fn lemma_bytes_less_transitive(a: Seq<u8>, b: Seq<u8>, c: Seq<u8>)
    requires
        bytes_less(a, b),
        bytes_less(b, c),
    ensures
        bytes_less(a, c),
    decreases a.len(),
{
    if a.len() > 0 && b.len() > 0 && c.len() > 0 && a[0] == b[0] && b[0] == c[0] {
        lemma_bytes_less_transitive(a.drop_first(), b.drop_first(), c.drop_first());
    }
}

pub proof fn lemma_bytes_less_total(a: Seq<u8>, b: Seq<u8>)
    ensures
        a == b || bytes_less(a, b) || bytes_less(b, a),
    decreases a.len(),
{
    if a.len() == 0 {
        if b.len() == 0 {
            assert(a =~= b);
        }
    } else if b.len() > 0 && a[0] == b[0] {
        lemma_bytes_less_total(a.drop_first(), b.drop_first());
        if a.drop_first() == b.drop_first() {
            assert(a =~= seq![a[0]] + a.drop_first());
            assert(b =~= seq![b[0]] + b.drop_first());
        }
    }
}

/// Text order: `a` sorts before `b` as `String` compares them.
pub open spec fn text_less(a: Seq<char>, b: Seq<char>) -> bool {
    bytes_less(vstd::utf8::encode_utf8(a), vstd::utf8::encode_utf8(b))
}

pub proof fn lemma_text_less_irreflexive(a: Seq<char>)
    ensures
        !text_less(a, a),
{
    lemma_bytes_less_irreflexive(vstd::utf8::encode_utf8(a));
}

pub proof fn lemma_text_less_asymmetric(a: Seq<char>, b: Seq<char>)
    ensures
        !(text_less(a, b) && text_less(b, a)),
{
    lemma_bytes_less_asymmetric(vstd::utf8::encode_utf8(a), vstd::utf8::encode_utf8(b));
}

pub proof fn lemma_text_less_transitive(a: Seq<char>, b: Seq<char>, c: Seq<char>)
    requires
        text_less(a, b),
        text_less(b, c),
    ensures
        text_less(a, c),
{
    lemma_bytes_less_transitive(vstd::utf8::encode_utf8(a), vstd::utf8::encode_utf8(b), vstd::utf8::encode_utf8(c));
}

pub proof fn lemma_text_less_total(a: Seq<char>, b: Seq<char>)
    ensures
        a == b || text_less(a, b) || text_less(b, a),
{
    lemma_bytes_less_total(vstd::utf8::encode_utf8(a), vstd::utf8::encode_utf8(b));
    if vstd::utf8::encode_utf8(a) == vstd::utf8::encode_utf8(b) {
        assert(vstd::utf8::decode_utf8(vstd::utf8::encode_utf8(a)) == a);
        assert(vstd::utf8::decode_utf8(vstd::utf8::encode_utf8(b)) == b);
    }
}

/// Whether `a` sorts strictly before `b`.
pub fn str_less(a: &str, b: &str) -> (r: bool)
    ensures
        r == text_less(a@, b@),
{
    let x = a.as_bytes();
    let y = b.as_bytes();
    let ghost xa = x@;
    let ghost yb = y@;
    let mut i: usize = 0;
    assert(xa.subrange(0, xa.len() as int) =~= xa);
    assert(yb.subrange(0, yb.len() as int) =~= yb);
    while i < x.len() && i < y.len()
        invariant
            xa == x@,
            yb == y@,
            xa == a.spec_bytes(),
            yb == b.spec_bytes(),
            i <= x@.len(),
            i <= y@.len(),
            bytes_less(xa, yb) == bytes_less(xa.subrange(i as int, xa.len() as int), yb.subrange(i as int, yb.len() as int)),
        decreases x@.len() - i,
    {
        let ghost sa = xa.subrange(i as int, xa.len() as int);
        let ghost sb = yb.subrange(i as int, yb.len() as int);
        if x[i] != y[i] {
            assert(sa[0] == x@[i as int] && sb[0] == y@[i as int]);
            return x[i] < y[i];
        }
        assert(sa.drop_first() =~= xa.subrange(i + 1, xa.len() as int));
        assert(sb.drop_first() =~= yb.subrange(i + 1, yb.len() as int));
        i += 1;
    }
    let ghost sa = xa.subrange(i as int, xa.len() as int);
    let ghost sb = yb.subrange(i as int, yb.len() as int);
    assert(sa.len() == 0 || sb.len() == 0);
    i == x.len() && i < y.len()
}

} // verus!
