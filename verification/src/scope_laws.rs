//! Laws of path normalisation and scope display: a normalised path
//! normalises to itself, and the text a scope displays parses back to the
//! same scope.

use vstd::prelude::*;
use crate::scope::{components, is_absolute, norm_stack, normalized_path, rooted_text, scope_display, scope_result, segs_from, seg_comp, text_bytes, Comp, PathScope};
use crate::text::lemma_encode_concat;
use crate::words::{byte_pos_from, lemma_byte_pos_bounds};

verus! {

broadcast use vstd::utf8::group_utf8_lib;

/// A name a normalised path can hold: not empty, not `.` or `..`, and
/// without `/`.
pub open spec fn good_name(n: Seq<u8>) -> bool {
    &&& n.len() > 0
    &&& n != seq![46u8]
    &&& n != seq![46u8, 46u8]
    &&& forall|k: int| 0 <= k < n.len() ==> n[k] != 47u8
}

pub open spec fn good_names(s: Seq<Seq<u8>>) -> bool {
    forall|i: int| 0 <= i < s.len() ==> good_name(#[trigger] s[i])
}

/// Every name among the components is a good one.
pub open spec fn comps_ok(cs: Seq<Comp>) -> bool {
    forall|i: int| 0 <= i < cs.len() ==> (#[trigger] cs[i] matches Comp::Normal(n) ==> good_name(n))
}

pub open spec fn normals(s: Seq<Seq<u8>>) -> Seq<Comp> {
    s.map_values(|n: Seq<u8>| Comp::Normal(n))
}

/// The names joined by `/`, with no leading `/`.
pub open spec fn joined(s: Seq<Seq<u8>>) -> Seq<u8>
    decreases s.len(),
{
    if s.len() == 0 {
        Seq::empty()
    } else if s.len() == 1 {
        s[0]
    } else {
        s[0] + seq![47u8] + joined(s.drop_first())
    }
}

proof fn lemma_pos_shift(p: Seq<u8>, t: Seq<u8>, j: int, c: u8)
    requires
        0 <= j,
    ensures
        byte_pos_from(p + t, p.len() + j, c) == p.len() + byte_pos_from(t, j, c),
    decreases t.len() - j,
{
    if j < t.len() {
        assert((p + t)[p.len() + j] == t[j]);
        if t[j] != c {
            lemma_pos_shift(p, t, j + 1, c);
        }
    }
}

proof fn lemma_pos_in_name(n: Seq<u8>, t: Seq<u8>, j: int, c: u8)
    requires
        0 <= j <= n.len(),
        forall|k: int| j <= k < n.len() ==> n[k] != c,
    ensures
        byte_pos_from(n + t, j, c) == byte_pos_from(n + t, n.len() as int, c),
    decreases n.len() - j,
{
    if j < n.len() {
        assert((n + t)[j] == n[j]);
        lemma_pos_in_name(n, t, j + 1, c);
    }
}

proof fn lemma_segs_shift(p: Seq<u8>, t: Seq<u8>, j: int)
    requires
        0 <= j,
    ensures
        segs_from(p + t, p.len() + j) == segs_from(t, j),
    decreases t.len() - j,
{
    if j < t.len() {
        let pt = p + t;
        let e = byte_pos_from(t, j, 47u8);
        lemma_pos_shift(p, t, j, 47u8);
        lemma_byte_pos_bounds(t, j, 47u8);
        assert(pt.subrange(p.len() + j, p.len() + e) =~= t.subrange(j, e));
        if e < t.len() {
            lemma_segs_shift(p, t, e + 1);
            assert(segs_from(pt, p.len() + e + 1) == segs_from(t, e + 1));
        }
    }
}

proof fn lemma_segs_joined(s: Seq<Seq<u8>>)
    requires
        s.len() >= 1,
        good_names(s),
    ensures
        segs_from(joined(s), 0) == normals(s),
    decreases s.len(),
{
    let s0 = s[0];
    assert(good_name(s0));
    if s.len() == 1 {
        let t = s0;
        assert(t + Seq::<u8>::empty() =~= t);
        lemma_pos_in_name(t, Seq::<u8>::empty(), 0, 47u8);
        assert(byte_pos_from(t, 0, 47u8) == t.len());
        assert(t.subrange(0, t.len() as int) =~= t);
        assert(seg_comp(t) == Some(Comp::Normal(t)));
        assert(segs_from(t, 0) =~= seq![Comp::Normal(t)]);
        assert(normals(s) =~= seq![Comp::Normal(t)]);
    } else {
        let rest = s.drop_first();
        assert(good_names(rest)) by {
            assert forall|i: int| 0 <= i < rest.len() implies good_name(#[trigger] rest[i]) by {
                assert(rest[i] == s[i + 1]);
            }
        }
        let tail = seq![47u8] + joined(rest);
        let t = s0 + tail;
        assert(joined(s) == t) by {
            assert(s0 + seq![47u8] + joined(rest) =~= s0 + tail);
        }
        lemma_pos_in_name(s0, tail, 0, 47u8);
        assert(t[s0.len() as int] == 47u8);
        assert(byte_pos_from(t, 0, 47u8) == s0.len());
        assert(t.subrange(0, s0.len() as int) =~= s0);
        let p = s0 + seq![47u8];
        assert(t =~= p + joined(rest));
        lemma_segs_shift(p, joined(rest), 0);
        lemma_segs_joined(rest);
        assert(segs_from(t, s0.len() as int + 1) == normals(rest));
        assert(normals(s) =~= seq![Comp::Normal(s0)] + normals(rest));
    }
}

proof fn lemma_joined_snoc(s: Seq<Seq<u8>>)
    requires
        s.len() >= 2,
    ensures
        joined(s) == joined(s.drop_last()) + seq![47u8] + s.last(),
    decreases s.len(),
{
    if s.len() == 2 {
        assert(s.drop_first().len() == 1);
        assert(s.drop_last().len() == 1);
        assert(joined(s.drop_first()) == s[1]);
        assert(joined(s.drop_last()) == s[0]);
    } else {
        let r = s.drop_first();
        lemma_joined_snoc(r);
        assert(r.drop_last() =~= s.drop_last().drop_first());
        assert(r.last() == s.last());
        let d = s.drop_last();
        assert(joined(d) == d[0] + seq![47u8] + joined(d.drop_first()));
        assert(d[0] == s[0]);
        assert(joined(s) =~= joined(s.drop_last()) + seq![47u8] + s.last());
    }
}

proof fn lemma_rooted_joined(s: Seq<Seq<u8>>)
    requires
        s.len() >= 1,
    ensures
        rooted_text(s) == seq![47u8] + joined(s),
    decreases s.len(),
{
    if s.len() >= 2 {
        lemma_rooted_joined(s.drop_last());
        lemma_joined_snoc(s);
        assert(rooted_text(s) =~= seq![47u8] + joined(s));
    }
}

proof fn lemma_components_rooted(s: Seq<Seq<u8>>)
    requires
        good_names(s),
    ensures
        components(rooted_text(s)) == seq![Comp::RootDir] + normals(s),
{
    let t = rooted_text(s);
    if s.len() == 0 {
        assert(t == seq![47u8]);
        assert(segs_from(t, 1) =~= Seq::<Comp>::empty());
        assert(normals(s) =~= Seq::<Comp>::empty());
        assert(components(t) =~= seq![Comp::RootDir] + normals(s));
    } else {
        lemma_rooted_joined(s);
        lemma_segs_shift(seq![47u8], joined(s), 0);
        lemma_segs_joined(s);
        assert(t[0] == 47u8);
    }
}

proof fn lemma_norm_stack_normals(s: Seq<Seq<u8>>)
    ensures
        norm_stack(seq![Comp::RootDir] + normals(s)) == s,
    decreases s.len(),
{
    let cs = seq![Comp::RootDir] + normals(s);
    if s.len() == 0 {
        assert(cs =~= seq![Comp::RootDir]);
        assert(cs.drop_last() =~= Seq::<Comp>::empty());
        assert(cs.last() == Comp::RootDir);
        assert(norm_stack(cs.drop_last()) == Seq::<Seq<u8>>::empty());
        assert(s =~= Seq::<Seq<u8>>::empty());
    } else {
        lemma_norm_stack_normals(s.drop_last());
        assert(cs.drop_last() =~= seq![Comp::RootDir] + normals(s.drop_last()));
        assert(norm_stack(cs.drop_last()) == s.drop_last());
        assert(cs.last() == Comp::Normal(s.last()));
        assert(norm_stack(cs) == s.drop_last().push(s.last()));
        assert(s.drop_last().push(s.last()) =~= s);
    }
}

proof fn lemma_segs_ok(t: Seq<u8>, i: int)
    ensures
        comps_ok(segs_from(t, i)),
    decreases t.len() - i,
{
    if 0 <= i < t.len() {
        let e = byte_pos_from(t, i, 47u8);
        lemma_byte_pos_bounds(t, i, 47u8);
        let seg = t.subrange(i, e);
        let rest = if e < t.len() {
            lemma_segs_ok(t, e + 1);
            segs_from(t, e + 1)
        } else {
            Seq::<Comp>::empty()
        };
        match seg_comp(seg) {
            None => {},
            Some(c) => {
                let r = seq![c] + rest;
                assert forall|k: int| 0 <= k < r.len() implies (#[trigger] r[k] matches Comp::Normal(n) ==> good_name(n)) by {
                    if k == 0 {
                        assert forall|m: int| 0 <= m < seg.len() implies seg[m] != 47u8 by {
                            assert(seg[m] == t[i + m]);
                        }
                    } else {
                        assert(r[k] == rest[k - 1]);
                    }
                }
            },
        }
    }
}

proof fn lemma_norm_stack_good(cs: Seq<Comp>)
    requires
        comps_ok(cs),
    ensures
        good_names(norm_stack(cs)),
    decreases cs.len(),
{
    if cs.len() > 0 {
        let d = cs.drop_last();
        assert(comps_ok(d)) by {
            assert forall|i: int| 0 <= i < d.len() implies (#[trigger] d[i] matches Comp::Normal(n) ==> good_name(n)) by {
                assert(d[i] == cs[i]);
            }
        }
        lemma_norm_stack_good(d);
        let s = norm_stack(d);
        assert(cs[cs.len() - 1] == cs.last());
        match cs.last() {
            Comp::ParentDir => {
                if s.len() > 0 {
                    assert forall|i: int| 0 <= i < s.drop_last().len() implies good_name(#[trigger] s.drop_last()[i]) by {
                        assert(s.drop_last()[i] == s[i]);
                    }
                }
            },
            Comp::Normal(p) => {
                assert forall|i: int| 0 <= i < s.push(p).len() implies good_name(#[trigger] s.push(p)[i]) by {
                    if i < s.len() {
                        assert(s.push(p)[i] == s[i]);
                    }
                }
            },
            _ => {},
        }
    }
}

/// The names that the normalised form of the absolute path `t` holds are
/// good names, and the normalised text is those names under the root.
proof fn lemma_normalized_names(t: Seq<u8>)
    requires
        is_absolute(t),
    ensures
        good_names(norm_stack(components(t))),
        normalized_path(t) == Ok::<Seq<u8>, Seq<char>>(rooted_text(norm_stack(components(t)))),
{
    lemma_segs_ok(t, 1);
    let cs = components(t);
    assert(cs == seq![Comp::RootDir] + segs_from(t, 1));
    assert(comps_ok(cs)) by {
        assert forall|i: int| 0 <= i < cs.len() implies (#[trigger] cs[i] matches Comp::Normal(n) ==> good_name(n)) by {
            if i > 0 {
                assert(cs[i] == segs_from(t, 1)[i - 1]);
            }
        }
    }
    lemma_norm_stack_good(cs);
}

proof fn lemma_rooted_absolute(s: Seq<Seq<u8>>)
    ensures
        is_absolute(rooted_text(s)),
{
    if s.len() > 0 {
        lemma_rooted_joined(s);
    }
}

/// Law: normalising is idempotent: the normalised form of a path
/// normalises to itself.
pub proof fn law_normalization_is_idempotent(t: Seq<u8>)
    ensures
        normalized_path(t) matches Ok(p) ==> normalized_path(p) == Ok::<Seq<u8>, Seq<char>>(p),
{
    if is_absolute(t) {
        lemma_normalized_names(t);
        let s = norm_stack(components(t));
        let p = rooted_text(s);
        lemma_rooted_absolute(s);
        lemma_components_rooted(s);
        lemma_norm_stack_normals(s);
    }
}

/// The bytes of `/**`.
proof fn lemma_recursive_suffix_bytes()
    ensures
        vstd::utf8::encode_utf8("/**"@) == seq![47u8, 42u8, 42u8],
{
    reveal_strlit("/**");
    assert("/**"@ =~= seq!['/', '*', '*']);
    let cs = seq!['/', '*', '*'];
    assert(47u32 & 0x7Fu32 == 47u32) by (bit_vector);
    assert(42u32 & 0x7Fu32 == 42u32) by (bit_vector);
    assert(cs[0] as u32 == 47u32 && cs[1] as u32 == 42u32 && cs[2] as u32 == 42u32);
    assert(vstd::utf8::encode_scalar(47u32) == seq![47u8]);
    assert(vstd::utf8::encode_scalar(42u32) == seq![42u8]);
    assert(cs.drop_first() =~= seq!['*', '*']);
    assert(cs.drop_first().drop_first() =~= seq!['*']);
    assert(cs.drop_first().drop_first().drop_first() =~= Seq::<char>::empty());
    reveal_with_fuel(vstd::utf8::encode_utf8, 4);
    assert(vstd::utf8::encode_utf8(cs) =~= seq![47u8, 42u8, 42u8]);
}

/// A normalised path text does not end in `/**` unless its last
/// component is the name `**`.
proof fn lemma_no_recursive_suffix(s: Seq<Seq<u8>>)
    requires
        good_names(s),
        s.len() > 0 ==> s.last() != seq![42u8, 42u8],
    ensures
        !crate::scope::has_recursive_suffix(rooted_text(s)),
{
    let b = rooted_text(s);
    if s.len() > 0 {
        let last = s.last();
        assert(good_name(s[s.len() - 1]));
        let pre = if s.len() == 1 { Seq::<u8>::empty() } else { rooted_text(s.drop_last()) };
        assert(b =~= pre + seq![47u8] + last);
        let n = b.len() as int;
        if crate::scope::has_recursive_suffix(b) {
            let suf = b.subrange(n - 3, n);
            assert(suf[0] == b[n - 3] && suf[1] == b[n - 2] && suf[2] == b[n - 1]);
            assert(b[n - 3] == 47u8);
            assert(b[n - 1] == last[last.len() - 1]);
            if last.len() >= 3 {
                assert(b[n - 3] == last[last.len() - 3]);
            } else if last.len() == 2 {
                assert(b[n - 2] == last[0]);
                assert(last =~= seq![42u8, 42u8]);
            } else {
                assert(b[n - 2] == 47u8);
            }
        }
    }
}

/// Law: the text a normalised scope displays (its path, with `/**` for a
/// recursive scope) parses back to the same scope, provided an exact
/// scope's last component is not the name `**` (whose text would read as a
/// recursive scope).
pub proof fn law_display_path_parses_back(x: Seq<u8>, s: PathScope)
    requires
        scope_result(x, true) == Ok::<(bool, Seq<u8>), Seq<char>>(s@),
        !s@.0 ==> components(s@.1).last() != Comp::Normal(seq![42u8, 42u8]),
    ensures
        scope_result(vstd::utf8::encode_utf8(scope_display(s@)), true) == Ok::<(bool, Seq<u8>), Seq<char>>(s@),
{
    let b = s@.1;
    assert(b == text_bytes(s.base()));
    assert(vstd::utf8::encode_utf8(vstd::utf8::decode_utf8(b)) == b);
    let base_x = if crate::scope::has_recursive_suffix(x) { x.subrange(0, x.len() - 3) } else { x };
    assert(normalized_path(base_x) == Ok::<Seq<u8>, Seq<char>>(b));
    lemma_normalized_names(base_x);
    let names = norm_stack(components(base_x));
    assert(b == rooted_text(names));
    law_normalization_is_idempotent(base_x);
    lemma_rooted_absolute(names);
    let d = vstd::utf8::encode_utf8(scope_display(s@));
    if s@.0 {
        lemma_encode_concat(vstd::utf8::decode_utf8(b), "/**"@);
        lemma_recursive_suffix_bytes();
        assert(d == b + seq![47u8, 42u8, 42u8]);
        assert(d.subrange(d.len() - 3, d.len() as int) =~= seq![47u8, 42u8, 42u8]);
        assert(d.subrange(0, d.len() - 3) =~= b);
    } else {
        assert(scope_display(s@) =~= vstd::utf8::decode_utf8(b));
        lemma_components_rooted(names);
        if names.len() > 0 {
            let cs = seq![Comp::RootDir] + normals(names);
            assert(cs.last() == Comp::Normal(names.last()));
        }
        lemma_no_recursive_suffix(names);
    }
}

} // verus!
