//! Path scopes of file policy rules: an exact path, or everything under a
//! base (`<base>/**`). Paths are Unix paths held as UTF-8 text and compare
//! by their components, as `std::path::Path` compares them.

use vstd::prelude::*;
use vstd::string::StringSliceAdditionalSpecFns;
use crate::text::{append_tracked, lemma_ascii_boundary, substring};
use crate::words::{byte_pos_from, find_byte_from, lemma_byte_pos_bounds};

verus! {

broadcast use vstd::utf8::group_utf8_lib;

/// One component of a path.
pub enum Comp {
    RootDir,
    CurDir,
    ParentDir,
    Normal(Seq<u8>),
}

/// The component a `/`-separated segment contributes, if any: empty
/// segments and `.` vanish.
pub open spec fn seg_comp(seg: Seq<u8>) -> Option<Comp> {
    if seg.len() == 0 || seg == seq![46u8] {
        None
    } else if seg == seq![46u8, 46] {
        Some(Comp::ParentDir)
    } else {
        Some(Comp::Normal(seg))
    }
}

/// Components of the segments that start at byte `i`.
pub open spec fn segs_from(t: Seq<u8>, i: int) -> Seq<Comp>
    decreases t.len() - i,
{
    if i < 0 || i >= t.len() {
        Seq::empty()
    } else {
        let e = byte_pos_from(t, i, 47u8);
        let rest = if e < t.len() {
            proof {
                lemma_byte_pos_bounds(t, i, 47u8);
            }
            segs_from(t, e + 1)
        } else {
            Seq::empty()
        };
        match seg_comp(t.subrange(i, e)) {
            None => rest,
            Some(c) => seq![c] + rest,
        }
    }
}

/// The components of the path text `t`, as `Path::components` yields them
/// on Unix: a root, then the segments without empty ones and without `.`,
/// except that a relative path starting with `.` keeps it as `CurDir`.
pub open spec fn components(t: Seq<u8>) -> Seq<Comp> {
    if t.len() > 0 && t[0] == 47u8 {
        seq![Comp::RootDir] + segs_from(t, 1)
    } else if t.subrange(0, byte_pos_from(t, 0, 47u8)) == seq![46u8] {
        seq![Comp::CurDir] + (if byte_pos_from(t, 0, 47u8) < t.len() {
            segs_from(t, byte_pos_from(t, 0, 47u8) + 1)
        } else {
            Seq::empty()
        })
    } else {
        segs_from(t, 0)
    }
}

pub open spec fn is_absolute(t: Seq<u8>) -> bool {
    t.len() > 0 && t[0] == 47u8
}

/// `base`'s components begin those of `p` (`Path::starts_with`).
pub open spec fn path_starts_with(p: Seq<u8>, base: Seq<u8>) -> bool {
    let cp = components(p);
    let cb = components(base);
    cb.len() <= cp.len() && cp.subrange(0, cb.len() as int) == cb
}

/// The names left after resolving the components in order: a normal name
/// is pushed, `..` pops one (none at the root), the rest change nothing.
pub open spec fn norm_stack(cs: Seq<Comp>) -> Seq<Seq<u8>>
    decreases cs.len(),
{
    if cs.len() == 0 {
        Seq::empty()
    } else {
        let s = norm_stack(cs.drop_last());
        match cs.last() {
            Comp::ParentDir => if s.len() > 0 {
                s.drop_last()
            } else {
                s
            },
            Comp::Normal(p) => s.push(p),
            _ => s,
        }
    }
}

/// The absolute path text of the names: `/` alone, or `/` before each name.
pub open spec fn rooted_text(names: Seq<Seq<u8>>) -> Seq<u8>
    decreases names.len(),
{
    if names.len() == 0 {
        seq![47u8]
    } else if names.len() == 1 {
        seq![47u8] + names[0]
    } else {
        rooted_text(names.drop_last()) + seq![47u8] + names.last()
    }
}

/// The normalised absolute path of `t`, or the message refusing a relative one.
pub open spec fn normalized_path(t: Seq<u8>) -> Result<Seq<u8>, Seq<char>> {
    if !is_absolute(t) {
        Err("path "@ + vstd::utf8::decode_utf8(t) + " must be absolute"@)
    } else {
        Ok(rooted_text(norm_stack(components(t))))
    }
}

/// The path `t` as given, or the message refusing a relative one.
pub open spec fn absolute_text(t: Seq<u8>) -> Result<Seq<u8>, Seq<char>> {
    if !is_absolute(t) {
        Err("path "@ + vstd::utf8::decode_utf8(t) + " must be absolute"@)
    } else {
        Ok(t)
    }
}

pub open spec fn recursive_suffix() -> Seq<u8> {
    seq![47u8, 42, 42]
}

pub open spec fn has_recursive_suffix(t: Seq<u8>) -> bool {
    t.len() >= 3 && t.subrange(t.len() - 3, t.len() as int) == recursive_suffix()
}

/// The scope a rule path denotes, as (recursive, path text), with `path`
/// resolving each path text; a `/**` suffix needs a non-empty base.
pub open spec fn scope_result(t: Seq<u8>, normalize: bool) -> Result<(bool, Seq<u8>), Seq<char>> {
    if has_recursive_suffix(t) {
        let base = t.subrange(0, t.len() - 3);
        if base.len() == 0 {
            Err("recursive path scope base must not be empty"@)
        } else {
            match (if normalize { normalized_path(base) } else { absolute_text(base) }) {
                Ok(b) => Ok((true, b)),
                Err(e) => Err(e),
            }
        }
    } else {
        match (if normalize { normalized_path(t) } else { absolute_text(t) }) {
            Ok(b) => Ok((false, b)),
            Err(e) => Err(e),
        }
    }
}

/// A rule's path scope.
#[derive(Clone, Debug)]
pub enum PathScope {
    Exact(String),
    Recursive(String),
}

pub open spec fn text_bytes(s: String) -> Seq<u8> {
    vstd::utf8::encode_utf8(s@)
}

impl View for PathScope {
    type V = (bool, Seq<u8>);

    /// Whether the scope is recursive, and the bytes of its path.
    open spec fn view(&self) -> (bool, Seq<u8>) {
        (self.recursive(), text_bytes(self.base()))
    }
}

/// Two scopes are equal as `PathBuf` values compare: same kind, same
/// components.
pub open spec fn scope_same(a: (bool, Seq<u8>), b: (bool, Seq<u8>)) -> bool {
    a.0 == b.0 && components(a.1) == components(b.1)
}

/// Every path of `inner` lies in `outer` (`PathScope::contains_scope`).
pub open spec fn scope_contains(outer: (bool, Seq<u8>), inner: (bool, Seq<u8>)) -> bool {
    if outer.0 {
        path_starts_with(inner.1, outer.1)
    } else {
        !inner.0 && components(outer.1) == components(inner.1)
    }
}

/// The scope as a rule writes it, as text.
pub open spec fn scope_display(s: (bool, Seq<u8>)) -> Seq<char> {
    vstd::utf8::decode_utf8(s.1) + (if s.0 { "/**"@ } else { Seq::<char>::empty() })
}

impl PathScope {
    pub open spec fn base(&self) -> String {
        match self {
            PathScope::Exact(p) => *p,
            PathScope::Recursive(p) => *p,
        }
    }

    pub open spec fn recursive(&self) -> bool {
        self is Recursive
    }

    /// Whether `path` falls in the scope: the exact path, or anything at or
    /// under the base.
    pub fn matches_path(&self, path: &str) -> (r: bool)
        ensures
            r == match self {
                PathScope::Exact(p) => components(text_bytes(*p)) == components(path.spec_bytes()),
                PathScope::Recursive(b) => path_starts_with(path.spec_bytes(), text_bytes(*b)),
            },
    {
        match self {
            PathScope::Exact(p) => same_components(p.as_str().as_bytes(), path.as_bytes()),
            PathScope::Recursive(b) => starts_with_components(path.as_bytes(), b.as_str().as_bytes()),
        }
    }

    /// Whether every path of `other` is in this scope.
    pub fn contains_scope(&self, other: &PathScope) -> (r: bool)
        ensures
            r == match self {
                PathScope::Exact(p) => other is Exact && components(text_bytes(*p)) == components(
                    text_bytes(other.base()),
                ),
                PathScope::Recursive(b) => path_starts_with(text_bytes(other.base()), text_bytes(*b)),
            },
            r == scope_contains(self@, other@),
    {
        match self {
            PathScope::Exact(p) => match other {
                PathScope::Exact(q) => same_components(p.as_str().as_bytes(), q.as_str().as_bytes()),
                PathScope::Recursive(_) => false,
            },
            PathScope::Recursive(b) => {
                let o = match other {
                    PathScope::Exact(q) => q,
                    PathScope::Recursive(q) => q,
                };
                starts_with_components(o.as_str().as_bytes(), b.as_str().as_bytes())
            },
        }
    }

    /// The exact path, or the base of a recursive scope.
    pub fn display_base(&self) -> (r: String)
        ensures
            r@ == self.base()@,
    {
        match self {
            PathScope::Exact(p) => p.clone(),
            PathScope::Recursive(p) => p.clone(),
        }
    }

    pub fn is_recursive(&self) -> (r: bool)
        ensures
            r == self.recursive(),
    {
        match self {
            PathScope::Recursive(_) => true,
            PathScope::Exact(_) => false,
        }
    }

    /// The same scope, held anew.
    pub fn duplicate(&self) -> (r: PathScope)
        ensures
            r@ == self@,
            r.recursive() == self.recursive(),
            r.base()@ == self.base()@,
    {
        match self {
            PathScope::Exact(p) => PathScope::Exact(p.clone()),
            PathScope::Recursive(p) => PathScope::Recursive(p.clone()),
        }
    }

    /// Scope equality as `PathBuf` compares: same kind, same components.
    pub fn same_as(&self, other: &PathScope) -> (r: bool)
        ensures
            r == scope_same(self@, other@),
    {
        let a = match self {
            PathScope::Exact(p) => p,
            PathScope::Recursive(p) => p,
        };
        let b = match other {
            PathScope::Exact(q) => q,
            PathScope::Recursive(q) => q,
        };
        self.is_recursive() == other.is_recursive() && same_components(a.as_str().as_bytes(), b.as_str().as_bytes())
    }

    /// The scope as a rule writes it: the path, with `/**` for a recursive one.
    pub fn display_path(&self) -> (r: String)
        ensures
            r@ == if self.recursive() { self.base()@ + "/**"@ } else { self.base()@ },
            r@ == scope_display(self@),
    {
        assert(vstd::utf8::decode_utf8(text_bytes(self.base())) == self.base()@);
        match self {
            PathScope::Exact(p) => p.clone(),
            PathScope::Recursive(p) => {
                let mut s = p.clone();
                s.append("/**");
                s
            },
        }
    }
}

/// A component found in a path text: 0 root, 1 `.`, 2 `..`, 3 a name held
/// at bytes `a..b`.
pub open spec fn comp_at(t: Seq<u8>, c: (u8, usize, usize)) -> Comp {
    if c.0 == 0 {
        Comp::RootDir
    } else if c.0 == 1 {
        Comp::CurDir
    } else if c.0 == 2 {
        Comp::ParentDir
    } else {
        Comp::Normal(t.subrange(c.1 as int, c.2 as int))
    }
}

pub open spec fn comps_at(t: Seq<u8>, v: Seq<(u8, usize, usize)>) -> Seq<Comp> {
    v.map_values(|c: (u8, usize, usize)| comp_at(t, c))
}

/// A name's bytes lie in the text between separators.
pub open spec fn name_range_ok(t: Seq<u8>, c: (u8, usize, usize)) -> bool {
    c.0 <= 3 && (c.0 == 3 ==> (c.1 < c.2 <= t.len() && (c.1 == 0 || t[c.1 - 1] == 47u8) && (c.2
        == t.len() || t[c.2 as int] == 47u8)))
}

proof fn lemma_segs_step(t: Seq<u8>, i: int)
    requires
        0 <= i < t.len(),
    ensures
        ({
            let e = byte_pos_from(t, i, 47u8);
            let rest = if e < t.len() { segs_from(t, e + 1) } else { Seq::<Comp>::empty() };
            segs_from(t, i) == match seg_comp(t.subrange(i, e)) {
                None => rest,
                Some(c) => seq![c] + rest,
            }
        }),
{
}

fn push_segment(t: &[u8], i: usize, e: usize, out: &mut Vec<(u8, usize, usize)>)
    requires
        i <= e <= t.len(),
        i == 0 || t@[i - 1] == 47u8,
        e == t.len() || t@[e as int] == 47u8,
        forall|k: int| 0 <= k < old(out)@.len() ==> name_range_ok(t@, #[trigger] old(out)@[k]),
    ensures
        forall|k: int| 0 <= k < final(out)@.len() ==> name_range_ok(t@, #[trigger] final(out)@[k]),
        comps_at(t@, final(out)@) == comps_at(t@, old(out)@) + match seg_comp(t@.subrange(i as int, e as int)) {
            None => Seq::<Comp>::empty(),
            Some(c) => seq![c],
        },
{
    let len = e - i;
    let ghost seg = t@.subrange(i as int, e as int);
    if len == 0 || (len == 1 && t[i] == 46) {
        assert(seg_comp(seg) is None) by {
            if len == 1 {
                assert(seg =~= seq![46u8]);
            }
        }
        assert(comps_at(t@, out@) + Seq::<Comp>::empty() =~= comps_at(t@, out@));
    } else if len == 2 && t[i] == 46 && t[i + 1] == 46 {
        assert(seg =~= seq![46u8, 46]);
        out.push((2, i, e));
        assert(comps_at(t@, out@) =~= comps_at(t@, old(out)@) + seq![Comp::ParentDir]);
    } else {
        assert(seg.len() != 0 && seg != seq![46u8] && seg != seq![46u8, 46]) by {
            if seg == seq![46u8] {
                assert(seg[0] == t@[i as int]);
            }
            if seg == seq![46u8, 46] {
                assert(seg[0] == t@[i as int] && seg[1] == t@[i + 1]);
            }
        }
        out.push((3, i, e));
        assert(comps_at(t@, out@) =~= comps_at(t@, old(out)@) + seq![Comp::Normal(seg)]);
    }
}

/// The components of `t`, each found at its place in the text.
fn component_ranges(t: &[u8]) -> (r: Vec<(u8, usize, usize)>)
    ensures
        comps_at(t@, r@) == components(t@),
        forall|k: int| 0 <= k < r@.len() ==> name_range_ok(t@, #[trigger] r@[k]),
{
    let n = t.len();
    let mut out: Vec<(u8, usize, usize)> = Vec::new();
    let mut i: usize;
    if n > 0 && t[0] == 47 {
        out.push((0, 0, 0));
        i = 1;
        assert(comps_at(t@, out@) =~= seq![Comp::RootDir]);
    } else {
        let e = find_byte_from(t, 0, 47);
        proof {
            lemma_byte_pos_bounds(t@, 0, 47u8);
        }
        if e == 1 && t[0] == 46 {
            assert(t@.subrange(0, 1) =~= seq![46u8]);
            out.push((1, 0, 0));
            assert(comps_at(t@, out@) =~= seq![Comp::CurDir]);
            i = if e < n { e + 1 } else { n };
        } else {
            assert(t@.subrange(0, e as int) != seq![46u8]) by {
                if t@.subrange(0, e as int) == seq![46u8] {
                    assert(t@.subrange(0, e as int).len() == 1);
                    assert(t@.subrange(0, e as int)[0] == t@[0]);
                }
            }
            i = 0;
            assert(comps_at(t@, out@) =~= Seq::<Comp>::empty());
        }
    }
    assert(comps_at(t@, out@) + segs_from(t@, i as int) =~= components(t@));
    while i < n
        invariant
            n == t@.len(),
            i <= n,
            i == 0 || i == n || t@[i - 1] == 47u8,
            comps_at(t@, out@) + segs_from(t@, i as int) == components(t@),
            forall|k: int| 0 <= k < out@.len() ==> name_range_ok(t@, #[trigger] out@[k]),
        decreases n - i,
    {
        let e = find_byte_from(t, i, 47);
        proof {
            lemma_byte_pos_bounds(t@, i as int, 47u8);
            lemma_segs_step(t@, i as int);
        }
        let ghost before = comps_at(t@, out@);
        push_segment(t, i, e, &mut out);
        let next = if e < n { e + 1 } else { n };
        proof {
            let rest = segs_from(t@, next as int);
            assert(e >= n ==> rest =~= Seq::<Comp>::empty());
            match seg_comp(t@.subrange(i as int, e as int)) {
                None => {
                    assert(comps_at(t@, out@) =~= before + Seq::<Comp>::empty());
                    assert(before + Seq::<Comp>::empty() =~= before);
                },
                Some(c) => {
                    assert(before + (seq![c] + rest) =~= (before + seq![c]) + rest);
                },
            }
        }
        i = next;
    }
    assert(segs_from(t@, i as int) =~= Seq::<Comp>::empty());
    assert(comps_at(t@, out@) + Seq::<Comp>::empty() =~= comps_at(t@, out@));
    out
}

fn comp_equal(t1: &[u8], c1: (u8, usize, usize), t2: &[u8], c2: (u8, usize, usize)) -> (r: bool)
    requires
        name_range_ok(t1@, c1),
        name_range_ok(t2@, c2),
    ensures
        r == (comp_at(t1@, c1) == comp_at(t2@, c2)),
{
    if c1.0 != c2.0 {
        return false;
    }
    if c1.0 != 3 {
        return true;
    }
    let (_, a1, b1) = c1;
    let (_, a2, b2) = c2;
    if b1 - a1 != b2 - a2 {
        assert(t1@.subrange(a1 as int, b1 as int).len() != t2@.subrange(a2 as int, b2 as int).len());
        return false;
    }
    let mut k: usize = 0;
    while k < b1 - a1
        invariant
            a1 < b1 <= t1@.len(),
            a2 < b2 <= t2@.len(),
            b1 - a1 == b2 - a2,
            c1 == (3u8, a1, b1),
            c2 == (3u8, a2, b2),
            k <= b1 - a1,
            forall|j: int| 0 <= j < k ==> #[trigger] t1@.subrange(a1 as int, b1 as int)[j] == t2@.subrange(a2 as int, b2 as int)[j],
        decreases b1 - a1 - k,
    {
        if t1[a1 + k] != t2[a2 + k] {
            assert(t1@.subrange(a1 as int, b1 as int)[k as int] != t2@.subrange(a2 as int, b2 as int)[k as int]);
            return false;
        }
        k += 1;
    }
    assert(t1@.subrange(a1 as int, b1 as int) =~= t2@.subrange(a2 as int, b2 as int));
    true
}

/// Whether the components of `base` begin those of `p`.
fn prefix_components(p: &[u8], vp: &Vec<(u8, usize, usize)>, base: &[u8], vb: &Vec<(u8, usize, usize)>) -> (r: bool)
    requires
        forall|k: int| 0 <= k < vp@.len() ==> name_range_ok(p@, #[trigger] vp@[k]),
        forall|k: int| 0 <= k < vb@.len() ==> name_range_ok(base@, #[trigger] vb@[k]),
    ensures
        r == (vb@.len() <= vp@.len() && comps_at(p@, vp@).subrange(0, vb@.len() as int) == comps_at(base@, vb@)),
{
    if vb.len() > vp.len() {
        return false;
    }
    let mut k: usize = 0;
    while k < vb.len()
        invariant
            vb@.len() <= vp@.len(),
            k <= vb@.len(),
            forall|j: int| 0 <= j < vp@.len() ==> name_range_ok(p@, #[trigger] vp@[j]),
            forall|j: int| 0 <= j < vb@.len() ==> name_range_ok(base@, #[trigger] vb@[j]),
            forall|j: int| 0 <= j < k ==> comp_at(p@, #[trigger] vp@[j]) == comp_at(base@, vb@[j]),
        decreases vb@.len() - k,
    {
        if !comp_equal(p, vp[k], base, vb[k]) {
            assert(comps_at(p@, vp@).subrange(0, vb@.len() as int)[k as int] != comps_at(base@, vb@)[k as int]);
            return false;
        }
        k += 1;
    }
    assert(comps_at(p@, vp@).subrange(0, vb@.len() as int) =~= comps_at(base@, vb@));
    true
}

/// Whether `base`'s components begin `p`'s.
fn starts_with_components(p: &[u8], base: &[u8]) -> (r: bool)
    ensures
        r == path_starts_with(p@, base@),
{
    let vp = component_ranges(p);
    let vb = component_ranges(base);
    prefix_components(p, &vp, base, &vb)
}

/// Whether two path texts have the same components (`Path` equality).
fn same_components(a: &[u8], b: &[u8]) -> (r: bool)
    ensures
        r == (components(a@) == components(b@)),
{
    let va = component_ranges(a);
    let vb = component_ranges(b);
    if va.len() != vb.len() {
        assert(components(a@).len() != components(b@).len());
        return false;
    }
    let r = prefix_components(a, &va, b, &vb);
    assert(comps_at(a@, va@).subrange(0, vb@.len() as int) =~= comps_at(a@, va@));
    r
}

fn slash() -> (s: &'static str)
    ensures
        s.spec_bytes() == seq![47u8],
        s@ == "/"@,
{
    proof {
        reveal_strlit("/");
        let c = seq!['/'];
        assert("/"@ =~= c);
        assert(('/' as u32) == 47u32);
        assert((47u32 & 0x7Fu32) == 47u32) by (bit_vector);
        assert(vstd::utf8::encode_scalar(47u32) =~= seq![47u8]);
        assert(c.drop_first() =~= Seq::<char>::empty());
        assert(vstd::utf8::encode_utf8(c) == vstd::utf8::encode_scalar(c[0] as u32)
            + vstd::utf8::encode_utf8(c.drop_first()));
        assert(vstd::utf8::encode_utf8(c) =~= seq![47u8]);
    }
    "/"
}

fn not_absolute_message(path: &str) -> (r: String)
    ensures
        r@ == "path "@ + vstd::utf8::decode_utf8(path.spec_bytes()) + " must be absolute"@,
{
    let mut m = String::from_str("path ");
    m.append(path);
    m.append(" must be absolute");
    m
}

/// `path` with `.` and `..` resolved and separators collapsed; only
/// absolute paths are accepted.
pub fn normalized_absolute_path(path: &str) -> (r: Result<String, String>)
    ensures
        match r {
            Ok(p) => normalized_path(path.spec_bytes()) == Ok::<Seq<u8>, Seq<char>>(text_bytes(p)),
            Err(e) => normalized_path(path.spec_bytes()) == Err::<Seq<u8>, Seq<char>>(e@),
        },
{
    let t = path.as_bytes();
    if !(t.len() > 0 && t[0] == 47) {
        return Err(not_absolute_message(path));
    }
    let ghost tb = t@;
    let comps = component_ranges(t);
    let mut stack: Vec<(usize, usize)> = Vec::new();
    let mut k: usize = 0;
    while k < comps.len()
        invariant
            tb == t@,
            k <= comps@.len(),
            comps_at(tb, comps@) == components(tb),
            forall|j: int| 0 <= j < comps@.len() ==> name_range_ok(tb, #[trigger] comps@[j]),
            forall|j: int| 0 <= j < stack@.len() ==> name_range_ok(tb, (3u8, #[trigger] stack@[j].0, stack@[j].1)),
            stack@.map_values(|r: (usize, usize)| tb.subrange(r.0 as int, r.1 as int)) == norm_stack(
                comps_at(tb, comps@).subrange(0, k as int),
            ),
        decreases comps@.len() - k,
    {
        let c = comps[k];
        let ghost cs = comps_at(tb, comps@).subrange(0, k as int + 1);
        proof {
            assert(cs.drop_last() =~= comps_at(tb, comps@).subrange(0, k as int));
            assert(cs.last() == comp_at(tb, c));
        }
        let ghost before = stack@;
        if c.0 == 2 {
            if stack.len() > 0 {
                stack.pop();
                assert(stack@.map_values(|r: (usize, usize)| tb.subrange(r.0 as int, r.1 as int))
                    =~= before.map_values(|r: (usize, usize)| tb.subrange(r.0 as int, r.1 as int)).drop_last());
            }
        } else if c.0 == 3 {
            stack.push((c.1, c.2));
            assert(stack@.map_values(|r: (usize, usize)| tb.subrange(r.0 as int, r.1 as int))
                =~= before.map_values(|r: (usize, usize)| tb.subrange(r.0 as int, r.1 as int)).push(
                tb.subrange(c.1 as int, c.2 as int),
            ));
        }
        k += 1;
    }
    assert(comps_at(tb, comps@).subrange(0, comps@.len() as int) =~= comps_at(tb, comps@));
    let ghost names = stack@.map_values(|r: (usize, usize)| tb.subrange(r.0 as int, r.1 as int));
    let mut out = String::from_str(slash());
    proof {
        vstd::utf8::encode_utf8_valid_utf8(path@);
    }
    let mut j: usize = 0;
    while j < stack.len()
        invariant
            tb == t@,
            tb == path.spec_bytes(),
            vstd::utf8::valid_utf8(tb),
            j <= stack@.len(),
            names == stack@.map_values(|r: (usize, usize)| tb.subrange(r.0 as int, r.1 as int)),
            forall|i: int| 0 <= i < stack@.len() ==> name_range_ok(tb, (3u8, #[trigger] stack@[i].0, stack@[i].1)),
            text_bytes(out) == if j == 0 { seq![47u8] } else { rooted_text(names.subrange(0, j as int)) },
        decreases stack@.len() - j,
    {
        let (a, b) = stack[j];
        assert(name_range_ok(tb, (3u8, stack@[j as int].0, stack@[j as int].1)));
        proof {
            if a > 0 {
                lemma_ascii_boundary(tb, a as int - 1);
            } else {
                vstd::utf8::is_char_boundary_start_end_of_seq(tb);
            }
            if b < tb.len() {
                lemma_ascii_boundary(tb, b as int);
            } else {
                vstd::utf8::is_char_boundary_start_end_of_seq(tb);
            }
        }
        if j > 0 {
            append_tracked(&mut out, slash());
        }
        let name = substring(path, a, b);
        append_tracked(&mut out, name.as_str());
        proof {
            let ns = names.subrange(0, j as int + 1);
            assert(ns.last() == tb.subrange(a as int, b as int));
            if j == 0 {
                assert(ns.len() == 1);
            } else {
                assert(ns.drop_last() =~= names.subrange(0, j as int));
            }
        }
        j += 1;
    }
    proof {
        if stack@.len() == 0 {
            assert(names.len() == 0);
        } else {
            assert(names.subrange(0, stack@.len() as int) =~= names);
        }
    }
    Ok(out)
}

/// `path` as given, when absolute.
pub fn absolute_path(path: &str) -> (r: Result<String, String>)
    ensures
        match r {
            Ok(p) => absolute_text(path.spec_bytes()) == Ok::<Seq<u8>, Seq<char>>(text_bytes(p)),
            Err(e) => absolute_text(path.spec_bytes()) == Err::<Seq<u8>, Seq<char>>(e@),
        },
{
    let t = path.as_bytes();
    if !(t.len() > 0 && t[0] == 47) {
        return Err(not_absolute_message(path));
    }
    Ok(String::from_str(path))
}

/// A scope's kind and path text.
pub open spec fn scope_parts(r: Result<PathScope, String>) -> Result<(bool, Seq<u8>), Seq<char>> {
    match r {
        Ok(s) => Ok((s.recursive(), text_bytes(s.base()))),
        Err(e) => Err(e@),
    }
}

fn scope_of(path: &str, normalize: bool) -> (r: Result<PathScope, String>)
    ensures
        scope_parts(r) == scope_result(path.spec_bytes(), normalize),
{
    let t = path.as_bytes();
    let n = t.len();
    let recursive = n >= 3 && t[n - 3] == 47 && t[n - 2] == 42 && t[n - 1] == 42;
    proof {
        if n >= 3 {
            let suf = t@.subrange(n - 3, n as int);
            assert(recursive <==> suf =~= recursive_suffix());
        }
    }
    if recursive {
        proof {
            vstd::utf8::encode_utf8_valid_utf8(path@);
            lemma_ascii_boundary(t@, n as int - 3);
        }
        let (base, _) = path.split_at(n - 3);
        if base.len() == 0 {
            return Err(String::from_str("recursive path scope base must not be empty"));
        }
        let inner = if normalize { normalized_absolute_path(base) } else { absolute_path(base) };
        match inner {
            Ok(p) => Ok(PathScope::Recursive(p)),
            Err(e) => Err(e),
        }
    } else {
        let inner = if normalize { normalized_absolute_path(path) } else { absolute_path(path) };
        match inner {
            Ok(p) => Ok(PathScope::Exact(p)),
            Err(e) => Err(e),
        }
    }
}

/// The scope a file policy rule path denotes, normalised.
pub fn normalized_scope(path: &str) -> (r: Result<PathScope, String>)
    ensures
        scope_parts(r) == scope_result(path.spec_bytes(), true),
{
    scope_of(path, true)
}

/// The scope a grant path denotes, taken as written.
pub fn absolute_scope(path: &str) -> (r: Result<PathScope, String>)
    ensures
        scope_parts(r) == scope_result(path.spec_bytes(), false),
{
    scope_of(path, false)
}

/// Law: every path starts with itself; so a recursive scope matches its
/// own base, and every scope contains itself and matches its own path.
pub proof fn law_scope_contains_itself(scope: PathScope, p: Seq<u8>)
    ensures
        path_starts_with(p, p),
        match scope {
            PathScope::Exact(x) => components(text_bytes(x)) == components(text_bytes(scope.base())),
            PathScope::Recursive(b) => path_starts_with(text_bytes(scope.base()), text_bytes(b)),
        },
{
    assert(components(p).subrange(0, components(p).len() as int) =~= components(p));
    let b = text_bytes(scope.base());
    assert(components(b).subrange(0, components(b).len() as int) =~= components(b));
}

/// Law: lying under a base is transitive: a path under `mid`, which lies
/// under `base`, lies under `base` too (so a recursive scope that contains
/// another matches every path the other matches).
pub proof fn law_recursive_scope_covers_nested(base: Seq<u8>, mid: Seq<u8>, p: Seq<u8>)
    ensures
        path_starts_with(mid, base) && path_starts_with(p, mid) ==> path_starts_with(p, base),
{
    let cb = components(base);
    let cm = components(mid);
    let cp = components(p);
    if path_starts_with(mid, base) && path_starts_with(p, mid) {
        assert(cp.subrange(0, cb.len() as int) =~= cm.subrange(0, cb.len() as int)) by {
            assert forall|i: int| 0 <= i < cb.len() implies cp.subrange(0, cb.len() as int)[i]
                == cm.subrange(0, cb.len() as int)[i] by {
                assert(cp.subrange(0, cm.len() as int)[i] == cm[i]);
            }
        }
    }
}


/// The path a trapped file operation names, with `.` and `..` resolved and
/// separators collapsed; a relative path is refused.
pub fn normalize_absolute_path(path: &str) -> (r: Result<String, crate::shutdown::ControlError>)
    ensures
        match normalized_path(path.spec_bytes()) {
            Ok(t) => r matches Ok(p) && text_bytes(p) == t,
            Err(_) => r matches Err(e) && e.code@ == "file_enforcement_path"@ && e.message@ == "resolved path "@ + path@
                + " is not absolute"@,
        },
{
    match normalized_absolute_path(path) {
        Ok(p) => Ok(p),
        Err(_) => {
            let mut m = String::from_str("resolved path ");
            m.append(path);
            m.append(" is not absolute");
            Err(crate::shutdown::ControlError { code: String::from_str("file_enforcement_path"), message: m })
        },
    }
}

} // verus!
