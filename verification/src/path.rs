//! Paths as sequences of components, the way `Path::components` yields them
//! on Unix: a leading `/` component for the root, `.` and `..` as they
//! stand, and the bytes of every other name.

use vstd::prelude::*;
use vstd::utf8::valid_utf8;
use crate::glob::{SLASH, lemma_split_after_slash, lemma_split_extend, slash_free, split_segments};

verus! {

/// The byte `.`.
pub const DOT: u8 = 46;

/// A path, held as its components.
pub struct PathModel {
    pub components: Vec<Vec<u8>>,
}

impl View for PathModel {
    type V = Seq<Seq<u8>>;

    open spec fn view(&self) -> Seq<Seq<u8>> {
        self.components@.map_values(|c: Vec<u8>| c@)
    }
}

/// The root component `/`.
pub open spec fn is_root_component(c: Seq<u8>) -> bool {
    c == seq![SLASH]
}

/// `Path::parent`: the path without its last component, or none for the
/// empty path and for a path that ends at the root.
pub open spec fn parent_spec(p: Seq<Seq<u8>>) -> Option<Seq<Seq<u8>>> {
    if p.len() == 0 || is_root_component(p.last()) {
        None
    } else {
        Some(p.drop_last())
    }
}

/// `Path::join`: a path that starts at the root replaces the base; onto an
/// empty base the path is taken as it is; otherwise its components follow
/// those of the base, a leading `.` falling away.
pub open spec fn join_spec(base: Seq<Seq<u8>>, rel: Seq<Seq<u8>>) -> Seq<Seq<u8>> {
    if rel.len() > 0 && is_root_component(rel[0]) {
        rel
    } else if base.len() == 0 {
        rel
    } else if rel.len() > 0 && rel[0] == seq![DOT] {
        base + rel.drop_first()
    } else {
        base + rel
    }
}

/// `Path::strip_prefix`: the components after `base` when `base` is a
/// component-wise prefix of `p`.
pub open spec fn strip_prefix_spec(p: Seq<Seq<u8>>, base: Seq<Seq<u8>>) -> Option<Seq<Seq<u8>>> {
    if base.len() <= p.len() && p.subrange(0, base.len() as int) == base {
        Some(p.subrange(base.len() as int, p.len() as int))
    } else {
        None
    }
}

/// The components joined with `/` between them.
pub open spec fn slash_join(parts: Seq<Seq<u8>>) -> Seq<u8>
    decreases parts.len(),
{
    if parts.len() == 0 {
        Seq::empty()
    } else if parts.len() == 1 {
        parts[0]
    } else {
        slash_join(parts.drop_last()) + seq![SLASH] + parts.last()
    }
}

/// Every component is valid UTF-8.
pub open spec fn all_utf8(parts: Seq<Seq<u8>>) -> bool {
    forall|i: int| 0 <= i < parts.len() ==> valid_utf8(#[trigger] parts[i])
}

/// `std::str::from_utf8`, reduced to whether it accepts the bytes. It accepts
/// exactly the valid UTF-8 byte sequences.
#[verifier::external_body]
fn is_utf8(bytes: &[u8]) -> (r: bool)
    ensures
        r == valid_utf8(bytes@),
{
    std::str::from_utf8(bytes).is_ok()
}

/// `String::from_utf8`: a string whose UTF-8 encoding is the given bytes,
/// when they are valid UTF-8, and none otherwise.
#[verifier::external_body]
fn string_from_utf8(bytes: Vec<u8>) -> (r: Option<String>)
    ensures
        r is Some <==> valid_utf8(bytes@),
        r matches Some(s) ==> vstd::utf8::encode_utf8(s@) == bytes@,
{
    String::from_utf8(bytes).ok()
}

/// A fresh copy of a byte slice.
pub fn copy_bytes(s: &[u8]) -> (r: Vec<u8>)
    ensures
        r@ == s@,
{
    let mut r: Vec<u8> = Vec::new();
    let mut i: usize = 0;
    while i < s.len()
        invariant
            i <= s.len(),
            r@ == s@.subrange(0, i as int),
        decreases s.len() - i,
    {
        r.push(s[i]);
        i += 1;
        assert(r@ =~= s@.subrange(0, i as int));
    }
    assert(s@.subrange(0, s.len() as int) =~= s@);
    r
}

/// Whether two byte slices are equal.
pub fn bytes_equal(a: &[u8], b: &[u8]) -> (r: bool)
    ensures
        r == (a@ == b@),
{
    if a.len() != b.len() {
        return false;
    }
    let mut i: usize = 0;
    while i < a.len()
        invariant
            a@.len() == b@.len(),
            i <= a.len(),
            forall|k: int| 0 <= k < i ==> a@[k] == b@[k],
        decreases a.len() - i,
    {
        if a[i] != b[i] {
            return false;
        }
        i += 1;
    }
    assert(a@ =~= b@);
    true
}

impl PathModel {
    /// A path made of the given components.
    pub fn new(components: Vec<Vec<u8>>) -> (r: PathModel)
        ensures
            r.components == components,
    {
        PathModel { components }
    }

    /// The first `n` components, copied.
    pub fn prefix(&self, n: usize) -> (r: PathModel)
        requires
            n <= self@.len(),
        ensures
            r@ == self@.subrange(0, n as int),
    {
        self.range(0, n)
    }

    /// The components from `lo` up to `hi`, copied.
    pub fn range(&self, lo: usize, hi: usize) -> (r: PathModel)
        requires
            lo <= hi <= self@.len(),
        ensures
            r@ == self@.subrange(lo as int, hi as int),
    {
        let mut components: Vec<Vec<u8>> = Vec::new();
        let mut i = lo;
        while i < hi
            invariant
                lo <= i <= hi,
                hi <= self.components@.len(),
                components@.map_values(|c: Vec<u8>| c@) == self@.subrange(lo as int, i as int),
            decreases hi - i,
        {
            let ghost before = components@;
            components.push(copy_bytes(self.components[i].as_slice()));
            assert(components@.map_values(|c: Vec<u8>| c@) =~= before.map_values(|c: Vec<u8>| c@).push(
                self@[i as int],
            ));
            i += 1;
            assert(components@.map_values(|c: Vec<u8>| c@) =~= self@.subrange(lo as int, i as int));
        }
        PathModel { components }
    }

    /// A copy of the whole path.
    pub fn copy(&self) -> (r: PathModel)
        ensures
            r@ == self@,
    {
        let r = self.range(0, self.components.len());
        assert(self@.subrange(0, self@.len() as int) =~= self@);
        r
    }

    /// `Path::parent`.
    pub fn parent(&self) -> (r: Option<PathModel>)
        ensures
            r matches Some(q) ==> parent_spec(self@) == Some(q@),
            r is None ==> parent_spec(self@) is None,
    {
        let n = self.components.len();
        if n == 0 {
            return None;
        }
        let last = self.components[n - 1].as_slice();
        if last.len() == 1 && last[0] == SLASH {
            assert(last@ =~= seq![SLASH]);
            return None;
        }
        assert(!is_root_component(self@.last()));
        let q = self.prefix(n - 1);
        assert(q@ =~= self@.drop_last());
        Some(q)
    }

    /// `Path::join`.
    pub fn join(&self, rel: &PathModel) -> (r: PathModel)
        ensures
            r@ == join_spec(self@, rel@),
    {
        let rn = rel.components.len();
        if rn > 0 {
            let first = rel.components[0].as_slice();
            if first.len() == 1 && first[0] == SLASH {
                assert(first@ =~= seq![SLASH]);
                return rel.copy();
            }
        }
        if self.components.len() == 0 {
            return rel.copy();
        }
        let mut skip: usize = 0;
        if rn > 0 {
            let first = rel.components[0].as_slice();
            if first.len() == 1 && first[0] == DOT {
                assert(first@ =~= seq![DOT]);
                skip = 1;
            } else {
                assert(first@ != seq![DOT]);
            }
        }
        let mut components: Vec<Vec<u8>> = Vec::new();
        let mut i: usize = 0;
        while i < self.components.len()
            invariant
                i <= self.components@.len(),
                components@.map_values(|c: Vec<u8>| c@) == self@.subrange(0, i as int),
            decreases self.components.len() - i,
        {
            let ghost before = components@;
            components.push(copy_bytes(self.components[i].as_slice()));
            assert(components@.map_values(|c: Vec<u8>| c@) =~= before.map_values(|c: Vec<u8>| c@).push(
                self@[i as int],
            ));
            i += 1;
            assert(components@.map_values(|c: Vec<u8>| c@) =~= self@.subrange(0, i as int));
        }
        let mut j = skip;
        while j < rn
            invariant
                skip <= j <= rn,
                rn == rel.components@.len(),
                components@.map_values(|c: Vec<u8>| c@) == self@ + rel@.subrange(skip as int, j as int),
            decreases rn - j,
        {
            let ghost before = components@;
            components.push(copy_bytes(rel.components[j].as_slice()));
            assert(components@.map_values(|c: Vec<u8>| c@) =~= before.map_values(|c: Vec<u8>| c@).push(
                rel@[j as int],
            ));
            j += 1;
            assert(components@.map_values(|c: Vec<u8>| c@) =~= self@ + rel@.subrange(skip as int, j as int));
        }
        assert(self@.subrange(0, self@.len() as int) =~= self@);
        assert(rel@.subrange(0, rel@.len() as int) =~= rel@);
        assert(rel@.subrange(1, rel@.len() as int) =~= rel@.drop_first());
        PathModel { components }
    }

    /// `Path::strip_prefix`.
    pub fn strip_prefix(&self, base: &PathModel) -> (r: Option<PathModel>)
        ensures
            r matches Some(q) ==> strip_prefix_spec(self@, base@) == Some(q@),
            r is None ==> strip_prefix_spec(self@, base@) is None,
    {
        let n = self.components.len();
        let m = base.components.len();
        if m > n {
            return None;
        }
        let mut i: usize = 0;
        while i < m
            invariant
                m <= n,
                n == self@.len(),
                m == base@.len(),
                i <= m,
                forall|k: int| 0 <= k < i ==> self@[k] == base@[k],
            decreases m - i,
        {
            if !bytes_equal(self.components[i].as_slice(), base.components[i].as_slice()) {
                assert(self@.subrange(0, m as int)[i as int] != base@[i as int]);
                return None;
            }
            i += 1;
        }
        assert(self@.subrange(0, m as int) =~= base@);
        Some(self.range(m, n))
    }
}

proof fn lemma_slash_utf8()
    ensures
        valid_utf8(seq![SLASH]),
{
    let s = seq![SLASH];
    let b: u8 = SLASH;
    assert((b & 0x7F) as u32 == 47u32) by (bit_vector)
        requires
            b == 47u8,
    ;
    assert(vstd::utf8::valid_first_scalar(s));
    assert(vstd::utf8::pop_first_scalar(s) =~= Seq::<u8>::empty());
    assert(valid_utf8(Seq::<u8>::empty()));
    assert(valid_utf8(vstd::utf8::pop_first_scalar(s)));
}

/// The path's components joined with `/`, or none when a component is not
/// valid UTF-8.
pub open spec fn slash_string_spec(p: Seq<Seq<u8>>) -> Option<Seq<u8>> {
    if all_utf8(p) {
        Some(slash_join(p))
    } else {
        None
    }
}

/// The path written with `/` between its components; none when one of them
/// is not valid UTF-8.
pub fn path_to_slash_string(path: &PathModel) -> (r: Option<String>)
    ensures
        r is Some <==> all_utf8(path@),
        r matches Some(s) ==> slash_string_spec(path@) == Some(vstd::utf8::encode_utf8(s@)),
{
    let n = path.components.len();
    let mut joined: Vec<u8> = Vec::new();
    let mut i: usize = 0;
    proof {
        assert(valid_utf8(Seq::<u8>::empty()));
    }
    while i < n
        invariant
            n == path@.len(),
            i <= n,
            joined@ == slash_join(path@.subrange(0, i as int)),
            all_utf8(path@.subrange(0, i as int)),
            valid_utf8(joined@),
        decreases n - i,
    {
        let part = path.components[i].as_slice();
        if !is_utf8(part) {
            assert(!valid_utf8(path@[i as int]));
            return None;
        }
        let ghost before = joined@;
        let ghost prefix = path@.subrange(0, i + 1);
        assert(prefix.drop_last() =~= path@.subrange(0, i as int));
        if i > 0 {
            joined.push(SLASH);
            proof {
                lemma_slash_utf8();
                vstd::utf8::valid_utf8_concat(before, seq![SLASH]);
                assert(before + seq![SLASH] =~= joined@);
            }
        }
        let ghost mid = joined@;
        let mut k: usize = 0;
        while k < part.len()
            invariant
                k <= part.len(),
                joined@ == mid + part@.subrange(0, k as int),
            decreases part.len() - k,
        {
            joined.push(part[k]);
            k += 1;
            assert(joined@ =~= mid + part@.subrange(0, k as int));
        }
        assert(part@.subrange(0, part@.len() as int) =~= part@);
        proof {
            vstd::utf8::valid_utf8_concat(mid, part@);
            if i == 0 {
                assert(joined@ =~= part@);
            } else {
                assert(joined@ =~= before + seq![SLASH] + part@);
            }
        }
        i += 1;
        assert(all_utf8(path@.subrange(0, i as int)));
    }
    assert(path@.subrange(0, n as int) =~= path@);
    string_from_utf8(joined)
}

/// Writing a path with `/` between its components and splitting the text at
/// every `/` gives the components back, when there is at least one and none
/// holds a `/`.
pub proof fn lemma_slash_join_splits_back(parts: Seq<Seq<u8>>)
    requires
        parts.len() >= 1,
        forall|i: int| 0 <= i < parts.len() ==> slash_free(#[trigger] parts[i]),
    ensures
        split_segments(slash_join(parts)) == parts,
    decreases parts.len(),
{
    if parts.len() == 1 {
        let e = Seq::<u8>::empty();
        assert(slash_free(parts[0]));
        lemma_split_extend(e, parts[0]);
        assert(e + parts[0] =~= parts[0]);
        assert(split_segments(e) == seq![e]);
        assert(e + parts[0] =~= parts[0]);
        assert(seq![e].update(0, e + parts[0]) =~= parts);
    } else {
        let init = parts.drop_last();
        assert forall|i: int| 0 <= i < init.len() implies slash_free(#[trigger] init[i]) by {
            assert(init[i] == parts[i]);
        }
        lemma_slash_join_splits_back(init);
        assert(slash_free(parts[parts.len() - 1]));
        lemma_split_after_slash(slash_join(init), parts.last());
        assert(init.push(parts.last()) =~= parts);
    }
}

/// Stripping a base leaves exactly what follows it: the result comes back
/// only when the base is a component-wise prefix, and the base followed by
/// the result is the path again; and stripping a base from that base
/// followed by anything gives that remainder.
pub proof fn lemma_strip_prefix_is_exact(p: Seq<Seq<u8>>, base: Seq<Seq<u8>>, rest: Seq<Seq<u8>>)
    ensures
        strip_prefix_spec(p, base) matches Some(r) ==> base + r == p,
        strip_prefix_spec(p, base) is None ==> forall|r: Seq<Seq<u8>>| base + r != p,
        strip_prefix_spec(base + rest, base) == Some(rest),
{
    if strip_prefix_spec(p, base) is Some {
        assert(base + p.subrange(base.len() as int, p.len() as int) =~= p);
    } else {
        assert forall|r: Seq<Seq<u8>>| base + r != p by {
            if base + r == p {
                assert(p.subrange(0, base.len() as int) =~= base);
            }
        }
    }
    let q = base + rest;
    assert(q.subrange(0, base.len() as int) =~= base);
    assert(q.subrange(base.len() as int, q.len() as int) =~= rest);
}

/// Joining a relative path onto a non-empty base keeps every component of
/// it, `..` included, after those of the base; only a leading `.` falls
/// away, and a path from the root replaces the base.
pub proof fn lemma_join_keeps_components(base: Seq<Seq<u8>>, rel: Seq<Seq<u8>>)
    ensures
        base.len() > 0 && (rel.len() == 0 || (!is_root_component(rel[0]) && rel[0] != seq![DOT]))
            ==> join_spec(base, rel) == base + rel,
        base.len() > 0 && rel.len() > 0 && rel[0] == seq![DOT] ==> join_spec(base, rel) == base
            + rel.drop_first(),
        rel.len() > 0 && is_root_component(rel[0]) ==> join_spec(base, rel) == rel,
        join_spec(base, rel).len() >= rel.len() - 1,
{
    if base.len() > 0 && rel.len() == 0 {
        assert(base + rel =~= base);
    }
    assert(seq![DOT] != seq![SLASH]) by {
        assert(seq![DOT][0] != seq![SLASH][0]);
    }
}

/// A `..` component is kept where it stands when joined.
pub proof fn lemma_join_keeps_parent_step(base: Seq<Seq<u8>>, rel: Seq<Seq<u8>>)
    requires
        base.len() > 0,
        rel.len() > 0,
        rel[0] == seq![DOT, DOT],
    ensures
        join_spec(base, rel) == base + rel,
        join_spec(base, rel)[base.len() as int] == seq![DOT, DOT],
{
    assert(seq![DOT, DOT] != seq![DOT]) by {
        assert(seq![DOT, DOT].len() != seq![DOT].len());
    }
    assert(seq![DOT, DOT] != seq![SLASH]) by {
        assert(seq![DOT, DOT].len() != seq![SLASH].len());
    }
}

} // verus!
