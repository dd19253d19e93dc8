//! Include-pattern matching: `*` and `?` within one path component,
//! `**` across any number of components.

use vstd::prelude::*;
use vstd::string::StringSliceAdditionalSpecFns;

verus! {

/// The byte `*`.
pub const STAR: u8 = 42;

/// The byte `?`.
pub const ANY_ONE: u8 = 63;

/// The byte `/`.
pub const SLASH: u8 = 47;

/// Every byte of `p` from index `i` on is `*`.
pub open spec fn all_stars_from(p: Seq<u8>, i: int) -> bool {
    forall|k: int| i <= k < p.len() ==> p[k] == STAR
}

/// The star position as an integer.
pub open spec fn star_at(o: Option<usize>) -> Option<int> {
    match o {
        Some(s) => Some(s as int),
        None => None,
    }
}

/// Well-formed scan state: indices in range, and a recorded star lies inside
/// the pattern with its restart point not past the text position.
pub open spec fn scan_state_ok(p: Seq<u8>, t: Seq<u8>, pi: int, ti: int, star: Option<int>, st: int) -> bool {
    &&& 0 <= pi <= p.len()
    &&& 0 <= ti <= t.len()
    &&& (star is Some ==> 0 <= star->0 < p.len() && 0 <= st <= ti)
}

/// The outcome of scanning component text `t` against component pattern `p`
/// from pattern position `pi` and text position `ti`, where `star` is the
/// last `*` taken as a wildcard and `st` the text position it was last
/// restarted from. A `*` is recorded as the new restart point; any other
/// pattern byte that is `?` or equal to the text byte is consumed together
/// with it; otherwise the scan retries after the recorded star, one text
/// byte further on; with no star recorded it fails. Once the text is used up the
/// rest of the pattern must be stars only.
spec fn component_scan(p: Seq<u8>, t: Seq<u8>, pi: int, ti: int, star: Option<int>, st: int) -> bool
    decreases
            (if star is Some { t.len() - st } else { t.len() + 1int }),
            t.len() - ti,
            p.len() - pi,
    when scan_state_ok(p, t, pi, ti, star, st)
{
    if ti >= t.len() {
        all_stars_from(p, pi)
    } else if pi < p.len() && p[pi] == STAR {
        component_scan(p, t, pi + 1, ti, Some(pi), ti)
    } else if pi < p.len() && (p[pi] == ANY_ONE || p[pi] == t[ti]) {
        component_scan(p, t, pi + 1, ti + 1, star, st)
    } else if star is Some {
        component_scan(p, t, star->0 + 1, st + 1, star, st + 1)
    } else {
        false
    }
}

/// The outcome of the whole scan.
spec fn component_matches(p: Seq<u8>, t: Seq<u8>) -> bool {
    component_scan(p, t, 0, 0, None, 0)
}

/// Wildcard matching in its usual sense: `*` matches any run of bytes,
/// `?` any single byte, every other byte itself.
pub open spec fn wildcard_match(p: Seq<u8>, t: Seq<u8>) -> bool
    decreases p.len() + t.len(),
{
    if p.len() == 0 {
        t.len() == 0
    } else if p[0] == STAR {
        wildcard_match(p.drop_first(), t) || (t.len() > 0 && wildcard_match(p, t.drop_first()))
    } else {
        t.len() > 0 && (p[0] == ANY_ONE || p[0] == t[0]) && wildcard_match(p.drop_first(), t.drop_first())
    }
}

/// Wildcard matching of the pattern suffix from `i` against the text suffix from `j`.
spec fn wm(p: Seq<u8>, t: Seq<u8>, i: int, j: int) -> bool
    decreases (p.len() - i) + (t.len() - j),
    when 0 <= i <= p.len() && 0 <= j <= t.len()
{
    if i == p.len() {
        j == t.len()
    } else if p[i] == STAR {
        wm(p, t, i + 1, j) || (j < t.len() && wm(p, t, i, j + 1))
    } else {
        j < t.len() && (p[i] == ANY_ONE || p[i] == t[j]) && wm(p, t, i + 1, j + 1)
    }
}

proof fn lemma_wm_suffix(p: Seq<u8>, t: Seq<u8>, i: int, j: int)
    requires
        0 <= i <= p.len(),
        0 <= j <= t.len(),
    ensures
        wm(p, t, i, j) == wildcard_match(p.subrange(i, p.len() as int), t.subrange(j, t.len() as int)),
    decreases (p.len() - i) + (t.len() - j),
{
    let ps = p.subrange(i, p.len() as int);
    let ts = t.subrange(j, t.len() as int);
    if i == p.len() {
    } else {
        assert(ps.drop_first() =~= p.subrange(i + 1, p.len() as int));
        lemma_wm_suffix(p, t, i + 1, j);
        if j < t.len() {
            assert(ts.drop_first() =~= t.subrange(j + 1, t.len() as int));
            lemma_wm_suffix(p, t, i, j + 1);
            lemma_wm_suffix(p, t, i + 1, j + 1);
        }
    }
}

proof fn lemma_wm_at_end(p: Seq<u8>, t: Seq<u8>, i: int)
    requires
        0 <= i <= p.len(),
    ensures
        wm(p, t, i, t.len() as int) == all_stars_from(p, i),
    decreases p.len() - i,
{
    if i < p.len() {
        lemma_wm_at_end(p, t, i + 1);
    }
}

/// A `*` at `s` that matches from text position `j` matches from every
/// earlier text position too.
proof fn lemma_star_absorb(p: Seq<u8>, t: Seq<u8>, s: int, j: int, m: int)
    requires
        0 <= s < p.len(),
        p[s] == STAR,
        0 <= j <= m <= t.len(),
        wm(p, t, s, m),
    ensures
        wm(p, t, s, j),
    decreases m - j,
{
    if j < m {
        lemma_star_absorb(p, t, s, j + 1, m);
    }
}

/// A `*` at `s` matching from `j` leaves some text position `k >= j` from
/// which the rest of the pattern matches.
proof fn lemma_star_witness(p: Seq<u8>, t: Seq<u8>, s: int, j: int) -> (k: int)
    requires
        0 <= s < p.len(),
        p[s] == STAR,
        0 <= j <= t.len(),
        wm(p, t, s, j),
    ensures
        j <= k <= t.len(),
        wm(p, t, s + 1, k),
    decreases t.len() - j,
{
    if wm(p, t, s + 1, j) {
        j
    } else {
        lemma_star_witness(p, t, s, j + 1)
    }
}

/// A star-free stretch of pattern consumes exactly its own length of text.
proof fn lemma_walk(p: Seq<u8>, t: Seq<u8>, a: int, b: int, k: int)
    requires
        0 <= a <= b <= p.len(),
        0 <= k <= t.len(),
        forall|x: int| a <= x < b ==> p[x] != STAR,
        wm(p, t, a, k),
    ensures
        k + (b - a) <= t.len(),
        wm(p, t, b, k + (b - a)),
    decreases b - a,
{
    if a < b {
        lemma_walk(p, t, a + 1, b, k + 1);
    }
}

/// The retry state that scanning keeps for the star at `sp`.
spec fn retry_ok(p: Seq<u8>, t: Seq<u8>, pi: int, ti: int, star: Option<int>, st: int) -> bool {
    star is Some ==> {
        let sp = star->0;
        &&& sp < pi
        &&& p[sp] == STAR
        &&& ti - st == pi - sp - 1
        &&& forall|x: int| sp < x < pi ==> p[x] != STAR
    }
}

/// Meeting a new star makes the retry of the earlier star redundant.
proof fn lemma_subsume(p: Seq<u8>, t: Seq<u8>, pi: int, ti: int, sp: int, st: int)
    requires
        scan_state_ok(p, t, pi, ti, Some(sp), st),
        retry_ok(p, t, pi, ti, Some(sp), st),
        pi < p.len(),
        p[pi] == STAR,
        st < t.len(),
        wm(p, t, sp, st + 1),
    ensures
        wm(p, t, pi, ti),
{
    let k = lemma_star_witness(p, t, sp, st + 1);
    lemma_walk(p, t, sp + 1, pi, k);
    lemma_star_absorb(p, t, pi, ti, k + (pi - sp - 1));
}

proof fn lemma_scan_is_wildcard(p: Seq<u8>, t: Seq<u8>, pi: int, ti: int, star: Option<int>, st: int)
    requires
        scan_state_ok(p, t, pi, ti, star, st),
        retry_ok(p, t, pi, ti, star, st),
    ensures
        component_scan(p, t, pi, ti, star, st) == (wm(p, t, pi, ti) || (star is Some && st < t.len()
            && wm(p, t, star->0, st + 1))),
    decreases
            (if star is Some { t.len() - st } else { t.len() + 1int }),
            t.len() - ti,
            p.len() - pi,
{
    if ti >= t.len() {
        lemma_wm_at_end(p, t, pi);
        if star is Some && st < t.len() && wm(p, t, star->0, st + 1) {
            // the retry would need more text than is left
            let k = lemma_star_witness(p, t, star->0, st + 1);
            lemma_walk(p, t, star->0 + 1, pi, k);
        }
    } else if pi < p.len() && p[pi] == STAR {
        lemma_scan_is_wildcard(p, t, pi + 1, ti, Some(pi), ti);
        if star is Some && st < t.len() && wm(p, t, star->0, st + 1) {
            lemma_subsume(p, t, pi, ti, star->0, st);
        }
    } else if pi < p.len() && (p[pi] == ANY_ONE || p[pi] == t[ti]) {
        lemma_scan_is_wildcard(p, t, pi + 1, ti + 1, star, st);
    } else if star is Some {
        lemma_scan_is_wildcard(p, t, star->0 + 1, st + 1, star, st + 1);
    } else {
    }
}

/// The scan decides wildcard matching.
proof fn lemma_component_matches_is_wildcard(p: Seq<u8>, t: Seq<u8>)
    ensures
        component_matches(p, t) == wildcard_match(p, t),
{
    lemma_scan_is_wildcard(p, t, 0, 0, None, 0);
    lemma_wm_suffix(p, t, 0, 0);
    assert(p.subrange(0, p.len() as int) =~= p);
    assert(t.subrange(0, t.len() as int) =~= t);
}

/// Splits `s` at every `/`, as `str::split('/')` does: always at least one
/// segment, empty segments kept.
pub open spec fn split_segments(s: Seq<u8>) -> Seq<Seq<u8>>
    decreases s.len(),
{
    if s.len() == 0 {
        seq![Seq::<u8>::empty()]
    } else {
        let init = split_segments(s.drop_last());
        if s.last() == SLASH {
            init.push(Seq::<u8>::empty())
        } else {
            init.update(init.len() - 1, init.last().push(s.last()))
        }
    }
}

proof fn lemma_split_nonempty(s: Seq<u8>)
    ensures
        split_segments(s).len() >= 1,
    decreases s.len(),
{
    if s.len() > 0 {
        lemma_split_nonempty(s.drop_last());
    }
}

/// The byte contents of a list of segments.
pub open spec fn segment_views<'a>(segs: Seq<&'a [u8]>) -> Seq<Seq<u8>> {
    segs.map_values(|x: &'a [u8]| x@)
}

/// Whether a pattern segment is `**`.
pub open spec fn is_double_star(seg: Seq<u8>) -> bool {
    seg == seq![STAR, STAR]
}

/// Whether the pattern segments match the text segments: `**` stands for any
/// number of whole segments, every other pattern segment matches exactly one
/// text segment component-wise.
pub open spec fn segments_match(p: Seq<Seq<u8>>, t: Seq<Seq<u8>>) -> bool
    decreases p.len() + t.len(),
{
    if p.len() == 0 {
        t.len() == 0
    } else if is_double_star(p[0]) {
        segments_match(p.drop_first(), t) || (t.len() > 0 && segments_match(p, t.drop_first()))
    } else {
        t.len() > 0 && wildcard_match(p[0], t[0]) && segments_match(p.drop_first(), t.drop_first())
    }
}

/// Whether `pattern` matches `text`, both split at `/`.
pub open spec fn glob_spec(pattern: Seq<u8>, text: Seq<u8>) -> bool {
    segments_match(split_segments(pattern), split_segments(text))
}

/// Matches one path component against one pattern component, byte by byte:
/// `*` matches any run of bytes, `?` any one byte, every other byte itself.
pub fn glob_component_matches(pattern: &[u8], text: &[u8]) -> (r: bool)
    ensures
        r == wildcard_match(pattern@, text@),
{
    let ghost p = pattern@;
    let ghost t = text@;
    let mut pattern_idx: usize = 0;
    let mut text_idx: usize = 0;
    let mut star_idx: Option<usize> = None;
    let mut star_text_idx: usize = 0;

    while text_idx < text.len()
        invariant
            p == pattern@,
            t == text@,
            scan_state_ok(p, t, pattern_idx as int, text_idx as int, star_at(star_idx), star_text_idx as int),
            component_scan(p, t, pattern_idx as int, text_idx as int, star_at(star_idx), star_text_idx as int)
                == component_matches(p, t),
        decreases
            (if star_idx is Some { text.len() - star_text_idx } else { text.len() + 1int }),
            text.len() - text_idx,
            pattern.len() - pattern_idx,
    {
        if pattern_idx < pattern.len() && pattern[pattern_idx] == STAR {
            star_idx = Some(pattern_idx);
            pattern_idx += 1;
            star_text_idx = text_idx;
        } else if pattern_idx < pattern.len() && (pattern[pattern_idx] == ANY_ONE || pattern[pattern_idx]
            == text[text_idx]) {
            pattern_idx += 1;
            text_idx += 1;
        } else if let Some(s) = star_idx {
            pattern_idx = s + 1;
            star_text_idx += 1;
            text_idx = star_text_idx;
        } else {
            proof {
                lemma_component_matches_is_wildcard(p, t);
            }
            return false;
        }
    }
    proof {
        lemma_component_matches_is_wildcard(p, t);
    }
    let mut k = pattern_idx;
    while k < pattern.len()
        invariant
            p == pattern@,
            t == text@,
            pattern_idx <= k <= pattern.len(),
            text_idx >= text.len(),
            scan_state_ok(p, t, pattern_idx as int, text_idx as int, star_at(star_idx), star_text_idx as int),
            component_scan(p, t, pattern_idx as int, text_idx as int, star_at(star_idx), star_text_idx as int)
                == component_matches(p, t),
            component_matches(p, t) == wildcard_match(p, t),
            forall|x: int| pattern_idx <= x < k ==> pattern@[x] == STAR,
        decreases pattern.len() - k,
    {
        if pattern[k] != STAR {
            return false;
        }
        k += 1;
    }
    true
}

/// Splits `s` at every `/` byte.
fn split_at_slashes(s: &[u8]) -> (segs: Vec<&[u8]>)
    ensures
        segment_views(segs@) == split_segments(s@),
{
    let mut segs: Vec<&[u8]> = Vec::new();
    let mut start: usize = 0;
    let mut i: usize = 0;
    proof {
        assert(s@.subrange(0, 0) =~= Seq::<u8>::empty());
        assert(segment_views(segs@).push(s@.subrange(0, 0)) =~= split_segments(s@.subrange(0, 0)));
    }
    while i < s.len()
        invariant
            start <= i <= s.len(),
            segment_views(segs@).push(s@.subrange(start as int, i as int)) == split_segments(
                s@.subrange(0, i as int),
            ),
        decreases s.len() - i,
    {
        let ghost prev = s@.subrange(0, i as int);
        let ghost next = s@.subrange(0, i + 1);
        assert(next.drop_last() =~= prev);
        assert(next.last() == s@[i as int]);
        proof {
            lemma_split_nonempty(prev);
        }
        let ghost prev_segs = segs@;
        if s[i] == SLASH {
            let seg = &s[start..i];
            segs.push(seg);
            start = i + 1;
            assert(segment_views(segs@) =~= segment_views(prev_segs).push(seg@));
            assert(s@.subrange(start as int, i + 1) =~= Seq::<u8>::empty());
            assert(segment_views(segs@).push(s@.subrange(start as int, i + 1)) =~= split_segments(next));
        } else {
            assert(s@.subrange(start as int, i + 1) =~= s@.subrange(start as int, i as int).push(s@[i as int]));
            assert(segment_views(segs@).push(s@.subrange(start as int, i + 1)) =~= split_segments(next));
        }
        i += 1;
    }
    let last = &s[start..s.len()];
    segs.push(last);
    assert(s@.subrange(0, s@.len() as int) =~= s@);
    assert(segment_views(segs@) =~= split_segments(s@));
    segs
}

/// Whether a pattern segment is exactly `**`.
fn segment_is_double_star(seg: &[u8]) -> (r: bool)
    ensures
        r == is_double_star(seg@),
{
    let r = seg.len() == 2 && seg[0] == STAR && seg[1] == STAR;
    assert(r ==> seg@ =~= seq![STAR, STAR]);
    r
}

/// Matches pattern segments against text segments; `**` stands for zero or
/// more whole text segments.
pub fn glob_segments_match(pattern: &[&[u8]], text: &[&[u8]]) -> (r: bool)
    ensures
        r == segments_match(segment_views(pattern@), segment_views(text@)),
    decreases pattern@.len() + text@.len(),
{
    let ghost pv = segment_views(pattern@);
    let ghost tv = segment_views(text@);
    if pattern.len() == 0 {
        return text.len() == 0;
    }
    let head = pattern[0];
    let pattern_rest = &pattern[1..pattern.len()];
    assert(segment_views(pattern_rest@) =~= pv.drop_first());
    if segment_is_double_star(head) {
        if glob_segments_match(pattern_rest, text) {
            true
        } else if text.len() > 0 {
            let text_rest = &text[1..text.len()];
            assert(segment_views(text_rest@) =~= tv.drop_first());
            glob_segments_match(pattern, text_rest)
        } else {
            false
        }
    } else if text.len() > 0 {
        let text_rest = &text[1..text.len()];
        assert(segment_views(text_rest@) =~= tv.drop_first());
        glob_component_matches(head, text[0]) && glob_segments_match(pattern_rest, text_rest)
    } else {
        false
    }
}

/// Whether the `/`-separated `text` matches the include pattern `pattern`.
pub fn glob_matches(pattern: &str, text: &str) -> (r: bool)
    ensures
        r == glob_spec(pattern.spec_bytes(), text.spec_bytes()),
{
    let pattern_segments = split_at_slashes(pattern.as_bytes());
    let text_segments = split_at_slashes(text.as_bytes());
    glob_segments_match(pattern_segments.as_slice(), text_segments.as_slice())
}

/// `**` spans any number of whole segments: a pattern that starts with it
/// matches exactly when the rest of the pattern matches what is left after
/// dropping some number of leading text segments (none included).
pub proof fn lemma_double_star_spans(q: Seq<Seq<u8>>, t: Seq<Seq<u8>>)
    ensures
        segments_match(seq![seq![STAR, STAR]] + q, t) <==> exists|k: int|
            0 <= k <= t.len() && #[trigger] segments_match(q, t.skip(k)),
    decreases t.len(),
{
    let p = seq![seq![STAR, STAR]] + q;
    assert(p[0] == seq![STAR, STAR]);
    assert(p.drop_first() =~= q);
    assert(t.skip(0) =~= t);
    if t.len() > 0 {
        lemma_double_star_spans(q, t.drop_first());
    }
    if segments_match(p, t) {
        if !segments_match(q, t) {
            let k = choose|k: int| 0 <= k <= t.drop_first().len() && #[trigger] segments_match(q, t.drop_first().skip(k));
            assert(t.drop_first().skip(k) =~= t.skip(k + 1));
        }
    }
    if exists|k: int| 0 <= k <= t.len() && #[trigger] segments_match(q, t.skip(k)) {
        let k = choose|k: int| 0 <= k <= t.len() && #[trigger] segments_match(q, t.skip(k));
        if k > 0 {
            assert(t.drop_first().skip(k - 1) =~= t.skip(k));
        }
    }
}

/// No byte of `p` is a wildcard.
pub open spec fn wildcard_free(p: Seq<u8>) -> bool {
    forall|i: int| 0 <= i < p.len() ==> p[i] != STAR && p[i] != ANY_ONE
}

proof fn lemma_plain_scan(p: Seq<u8>, t: Seq<u8>, i: int, j: int)
    requires
        wildcard_free(p),
        0 <= i <= p.len(),
        0 <= j <= t.len(),
    ensures
        component_scan(p, t, i, j, None, 0) == (p.subrange(i, p.len() as int) == t.subrange(j, t.len() as int)),
    decreases t.len() - j,
{
    let ps = p.subrange(i, p.len() as int);
    let ts = t.subrange(j, t.len() as int);
    if j >= t.len() {
        if i < p.len() {
            assert(p[i] != STAR);
            assert(!all_stars_from(p, i));
            assert(ps.len() != ts.len());
        } else {
            assert(ps =~= ts);
        }
    } else if i < p.len() && p[i] == t[j] {
        lemma_plain_scan(p, t, i + 1, j + 1);
        if ps == ts {
            assert(p.subrange(i + 1, p.len() as int) =~= ps.drop_first());
            assert(t.subrange(j + 1, t.len() as int) =~= ts.drop_first());
        }
        if p.subrange(i + 1, p.len() as int) == t.subrange(j + 1, t.len() as int) {
            assert(ps =~= ts) by {
                assert forall|k: int| 0 <= k < ps.len() implies ps[k] == ts[k] by {
                    if k > 0 {
                        assert(ps[k] == p.subrange(i + 1, p.len() as int)[k - 1]);
                        assert(ts[k] == t.subrange(j + 1, t.len() as int)[k - 1]);
                    }
                }
            }
        }
    } else {
        if i < p.len() {
            assert(ps[0] != ts[0]);
        } else {
            assert(ps.len() != ts.len());
        }
    }
}

/// A pattern component without `*` or `?` matches exactly the identical
/// text.
pub proof fn lemma_plain_component_matches_itself(p: Seq<u8>, t: Seq<u8>)
    requires
        wildcard_free(p),
    ensures
        wildcard_match(p, t) == (p == t),
{
    lemma_plain_scan(p, t, 0, 0);
    lemma_component_matches_is_wildcard(p, t);
    assert(p.subrange(0, p.len() as int) =~= p);
    assert(t.subrange(0, t.len() as int) =~= t);
}

proof fn lemma_insert_drop_first(p: Seq<u8>, k: int, b: u8)
    requires
        0 < k <= p.len(),
    ensures
        p.insert(k, b).drop_first() == p.drop_first().insert(k - 1, b),
        p.insert(k, b)[0] == p[0],
{
    assert(p.insert(k, b).drop_first() =~= p.drop_first().insert(k - 1, b));
}

/// Adding a `*` anywhere in a component pattern keeps every match: the new
/// star can match the empty run.
pub proof fn lemma_inserted_star_keeps_match(p: Seq<u8>, t: Seq<u8>, k: int)
    requires
        0 <= k <= p.len(),
        wildcard_match(p, t),
    ensures
        wildcard_match(p.insert(k, STAR), t),
    decreases p.len() + t.len(),
{
    let q = p.insert(k, STAR);
    if k == 0 {
        assert(q[0] == STAR);
        assert(q.drop_first() =~= p);
    } else {
        lemma_insert_drop_first(p, k, STAR);
        if p[0] == STAR {
            if wildcard_match(p.drop_first(), t) {
                lemma_inserted_star_keeps_match(p.drop_first(), t, k - 1);
            } else {
                lemma_inserted_star_keeps_match(p, t.drop_first(), k);
            }
        } else {
            lemma_inserted_star_keeps_match(p.drop_first(), t.drop_first(), k - 1);
        }
    }
}

/// Turning a byte other than `*` of a component pattern into `?` keeps every
/// match: `?` matches whatever byte the old one did.
pub proof fn lemma_any_one_keeps_match(p: Seq<u8>, t: Seq<u8>, k: int)
    requires
        0 <= k < p.len(),
        p[k] != STAR,
        wildcard_match(p, t),
    ensures
        wildcard_match(p.update(k, ANY_ONE), t),
    decreases p.len() + t.len(),
{
    let q = p.update(k, ANY_ONE);
    if k == 0 {
        assert(q.drop_first() =~= p.drop_first());
    } else {
        assert(q.drop_first() =~= p.drop_first().update(k - 1, ANY_ONE));
        assert(q[0] == p[0]);
        if p[0] == STAR {
            if wildcard_match(p.drop_first(), t) {
                lemma_any_one_keeps_match(p.drop_first(), t, k - 1);
            } else {
                lemma_any_one_keeps_match(p, t.drop_first(), k);
            }
        } else {
            lemma_any_one_keeps_match(p.drop_first(), t.drop_first(), k - 1);
        }
    }
}

/// No byte of `s` is `/`.
pub open spec fn slash_free(s: Seq<u8>) -> bool {
    forall|i: int| 0 <= i < s.len() ==> s[i] != SLASH
}

/// Appending bytes without `/` extends the last segment.
pub proof fn lemma_split_extend(x: Seq<u8>, b: Seq<u8>)
    requires
        slash_free(b),
    ensures
        split_segments(x + b) == split_segments(x).update(
            split_segments(x).len() - 1,
            split_segments(x).last() + b,
        ),
    decreases b.len(),
{
    lemma_split_nonempty(x);
    let sx = split_segments(x);
    if b.len() == 0 {
        assert(x + b =~= x);
        assert(sx.last() + b =~= sx.last());
        assert(sx.update(sx.len() - 1, sx.last()) =~= sx);
    } else {
        let b0 = b.drop_last();
        lemma_split_extend(x, b0);
        assert((x + b).drop_last() =~= x + b0);
        assert((x + b).last() == b.last());
        let s0 = split_segments(x + b0);
        lemma_split_nonempty(x + b0);
        assert(s0.last() == sx.last() + b0);
        assert(s0.last().push(b.last()) =~= sx.last() + b);
        assert(s0.update(s0.len() - 1, s0.last().push(b.last())) =~= sx.update(
            sx.len() - 1,
            sx.last() + b,
        ));
    }
}

/// A `/` followed by bytes without `/` adds exactly one segment.
pub proof fn lemma_split_after_slash(x: Seq<u8>, b: Seq<u8>)
    requires
        slash_free(b),
    ensures
        split_segments(x + seq![SLASH] + b) == split_segments(x).push(b),
{
    let xs = x + seq![SLASH];
    assert(xs.drop_last() =~= x);
    assert(xs.last() == SLASH);
    lemma_split_extend(xs, b);
    let sxs = split_segments(xs);
    assert(sxs == split_segments(x).push(Seq::<u8>::empty()));
    assert(Seq::<u8>::empty() + b =~= b);
    assert(sxs.update(sxs.len() - 1, sxs.last() + b) =~= split_segments(x).push(b));
}

/// Text without `/` is a single segment, itself; text with a `/` is more
/// than one segment.
pub proof fn lemma_split_single(t: Seq<u8>)
    ensures
        slash_free(t) ==> split_segments(t) == seq![t],
        !slash_free(t) ==> split_segments(t).len() > 1,
    decreases t.len(),
{
    if t.len() > 0 {
        let d = t.drop_last();
        lemma_split_single(d);
        lemma_split_nonempty(d);
        if t.last() != SLASH {
            if slash_free(d) {
                assert forall|i: int| 0 <= i < t.len() implies t[i] != SLASH by {
                    if i < d.len() {
                        assert(t[i] == d[i]);
                    }
                }
                assert(d.push(t.last()) =~= t);
                assert(seq![d].update(0, d.push(t.last())) =~= seq![t]);
            } else {
                let k = choose|k: int| 0 <= k < d.len() && d[k] == SLASH;
                assert(t[k] == SLASH);
            }
        } else {
            assert(t[t.len() - 1] == SLASH);
        }
    } else {
        assert(t =~= Seq::<u8>::empty());
    }
}

/// Without `**`, pattern segments and text segments pair up one to one, and
/// each pair must match as components.
pub proof fn lemma_segments_pair_up(p: Seq<Seq<u8>>, t: Seq<Seq<u8>>)
    requires
        forall|i: int| 0 <= i < p.len() ==> !is_double_star(#[trigger] p[i]),
    ensures
        segments_match(p, t) == (p.len() == t.len() && forall|i: int|
            0 <= i < p.len() ==> wildcard_match(#[trigger] p[i], t[i])),
    decreases p.len(),
{
    if p.len() > 0 {
        let pr = p.drop_first();
        assert forall|i: int| 0 <= i < pr.len() implies !is_double_star(#[trigger] pr[i]) by {
            assert(pr[i] == p[i + 1]);
        }
        assert(!is_double_star(p[0]));
        if t.len() > 0 {
            let tr = t.drop_first();
            lemma_segments_pair_up(pr, tr);
            if p.len() == t.len() && forall|i: int| 0 <= i < p.len() ==> wildcard_match(#[trigger] p[i], t[i]) {
                assert(wildcard_match(p[0], t[0]));
                assert forall|i: int| 0 <= i < pr.len() implies wildcard_match(#[trigger] pr[i], tr[i]) by {
                    assert(wildcard_match(p[i + 1], t[i + 1]));
                }
            }
            if segments_match(p, t) {
                assert forall|i: int| 0 <= i < p.len() implies wildcard_match(#[trigger] p[i], t[i]) by {
                    if i > 0 {
                        assert(wildcard_match(pr[i - 1], tr[i - 1]));
                    }
                }
            }
        }
    } else {
        if t.len() > 0 {
            assert(p.len() != t.len());
        }
    }
}

/// A glob with no `/` and no wildcard matches exactly the identical path:
/// in particular `pkg` never matches `pkg2`, nor `pkg/x`.
pub proof fn lemma_plain_glob_matches_only_itself(p: Seq<u8>, t: Seq<u8>)
    requires
        slash_free(p),
        wildcard_free(p),
    ensures
        glob_spec(p, t) == (p == t),
{
    lemma_split_single(p);
    lemma_split_single(t);
    let ps = split_segments(p);
    let ts = split_segments(t);
    assert(!is_double_star(p)) by {
        if p.len() == 2 {
            assert(p[0] != STAR);
        }
    }
    assert(forall|i: int| 0 <= i < ps.len() ==> !is_double_star(#[trigger] ps[i]));
    lemma_segments_pair_up(ps, ts);
    lemma_plain_component_matches_itself(p, t);
    if slash_free(t) {
        lemma_plain_component_matches_itself(p, ts[0]);
    } else {
        if p == t {
            assert(false) by {
                let k = choose|k: int| 0 <= k < t.len() && t[k] == SLASH;
                assert(p[k] == SLASH);
            }
        }
    }
}

/// Every component pattern must match a whole text segment: a plain pattern
/// segment never matches a longer text segment.
pub proof fn lemma_pattern_segment_matches_whole_segment(p: Seq<Seq<u8>>, t: Seq<Seq<u8>>)
    requires
        p.len() > 0,
        !is_double_star(p[0]),
        segments_match(p, t),
    ensures
        t.len() > 0,
        wildcard_match(p[0], t[0]),
        segments_match(p.drop_first(), t.drop_first()),
{
}

} // verus!
