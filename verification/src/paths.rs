//! Path handling: extracting paths from `--- `/`+++ ` header lines,
//! splitting a path into components, auto-detecting the strip level from
//! the common suffix of the two paths, and applying a strip level.

use vstd::prelude::*;
use crate::bytes::{
    starts_with, is_space, is_space_byte, trimmed_end, trim_end_len, lemma_trim_end_len_bounds,
    has_prefix_at, views,
};

verus! {

/// Number of bytes of `s` before the first occurrence of `b`
/// (`s.len()` if `b` does not occur).
pub open spec fn find_byte_len(s: Seq<u8>, b: u8) -> int
    decreases s.len(),
{
    if s.len() == 0 {
        0
    } else if s[0] == b {
        0
    } else {
        1 + find_byte_len(s.skip(1), b)
    }
}

pub proof fn lemma_find_byte_len(s: Seq<u8>, b: u8)
    ensures
        0 <= find_byte_len(s, b) <= s.len(),
        forall|j: int| 0 <= j < find_byte_len(s, b) ==> s[j] != b,
        find_byte_len(s, b) < s.len() ==> s[find_byte_len(s, b)] == b,
    decreases s.len(),
{
    if s.len() > 0 && s[0] != b {
        lemma_find_byte_len(s.skip(1), b);
        assert forall|j: int| 0 <= j < find_byte_len(s, b) implies s[j] != b by {
            if j > 0 {
                assert(s.skip(1)[j - 1] == s[j]);
            }
        }
    }
}

/// `find_byte_len` is pinned down by its characteristic properties.
pub proof fn lemma_find_byte_len_is(s: Seq<u8>, b: u8, t: int)
    requires
        0 <= t <= s.len(),
        forall|j: int| 0 <= j < t ==> s[j] != b,
        t < s.len() ==> s[t] == b,
    ensures
        find_byte_len(s, b) == t,
    decreases s.len(),
{
    if s.len() > 0 && s[0] != b {
        assert(forall|j: int| 0 <= j < s.len() - 1 ==> s.skip(1)[j] == s[j + 1]);
        lemma_find_byte_len_is(s.skip(1), b, t - 1);
    }
}

/// Number of leading whitespace bytes of `s`.
pub open spec fn trim_start_len(s: Seq<u8>) -> int
    decreases s.len(),
{
    if s.len() > 0 && is_space(s[0]) {
        1 + trim_start_len(s.skip(1))
    } else {
        0
    }
}

/// `trim_start_len` is pinned down by its characteristic properties.
pub proof fn lemma_trim_start_len_is(s: Seq<u8>, t: int)
    requires
        0 <= t <= s.len(),
        forall|j: int| 0 <= j < t ==> is_space(s[j]),
        t < s.len() ==> !is_space(s[t]),
    ensures
        trim_start_len(s) == t,
    decreases s.len(),
{
    if s.len() > 0 && is_space(s[0]) {
        assert(forall|j: int| 0 <= j < s.len() - 1 ==> s.skip(1)[j] == s[j + 1]);
        lemma_trim_start_len_is(s.skip(1), t - 1);
    }
}

/// `s` with every leading occurrence of the (non-empty) prefix `p` removed.
pub open spec fn strip_prefix_rep(s: Seq<u8>, p: Seq<u8>) -> Seq<u8>
    decreases s.len(),
{
    if p.len() > 0 && starts_with(s, p) {
        strip_prefix_rep(s.skip(p.len() as int), p)
    } else {
        s
    }
}

/// `s` with leading and trailing whitespace removed.
pub open spec fn trim_both(s: Seq<u8>) -> Seq<u8> {
    trimmed_end(s).skip(trim_start_len(trimmed_end(s)))
}

/// The path carried by a header line: the line after the marker prefix,
/// trimmed of surrounding whitespace, cut at the first tab (tab-delimited
/// trailing metadata such as timestamps is discarded).
pub open spec fn spec_extract_path(line: Seq<u8>, prefix: Seq<u8>) -> Seq<u8> {
    let t = trim_both(strip_prefix_rep(line, prefix));
    t.subrange(0, find_byte_len(t, 9))
}

/// Extracts the path from a header line such as `--- a/x.txt<tab>meta`.
pub fn extract_path(line: &Vec<u8>, prefix: &Vec<u8>) -> (r: Vec<u8>)
    ensures
        r@ == spec_extract_path(line@, prefix@),
{
    let mut start: usize = 0;
    let n: usize = line.len();
    proof {
        assert(line@.skip(0) =~= line@);
    }
    if prefix.len() > 0 {
        while has_prefix_at(line, prefix, start)
            invariant
                0 <= start <= line@.len(),
                line@.len() == n,
                prefix@.len() > 0,
                strip_prefix_rep(line@.skip(start as int), prefix@) == strip_prefix_rep(
                    line@,
                    prefix@,
                ),
            decreases line@.len() - start,
        {
            proof {
                let w = line@.skip(start as int);
                assert(prefix@.len() <= w.len());
                assert(start + prefix@.len() <= line@.len());
                assert(w.skip(prefix@.len() as int) =~= line@.skip(
                    start as int + prefix@.len() as int,
                ));
            }
            start += prefix.len();
        }
    }
    let ghost w = line@.skip(start as int);
    proof {
        assert(strip_prefix_rep(w, prefix@) == w);
        if prefix@.len() == 0 {
            assert(w =~= line@.skip(0));
        }
        lemma_trim_end_len_bounds(w);
        assert(w.subrange(0, w.len() as int) =~= w);
    }
    // trailing whitespace of the window
    let mut hi: usize = line.len();
    while hi > start && is_space_byte(line[hi - 1])
        invariant
            start <= hi <= line@.len(),
            w == line@.skip(start as int),
            trim_end_len(w.subrange(0, hi - start)) == trim_end_len(w),
        decreases hi,
    {
        proof {
            let pre = w.subrange(0, hi - start);
            assert(pre.drop_last() =~= w.subrange(0, hi - 1 - start));
            assert(pre[pre.len() - 1] == line@[hi - 1]);
        }
        hi -= 1;
    }
    proof {
        let pre = w.subrange(0, hi - start);
        if hi > start {
            assert(pre[pre.len() - 1] == line@[hi - 1]);
            assert(trim_end_len(pre) == pre.len());
        }
        assert(trim_end_len(w) == hi - start);
        assert(trimmed_end(w) =~= w.subrange(0, hi - start));
    }
    let ghost te = trimmed_end(w);
    // leading whitespace of the trimmed window
    let mut lo: usize = start;
    while lo < hi && is_space_byte(line[lo])
        invariant
            start <= lo <= hi <= line@.len(),
            w == line@.skip(start as int),
            te == trimmed_end(w),
            te =~= w.subrange(0, hi - start),
            forall|j: int| start <= j < lo ==> is_space(line@[j]),
        decreases hi - lo,
    {
        lo += 1;
    }
    proof {
        assert(forall|j: int| 0 <= j < lo - start ==> te[j] == line@[start + j]);
        if lo < hi {
            assert(te[lo - start] == line@[lo as int]);
        }
        lemma_trim_start_len_is(te, lo - start);
    }
    let ghost tb = trim_both(w);
    proof {
        assert(tb =~= line@.subrange(lo as int, hi as int));
    }
    // cut at the first tab
    let mut t: usize = lo;
    while t < hi && line[t] != 9
        invariant
            lo <= t <= hi <= line@.len(),
            forall|j: int| lo <= j < t ==> line@[j] != 9,
        decreases hi - t,
    {
        t += 1;
    }
    proof {
        assert(forall|j: int| 0 <= j < t - lo ==> tb[j] == line@[lo + j]);
        if t < hi {
            assert(tb[t - lo] == line@[t as int]);
        }
        lemma_find_byte_len_is(tb, 9, t - lo);
    }
    // copy the bytes out
    let mut r: Vec<u8> = Vec::new();
    let mut i: usize = lo;
    while i < t
        invariant
            lo <= i <= t <= line@.len(),
            r@ =~= line@.subrange(lo as int, i as int),
        decreases t - i,
    {
        r.push(line[i]);
        assert(r@ =~= line@.subrange(lo as int, i as int + 1));
        i += 1;
    }
    proof {
        assert(strip_prefix_rep(line@, prefix@) == w);
        assert(r@ =~= tb.subrange(0, find_byte_len(tb, 9)));
    }
    r
}

/// The components of a path: the non-empty segments between `/` bytes.
pub open spec fn path_components(s: Seq<u8>) -> Seq<Seq<u8>>
    decreases s.len(),
    via path_components_dec
{
    if s.len() == 0 {
        Seq::empty()
    } else {
        let k = find_byte_len(s, 47);
        let head = s.subrange(0, k);
        let rest = if k == s.len() {
            Seq::<u8>::empty()
        } else {
            s.skip(k + 1)
        };
        if head.len() == 0 {
            path_components(rest)
        } else {
            seq![head] + path_components(rest)
        }
    }
}

#[via_fn]
proof fn path_components_dec(s: Seq<u8>) {
    if s.len() > 0 {
        lemma_find_byte_len(s, 47);
    }
}

/// Splits a path into its components.
pub fn split_components(path: &Vec<u8>) -> (r: Vec<Vec<u8>>)
    ensures
        views(r@) == path_components(path@),
{
    let mut r: Vec<Vec<u8>> = Vec::new();
    let mut i: usize = 0;
    proof {
        assert(views(r@) =~= Seq::<Seq<u8>>::empty());
        assert(path@.skip(0) =~= path@);
        assert(views(r@) + path_components(path@.skip(0)) =~= path_components(path@));
    }
    while i < path.len()
        invariant
            0 <= i <= path@.len(),
            views(r@) + path_components(path@.skip(i as int)) == path_components(path@),
        decreases path@.len() - i,
    {
        let ghost w = path@.skip(i as int);
        let mut j: usize = i;
        while j < path.len() && path[j] != 47
            invariant
                i <= j <= path@.len(),
                forall|m: int| i <= m < j ==> path@[m] != 47,
            decreases path@.len() - j,
        {
            j += 1;
        }
        proof {
            assert(forall|m: int| 0 <= m < j - i ==> w[m] == path@[i + m]);
            if j < path.len() {
                assert(w[j - i] == path@[j as int]);
            }
            lemma_find_byte_len_is(w, 47, j - i);
        }
        if j > i {
            // copy the segment out
            let mut seg: Vec<u8> = Vec::new();
            let mut m: usize = i;
            while m < j
                invariant
                    i <= m <= j <= path@.len(),
                    seg@ =~= path@.subrange(i as int, m as int),
                decreases j - m,
            {
                seg.push(path[m]);
                assert(seg@ =~= path@.subrange(i as int, m as int + 1));
                m += 1;
            }
            proof {
                assert(seg@ =~= w.subrange(0, j - i));
            }
            let ghost old_r = r@;
            r.push(seg);
            proof {
                assert(views(r@) =~= views(old_r).push(seg@));
                let rest = if j - i == w.len() {
                    Seq::<u8>::empty()
                } else {
                    w.skip(j - i + 1)
                };
                assert(path_components(w) == seq![w.subrange(0, j - i)] + path_components(rest));
                assert(views(old_r) + path_components(w) =~= views(r@) + path_components(rest));
                if j < path.len() {
                    assert(w.skip(j - i + 1) =~= path@.skip(j + 1));
                } else {
                    assert(path@.skip(path@.len() as int) =~= Seq::<u8>::empty());
                }
            }
        } else {
            proof {
                // head is empty: the component list of the window is that of the rest
                let rest = if j - i == w.len() {
                    Seq::<u8>::empty()
                } else {
                    w.skip(j - i + 1)
                };
                assert(w.subrange(0, 0).len() == 0);
                assert(path_components(w) == path_components(rest));
                if j < path.len() {
                    assert(w.skip(1) =~= path@.skip(j + 1));
                } else {
                    assert(path@.skip(path@.len() as int) =~= Seq::<u8>::empty());
                }
            }
        }
        if j < path.len() {
            i = j + 1;
        } else {
            i = path.len();
        }
    }
    proof {
        assert(path@.skip(path@.len() as int) =~= Seq::<u8>::empty());
        assert(views(r@) + path_components(Seq::<u8>::empty()) =~= views(r@));
    }
    r
}

/// Number of matching trailing components of `a` and `b`.
pub open spec fn common_suffix_len(a: Seq<Seq<u8>>, b: Seq<Seq<u8>>) -> int
    decreases a.len(),
{
    if a.len() > 0 && b.len() > 0 && a.last() == b.last() {
        1 + common_suffix_len(a.drop_last(), b.drop_last())
    } else {
        0
    }
}

/// `common_suffix_len` is pinned down by its characteristic properties:
/// the last `k` components match and, where both sides go on, the next
/// pair does not.
pub proof fn lemma_common_suffix_len_is(a: Seq<Seq<u8>>, b: Seq<Seq<u8>>, k: int)
    requires
        0 <= k <= a.len(),
        k <= b.len(),
        a.skip(a.len() - k) == b.skip(b.len() - k),
        k < a.len() && k < b.len() ==> a[a.len() - 1 - k] != b[b.len() - 1 - k],
    ensures
        common_suffix_len(a, b) == k,
    decreases a.len(),
{
    if a.len() > 0 && b.len() > 0 && a.last() == b.last() {
        assert(k > 0) by {
            if k == 0 {
                assert(a[a.len() - 1] == b[b.len() - 1]);
            }
        }
        let a1 = a.drop_last();
        let b1 = b.drop_last();
        assert(a1.skip(a1.len() - (k - 1)) =~= b1.skip(b1.len() - (k - 1))) by {
            assert(forall|j: int|
                0 <= j < k - 1 ==> #[trigger] a1.skip(a1.len() - (k - 1))[j] == a.skip(
                    a.len() - k,
                )[j]);
            assert(forall|j: int|
                0 <= j < k - 1 ==> #[trigger] b1.skip(b1.len() - (k - 1))[j] == b.skip(
                    b.len() - k,
                )[j]);
        }
        if k - 1 < a1.len() && k - 1 < b1.len() {
            assert(a1[a1.len() - 1 - (k - 1)] == a[a.len() - 1 - k]);
            assert(b1[b1.len() - 1 - (k - 1)] == b[b.len() - 1 - k]);
        }
        lemma_common_suffix_len_is(a1, b1, k - 1);
    } else {
        assert(k == 0) by {
            if k > 0 {
                assert(a.skip(a.len() - k)[k - 1] == a[a.len() - 1]);
                assert(b.skip(b.len() - k)[k - 1] == b[b.len() - 1]);
                assert(a[a.len() - 1] == b[b.len() - 1]);
            }
        }
    }
}

/// The auto-detected strip level: the number of leading components of
/// `to` that are not part of the common trailing run shared with `from`.
pub open spec fn auto_strip_value(from: Seq<u8>, to: Seq<u8>) -> int {
    path_components(to).len() - common_suffix_len(path_components(from), path_components(to))
}

/// Auto-detects the strip level from the two header paths: components are
/// matched pairwise from the end while equal, and what is left of the
/// "to" path in front of that common suffix is the strip count.
pub fn calculate_strip_value(from_path: &Vec<u8>, to_path: &Vec<u8>) -> (r: usize)
    ensures
        r == auto_strip_value(from_path@, to_path@),
        r <= path_components(to_path@).len(),
{
    let from_comps = split_components(from_path);
    let to_comps = split_components(to_path);
    let ghost a = path_components(from_path@);
    let ghost b = path_components(to_path@);
    let fl = from_comps.len();
    let tl = to_comps.len();
    let mut k: usize = 0;
    while k < fl && k < tl && crate::bytes::bytes_eq(&from_comps[fl - 1 - k], &to_comps[tl - 1 - k])
        invariant
            0 <= k <= fl,
            k <= tl,
            fl == from_comps@.len(),
            tl == to_comps@.len(),
            views(from_comps@) == a,
            views(to_comps@) == b,
            a.skip(a.len() - k) == b.skip(b.len() - k),
        decreases fl - k,
    {
        proof {
            assert(a[a.len() - 1 - k] == from_comps@[fl - 1 - k]@);
            assert(b[b.len() - 1 - k] == to_comps@[tl - 1 - k]@);
            assert(a.skip(a.len() - (k + 1)) =~= b.skip(b.len() - (k + 1))) by {
                assert(forall|j: int|
                    1 <= j < k + 1 ==> #[trigger] a.skip(a.len() - (k + 1))[j] == a.skip(
                        a.len() - k,
                    )[j - 1]);
                assert(forall|j: int|
                    1 <= j < k + 1 ==> #[trigger] b.skip(b.len() - (k + 1))[j] == b.skip(
                        b.len() - k,
                    )[j - 1]);
                assert(a.skip(a.len() - (k + 1))[0] == a[a.len() - 1 - k]);
                assert(b.skip(b.len() - (k + 1))[0] == b[b.len() - 1 - k]);
            }
        }
        k += 1;
    }
    proof {
        if k < fl && k < tl {
            assert(a[a.len() - 1 - k] == from_comps@[fl - 1 - k]@);
            assert(b[b.len() - 1 - k] == to_comps@[tl - 1 - k]@);
        }
        lemma_common_suffix_len_is(a, b, k as int);
    }
    tl - k
}

/// Resolves the strip level: an explicit count always wins; otherwise it
/// is auto-detected from the two header paths.
pub fn resolve_strip_level(explicit: Option<usize>, from_path: &Vec<u8>, to_path: &Vec<u8>) -> (r:
    usize)
    ensures
        match explicit {
            Some(n) => r == n,
            None => r == auto_strip_value(from_path@, to_path@),
        },
{
    match explicit {
        Some(n) => n,
        None => calculate_strip_value(from_path, to_path),
    }
}

/// The components joined back into a relative path with `/` separators.
pub open spec fn join_path(cs: Seq<Seq<u8>>) -> Seq<u8>
    decreases cs.len(),
{
    if cs.len() == 0 {
        Seq::empty()
    } else if cs.len() == 1 {
        cs[0]
    } else {
        cs[0] + seq![47u8] + join_path(cs.skip(1))
    }
}

pub proof fn lemma_join_path_push(cs: Seq<Seq<u8>>, x: Seq<u8>)
    ensures
        join_path(cs.push(x)) == if cs.len() == 0 {
            x
        } else {
            join_path(cs) + seq![47u8] + x
        },
    decreases cs.len(),
{
    if cs.len() == 0 {
        assert(cs.push(x)[0] == x);
    } else if cs.len() == 1 {
        assert(cs.push(x).skip(1) =~= seq![x]);
        assert(join_path(seq![x]) == x);
        assert(cs.push(x)[0] == cs[0]);
        assert(join_path(cs.push(x)) == cs[0] + seq![47u8] + x);
    } else {
        lemma_join_path_push(cs.skip(1), x);
        assert(cs.push(x).skip(1) =~= cs.skip(1).push(x));
        assert(join_path(cs.push(x)) == cs[0] + seq![47u8] + join_path(cs.skip(1).push(x)));
        assert(cs[0] + seq![47u8] + (join_path(cs.skip(1)) + seq![47u8] + x) =~= (cs[0] + seq![47u8]
            + join_path(cs.skip(1))) + seq![47u8] + x);
    }
}

/// The result of stripping `strip` leading components from `full`:
/// `full` itself when `strip` is zero, the remaining components rejoined
/// when enough are left, the final component alone when not, and `None`
/// (skip the record) when the outcome would be an empty path.
pub open spec fn spec_strip_path(full: Seq<u8>, strip: int) -> Option<Seq<u8>> {
    if strip == 0 {
        if full.len() == 0 {
            None
        } else {
            Some(full)
        }
    } else {
        let cs = path_components(full);
        if cs.len() > strip {
            Some(join_path(cs.skip(strip)))
        } else if cs.len() > 0 {
            Some(cs.last())
        } else {
            None
        }
    }
}

/// Applies a strip level to a path; `None` means the record is skipped.
pub fn strip_path(full: &Vec<u8>, strip: usize) -> (r: Option<Vec<u8>>)
    ensures
        match r {
            Some(v) => spec_strip_path(full@, strip as int) == Some(v@),
            None => spec_strip_path(full@, strip as int) is None,
        },
{
    if strip == 0 {
        if full.len() == 0 {
            return None;
        }
        return Some(crate::bytes::copy_bytes(full));
    }
    let comps = split_components(full);
    let ghost cs = path_components(full@);
    if comps.len() > strip {
        let mut out: Vec<u8> = Vec::new();
        let mut i: usize = strip;
        proof {
            assert(cs.subrange(strip as int, strip as int) =~= Seq::<Seq<u8>>::empty());
        }
        while i < comps.len()
            invariant
                strip <= i <= comps@.len(),
                strip < comps@.len(),
                views(comps@) == cs,
                out@ == join_path(cs.subrange(strip as int, i as int)),
            decreases comps@.len() - i,
        {
            let ghost pre = cs.subrange(strip as int, i as int);
            if i > strip {
                out.push(47);
            }
            let seg = &comps[i];
            let mut m: usize = 0;
            let ghost mid = out@;
            while m < seg.len()
                invariant
                    0 <= m <= seg@.len(),
                    out@ =~= mid + seg@.subrange(0, m as int),
                decreases seg@.len() - m,
            {
                out.push(seg[m]);
                assert(out@ =~= mid + seg@.subrange(0, m as int + 1));
                m += 1;
            }
            proof {
                assert(seg@.subrange(0, seg@.len() as int) =~= seg@);
                assert(seg@ == cs[i as int]);
                lemma_join_path_push(pre, cs[i as int]);
                assert(cs.subrange(strip as int, i as int + 1) =~= pre.push(cs[i as int]));
                if i > strip {
                    assert(out@ =~= join_path(pre) + seq![47u8] + cs[i as int]);
                } else {
                    assert(out@ =~= cs[i as int]);
                }
            }
            i += 1;
        }
        proof {
            assert(cs.subrange(strip as int, cs.len() as int) =~= cs.skip(strip as int));
        }
        Some(out)
    } else if comps.len() > 0 {
        let last = &comps[comps.len() - 1];
        proof {
            assert(last@ == cs[cs.len() - 1]);
        }
        Some(crate::bytes::copy_bytes(last))
    } else {
        None
    }
}

} // verus!
