//! Byte-level helpers shared by the parser: prefix tests, whitespace
//! trimming, and the marker prefixes that classify diff lines.
//!
//! Bytes are written as ASCII codes, since byte literals are not
//! available; each marker's doc comment gives its text.

use vstd::prelude::*;

verus! {

/// `p` is a prefix of `s`.
pub open spec fn starts_with(s: Seq<u8>, p: Seq<u8>) -> bool {
    p.len() <= s.len() && s.subrange(0, p.len() as int) == p
}

/// The views of a sequence of byte vectors.
pub open spec fn views(ls: Seq<Vec<u8>>) -> Seq<Seq<u8>> {
    ls.map_values(|l: Vec<u8>| l@)
}

pub proof fn lemma_views_push(v: Seq<Vec<u8>>, x: Vec<u8>)
    ensures
        views(v.push(x)) == views(v).push(x@),
{
    assert(views(v.push(x)) =~= views(v).push(x@));
}

/// Tests whether `line` starts with `p` at offset `at`.
pub fn has_prefix_at(line: &Vec<u8>, p: &Vec<u8>, at: usize) -> (r: bool)
    requires
        at <= line@.len(),
    ensures
        r == starts_with(line@.skip(at as int), p@),
{
    let ghost w = line@.skip(at as int);
    if p.len() > line.len() - at {
        return false;
    }
    let mut j: usize = 0;
    while j < p.len()
        invariant
            0 <= j <= p.len(),
            at + p.len() <= line.len(),
            w == line@.skip(at as int),
            forall|k: int| 0 <= k < j ==> line@[at + k] == p@[k],
        decreases p.len() - j,
    {
        if line[at + j] != p[j] {
            assert(w.subrange(0, p.len() as int) != p@) by {
                assert(w.subrange(0, p.len() as int)[j as int] == w[j as int]);
                assert(w[j as int] == line@[at + j]);
            }
            return false;
        }
        j += 1;
    }
    assert(w.subrange(0, p.len() as int) =~= p@) by {
        assert(forall|k: int| 0 <= k < p.len() ==> w.subrange(0, p.len() as int)[k] == line@[at + k]);
    }
    true
}

/// Copies a byte vector.
pub fn copy_bytes(v: &Vec<u8>) -> (r: Vec<u8>)
    ensures
        r@ == v@,
{
    let mut r: Vec<u8> = Vec::new();
    let mut i: usize = 0;
    while i < v.len()
        invariant
            0 <= i <= v.len(),
            r@ =~= v@.subrange(0, i as int),
        decreases v.len() - i,
    {
        r.push(v[i]);
        assert(r@ =~= v@.subrange(0, i as int + 1));
        i += 1;
    }
    assert(r@ =~= v@);
    r
}

/// Compares two byte vectors for equality of contents.
pub fn bytes_eq(a: &Vec<u8>, b: &Vec<u8>) -> (r: bool)
    ensures
        r == (a@ == b@),
{
    if a.len() != b.len() {
        return false;
    }
    let mut i: usize = 0;
    while i < a.len()
        invariant
            0 <= i <= a.len(),
            a@.len() == b@.len(),
            forall|j: int| 0 <= j < i ==> a@[j] == b@[j],
        decreases a.len() - i,
    {
        if a[i] != b[i] {
            return false;
        }
        i += 1;
    }
    assert(a@ =~= b@);
    true
}

/// Tests whether `line` starts with `p`.
pub fn has_prefix(line: &Vec<u8>, p: &Vec<u8>) -> (r: bool)
    ensures
        r == starts_with(line@, p@),
{
    if p.len() > line.len() {
        return false;
    }
    let mut i: usize = 0;
    while i < p.len()
        invariant
            0 <= i <= p.len(),
            p.len() <= line.len(),
            forall|j: int| 0 <= j < i ==> line@[j] == p@[j],
        decreases p.len() - i,
    {
        if line[i] != p[i] {
            assert(line@.subrange(0, p.len() as int) != p@) by {
                assert(line@.subrange(0, p.len() as int)[i as int] != p@[i as int]);
            }
            return false;
        }
        i += 1;
    }
    assert(line@.subrange(0, p.len() as int) =~= p@);
    true
}

/// The marker `diff --` that opens each per-file block.
pub open spec fn diff_marker() -> Seq<u8> {
    seq![100u8, 105u8, 102u8, 102u8, 32u8, 45u8, 45u8]
}

/// Builds the marker `diff --`.
pub fn diff_marker_vec() -> (v: Vec<u8>)
    ensures
        v@ == diff_marker(),
{
    let mut v: Vec<u8> = Vec::new();
    v.push(100);
    v.push(105);
    v.push(102);
    v.push(102);
    v.push(32);
    v.push(45);
    v.push(45);
    assert(v@ =~= diff_marker());
    v
}

/// The marker `index `.
pub open spec fn index_marker() -> Seq<u8> {
    seq![105u8, 110u8, 100u8, 101u8, 120u8, 32u8]
}

/// Builds the marker `index `.
pub fn index_marker_vec() -> (v: Vec<u8>)
    ensures
        v@ == index_marker(),
{
    let mut v: Vec<u8> = Vec::new();
    v.push(105);
    v.push(110);
    v.push(100);
    v.push(101);
    v.push(120);
    v.push(32);
    assert(v@ =~= index_marker());
    v
}

/// The marker `--- ` of the "from" header line.
pub open spec fn from_marker() -> Seq<u8> {
    seq![45u8, 45u8, 45u8, 32u8]
}

/// Builds the marker `--- `.
pub fn from_marker_vec() -> (v: Vec<u8>)
    ensures
        v@ == from_marker(),
{
    let mut v: Vec<u8> = Vec::new();
    v.push(45);
    v.push(45);
    v.push(45);
    v.push(32);
    assert(v@ =~= from_marker());
    v
}

/// The marker `+++ ` of the "to" header line.
pub open spec fn to_marker() -> Seq<u8> {
    seq![43u8, 43u8, 43u8, 32u8]
}

/// Builds the marker `+++ `.
pub fn to_marker_vec() -> (v: Vec<u8>)
    ensures
        v@ == to_marker(),
{
    let mut v: Vec<u8> = Vec::new();
    v.push(43);
    v.push(43);
    v.push(43);
    v.push(32);
    assert(v@ =~= to_marker());
    v
}

/// The marker `Binary files `.
pub open spec fn binary_marker() -> Seq<u8> {
    seq![66u8, 105u8, 110u8, 97u8, 114u8, 121u8, 32u8, 102u8, 105u8, 108u8, 101u8, 115u8, 32u8]
}

/// Builds the marker `Binary files `.
pub fn binary_marker_vec() -> (v: Vec<u8>)
    ensures
        v@ == binary_marker(),
{
    let mut v: Vec<u8> = Vec::new();
    v.push(66);
    v.push(105);
    v.push(110);
    v.push(97);
    v.push(114);
    v.push(121);
    v.push(32);
    v.push(102);
    v.push(105);
    v.push(108);
    v.push(101);
    v.push(115);
    v.push(32);
    assert(v@ =~= binary_marker());
    v
}

/// ASCII whitespace: tab, line feed, vertical tab, form feed,
/// carriage return, space.
pub open spec fn is_space(b: u8) -> bool {
    b == 9 || b == 10 || b == 11 || b == 12 || b == 13 || b == 32
}

/// Length of `s` once trailing whitespace is removed.
pub open spec fn trim_end_len(s: Seq<u8>) -> int
    decreases s.len(),
{
    if s.len() > 0 && is_space(s[s.len() - 1]) {
        trim_end_len(s.drop_last())
    } else {
        s.len() as int
    }
}

/// `s` with trailing whitespace removed.
pub open spec fn trimmed_end(s: Seq<u8>) -> Seq<u8> {
    s.subrange(0, trim_end_len(s))
}

pub proof fn lemma_trim_end_len_bounds(s: Seq<u8>)
    ensures
        0 <= trim_end_len(s) <= s.len(),
        forall|j: int| trim_end_len(s) <= j < s.len() ==> is_space(s[j]),
        trim_end_len(s) > 0 ==> !is_space(s[trim_end_len(s) - 1]),
    decreases s.len(),
{
    if s.len() > 0 && is_space(s[s.len() - 1]) {
        lemma_trim_end_len_bounds(s.drop_last());
        assert(forall|j: int| 0 <= j < s.len() - 1 ==> s.drop_last()[j] == s[j]);
    }
}

/// Removes trailing whitespace from `line`.
pub fn trim_end(line: &Vec<u8>) -> (r: Vec<u8>)
    ensures
        r@ == trimmed_end(line@),
{
    let mut end: usize = line.len();
    proof {
        lemma_trim_end_len_bounds(line@);
        assert(line@.subrange(0, line@.len() as int) =~= line@);
    }
    while end > 0 && is_space_byte(line[end - 1])
        invariant
            0 <= end <= line.len(),
            trim_end_len(line@) <= end,
            trim_end_len(line@.subrange(0, end as int)) == trim_end_len(line@),
        decreases end,
    {
        proof {
            let pre = line@.subrange(0, end as int);
            assert(pre.drop_last() =~= line@.subrange(0, end as int - 1));
            assert(trim_end_len(pre) == trim_end_len(pre.drop_last()));
            lemma_trim_end_len_bounds(pre.drop_last());
        }
        end -= 1;
    }
    proof {
        let pre = line@.subrange(0, end as int);
        if end > 0 {
            assert(trim_end_len(pre) == end as int);
        } else {
            assert(pre.len() == 0);
        }
    }
    let mut r: Vec<u8> = Vec::new();
    let mut i: usize = 0;
    while i < end
        invariant
            0 <= i <= end,
            end <= line.len(),
            r@ =~= line@.subrange(0, i as int),
        decreases end - i,
    {
        r.push(line[i]);
        assert(r@ =~= line@.subrange(0, i as int + 1));
        i += 1;
    }
    assert(r@ =~= trimmed_end(line@));
    r
}

/// Tests the `is_space` predicate.
pub fn is_space_byte(b: u8) -> (r: bool)
    ensures
        r == is_space(b),
{
    b == 9 || b == 10 || b == 11 || b == 12 || b == 13 || b == 32
}

/// A decimal digit `0` through `9`.
pub open spec fn is_digit(b: u8) -> bool {
    48 <= b <= 57
}

/// Tests the `is_digit` predicate.
pub fn is_digit_byte(b: u8) -> (r: bool)
    ensures
        r == is_digit(b),
{
    48 <= b && b <= 57
}

} // verus!
