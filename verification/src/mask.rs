//! Hunk-header masking: rewrites `@@ -a[,b] +c[,d] @@tail` and
//! `@@@ -a[,b] -c[,d] +e[,f] @@@tail` lines so that every digit of the
//! starting line numbers becomes `X`, while the optional `,count` fields,
//! all delimiters and the tail stay byte-identical.  A line that does not
//! fit either grammar passes through unchanged.

use vstd::prelude::*;
use crate::bytes::{starts_with, is_digit, is_digit_byte, has_prefix_at, copy_bytes};

verus! {

/// `@@ -`, the head of a two-file hunk header.
pub open spec fn two_head() -> Seq<u8> {
    seq![64u8, 64u8, 32u8, 45u8]
}

/// `@@@ -`, the head of a combined hunk header.
pub open spec fn three_head() -> Seq<u8> {
    seq![64u8, 64u8, 64u8, 32u8, 45u8]
}

/// ` +`, the separator in front of the final range.
pub open spec fn plus_sep() -> Seq<u8> {
    seq![32u8, 43u8]
}

/// ` -`, the separator in front of the middle range of a combined header.
pub open spec fn minus_sep() -> Seq<u8> {
    seq![32u8, 45u8]
}

/// ` @@`, the closing delimiter of a two-file header.
pub open spec fn two_close() -> Seq<u8> {
    seq![32u8, 64u8, 64u8]
}

/// ` @@@`, the closing delimiter of a combined header.
pub open spec fn three_close() -> Seq<u8> {
    seq![32u8, 64u8, 64u8, 64u8]
}

/// The position after the maximal run of digits starting at `i`.
pub open spec fn digits_end(s: Seq<u8>, i: int) -> int
    decreases s.len() - i,
{
    if 0 <= i < s.len() && is_digit(s[i]) {
        digits_end(s, i + 1)
    } else {
        i
    }
}

/// The end of an optional `,digits` count field starting at `i`; `None`
/// when a comma stands there without a digit behind it.
pub open spec fn opt_count_end(s: Seq<u8>, i: int) -> Option<int> {
    if 0 <= i < s.len() && s[i] == 44 {
        let e = digits_end(s, i + 1);
        if e == i + 1 {
            None
        } else {
            Some(e)
        }
    } else {
        Some(i)
    }
}

/// Parses a two-file hunk header `@@ -a[,b] +c[,d] @@tail`, giving the
/// bounds of the two start-number digit runs.
pub open spec fn parse_two(s: Seq<u8>) -> Option<(int, int, int, int)> {
    if starts_with(s, two_head()) {
        let a1 = digits_end(s, 4);
        if a1 == 4 {
            None
        } else {
            match opt_count_end(s, a1) {
                None => None,
                Some(p) => if starts_with(s.skip(p), plus_sep()) {
                    let b0 = p + 2;
                    let b1 = digits_end(s, b0);
                    if b1 == b0 {
                        None
                    } else {
                        match opt_count_end(s, b1) {
                            None => None,
                            Some(q) => if starts_with(s.skip(q), two_close()) {
                                Some((4int, a1, b0, b1))
                            } else {
                                None
                            },
                        }
                    }
                } else {
                    None
                },
            }
        }
    } else {
        None
    }
}

/// Parses a combined hunk header `@@@ -a[,b] -c[,d] +e[,f] @@@tail`,
/// giving the bounds of the three start-number digit runs.
pub open spec fn parse_three(s: Seq<u8>) -> Option<(int, int, int, int, int, int)> {
    if starts_with(s, three_head()) {
        let a1 = digits_end(s, 5);
        if a1 == 5 {
            None
        } else {
            match opt_count_end(s, a1) {
                None => None,
                Some(p) => if starts_with(s.skip(p), minus_sep()) {
                    let b0 = p + 2;
                    let b1 = digits_end(s, b0);
                    if b1 == b0 {
                        None
                    } else {
                        match opt_count_end(s, b1) {
                            None => None,
                            Some(q) => if starts_with(s.skip(q), plus_sep()) {
                                let c0 = q + 2;
                                let c1 = digits_end(s, c0);
                                if c1 == c0 {
                                    None
                                } else {
                                    match opt_count_end(s, c1) {
                                        None => None,
                                        Some(z) => if starts_with(s.skip(z), three_close()) {
                                            Some((5int, a1, b0, b1, c0, c1))
                                        } else {
                                            None
                                        },
                                    }
                                }
                            } else {
                                None
                            },
                        }
                    }
                } else {
                    None
                },
            }
        }
    } else {
        None
    }
}

/// `s` with the bytes inside the three half-open ranges replaced by `X`.
pub open spec fn masked(
    s: Seq<u8>,
    a0: int,
    a1: int,
    b0: int,
    b1: int,
    c0: int,
    c1: int,
) -> Seq<u8> {
    Seq::new(
        s.len(),
        |i: int|
            if (a0 <= i < a1) || (b0 <= i < b1) || (c0 <= i < c1) {
                88u8
            } else {
                s[i]
            },
    )
}

/// The masking transform on one line: the digits of each start number of
/// a recognized hunk header become `X`; any other line is unchanged.
pub open spec fn spec_mask_line(s: Seq<u8>) -> Seq<u8> {
    match parse_two(s) {
        Some(t) => masked(s, t.0, t.1, t.2, t.3, 0, 0),
        None => match parse_three(s) {
            Some(u) => masked(s, u.0, u.1, u.2, u.3, u.4, u.5),
            None => s,
        },
    }
}

/// Computes `digits_end` at `i`.
fn digits_end_at(line: &Vec<u8>, i: usize) -> (r: usize)
    requires
        i <= line@.len(),
    ensures
        r == digits_end(line@, i as int),
        i <= r <= line@.len(),
{
    let mut j: usize = i;
    while j < line.len() && is_digit_byte(line[j])
        invariant
            i <= j <= line@.len(),
            digits_end(line@, i as int) == digits_end(line@, j as int),
        decreases line@.len() - j,
    {
        j += 1;
    }
    j
}

/// Computes `opt_count_end` at `i`.
fn opt_count_end_at(line: &Vec<u8>, i: usize) -> (r: Option<usize>)
    requires
        i <= line@.len(),
    ensures
        match r {
            Some(p) => opt_count_end(line@, i as int) == Some(p as int) && i <= p <= line@.len(),
            None => opt_count_end(line@, i as int) is None,
        },
{
    if i < line.len() && line[i] == 44 {
        let e = digits_end_at(line, i + 1);
        if e == i + 1 {
            None
        } else {
            Some(e)
        }
    } else {
        Some(i)
    }
}

/// Builds the marker `@@ -`.
fn two_head_vec() -> (v: Vec<u8>)
    ensures
        v@ == two_head(),
{
    let mut v: Vec<u8> = Vec::new();
    v.push(64);
    v.push(64);
    v.push(32);
    v.push(45);
    assert(v@ =~= two_head());
    v
}

/// Builds the marker `@@@ -`.
fn three_head_vec() -> (v: Vec<u8>)
    ensures
        v@ == three_head(),
{
    let mut v: Vec<u8> = Vec::new();
    v.push(64);
    v.push(64);
    v.push(64);
    v.push(32);
    v.push(45);
    assert(v@ =~= three_head());
    v
}

/// Builds the marker ` +`.
fn plus_sep_vec() -> (v: Vec<u8>)
    ensures
        v@ == plus_sep(),
{
    let mut v: Vec<u8> = Vec::new();
    v.push(32);
    v.push(43);
    assert(v@ =~= plus_sep());
    v
}

/// Builds the marker ` -`.
fn minus_sep_vec() -> (v: Vec<u8>)
    ensures
        v@ == minus_sep(),
{
    let mut v: Vec<u8> = Vec::new();
    v.push(32);
    v.push(45);
    assert(v@ =~= minus_sep());
    v
}

/// Builds the marker ` @@`.
fn two_close_vec() -> (v: Vec<u8>)
    ensures
        v@ == two_close(),
{
    let mut v: Vec<u8> = Vec::new();
    v.push(32);
    v.push(64);
    v.push(64);
    assert(v@ =~= two_close());
    v
}

/// Builds the marker ` @@@`.
fn three_close_vec() -> (v: Vec<u8>)
    ensures
        v@ == three_close(),
{
    let mut v: Vec<u8> = Vec::new();
    v.push(32);
    v.push(64);
    v.push(64);
    v.push(64);
    assert(v@ =~= three_close());
    v
}

/// Runs `parse_two` on `line`.
fn parse_two_exec(line: &Vec<u8>) -> (r: Option<(usize, usize, usize, usize)>)
    ensures
        match r {
            Some(t) => parse_two(line@) == Some((t.0 as int, t.1 as int, t.2 as int, t.3 as int))
                && t.0 <= t.1 <= line@.len() && t.2 <= t.3 <= line@.len(),
            None => parse_two(line@) is None,
        },
{
    let head = two_head_vec();
    if !has_prefix_at(line, &head, 0) {
        proof {
            assert(line@.skip(0) =~= line@);
        }
        return None;
    }
    proof {
        assert(line@.skip(0) =~= line@);
    }
    let a1 = digits_end_at(line, 4);
    if a1 == 4 {
        return None;
    }
    let p = match opt_count_end_at(line, a1) {
        None => {
            return None;
        },
        Some(p) => p,
    };
    let plus = plus_sep_vec();
    if !has_prefix_at(line, &plus, p) {
        return None;
    }
    let n: usize = line.len();
    proof {
        assert(plus_sep().len() <= line@.skip(p as int).len());
        assert(p + 2 <= n);
    }
    let b0 = p + 2;
    let b1 = digits_end_at(line, b0);
    if b1 == b0 {
        return None;
    }
    let q = match opt_count_end_at(line, b1) {
        None => {
            return None;
        },
        Some(q) => q,
    };
    let close = two_close_vec();
    if !has_prefix_at(line, &close, q) {
        return None;
    }
    Some((4, a1, b0, b1))
}

/// Runs `parse_three` on `line`.
fn parse_three_exec(line: &Vec<u8>) -> (r: Option<(usize, usize, usize, usize, usize, usize)>)
    ensures
        match r {
            Some(t) => parse_three(line@) == Some(
                (t.0 as int, t.1 as int, t.2 as int, t.3 as int, t.4 as int, t.5 as int),
            ) && t.0 <= t.1 <= line@.len() && t.2 <= t.3 <= line@.len() && t.4 <= t.5
                <= line@.len(),
            None => parse_three(line@) is None,
        },
{
    let head = three_head_vec();
    if !has_prefix_at(line, &head, 0) {
        proof {
            assert(line@.skip(0) =~= line@);
        }
        return None;
    }
    proof {
        assert(line@.skip(0) =~= line@);
    }
    let a1 = digits_end_at(line, 5);
    if a1 == 5 {
        return None;
    }
    let p = match opt_count_end_at(line, a1) {
        None => {
            return None;
        },
        Some(p) => p,
    };
    let minus = minus_sep_vec();
    if !has_prefix_at(line, &minus, p) {
        return None;
    }
    let n: usize = line.len();
    proof {
        assert(minus_sep().len() <= line@.skip(p as int).len());
        assert(p + 2 <= n);
    }
    let b0 = p + 2;
    let b1 = digits_end_at(line, b0);
    if b1 == b0 {
        return None;
    }
    let q = match opt_count_end_at(line, b1) {
        None => {
            return None;
        },
        Some(q) => q,
    };
    let plus = plus_sep_vec();
    if !has_prefix_at(line, &plus, q) {
        return None;
    }
    proof {
        assert(plus_sep().len() <= line@.skip(q as int).len());
        assert(q + 2 <= n);
    }
    let c0 = q + 2;
    let c1 = digits_end_at(line, c0);
    if c1 == c0 {
        return None;
    }
    let z = match opt_count_end_at(line, c1) {
        None => {
            return None;
        },
        Some(z) => z,
    };
    let close = three_close_vec();
    if !has_prefix_at(line, &close, z) {
        return None;
    }
    Some((5, a1, b0, b1, c0, c1))
}

/// Applies the masking transform to one line.
pub fn mask_hunk_line(line: &Vec<u8>) -> (r: Vec<u8>)
    ensures
        r@ == spec_mask_line(line@),
{
    let ranges: (usize, usize, usize, usize, usize, usize) = match parse_two_exec(line) {
        Some(t) => (t.0, t.1, t.2, t.3, 0, 0),
        None => match parse_three_exec(line) {
            Some(u) => u,
            None => {
                let r = copy_bytes(line);
                return r;
            },
        },
    };
    let (a0, a1, b0, b1, c0, c1) = ranges;
    let ghost goal = masked(line@, a0 as int, a1 as int, b0 as int, b1 as int, c0 as int, c1 as int);
    proof {
        assert(goal == spec_mask_line(line@)) by {
            if parse_two(line@) is Some {
                let t = parse_two(line@)->Some_0;
                assert(masked(line@, t.0, t.1, t.2, t.3, 0, 0) =~= goal);
            }
        }
    }
    let mut r: Vec<u8> = Vec::new();
    let mut i: usize = 0;
    while i < line.len()
        invariant
            0 <= i <= line@.len(),
            goal == masked(
                line@,
                a0 as int,
                a1 as int,
                b0 as int,
                b1 as int,
                c0 as int,
                c1 as int,
            ),
            r@.len() == i,
            forall|j: int| 0 <= j < i ==> r@[j] == goal[j],
        decreases line@.len() - i,
    {
        let in_run = (a0 <= i && i < a1) || (b0 <= i && i < b1) || (c0 <= i && i < c1);
        if in_run {
            r.push(88);
        } else {
            r.push(line[i]);
        }
        i += 1;
    }
    assert(r@ =~= goal);
    r
}

} // verus!
