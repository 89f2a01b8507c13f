//! Laws of the splitter, proved once and for all: the round trip of an
//! unmasked run, the diversion of binary records, the abort on a broken
//! header block, and the silent skip of records whose stripped path is
//! empty.

use vstd::prelude::*;
use crate::bytes::{starts_with, binary_marker, diff_marker, from_marker, to_marker, trimmed_end};
use crate::classify::{
    SplitterModel, RecordModel, FormatError, spec_feed, spec_close, spec_finalize, initial_model,
};
use crate::output::{spec_render, spec_record_output, spec_outputs, spec_run, spec_split, FileModel};
use crate::paths::spec_strip_path;
use crate::output::spec_strip_level;

verus! {

/// The first byte of a line is the first byte of any of its prefixes.
pub proof fn lemma_starts_with_first(l: Seq<u8>, p: Seq<u8>)
    requires
        starts_with(l, p),
        p.len() > 0,
    ensures
        l[0] == p[0],
{
    assert(l.subrange(0, p.len() as int)[0] == l[0]);
}

/// `seg` stands somewhere in `all` as a contiguous run of lines.
pub open spec fn is_block_of(seg: Seq<Seq<u8>>, all: Seq<Seq<u8>>) -> bool {
    exists|a: int, b: int| 0 <= a <= b <= all.len() && seg == all.subrange(a, b)
}

/// The invariant that carries the round trip: after `n` input lines,
/// the open accumulator is a contiguous run ending at `n`, and every
/// emitted record's lines are a contiguous run of the input.
pub open spec fn run_blocks(m: SplitterModel, all: Seq<Seq<u8>>, n: int) -> bool {
    &&& (m.state is Diff ==> m.current.len() == 0)
    &&& (m.current.len() > 0 ==> exists|c: int| 0 <= c <= n && m.current == all.subrange(c, n))
    &&& (forall|k: int| 0 <= k < m.records.len() ==> is_block_of(#[trigger] m.records[k].lines, all))
}

/// Feeding the rest of the input preserves `run_blocks`.
pub proof fn lemma_run_blocks(all: Seq<Seq<u8>>, i: int, m: SplitterModel)
    requires
        0 <= i <= all.len(),
        run_blocks(m, all, i),
    ensures
        match spec_run(all.skip(i), m) {
            Ok(m2) => run_blocks(m2, all, all.len() as int),
            Err((m2, e)) => forall|k: int|
                0 <= k < m2.records.len() ==> is_block_of(#[trigger] m2.records[k].lines, all),
        },
    decreases all.len() - i,
{
    if i == all.len() {
        // nothing left: the accumulator ends at n == all.len() already
    } else {
        let l = all[i];
        assert(all.skip(i)[0] == l);
        match spec_feed(m, l) {
            Ok(m2) => {
                assert(run_blocks(m2, all, i + 1)) by {
                    lemma_feed_blocks(all, i, m);
                }
                assert(all.skip(i).skip(1) =~= all.skip(i + 1));
                lemma_run_blocks(all, i + 1, m2);
            },
            Err(_) => {},
        }
    }
}

/// One `spec_feed` step preserves `run_blocks` when it succeeds.
pub proof fn lemma_feed_blocks(all: Seq<Seq<u8>>, i: int, m: SplitterModel)
    requires
        0 <= i < all.len(),
        run_blocks(m, all, i),
        spec_feed(m, all[i]) is Ok,
    ensures
        run_blocks(spec_feed(m, all[i])->Ok_0, all, i + 1),
{
    let l = all[i];
    let m2 = spec_feed(m, l)->Ok_0;
    // a record emitted by closing carries the accumulator, a block ending at i
    assert(m.current.len() > 0 && m.to_path is Some && !m.is_binary ==> is_block_of(
        m.current,
        all,
    )) by {
        if m.current.len() > 0 {
            let c = choose|c: int| 0 <= c <= i && m.current == all.subrange(c, i);
            assert(m.current == all.subrange(c, i as int));
        }
    }
    assert(forall|k: int|
        0 <= k < spec_close(m).len() ==> is_block_of(#[trigger] spec_close(m)[k].lines, all));
    // the new accumulator: either the fresh single line or the old one extended
    assert(seq![l] =~= all.subrange(i as int, i + 1));
    if m2.current == m.current.push(l) {
        if m.current.len() > 0 {
            let c = choose|c: int| 0 <= c <= i && m.current == all.subrange(c, i);
            assert(m.current.push(l) =~= all.subrange(c, i + 1));
        } else {
            assert(m.current.push(l) =~= all.subrange(i as int, i + 1));
        }
    }
}

/// Rendering with masking and header-skipping both off is the identity.
pub proof fn lemma_render_identity(ls: Seq<Seq<u8>>)
    ensures
        spec_render(ls, false, false) == ls,
{
}

/// Every artifact's lines are the rendering of some emitted record's
/// lines.
pub proof fn lemma_outputs_from_records(
    rs: Seq<RecordModel>,
    explicit: Option<usize>,
    mask: bool,
    skip: bool,
)
    ensures
        forall|k: int| 0 <= k < spec_outputs(rs, explicit, mask, skip).len() ==> exists|t: int|
            0 <= t < rs.len() && #[trigger] spec_outputs(rs, explicit, mask, skip)[k].lines
                == spec_render(rs[t].lines, mask, skip),
    decreases rs.len(),
{
    if rs.len() == 0 {
    } else {
        let rest = spec_outputs(rs.skip(1), explicit, mask, skip);
        lemma_outputs_from_records(rs.skip(1), explicit, mask, skip);
        let out = spec_outputs(rs, explicit, mask, skip);
        match spec_record_output(rs[0], explicit, mask, skip) {
            None => {
                assert forall|k: int| 0 <= k < out.len() implies exists|t: int|
                    0 <= t < rs.len() && #[trigger] out[k].lines == spec_render(
                        rs[t].lines,
                        mask,
                        skip,
                    ) by {
                    let t0 = choose|t0: int|
                        0 <= t0 < rs.skip(1).len() && #[trigger] rest[k].lines == spec_render(
                            rs.skip(1)[t0].lines,
                            mask,
                            skip,
                        );
                    assert(rs.skip(1)[t0] == rs[t0 + 1]);
                    assert(out[k].lines == spec_render(rs[t0 + 1].lines, mask, skip));
                }
            },
            Some(f) => {
                assert forall|k: int| 0 <= k < out.len() implies exists|t: int|
                    0 <= t < rs.len() && #[trigger] out[k].lines == spec_render(
                        rs[t].lines,
                        mask,
                        skip,
                    ) by {
                    if k == 0 {
                        assert(out[0] == f);
                        assert(out[0].lines == spec_render(rs[0].lines, mask, skip));
                    } else {
                        assert(out[k] == rest[k - 1]);
                        let t0 = choose|t0: int|
                            0 <= t0 < rs.skip(1).len() && #[trigger] rest[k - 1].lines
                                == spec_render(rs.skip(1)[t0].lines, mask, skip);
                        assert(rs.skip(1)[t0] == rs[t0 + 1]);
                        assert(out[k].lines == spec_render(rs[t0 + 1].lines, mask, skip));
                    }
                }
            },
        }
    }
}

/// The round trip: with masking and header-skipping disabled, every
/// artifact a split produces is, line for line and byte for byte, a
/// contiguous block of the input stream.
pub proof fn lemma_round_trip(lines: Seq<Seq<u8>>, explicit: Option<usize>)
    ensures
        forall|k: int| 0 <= k < spec_split(lines, explicit, false, false).0.len() ==> is_block_of(
            #[trigger] spec_split(lines, explicit, false, false).0[k].lines,
            lines,
        ),
{
    assert(lines.skip(0) =~= lines);
    assert(run_blocks(initial_model(), lines, 0));
    lemma_run_blocks(lines, 0, initial_model());
    let s = spec_split(lines, explicit, false, false);
    match spec_run(lines, initial_model()) {
        Ok(m) => {
            let fin = spec_finalize(m);
            assert(forall|k: int|
                0 <= k < fin.records.len() ==> is_block_of(#[trigger] fin.records[k].lines, lines))
                by {
                if m.current.len() > 0 {
                    let c = choose|c: int|
                        0 <= c <= lines.len() && m.current == lines.subrange(c, lines.len() as int);
                    assert(m.current == lines.subrange(c, lines.len() as int));
                }
            }
            lemma_outputs_from_records(fin.records, explicit, false, false);
            assert forall|k: int| 0 <= k < s.0.len() implies is_block_of(
                #[trigger] s.0[k].lines,
                lines,
            ) by {
                let t = choose|t: int|
                    0 <= t < fin.records.len() && #[trigger] s.0[k].lines == spec_render(
                        fin.records[t].lines,
                        false,
                        false,
                    );
                lemma_render_identity(fin.records[t].lines);
            }
        },
        Err((m, e)) => {
            lemma_outputs_from_records(m.records, explicit, false, false);
            assert forall|k: int| 0 <= k < s.0.len() implies is_block_of(
                #[trigger] s.0[k].lines,
                lines,
            ) by {
                let t = choose|t: int|
                    0 <= t < m.records.len() && #[trigger] s.0[k].lines == spec_render(
                        m.records[t].lines,
                        false,
                        false,
                    );
                lemma_render_identity(m.records[t].lines);
            }
        },
    }
}

/// Binary diversion, first half: a `Binary files ` line in a record's
/// body marks the record binary and appends exactly one trimmed line to
/// the aggregate, in stream order; the emitted records do not change.
pub proof fn lemma_binary_diversion(m: SplitterModel, l: Seq<u8>)
    requires
        m.state is Body,
        starts_with(l, binary_marker()),
    ensures
        spec_feed(m, l) is Ok,
        spec_feed(m, l)->Ok_0.is_binary,
        spec_feed(m, l)->Ok_0.binary_lines == m.binary_lines.push(trimmed_end(l)),
        spec_feed(m, l)->Ok_0.records == m.records,
{
    assert(!starts_with(l, diff_marker())) by {
        if starts_with(l, diff_marker()) {
            lemma_starts_with_first(l, diff_marker());
            lemma_starts_with_first(l, binary_marker());
        }
    }
}

/// Binary diversion, second half: a record marked binary is never
/// emitted when it closes.
pub proof fn lemma_binary_never_emitted(m: SplitterModel)
    requires
        m.is_binary,
    ensures
        spec_close(m) == m.records,
{
}

/// The fatal-format law: a `--- ` header line followed at once by a
/// `diff --` line (the `+++ ` line is missing) aborts the run with a
/// format error.
pub proof fn lemma_from_then_diff_aborts(m: SplitterModel, l1: Seq<u8>, l2: Seq<u8>)
    requires
        m.state is FromOrIndex || m.state is From,
        starts_with(l1, from_marker()),
        starts_with(l2, diff_marker()),
    ensures
        spec_feed(m, l1) is Ok,
        spec_feed(m, l1)->Ok_0.state is To,
        spec_feed(spec_feed(m, l1)->Ok_0, l2) == Err::<SplitterModel, FormatError>(
            FormatError::ExpectedTo,
        ),
{
    assert(!starts_with(l1, crate::bytes::index_marker())) by {
        if starts_with(l1, crate::bytes::index_marker()) {
            lemma_starts_with_first(l1, crate::bytes::index_marker());
            lemma_starts_with_first(l1, from_marker());
        }
    }
    assert(!starts_with(l2, to_marker())) by {
        if starts_with(l2, to_marker()) {
            lemma_starts_with_first(l2, to_marker());
            lemma_starts_with_first(l2, diff_marker());
        }
    }
}

/// An erroring run emits the error and exactly the artifacts of the
/// records already emitted when the bad line arrived.
pub proof fn lemma_error_output(
    lines: Seq<Seq<u8>>,
    explicit: Option<usize>,
    mask: bool,
    skip: bool,
)
    requires
        spec_run(lines, initial_model()) is Err,
    ensures
        spec_split(lines, explicit, mask, skip).2 == Some(
            spec_run(lines, initial_model())->Err_0.1,
        ),
        spec_split(lines, explicit, mask, skip).0 == spec_outputs(
            spec_run(lines, initial_model())->Err_0.0.records,
            explicit,
            mask,
            skip,
        ),
{
}

/// The empty-path skip: a record whose path strips to nothing
/// contributes no artifact — splitting a record list that ends with such
/// a record gives exactly the artifacts of the list without it.
pub proof fn lemma_empty_path_skip(
    rs: Seq<RecordModel>,
    r: RecordModel,
    explicit: Option<usize>,
    mask: bool,
    skip: bool,
)
    requires
        spec_strip_path(r.to_path, spec_strip_level(r, explicit)) is None,
    ensures
        spec_outputs(rs.push(r), explicit, mask, skip) == spec_outputs(rs, explicit, mask, skip),
    decreases rs.len(),
{
    if rs.len() == 0 {
        assert(rs.push(r)[0] == r);
        assert(rs.push(r).skip(1) =~= Seq::<RecordModel>::empty());
        assert(spec_record_output(rs.push(r)[0], explicit, mask, skip) is None);
        assert(spec_outputs(rs.push(r), explicit, mask, skip) == spec_outputs(
            rs.push(r).skip(1),
            explicit,
            mask,
            skip,
        ));
        assert(spec_outputs(Seq::<RecordModel>::empty(), explicit, mask, skip)
            == Seq::<FileModel>::empty());
    } else {
        assert(rs.push(r)[0] == rs[0]);
        assert(rs.push(r).skip(1) =~= rs.skip(1).push(r));
        lemma_empty_path_skip(rs.skip(1), r, explicit, mask, skip);
        assert(spec_outputs(rs.push(r).skip(1), explicit, mask, skip) == spec_outputs(
            rs.skip(1),
            explicit,
            mask,
            skip,
        ));
        match spec_record_output(rs[0], explicit, mask, skip) {
            None => {
                assert(spec_outputs(rs.push(r), explicit, mask, skip) == spec_outputs(
                    rs.push(r).skip(1),
                    explicit,
                    mask,
                    skip,
                ));
                assert(spec_outputs(rs, explicit, mask, skip) == spec_outputs(
                    rs.skip(1),
                    explicit,
                    mask,
                    skip,
                ));
            },
            Some(f) => {
                assert(spec_outputs(rs.push(r), explicit, mask, skip) == seq![f] + spec_outputs(
                    rs.push(r).skip(1),
                    explicit,
                    mask,
                    skip,
                ));
                assert(spec_outputs(rs, explicit, mask, skip) == seq![f] + spec_outputs(
                    rs.skip(1),
                    explicit,
                    mask,
                    skip,
                ));
            },
        }
    }
}

} // verus!
