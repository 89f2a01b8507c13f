//! From emitted records to output artifacts: the optional header skip,
//! the per-line masking transform, the output path of a record, and the
//! single-pass driver over a whole input stream.

use vstd::prelude::*;
use crate::bytes::{
    starts_with, views, diff_marker, index_marker, from_marker, to_marker, trimmed_end, trim_end,
    has_prefix, copy_bytes, diff_marker_vec, index_marker_vec, from_marker_vec, to_marker_vec,
    lemma_views_push,
};
use crate::mask::{spec_mask_line, mask_hunk_line};
use crate::paths::{auto_strip_value, spec_strip_path, resolve_strip_level, strip_path};
use crate::classify::{
    RecordModel, SplitterModel, FormatError, DiffRecord, DiffSplitter, record_views, spec_feed,
    spec_finalize, initial_model, copy_lines,
};

verus! {

/// A line that belongs to the header block once trailing whitespace is
/// ignored: `diff --`, `index `, `--- ` or `+++ `.
pub open spec fn is_header_line(l: Seq<u8>) -> bool {
    let t = trimmed_end(l);
    starts_with(t, diff_marker()) || starts_with(t, index_marker()) || starts_with(
        t,
        from_marker(),
    ) || starts_with(t, to_marker())
}

/// Length of the initial run of header lines.
pub open spec fn header_run_len(lines: Seq<Seq<u8>>) -> int
    decreases lines.len(),
{
    if lines.len() > 0 && is_header_line(lines[0]) {
        1 + header_run_len(lines.skip(1))
    } else {
        0
    }
}

/// `header_run_len` is pinned down by its characteristic properties.
pub proof fn lemma_header_run_len_is(lines: Seq<Seq<u8>>, t: int)
    requires
        0 <= t <= lines.len(),
        forall|j: int| 0 <= j < t ==> is_header_line(lines[j]),
        t < lines.len() ==> !is_header_line(lines[t]),
    ensures
        header_run_len(lines) == t,
    decreases lines.len(),
{
    if lines.len() > 0 && is_header_line(lines[0]) {
        assert(forall|j: int| 0 <= j < lines.len() - 1 ==> lines.skip(1)[j] == lines[j + 1]);
        lemma_header_run_len_is(lines.skip(1), t - 1);
    }
}

/// What a record's body becomes in the written artifact: with
/// header-skipping, the initial run of header lines is omitted; with
/// masking, every line goes through the hunk-header masking transform.
pub open spec fn spec_render(lines: Seq<Seq<u8>>, mask: bool, skip: bool) -> Seq<Seq<u8>> {
    let rest = if skip {
        lines.skip(header_run_len(lines))
    } else {
        lines
    };
    if mask {
        rest.map_values(|l: Seq<u8>| spec_mask_line(l))
    } else {
        rest
    }
}

/// Tests `is_header_line`.
pub fn is_header_line_exec(line: &Vec<u8>) -> (r: bool)
    ensures
        r == is_header_line(line@),
{
    let t = trim_end(line);
    let diff_m = diff_marker_vec();
    let index_m = index_marker_vec();
    let from_m = from_marker_vec();
    let to_m = to_marker_vec();
    has_prefix(&t, &diff_m) || has_prefix(&t, &index_m) || has_prefix(&t, &from_m) || has_prefix(
        &t,
        &to_m,
    )
}

/// Renders a record's lines for writing.
pub fn render_record(lines: &Vec<Vec<u8>>, mask: bool, skip: bool) -> (out: Vec<Vec<u8>>)
    ensures
        views(out@) == spec_render(views(lines@), mask, skip),
{
    let ghost all = views(lines@);
    let mut start: usize = 0;
    if skip {
        while start < lines.len() && is_header_line_exec(&lines[start])
            invariant
                0 <= start <= lines@.len(),
                forall|j: int| 0 <= j < start ==> is_header_line(views(lines@)[j]),
            decreases lines@.len() - start,
        {
            start += 1;
        }
        proof {
            lemma_header_run_len_is(all, start as int);
        }
    }
    let ghost tgt = spec_render(all, mask, skip);
    proof {
        if !skip {
            assert(all.skip(0) =~= all);
        }
        assert(tgt == if mask {
            all.skip(start as int).map_values(|l: Seq<u8>| spec_mask_line(l))
        } else {
            all.skip(start as int)
        });
        assert(tgt.len() == all.len() - start);
    }
    let mut out: Vec<Vec<u8>> = Vec::new();
    let mut i: usize = start;
    while i < lines.len()
        invariant
            start <= i <= lines@.len(),
            all == views(lines@),
            tgt == if mask {
                all.skip(start as int).map_values(|l: Seq<u8>| spec_mask_line(l))
            } else {
                all.skip(start as int)
            },
            tgt.len() == all.len() - start,
            views(out@).len() == i - start,
            forall|k: int| 0 <= k < i - start ==> views(out@)[k] == tgt[k],
        decreases lines@.len() - i,
    {
        let rendered = if mask {
            mask_hunk_line(&lines[i])
        } else {
            copy_bytes(&lines[i])
        };
        let ghost before = out@;
        proof {
            assert(all.skip(start as int)[i - start] == all[i as int]);
            assert(all[i as int] == lines@[i as int]@);
            assert(rendered@ == tgt[i - start]);
        }
        out.push(rendered);
        proof {
            lemma_views_push(before, out@[out@.len() - 1]);
        }
        i += 1;
    }
    proof {
        assert(views(out@) =~= tgt);
    }
    out
}

/// The strip level a record resolves to.
pub open spec fn spec_strip_level(r: RecordModel, explicit: Option<usize>) -> int {
    match explicit {
        Some(n) => n as int,
        None => auto_strip_value(r.from_path, r.to_path),
    }
}

/// One output artifact: a relative path and the lines to write verbatim.
pub struct OutputFile {
    pub path: Vec<u8>,
    pub lines: Vec<Vec<u8>>,
}

/// The mathematical content of an `OutputFile`.
pub ghost struct FileModel {
    pub path: Seq<u8>,
    pub lines: Seq<Seq<u8>>,
}

impl View for OutputFile {
    type V = FileModel;

    open spec fn view(&self) -> FileModel {
        FileModel { path: self.path@, lines: views(self.lines@) }
    }
}

/// The views of a sequence of output files.
pub open spec fn file_views(fs: Seq<OutputFile>) -> Seq<FileModel> {
    fs.map_values(|f: OutputFile| f@)
}

/// What one emitted record contributes: `None` when its stripped path
/// is empty (the record is skipped), otherwise the path and the
/// rendered lines.
pub open spec fn spec_record_output(
    r: RecordModel,
    explicit: Option<usize>,
    mask: bool,
    skip: bool,
) -> Option<FileModel> {
    match spec_strip_path(r.to_path, spec_strip_level(r, explicit)) {
        None => None,
        Some(p) => Some(FileModel { path: p, lines: spec_render(r.lines, mask, skip) }),
    }
}

/// Computes a record's output artifact.
pub fn record_output(rec: &DiffRecord, explicit: Option<usize>, mask: bool, skip: bool) -> (r:
    Option<OutputFile>)
    ensures
        match r {
            Some(f) => spec_record_output(rec@, explicit, mask, skip) == Some(f@),
            None => spec_record_output(rec@, explicit, mask, skip) is None,
        },
{
    let strip = resolve_strip_level(explicit, &rec.from_path, &rec.to_path);
    match strip_path(&rec.to_path, strip) {
        None => None,
        Some(p) => Some(OutputFile { path: p, lines: render_record(&rec.lines, mask, skip) }),
    }
}

/// The artifacts of a sequence of emitted records, in stream order,
/// records with an empty stripped path skipped.
pub open spec fn spec_outputs(
    rs: Seq<RecordModel>,
    explicit: Option<usize>,
    mask: bool,
    skip: bool,
) -> Seq<FileModel>
    decreases rs.len(),
{
    if rs.len() == 0 {
        Seq::empty()
    } else {
        let rest = spec_outputs(rs.skip(1), explicit, mask, skip);
        match spec_record_output(rs[0], explicit, mask, skip) {
            None => rest,
            Some(f) => seq![f] + rest,
        }
    }
}

/// Computes the artifacts of the emitted records.
pub fn build_outputs(records: &Vec<DiffRecord>, explicit: Option<usize>, mask: bool, skip: bool)
    -> (fs: Vec<OutputFile>)
    ensures
        file_views(fs@) == spec_outputs(record_views(records@), explicit, mask, skip),
{
    let ghost recs = record_views(records@);
    let mut fs: Vec<OutputFile> = Vec::new();
    let mut i: usize = 0;
    proof {
        assert(recs.skip(0) =~= recs);
        assert(file_views(fs@) =~= Seq::<FileModel>::empty());
    }
    while i < records.len()
        invariant
            0 <= i <= records@.len(),
            recs == record_views(records@),
            file_views(fs@) + spec_outputs(recs.skip(i as int), explicit, mask, skip)
                == spec_outputs(recs, explicit, mask, skip),
        decreases records@.len() - i,
    {
        let ghost tail = recs.skip(i as int);
        proof {
            assert(tail[0] == recs[i as int]);
            assert(recs[i as int] == records@[i as int]@);
            assert(tail.skip(1) =~= recs.skip(i as int + 1));
        }
        match record_output(&records[i], explicit, mask, skip) {
            None => {
                proof {
                    assert(file_views(fs@) + spec_outputs(tail, explicit, mask, skip)
                        =~= file_views(fs@) + spec_outputs(
                        recs.skip(i as int + 1),
                        explicit,
                        mask,
                        skip,
                    ));
                }
            },
            Some(f) => {
                let ghost before = fs@;
                fs.push(f);
                proof {
                    assert(file_views(fs@) =~= file_views(before).push(fs@[fs@.len() - 1]@));
                    assert(file_views(fs@) + spec_outputs(
                        recs.skip(i as int + 1),
                        explicit,
                        mask,
                        skip,
                    ) =~= file_views(before) + spec_outputs(tail, explicit, mask, skip));
                }
            },
        }
        i += 1;
    }
    proof {
        assert(recs.skip(recs.len() as int) =~= Seq::<RecordModel>::empty());
        assert(file_views(fs@) + Seq::<FileModel>::empty() =~= file_views(fs@));
    }
    fs
}

/// The classifier folded over a whole input; an error carries the state
/// at the failing line, whose records were already emitted.
pub open spec fn spec_run(lines: Seq<Seq<u8>>, m: SplitterModel) -> Result<
    SplitterModel,
    (SplitterModel, FormatError),
>
    decreases lines.len(),
{
    if lines.len() == 0 {
        Ok(m)
    } else {
        match spec_feed(m, lines[0]) {
            Ok(m2) => spec_run(lines.skip(1), m2),
            Err(e) => Err((m, e)),
        }
    }
}

/// What a whole input stream splits into: the output artifacts in
/// stream order, the collected binary marker lines, and the format
/// error, if the header grammar broke off (the artifacts emitted before
/// that point stand).
pub open spec fn spec_split(
    lines: Seq<Seq<u8>>,
    explicit: Option<usize>,
    mask: bool,
    skip: bool,
) -> (Seq<FileModel>, Seq<Seq<u8>>, Option<FormatError>) {
    match spec_run(lines, initial_model()) {
        Ok(m) => {
            let fin = spec_finalize(m);
            (spec_outputs(fin.records, explicit, mask, skip), fin.binary_lines, None)
        },
        Err((m, e)) => (spec_outputs(m.records, explicit, mask, skip), m.binary_lines, Some(e)),
    }
}

/// Everything one run produces.
pub struct SplitOutcome {
    /// The per-file artifacts, in stream order.
    pub files: Vec<OutputFile>,
    /// The trimmed `Binary files ` marker lines, in stream order.
    pub binary_lines: Vec<Vec<u8>>,
    /// The fatal format error, if the run aborted.
    pub error: Option<FormatError>,
}

/// Splits a diff stream, given as its lines with their terminators,
/// into per-file artifacts.
pub fn split_diff(
    lines: &Vec<Vec<u8>>,
    explicit_strip: Option<usize>,
    mask_linenum: bool,
    skip_header: bool,
) -> (out: SplitOutcome)
    ensures
        ({
            let s = spec_split(views(lines@), explicit_strip, mask_linenum, skip_header);
            file_views(out.files@) == s.0 && views(out.binary_lines@) == s.1 && out.error == s.2
        }),
{
    let ghost all = views(lines@);
    let mut sp = DiffSplitter::new();
    let mut i: usize = 0;
    proof {
        assert(all.skip(0) =~= all);
    }
    while i < lines.len()
        invariant
            0 <= i <= lines@.len(),
            all == views(lines@),
            spec_run(all.skip(i as int), sp@) == spec_run(all, initial_model()),
        decreases lines@.len() - i,
    {
        let ghost tail = all.skip(i as int);
        let ghost pre = sp@;
        proof {
            assert(tail[0] == all[i as int]);
            assert(tail.skip(1) =~= all.skip(i as int + 1));
        }
        let line = copy_bytes(&lines[i]);
        match sp.feed(line) {
            Ok(_) => {
                proof {
                    assert(spec_run(tail, pre) == spec_run(all.skip(i as int + 1), sp@));
                }
                i += 1;
            },
            Err(e) => {
                proof {
                    assert(spec_run(tail, pre) == Err::<SplitterModel, (SplitterModel, FormatError)>(
                        (pre, e),
                    ));
                }
                let files = build_outputs(&sp.records, explicit_strip, mask_linenum, skip_header);
                return SplitOutcome {
                    files,
                    binary_lines: copy_lines(&sp.binary_lines),
                    error: Some(e),
                };
            },
        }
    }
    proof {
        assert(all.skip(all.len() as int).len() == 0);
        assert(spec_run(all, initial_model()) == Ok::<SplitterModel, (SplitterModel, FormatError)>(
            sp@,
        ));
    }
    sp.finalize();
    let files = build_outputs(&sp.records, explicit_strip, mask_linenum, skip_header);
    SplitOutcome { files, binary_lines: copy_lines(&sp.binary_lines), error: None }
}

} // verus!
