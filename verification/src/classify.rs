//! The line classifier: a five-state machine that segments the input
//! stream into per-file diff records, collects `Binary files ` marker
//! lines, and rejects streams whose header block does not follow the
//! required `diff --` `[index ]` `--- ` `+++ ` shape.

use vstd::prelude::*;
use crate::bytes::{
    starts_with, views, diff_marker, index_marker, from_marker, to_marker, binary_marker,
    diff_marker_vec, index_marker_vec, from_marker_vec, to_marker_vec, binary_marker_vec,
    trimmed_end, trim_end, has_prefix, copy_bytes, lemma_views_push,
};
use crate::paths::{spec_extract_path, extract_path};

verus! {

/// Where the classifier stands inside a record's header block.
#[derive(PartialEq, Eq, Structural, Clone, Copy, Debug)]
pub enum HeaderState {
    /// Before the first `diff --` line.
    Diff,
    /// After `diff --`: an `index ` or `--- ` line must follow.
    FromOrIndex,
    /// After `index `: a `--- ` line must follow.
    From,
    /// After `--- `: a `+++ ` line must follow.
    To,
    /// Inside the record's body.
    Body,
}

/// A fatal format error: the header block broke off.
#[derive(PartialEq, Eq, Structural, Clone, Copy, Debug)]
pub enum FormatError {
    /// An `index ` or `--- ` line was expected.
    ExpectedIndexOrFrom,
    /// A `--- ` line was expected.
    ExpectedFrom,
    /// A `+++ ` line was expected.
    ExpectedTo,
}

/// One file's diff: its lines verbatim, and the two header paths.
pub struct DiffRecord {
    /// Every line of the block, headers included, byte-for-byte.
    pub lines: Vec<Vec<u8>>,
    /// The path extracted from the `--- ` line.
    pub from_path: Vec<u8>,
    /// The path extracted from the `+++ ` line; never empty.
    pub to_path: Vec<u8>,
}

/// The mathematical content of a `DiffRecord`.
pub ghost struct RecordModel {
    pub lines: Seq<Seq<u8>>,
    pub from_path: Seq<u8>,
    pub to_path: Seq<u8>,
}

impl View for DiffRecord {
    type V = RecordModel;

    open spec fn view(&self) -> RecordModel {
        RecordModel { lines: views(self.lines@), from_path: self.from_path@, to_path: self.to_path@ }
    }
}

/// The views of a sequence of records.
pub open spec fn record_views(rs: Seq<DiffRecord>) -> Seq<RecordModel> {
    rs.map_values(|r: DiffRecord| r@)
}

/// The mathematical state of the classifier.
pub ghost struct SplitterModel {
    pub state: HeaderState,
    pub current: Seq<Seq<u8>>,
    pub from_path: Seq<u8>,
    pub to_path: Option<Seq<u8>>,
    pub is_binary: bool,
    pub records: Seq<RecordModel>,
    pub binary_lines: Seq<Seq<u8>>,
}

/// The state before any input line.
pub open spec fn initial_model() -> SplitterModel {
    SplitterModel {
        state: HeaderState::Diff,
        current: Seq::empty(),
        from_path: Seq::empty(),
        to_path: None,
        is_binary: false,
        records: Seq::empty(),
        binary_lines: Seq::empty(),
    }
}

/// Closing the open record: it is emitted only when it has lines, a
/// resolvable `to` path, and is not binary; otherwise it is dropped.
pub open spec fn spec_close(m: SplitterModel) -> Seq<RecordModel> {
    if m.current.len() > 0 && m.to_path is Some && !m.is_binary {
        m.records.push(
            RecordModel {
                lines: m.current,
                from_path: m.from_path,
                to_path: m.to_path->Some_0,
            },
        )
    } else {
        m.records
    }
}

/// A `diff --` line: the prior record (if any) is closed and a fresh one
/// opens with this line as its first header line.
pub open spec fn spec_open_new(m: SplitterModel, l: Seq<u8>) -> SplitterModel {
    SplitterModel {
        state: HeaderState::FromOrIndex,
        current: seq![l],
        from_path: Seq::empty(),
        to_path: None,
        is_binary: false,
        records: spec_close(m),
        binary_lines: m.binary_lines,
    }
}

/// The transition table: what one input line does to the classifier.
pub open spec fn spec_feed(m: SplitterModel, l: Seq<u8>) -> Result<SplitterModel, FormatError> {
    match m.state {
        HeaderState::Diff => if starts_with(l, diff_marker()) {
            Ok(spec_open_new(m, l))
        } else {
            // only valid before the first diff block: ignored
            Ok(m)
        },
        HeaderState::FromOrIndex => if starts_with(l, index_marker()) {
            Ok(SplitterModel { state: HeaderState::From, current: m.current.push(l), ..m })
        } else if starts_with(l, from_marker()) {
            Ok(
                SplitterModel {
                    state: HeaderState::To,
                    current: m.current.push(l),
                    from_path: spec_extract_path(l, from_marker()),
                    ..m
                },
            )
        } else {
            Err(FormatError::ExpectedIndexOrFrom)
        },
        HeaderState::From => if starts_with(l, from_marker()) {
            Ok(
                SplitterModel {
                    state: HeaderState::To,
                    current: m.current.push(l),
                    from_path: spec_extract_path(l, from_marker()),
                    ..m
                },
            )
        } else {
            Err(FormatError::ExpectedFrom)
        },
        HeaderState::To => if starts_with(l, to_marker()) {
            let p = spec_extract_path(l, to_marker());
            Ok(
                SplitterModel {
                    state: HeaderState::Body,
                    current: m.current.push(l),
                    to_path: if p.len() > 0 {
                        Some(p)
                    } else {
                        None
                    },
                    ..m
                },
            )
        } else {
            Err(FormatError::ExpectedTo)
        },
        HeaderState::Body => if starts_with(l, diff_marker()) {
            Ok(spec_open_new(m, l))
        } else if starts_with(l, binary_marker()) {
            Ok(
                SplitterModel {
                    is_binary: true,
                    current: m.current.push(l),
                    binary_lines: m.binary_lines.push(trimmed_end(l)),
                    ..m
                },
            )
        } else {
            Ok(SplitterModel { current: m.current.push(l), ..m })
        },
    }
}

/// End of input: the last open record is closed.
pub open spec fn spec_finalize(m: SplitterModel) -> SplitterModel {
    SplitterModel {
        current: Seq::empty(),
        from_path: Seq::empty(),
        to_path: None,
        is_binary: false,
        records: spec_close(m),
        ..m
    }
}

/// The classifier.  It owns the open record's accumulator and the
/// emitted records; `feed` consumes lines in stream order and
/// `finalize` closes the last record at end of input.
pub struct DiffSplitter {
    pub state: HeaderState,
    pub current: Vec<Vec<u8>>,
    pub from_path: Vec<u8>,
    pub to_path: Option<Vec<u8>>,
    pub is_binary: bool,
    pub records: Vec<DiffRecord>,
    pub binary_lines: Vec<Vec<u8>>,
}

impl View for DiffSplitter {
    type V = SplitterModel;

    open spec fn view(&self) -> SplitterModel {
        SplitterModel {
            state: self.state,
            current: views(self.current@),
            from_path: self.from_path@,
            to_path: match self.to_path {
                Some(p) => Some(p@),
                None => None,
            },
            is_binary: self.is_binary,
            records: record_views(self.records@),
            binary_lines: views(self.binary_lines@),
        }
    }
}

impl DiffSplitter {
    /// A classifier with no input seen yet.
    pub fn new() -> (s: Self)
        ensures
            s@ == initial_model(),
    {
        let s = DiffSplitter {
            state: HeaderState::Diff,
            current: Vec::new(),
            from_path: Vec::new(),
            to_path: None,
            is_binary: false,
            records: Vec::new(),
            binary_lines: Vec::new(),
        };
        proof {
            assert(views(s.current@) =~= Seq::<Seq<u8>>::empty());
            assert(record_views(s.records@) =~= Seq::<RecordModel>::empty());
            assert(views(s.binary_lines@) =~= Seq::<Seq<u8>>::empty());
        }
        s
    }

    /// Closes the open record, emitting it when eligible, and resets the
    /// per-record accumulators.
    fn close_current(&mut self)
        ensures
            final(self)@.records == spec_close(old(self)@),
            final(self)@.state == old(self)@.state,
            final(self)@.binary_lines == old(self)@.binary_lines,
            final(self)@.current == Seq::<Seq<u8>>::empty(),
            final(self)@.to_path is None,
            final(self)@.is_binary == false,
            final(self)@.from_path == Seq::<u8>::empty(),
    {
        let emit = self.current.len() > 0 && self.to_path.is_some() && !self.is_binary;
        if emit {
            let to_path = match &self.to_path {
                Some(p) => copy_bytes(p),
                None => Vec::new(),
            };
            let rec = DiffRecord {
                lines: copy_lines(&self.current),
                from_path: copy_bytes(&self.from_path),
                to_path,
            };
            let ghost old_records = self.records@;
            self.records.push(rec);
            proof {
                assert(record_views(self.records@) =~= record_views(old_records).push(rec@));
            }
        }
        self.current = Vec::new();
        self.from_path = Vec::new();
        self.to_path = None;
        self.is_binary = false;
        proof {
            assert(views(self.current@) =~= Seq::<Seq<u8>>::empty());
            assert(self.from_path@ =~= Seq::<u8>::empty());
        }
    }

    /// Feeds one input line to the classifier.  The contract is the
    /// transition table `spec_feed`; on a format error the classifier is
    /// left unchanged.
    pub fn feed(&mut self, line: Vec<u8>) -> (r: Result<(), FormatError>)
        ensures
            match r {
                Ok(_) => spec_feed(old(self)@, line@) == Ok::<SplitterModel, FormatError>(
                    final(self)@,
                ),
                Err(e) => spec_feed(old(self)@, line@) == Err::<SplitterModel, FormatError>(e)
                    && final(self)@ == old(self)@,
            },
    {
        let diff_m = diff_marker_vec();
        match self.state {
            HeaderState::Diff => {
                if has_prefix(&line, &diff_m) {
                    self.close_current();
                    let ghost before = self.current@;
                    self.current.push(line);
                    self.state = HeaderState::FromOrIndex;
                    proof {
                        lemma_views_push(before, self.current@[0]);
                        assert(views(self.current@) =~= seq![self.current@[0]@]);
                    }
                }
                Ok(())
            },
            HeaderState::FromOrIndex => {
                let index_m = index_marker_vec();
                let from_m = from_marker_vec();
                if has_prefix(&line, &index_m) {
                    let ghost before = self.current@;
                    let ghost lv = line@;
                    self.current.push(line);
                    self.state = HeaderState::From;
                    proof {
                        lemma_views_push(before, self.current@[self.current@.len() - 1]);
                    }
                    Ok(())
                } else if has_prefix(&line, &from_m) {
                    self.from_path = extract_path(&line, &from_m);
                    let ghost before = self.current@;
                    self.current.push(line);
                    self.state = HeaderState::To;
                    proof {
                        lemma_views_push(before, self.current@[self.current@.len() - 1]);
                    }
                    Ok(())
                } else {
                    Err(FormatError::ExpectedIndexOrFrom)
                }
            },
            HeaderState::From => {
                let from_m = from_marker_vec();
                if has_prefix(&line, &from_m) {
                    self.from_path = extract_path(&line, &from_m);
                    let ghost before = self.current@;
                    self.current.push(line);
                    self.state = HeaderState::To;
                    proof {
                        lemma_views_push(before, self.current@[self.current@.len() - 1]);
                    }
                    Ok(())
                } else {
                    Err(FormatError::ExpectedFrom)
                }
            },
            HeaderState::To => {
                let to_m = to_marker_vec();
                if has_prefix(&line, &to_m) {
                    let p = extract_path(&line, &to_m);
                    if p.len() > 0 {
                        self.to_path = Some(p);
                    } else {
                        self.to_path = None;
                    }
                    let ghost before = self.current@;
                    self.current.push(line);
                    self.state = HeaderState::Body;
                    proof {
                        lemma_views_push(before, self.current@[self.current@.len() - 1]);
                    }
                    Ok(())
                } else {
                    Err(FormatError::ExpectedTo)
                }
            },
            HeaderState::Body => {
                if has_prefix(&line, &diff_m) {
                    self.close_current();
                    let ghost before = self.current@;
                    self.current.push(line);
                    self.state = HeaderState::FromOrIndex;
                    proof {
                        lemma_views_push(before, self.current@[0]);
                        assert(views(self.current@) =~= seq![self.current@[0]@]);
                    }
                    Ok(())
                } else {
                    let binary_m = binary_marker_vec();
                    if has_prefix(&line, &binary_m) {
                        self.is_binary = true;
                        let trimmed = trim_end(&line);
                        let ghost before_b = self.binary_lines@;
                        self.binary_lines.push(trimmed);
                        proof {
                            lemma_views_push(
                                before_b,
                                self.binary_lines@[self.binary_lines@.len() - 1],
                            );
                        }
                    }
                    let ghost before = self.current@;
                    self.current.push(line);
                    proof {
                        lemma_views_push(before, self.current@[self.current@.len() - 1]);
                    }
                    Ok(())
                }
            },
        }
    }

    /// Closes the last open record at end of input.
    pub fn finalize(&mut self)
        ensures
            final(self)@ == spec_finalize(old(self)@),
    {
        self.close_current();
        proof {
            assert(self@ =~= spec_finalize(old(self)@));
        }
    }
}

/// Copies a vector of lines.
pub fn copy_lines(v: &Vec<Vec<u8>>) -> (r: Vec<Vec<u8>>)
    ensures
        views(r@) == views(v@),
{
    let mut r: Vec<Vec<u8>> = Vec::new();
    let mut i: usize = 0;
    while i < v.len()
        invariant
            0 <= i <= v@.len(),
            views(r@) =~= views(v@).subrange(0, i as int),
        decreases v@.len() - i,
    {
        let ghost before = r@;
        r.push(copy_bytes(&v[i]));
        proof {
            lemma_views_push(before, r@[r@.len() - 1]);
            assert(views(r@) =~= views(v@).subrange(0, i as int + 1));
        }
        i += 1;
    }
    assert(views(r@) =~= views(v@));
    r
}

} // verus!
