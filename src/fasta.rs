use vstd::prelude::*;
use crate::header::{
    header_desc, header_id, header_text, is_header, parse_header, starts_record, strip_eol, trim_eol,
};
use crate::record::{FastaSequence, RecordModel};

verus! {

/// The state of a reader, as plain values.
pub struct ReaderState {
    /// Set once the input turned out malformed or a read failed.
    pub failed: bool,
    /// The line read ahead and not yet consumed: the header of the next record.
    pub cache: Seq<char>,
    /// The record being read, between its header and its end.
    pub partial: Option<RecordModel>,
}

/// What the reader asks of its caller, as plain values.
pub enum StepModel {
    ReadLine,
    Record(RecordModel),
    Malformed,
    End,
}

/// What the reader asks of its caller after each call.
#[derive(Debug)]
pub enum Step {
    /// Read one more line from the input and hand it to `on_line`.
    ReadLine,
    /// A complete record: the answer to the current pull.
    Record(FastaSequence),
    /// The input does not start a record where one is expected; the reader
    /// reports the end of the stream from now on.
    Malformed,
    /// There are no more records.
    End,
}

impl View for Step {
    type V = StepModel;

    open spec fn view(&self) -> StepModel {
        match self {
            Step::ReadLine => StepModel::ReadLine,
            Step::Record(r) => StepModel::Record(r@),
            Step::Malformed => StepModel::Malformed,
            Step::End => StepModel::End,
        }
    }
}

/// A reader that has read nothing yet.
pub open spec fn fresh_state() -> ReaderState {
    ReaderState { failed: false, cache: Seq::empty(), partial: None }
}

/// A reader that will report the end of the stream from now on.
pub open spec fn failed_state() -> ReaderState {
    ReaderState { failed: true, cache: Seq::empty(), partial: None }
}

/// Begin a record at the given line, which must be its header.
pub open spec fn start_model(line: Seq<char>) -> (ReaderState, StepModel) {
    if !is_header(line) {
        (failed_state(), StepModel::Malformed)
    } else {
        let h = header_text(line);
        (
            ReaderState {
                failed: false,
                cache: Seq::empty(),
                partial: Some(
                    RecordModel { id: header_id(h), desc: header_desc(h), seq: Seq::empty() },
                ),
            },
            StepModel::ReadLine,
        )
    }
}

/// What a request for the next record does.
pub open spec fn pull_model(s: ReaderState) -> (ReaderState, StepModel) {
    if s.failed {
        (s, StepModel::End)
    } else if s.partial is Some || s.cache.len() == 0 {
        (s, StepModel::ReadLine)
    } else {
        start_model(s.cache)
    }
}

/// What a line read from the input does; the empty line is the end of the input.
pub open spec fn line_model(s: ReaderState, line: Seq<char>) -> (ReaderState, StepModel) {
    if s.failed {
        (s, StepModel::End)
    } else {
        match s.partial {
            None => {
                if line.len() == 0 {
                    (fresh_state(), StepModel::End)
                } else {
                    start_model(line)
                }
            },
            Some(r) => {
                if line.len() == 0 {
                    (fresh_state(), StepModel::Record(r))
                } else if is_header(line) {
                    (
                        ReaderState { failed: false, cache: line, partial: None },
                        StepModel::Record(r),
                    )
                } else {
                    (
                        ReaderState {
                            failed: false,
                            cache: Seq::empty(),
                            partial: Some(
                                RecordModel { id: r.id, desc: r.desc, seq: r.seq + trim_eol(line) },
                            ),
                        },
                        StepModel::ReadLine,
                    )
                }
            },
        }
    }
}

/// A FASTA reader.
///
/// The reader owns no input: each call returns a `Step`, and where that is
/// `Step::ReadLine` the caller reads one line (terminator included, the empty
/// string at the end of the input) and hands it to `on_line`. It holds at
/// most one line read ahead and the record being read.
pub struct FastaReader {
    error_has_occured: bool,
    line_cache: String,
    record: Option<FastaSequence>,
}

impl View for FastaReader {
    type V = ReaderState;

    closed spec fn view(&self) -> ReaderState {
        ReaderState {
            failed: self.error_has_occured,
            cache: self.line_cache@,
            partial: match self.record {
                Some(r) => Some(r@),
                None => None,
            },
        }
    }
}

impl FastaReader {
    /// Create a reader that has read nothing yet.
    pub fn new() -> (r: FastaReader)
        ensures
            r@ == fresh_state(),
    {
        FastaReader { error_has_occured: false, line_cache: String::new(), record: None }
    }

    fn start(&mut self, line: &str) -> (r: Step)
        ensures
            (final(self)@, r@) == start_model(line@),
    {
        if !starts_record(line) {
            self.error_has_occured = true;
            self.line_cache = String::new();
            self.record = None;
            return Step::Malformed;
        }
        let (id, desc) = parse_header(line);
        self.error_has_occured = false;
        self.line_cache = String::new();
        self.record = Some(FastaSequence { id, desc, seq: String::new() });
        Step::ReadLine
    }

    /// Ask for the next record.
    pub fn next(&mut self) -> (r: Step)
        ensures
            (final(self)@, r@) == pull_model(old(self)@),
    {
        if self.error_has_occured {
            return Step::End;
        }
        if self.record.is_some() || self.line_cache.as_str().is_empty() {
            return Step::ReadLine;
        }
        let line = self.line_cache.clone();
        self.start(line.as_str())
    }

    /// Hand over the line that the last step asked for; the empty string marks
    /// the end of the input.
    pub fn on_line(&mut self, line: &str) -> (r: Step)
        ensures
            (final(self)@, r@) == line_model(old(self)@, line@),
    {
        if self.error_has_occured {
            return Step::End;
        }
        match self.record.take() {
            None => {
                if line.is_empty() {
                    self.line_cache = String::new();
                    Step::End
                } else {
                    self.start(line)
                }
            },
            Some(mut rec) => {
                if line.is_empty() {
                    self.line_cache = String::new();
                    Step::Record(rec)
                } else if starts_record(line) {
                    self.line_cache = line.to_owned();
                    Step::Record(rec)
                } else {
                    rec.seq.append(strip_eol(line));
                    self.line_cache = String::new();
                    self.record = Some(rec);
                    Step::ReadLine
                }
            },
        }
    }

    /// Record that reading from the input failed: the reader reports the end
    /// of the stream from now on.
    pub fn on_read_error(&mut self)
        ensures
            final(self)@ == failed_state(),
    {
        self.error_has_occured = true;
        self.line_cache = String::new();
        self.record = None;
    }
}

} // verus!
