use vstd::prelude::*;
use crate::fasta::{failed_state, fresh_state, line_model, pull_model, ReaderState, StepModel};
use crate::header::{
    header_desc, header_id, header_text, is_eol, is_header, is_ws, skip_ws, token_len, trim_eol,
};
use crate::record::{format_model, header_line_model, sequence_line_model, RecordModel};

verus! {

/// An empty input gives no record: the first request for a record asks for a
/// line, and the end of the input answers it with the end of the stream.
pub proof fn lemma_empty_input()
    ensures
        pull_model(fresh_state()) == (fresh_state(), StepModel::ReadLine),
        line_model(fresh_state(), Seq::empty()) == (fresh_state(), StepModel::End),
{
}

/// Once failed, a reader reports the end of the stream on every request and
/// for every line, and stays as it is.
pub proof fn lemma_failed_is_sticky(s: crate::fasta::ReaderState, line: Seq<char>)
    requires
        s.failed,
    ensures
        pull_model(s) == (s, StepModel::End),
        line_model(s, line) == (s, StepModel::End),
{
}

/// An input whose first line does not start with `>` fails the first request
/// as malformed, and every later request reports the end of the stream.
pub proof fn lemma_malformed_start(line: Seq<char>, later: Seq<char>)
    requires
        line.len() > 0,
        !is_header(line),
    ensures
        pull_model(fresh_state()) == (fresh_state(), StepModel::ReadLine),
        line_model(fresh_state(), line) == (failed_state(), StepModel::Malformed),
        pull_model(failed_state()) == (failed_state(), StepModel::End),
        line_model(failed_state(), later) == (failed_state(), StepModel::End),
{
}

/// The sequence lines of a record are appended to its sequence without their
/// terminators and with nothing between them.
pub proof fn lemma_sequence_lines_concatenate(r: RecordModel, l1: Seq<char>, l2: Seq<char>)
    requires
        l1.len() > 0,
        l2.len() > 0,
        !is_header(l1),
        !is_header(l2),
    ensures
        ({
            let s0 = crate::fasta::ReaderState { failed: false, cache: Seq::empty(), partial: Some(r) };
            let (s1, a1) = line_model(s0, l1);
            let (s2, a2) = line_model(s1, l2);
            &&& a1 == StepModel::ReadLine
            &&& a2 == StepModel::ReadLine
            &&& s2.partial == Some(
                RecordModel { id: r.id, desc: r.desc, seq: r.seq + trim_eol(l1) + trim_eol(l2) },
            )
        }),
{
    let s0 = crate::fasta::ReaderState { failed: false, cache: Seq::empty(), partial: Some(r) };
    let (s1, a1) = line_model(s0, l1);
    let (s2, a2) = line_model(s1, l2);
    assert(r.seq + trim_eol(l1) + trim_eol(l2) =~= (r.seq + trim_eol(l1)) + trim_eol(l2));
}

/// Whether a line holds exactly one newline, at its end.
pub open spec fn is_one_line(l: Seq<char>) -> bool {
    &&& l.len() > 0
    &&& l.last() == '\n'
    &&& forall|i: int| 0 <= i < l.len() - 1 ==> l[i] != '\n'
}

/// Whether the record's fields each fit in their place in the FASTA text: an id
/// without white space; a description that is not empty, starts with no white
/// space and holds no line terminator at its end nor a newline; a sequence that
/// does not start with `>`, does not end with a line terminator and holds no
/// newline.
pub open spec fn fits_lines(r: RecordModel) -> bool {
    &&& forall|i: int| 0 <= i < r.id.len() ==> !is_ws(#[trigger] r.id[i])
    &&& match r.desc {
        Some(d) => {
            &&& d.len() > 0
            &&& !is_ws(d[0])
            &&& !is_eol(d.last())
            &&& forall|i: int| 0 <= i < d.len() ==> #[trigger] d[i] != '\n'
        },
        None => true,
    }
    &&& !is_header(r.seq)
    &&& r.seq.len() > 0 ==> !is_eol(r.seq.last())
    &&& forall|i: int| 0 <= i < r.seq.len() ==> #[trigger] r.seq[i] != '\n'
}

proof fn lemma_token_len_of_word(w: Seq<char>, rest: Seq<char>)
    requires
        forall|i: int| 0 <= i < w.len() ==> !is_ws(#[trigger] w[i]),
        rest.len() == 0 || is_ws(rest[0]),
    ensures
        token_len(w + rest) == w.len(),
    decreases w.len(),
{
    if w.len() == 0 {
        assert(w + rest =~= rest);
    } else {
        assert((w + rest).drop_first() =~= w.drop_first() + rest);
        lemma_token_len_of_word(w.drop_first(), rest);
    }
}

/// Formatting a record and reading its text back gives the same record, where
/// the fields fit their lines. The text is two lines, the header and the whole
/// sequence: a fresh reader asks for them in turn and, at the end of the input,
/// hands back the record and is fresh again.
pub proof fn lemma_format_round_trip(r: RecordModel)
    requires
        fits_lines(r),
    ensures
        format_model(r) == header_line_model(r) + sequence_line_model(r),
        is_one_line(header_line_model(r)),
        is_one_line(sequence_line_model(r)),
        ({
            let (s1, a1) = pull_model(fresh_state());
            let (s2, a2) = line_model(s1, header_line_model(r));
            let (s3, a3) = line_model(s2, sequence_line_model(r));
            let (s4, a4) = line_model(s3, Seq::empty());
            &&& a1 == StepModel::ReadLine
            &&& a2 == StepModel::ReadLine
            &&& a3 == StepModel::ReadLine
            &&& a4 == StepModel::Record(r)
            &&& s4 == fresh_state()
        }),
{
    let hl = header_line_model(r);
    let sl = sequence_line_model(r);
    let rest = match r.desc {
        Some(d) => seq![' '] + d,
        None => Seq::<char>::empty(),
    };
    let body = r.id + rest;
    assert(hl =~= seq!['>'] + body + seq!['\n']);
    // the header line, without its newline
    assert(hl.drop_last() =~= seq!['>'] + body);
    assert(!is_eol((seq!['>'] + body).last())) by {
        if r.desc is Some {
            assert((seq!['>'] + body).last() == r.desc->0.last());
        } else if r.id.len() > 0 {
            assert((seq!['>'] + body).last() == r.id[r.id.len() - 1]);
        }
    }
    assert(trim_eol(seq!['>'] + body) == seq!['>'] + body);
    assert(trim_eol(hl) == trim_eol(hl.drop_last()));
    assert((seq!['>'] + body).drop_first() =~= body);
    lemma_token_len_of_word(r.id, rest);
    assert(body.take(r.id.len() as int) =~= r.id);
    assert(body.skip(r.id.len() as int) =~= rest);
    if r.desc is Some {
        let d = r.desc->0;
        assert(rest.drop_first() =~= d);
        assert(skip_ws(rest) == skip_ws(d));
        assert(skip_ws(d) == d);
    } else {
        assert(skip_ws(rest) == rest);
    }
    assert(hl[0] == '>');
    assert forall|i: int| 0 <= i < hl.len() - 1 implies hl[i] != '\n' by {
        if i > 0 {
            assert(hl[i] == body[i - 1]);
            if i - 1 < r.id.len() {
                assert(body[i - 1] == r.id[i - 1]);
            } else if i - 1 > r.id.len() {
                assert(body[i - 1] == r.desc->0[i - 2 - r.id.len()]);
            }
        }
    }
    // the sequence line, without its newline
    assert(sl.drop_last() =~= r.seq);
    assert(trim_eol(r.seq) == r.seq);
    assert(trim_eol(sl) == trim_eol(sl.drop_last()));
    assert(!is_header(sl)) by {
        if r.seq.len() > 0 {
            assert(sl[0] == r.seq[0]);
        }
    }
    assert forall|i: int| 0 <= i < sl.len() - 1 implies sl[i] != '\n' by {
        assert(sl[i] == r.seq[i]);
    }
    assert(Seq::<char>::empty() + r.seq =~= r.seq);
}

/// The reader never holds more than one line read ahead: after a line is
/// handed over, the lookahead is empty or that line, or the reader has failed
/// and stays as it was; a request never adds to it.
pub proof fn lemma_lookahead_one_line(s: ReaderState, line: Seq<char>)
    ensures
        ({
            let t = line_model(s, line).0;
            t.cache.len() == 0 || t.cache == line || t == s
        }),
        pull_model(s).0.cache.len() == 0 || pull_model(s).0.cache == s.cache,
{
}

/// The lines of one record of a FASTA text: its header and the lines of its
/// sequence.
pub struct RecordText {
    pub header: Seq<char>,
    pub body: Seq<Seq<char>>,
}

/// Whether the lines make up a record: the header starts with `>`, and each
/// sequence line is not empty and does not.
pub open spec fn is_record_text(t: RecordText) -> bool {
    &&& is_header(t.header)
    &&& forall|i: int| 0 <= i < t.body.len() ==> (#[trigger] t.body[i]).len() > 0 && !is_header(t.body[i])
}

/// The sequence lines, concatenated without their terminators.
pub open spec fn body_seq(body: Seq<Seq<char>>) -> Seq<char>
    decreases body.len(),
{
    if body.len() == 0 {
        Seq::empty()
    } else {
        trim_eol(body[0]) + body_seq(body.drop_first())
    }
}

/// The record that the lines of a record stand for.
pub open spec fn text_record(t: RecordText) -> RecordModel {
    let h = header_text(t.header);
    RecordModel { id: header_id(h), desc: header_desc(h), seq: body_seq(t.body) }
}

/// All the lines of a FASTA text, record after record.
pub open spec fn input_lines(recs: Seq<RecordText>) -> Seq<Seq<char>>
    decreases recs.len(),
{
    if recs.len() == 0 {
        Seq::empty()
    } else {
        seq![recs[0].header] + recs[0].body + input_lines(recs.drop_first())
    }
}

/// Hand lines over while the reader asks for them, the empty line once they
/// run out; gives the state, the answer and the lines left.
pub open spec fn answer(s: ReaderState, a: StepModel, lines: Seq<Seq<char>>) -> (
    ReaderState,
    StepModel,
    Seq<Seq<char>>,
)
    decreases lines.len(),
{
    if a is ReadLine {
        if lines.len() == 0 {
            let (s2, a2) = line_model(s, Seq::empty());
            (s2, a2, lines)
        } else {
            let (s2, a2) = line_model(s, lines[0]);
            answer(s2, a2, lines.drop_first())
        }
    } else {
        (s, a, lines)
    }
}

/// One request for a record, answered from the lines.
pub open spec fn request(s: ReaderState, lines: Seq<Seq<char>>) -> (
    ReaderState,
    StepModel,
    Seq<Seq<char>>,
) {
    let (s1, a1) = pull_model(s);
    answer(s1, a1, lines)
}

/// The answers to `n` requests in a row.
pub open spec fn requests(s: ReaderState, lines: Seq<Seq<char>>, n: nat) -> Seq<StepModel>
    decreases n,
{
    if n == 0 {
        Seq::empty()
    } else {
        let (s1, a, rest) = request(s, lines);
        seq![a] + requests(s1, rest, (n - 1) as nat)
    }
}

/// The state of a reader that read ahead to the given header.
pub open spec fn ahead_of(header: Seq<char>) -> ReaderState {
    ReaderState { failed: false, cache: header, partial: None }
}

proof fn lemma_body(r: RecordModel, body: Seq<Seq<char>>, rest: Seq<Seq<char>>)
    requires
        forall|i: int| 0 <= i < body.len() ==> (#[trigger] body[i]).len() > 0 && !is_header(body[i]),
        rest.len() > 0 ==> is_header(rest[0]),
    ensures
        answer(
            ReaderState { failed: false, cache: Seq::empty(), partial: Some(r) },
            StepModel::ReadLine,
            body + rest,
        ) == (if rest.len() == 0 {
            (fresh_state(), StepModel::Record(RecordModel { id: r.id, desc: r.desc, seq: r.seq + body_seq(body) }), rest)
        } else {
            (ahead_of(rest[0]), StepModel::Record(RecordModel { id: r.id, desc: r.desc, seq: r.seq + body_seq(body) }), rest.drop_first())
        }),
    decreases body.len(),
{
    let s = ReaderState { failed: false, cache: Seq::empty(), partial: Some(r) };
    if body.len() == 0 {
        assert(body + rest =~= rest);
        assert(r.seq + body_seq(body) =~= r.seq);
        if rest.len() > 0 {
            let r1 = RecordModel { id: r.id, desc: r.desc, seq: r.seq + body_seq(body) };
            assert(line_model(s, rest[0]) == (ahead_of(rest[0]), StepModel::Record(r1)));
            assert(answer(ahead_of(rest[0]), StepModel::Record(r1), rest.drop_first()) == (
                ahead_of(rest[0]),
                StepModel::Record(r1),
                rest.drop_first(),
            ));
        }
    } else {
        let r2 = RecordModel { id: r.id, desc: r.desc, seq: r.seq + trim_eol(body[0]) };
        assert((body + rest)[0] == body[0]);
        assert((body + rest).drop_first() =~= body.drop_first() + rest);
        assert(body[0].len() > 0 && !is_header(body[0]));
        lemma_body(r2, body.drop_first(), rest);
        assert(line_model(s, body[0]) == (
            ReaderState { failed: false, cache: Seq::empty(), partial: Some(r2) },
            StepModel::ReadLine,
        ));
        assert(r2.seq + body_seq(body.drop_first()) =~= r.seq + body_seq(body));
    }
}

proof fn lemma_input_lines_start(recs: Seq<RecordText>)
    requires
        recs.len() > 0,
    ensures
        input_lines(recs).len() > 0,
        input_lines(recs)[0] == recs[0].header,
        input_lines(recs).drop_first() =~= recs[0].body + input_lines(recs.drop_first()),
{
}

/// One request, from a fresh reader at the start of the lines or from a reader
/// that read ahead to the first header, gives the first record.
proof fn lemma_one_request(recs: Seq<RecordText>, fresh: bool)
    requires
        recs.len() > 0,
        forall|i: int| 0 <= i < recs.len() ==> is_record_text(#[trigger] recs[i]),
    ensures
        ({
            let (s, lines) = if fresh {
                (fresh_state(), input_lines(recs))
            } else {
                (ahead_of(recs[0].header), recs[0].body + input_lines(recs.drop_first()))
            };
            request(s, lines) == if recs.len() == 1 {
                (fresh_state(), StepModel::Record(text_record(recs[0])), Seq::<Seq<char>>::empty())
            } else {
                (
                    ahead_of(recs[1].header),
                    StepModel::Record(text_record(recs[0])),
                    recs[1].body + input_lines(recs.drop_first().drop_first()),
                )
            }
        }),
{
    let t = recs[0];
    assert(is_record_text(t));
    let h = header_text(t.header);
    let r = RecordModel { id: header_id(h), desc: header_desc(h), seq: Seq::empty() };
    let rest = input_lines(recs.drop_first());
    lemma_input_lines_start(recs);
    if recs.len() > 1 {
        assert(is_record_text(recs.drop_first()[0]));
        lemma_input_lines_start(recs.drop_first());
    } else {
        assert(rest =~= Seq::<Seq<char>>::empty());
    }
    lemma_body(r, t.body, rest);
    assert(Seq::<char>::empty() + body_seq(t.body) =~= body_seq(t.body));
}

proof fn lemma_requests(recs: Seq<RecordText>, fresh: bool, k: nat)
    requires
        forall|i: int| 0 <= i < recs.len() ==> is_record_text(#[trigger] recs[i]),
        recs.len() > 0 || fresh,
    ensures
        ({
            let (s, lines) = if fresh {
                (fresh_state(), input_lines(recs))
            } else {
                (ahead_of(recs[0].header), recs[0].body + input_lines(recs.drop_first()))
            };
            requests(s, lines, recs.len() + k) =~= recs.map_values(
                |t: RecordText| StepModel::Record(text_record(t)),
            ) + Seq::new(k, |i: int| StepModel::End)
        }),
    decreases recs.len(), k,
{
    let (s, lines) = if fresh {
        (fresh_state(), input_lines(recs))
    } else {
        (ahead_of(recs[0].header), recs[0].body + input_lines(recs.drop_first()))
    };
    if recs.len() == 0 {
        assert(lines =~= Seq::<Seq<char>>::empty());
        if k > 0 {
            assert(request(s, lines) == (fresh_state(), StepModel::End, lines));
            lemma_requests(recs, fresh, (k - 1) as nat);
        }
    } else {
        lemma_one_request(recs, fresh);
        let tail = recs.drop_first();
        assert forall|i: int| 0 <= i < tail.len() implies is_record_text(#[trigger] tail[i]) by {
            assert(tail[i] == recs[i + 1]);
        }
        if recs.len() == 1 {
            lemma_requests(tail, true, k);
            assert(input_lines(tail) =~= Seq::<Seq<char>>::empty());
        } else {
            lemma_requests(tail, false, k);
            assert(tail.drop_first() =~= recs.drop_first().drop_first());
        }
    }
}

/// A text made of well-formed records gives exactly those records, in order,
/// one per request, and from then on the end of the stream on every request.
pub proof fn lemma_reads_all_records(recs: Seq<RecordText>, k: nat)
    requires
        forall|i: int| 0 <= i < recs.len() ==> is_record_text(#[trigger] recs[i]),
    ensures
        requests(fresh_state(), input_lines(recs), recs.len() + k) =~= recs.map_values(
            |t: RecordText| StepModel::Record(text_record(t)),
        ) + Seq::new(k, |i: int| StepModel::End),
{
    lemma_requests(recs, true, k);
}

} // verus!
