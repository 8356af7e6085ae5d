use gx_sequence_utils_rs::{CheckError, FastaReader, FastaSequence, Step};

const FASTA_FILE: &str = ">id desc
ACCGTAGGCTGA
CCGTAGGCTGAA
CGTAGGCTGAAA
GTAGGCTGAAAA
CCCC
>id2
ATTGTTGTTTTA
ATTGTTGTTTTA
ATTGTTGTTTTA
GGGG
";

/// Answer one request for a record from the lines of `lines`, counting the
/// lines handed over.
fn pull(reader: &mut FastaReader, lines: &mut std::str::SplitInclusive<'_, char>, fed: &mut usize) -> Step {
    let mut step = reader.next();
    while let Step::ReadLine = step {
        let line = lines.next().unwrap_or("");
        *fed += 1;
        step = reader.on_line(line);
    }
    step
}

/// All the steps that end a request, up to and including the first that is not a record.
fn read_all(text: &str) -> Vec<Step> {
    let mut reader = FastaReader::new();
    let mut lines = text.split_inclusive('\n');
    let mut fed = 0;
    let mut out = Vec::new();
    loop {
        let step = pull(&mut reader, &mut lines, &mut fed);
        let done = !matches!(step, Step::Record(_));
        out.push(step);
        if done {
            return out;
        }
    }
}

fn record(step: &Step) -> &FastaSequence {
    match step {
        Step::Record(r) => r,
        _ => panic!("expected a record"),
    }
}

#[test]
fn records_come_in_order_then_end() {
    let steps = read_all(FASTA_FILE);
    assert_eq!(steps.len(), 3);
    let first = record(&steps[0]);
    assert_eq!(first.id, "id");
    assert_eq!(first.desc.as_deref(), Some("desc"));
    assert_eq!(first.seq, "ACCGTAGGCTGACCGTAGGCTGAACGTAGGCTGAAAGTAGGCTGAAAACCCC");
    assert_eq!(first.len(), 52);
    let second = record(&steps[1]);
    assert_eq!(second.id, "id2");
    assert_eq!(second.desc, None);
    assert_eq!(second.seq, "ATTGTTGTTTTAATTGTTGTTTTAATTGTTGTTTTAGGGG");
    assert!(matches!(steps[2], Step::End));
}

#[test]
fn end_of_stream_repeats() {
    let mut reader = FastaReader::new();
    let mut lines = ">a\nAC\n".split_inclusive('\n');
    let mut fed = 0;
    assert!(matches!(pull(&mut reader, &mut lines, &mut fed), Step::Record(_)));
    assert!(matches!(pull(&mut reader, &mut lines, &mut fed), Step::End));
    assert!(matches!(pull(&mut reader, &mut lines, &mut fed), Step::End));
    assert!(matches!(pull(&mut reader, &mut lines, &mut fed), Step::End));
}

#[test]
fn empty_input_has_no_record() {
    let steps = read_all("");
    assert_eq!(steps.len(), 1);
    assert!(matches!(steps[0], Step::End));
}

#[test]
fn sequence_lines_are_concatenated() {
    let steps = read_all(">x\nACCG\nTAGG\n");
    assert_eq!(record(&steps[0]).seq, "ACCGTAGG");
}

#[test]
fn crlf_terminators_are_stripped() {
    let steps = read_all(">x d\r\nACCG\r\nTAGG\r\n");
    let r = record(&steps[0]);
    assert_eq!(r.id, "x");
    assert_eq!(r.desc.as_deref(), Some("d"));
    assert_eq!(r.seq, "ACCGTAGG");
}

#[test]
fn blank_lines_do_not_end_a_record() {
    let steps = read_all(">x\nAC\n\nGT\n>y\nTT\n");
    assert_eq!(steps.len(), 3);
    assert_eq!(record(&steps[0]).seq, "ACGT");
    assert_eq!(record(&steps[1]).id, "y");
}

#[test]
fn last_line_without_terminator() {
    let steps = read_all(">x\nAC\nGT");
    assert_eq!(record(&steps[0]).seq, "ACGT");
    assert!(matches!(steps[1], Step::End));
}

#[test]
fn header_with_description() {
    let steps = read_all(">id2 some description\nGGGG\n");
    let r = record(&steps[0]);
    assert_eq!(r.id, "id2");
    assert_eq!(r.desc.as_deref(), Some("some description"));
    assert_eq!(r.seq, "GGGG");
}

#[test]
fn header_without_description() {
    let steps = read_all(">id3\nAAAA\n");
    let r = record(&steps[0]);
    assert_eq!(r.id, "id3");
    assert_eq!(r.desc, None);
    assert_eq!(r.seq, "AAAA");
}

#[test]
fn description_follows_the_whole_white_space_run() {
    let steps = read_all(">id \t two  words\nA\n");
    let r = record(&steps[0]);
    assert_eq!(r.id, "id");
    assert_eq!(r.desc.as_deref(), Some("two  words"));
}

#[test]
fn trailing_white_space_gives_no_description() {
    let steps = read_all(">id   \nA\n");
    let r = record(&steps[0]);
    assert_eq!(r.id, "id");
    assert_eq!(r.desc, None);
}

#[test]
fn format_then_read_gives_the_same_record() {
    let steps = read_all(">id desc\nACCG\nTAGG\n");
    let read_once = record(&steps[0]);
    let text = read_once.to_fasta_string();
    assert_eq!(text, ">id desc\nACCGTAGG\n");
    let again = read_all(&text);
    let back = record(&again[0]);
    assert_eq!(back.id, read_once.id);
    assert_eq!(back.desc, read_once.desc);
    assert_eq!(back.seq, read_once.seq);
    assert_eq!(back.to_fasta_string(), text);
}

#[test]
fn format_without_description() {
    let r = FastaSequence::with_attrs("id3", None, "AAAA");
    assert_eq!(r.to_fasta_string(), ">id3\nAAAA\n");
}

#[test]
fn malformed_start_then_end() {
    let mut reader = FastaReader::new();
    let mut lines = "ACGT\n>x\nAC\n".split_inclusive('\n');
    let mut fed = 0;
    assert!(matches!(pull(&mut reader, &mut lines, &mut fed), Step::Malformed));
    assert!(matches!(pull(&mut reader, &mut lines, &mut fed), Step::End));
    assert!(matches!(pull(&mut reader, &mut lines, &mut fed), Step::End));
    assert_eq!(fed, 1);
}

#[test]
fn read_error_ends_the_stream() {
    let mut reader = FastaReader::new();
    assert!(matches!(reader.next(), Step::ReadLine));
    assert!(matches!(reader.on_line(">x\n"), Step::ReadLine));
    reader.on_read_error();
    assert!(matches!(reader.next(), Step::End));
    assert!(matches!(reader.on_line("AC\n"), Step::End));
}

#[test]
fn reads_one_line_ahead() {
    let mut text = String::new();
    for i in 0..1000 {
        text.push_str(&format!(">r{}\nACGT\nACGT\n", i));
    }
    let mut reader = FastaReader::new();
    let mut lines = text.split_inclusive('\n');
    let mut fed = 0;
    let first = pull(&mut reader, &mut lines, &mut fed);
    assert_eq!(record(&first).id, "r0");
    // the header, the two sequence lines and the next header
    assert_eq!(fed, 4);
    for i in 1..1000 {
        let step = pull(&mut reader, &mut lines, &mut fed);
        assert_eq!(record(&step).id, format!("r{}", i));
        assert_eq!(fed, 4 + 3 * i);
    }
}

#[test]
fn check_missing_id() {
    assert_eq!(FastaSequence::with_attrs("", None, "ACGT").check(), Err(CheckError::MissingId));
    assert_eq!(FastaSequence::with_attrs("", Some("d"), "AΩ").check(), Err(CheckError::MissingId));
}

#[test]
fn check_non_ascii_sequence() {
    assert_eq!(
        FastaSequence::with_attrs("id", None, "ACΩT").check(),
        Err(CheckError::NonAsciiSequence)
    );
}

#[test]
fn check_valid_record() {
    assert_eq!(FastaSequence::with_attrs("id", Some("d"), "ACGT").check(), Ok(()));
}

#[test]
fn non_ascii_sequence_is_still_read() {
    let steps = read_all(">id\nACΩ\n");
    let r = record(&steps[0]);
    assert_eq!(r.seq, "ACΩ");
    assert_eq!(r.len(), 4);
    assert_eq!(r.check(), Err(CheckError::NonAsciiSequence));
}

#[test]
fn new_record_is_empty() {
    let mut r = FastaSequence::new();
    assert!(r.is_empty());
    assert_eq!(r.len(), 0);
    r = FastaSequence::with_attrs("a", None, "");
    assert!(!r.is_empty());
    assert!(!FastaSequence::with_attrs("", Some("d"), "").is_empty());
    assert!(!FastaSequence::with_attrs("", None, "A").is_empty());
    r.clear();
    assert!(r.is_empty());
}

#[test]
fn with_attrs_keeps_fields() {
    let r = FastaSequence::with_attrs("id", Some("a b"), "ACGT");
    assert_eq!(r.id, "id");
    assert_eq!(r.desc.as_deref(), Some("a b"));
    assert_eq!(r.seq, "ACGT");
    assert_eq!(r.len(), 4);
}

#[test]
fn records_compare_by_fields() {
    let a = FastaSequence::with_attrs("id", Some("d"), "ACGT");
    assert_eq!(a, a.clone());
    assert_eq!(a, FastaSequence::with_attrs("id", Some("d"), "ACGT"));
    assert_ne!(a, FastaSequence::with_attrs("id", None, "ACGT"));
    assert_ne!(a, FastaSequence::with_attrs("id", Some("e"), "ACGT"));
    assert_ne!(a, FastaSequence::with_attrs("id", Some("d"), "ACG"));
    let steps = read_all(&a.to_fasta_string());
    assert_eq!(*record(&steps[0]), a);
}
