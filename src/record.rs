use vstd::prelude::*;
use vstd::utf8::is_ascii_chars;

verus! {

/// What a FASTA record holds, as plain sequences of characters.
pub struct RecordModel {
    pub id: Seq<char>,
    pub desc: Option<Seq<char>>,
    pub seq: Seq<char>,
}

/// The view of an optional string.
pub open spec fn opt_view(o: Option<String>) -> Option<Seq<char>> {
    match o {
        Some(s) => Some(s@),
        None => None,
    }
}

/// The record that marks the end of the stream: no id, no description, no sequence.
pub open spec fn empty_record() -> RecordModel {
    RecordModel { id: Seq::empty(), desc: None, seq: Seq::empty() }
}

/// The FASTA text of a record: the header line, then the whole sequence on
/// one line.
pub open spec fn format_model(r: RecordModel) -> Seq<char> {
    header_line_model(r) + sequence_line_model(r)
}

/// The header line of a record's FASTA text: the marker, the id, a space and
/// the description where there is one, and a newline.
pub open spec fn header_line_model(r: RecordModel) -> Seq<char> {
    let d = match r.desc {
        Some(d) => seq![' '] + d,
        None => Seq::empty(),
    };
    seq!['>'] + r.id + d + seq!['\n']
}

/// The sequence line of a record's FASTA text: the sequence and a newline.
pub open spec fn sequence_line_model(r: RecordModel) -> Seq<char> {
    r.seq + seq!['\n']
}

/// A FASTA record.
#[derive(Clone, Debug, Hash)]
pub struct FastaSequence {
    pub id: String,
    pub desc: Option<String>,
    pub seq: String,
}

impl View for FastaSequence {
    type V = RecordModel;

    open spec fn view(&self) -> RecordModel {
        RecordModel { id: self.id@, desc: opt_view(self.desc), seq: self.seq@ }
    }
}

fn opt_eq(a: &Option<String>, b: &Option<String>) -> (r: bool)
    ensures
        r == (opt_view(*a) == opt_view(*b)),
{
    match (a, b) {
        (Some(x), Some(y)) => x.eq(y),
        (None, None) => true,
        _ => false,
    }
}

impl PartialEq for FastaSequence {
    fn eq(&self, other: &FastaSequence) -> (r: bool) {
        self.id == other.id && opt_eq(&self.desc, &other.desc) && self.seq == other.seq
    }
}

impl vstd::std_specs::cmp::PartialEqSpecImpl for FastaSequence {
    open spec fn obeys_eq_spec() -> bool {
        true
    }

    open spec fn eq_spec(&self, other: &FastaSequence) -> bool {
        self@ == other@
    }
}

impl Eq for FastaSequence {

}

/// Why a record is not valid.
#[derive(Clone, Copy, Debug, PartialEq, Eq, Structural)]
pub enum CheckError {
    /// The record has an empty id.
    MissingId,
    /// The sequence holds a character outside the ASCII range.
    NonAsciiSequence,
}

/// The outcome of validating a record.
pub open spec fn check_model(r: RecordModel) -> Result<(), CheckError> {
    if r.id.len() == 0 {
        Err(CheckError::MissingId)
    } else if !is_ascii_chars(r.seq) {
        Err(CheckError::NonAsciiSequence)
    } else {
        Ok(())
    }
}

fn opt_to_owned(o: Option<&str>) -> (r: Option<String>)
    ensures
        opt_view(r) == match o {
            Some(s) => Some(s@),
            None => None::<Seq<char>>,
        },
{
    match o {
        Some(s) => Some(s.to_owned()),
        None => None,
    }
}

impl FastaSequence {
    /// Create a new, empty record.
    pub fn new() -> (r: FastaSequence)
        ensures
            r@ == empty_record(),
    {
        FastaSequence { id: String::new(), desc: None, seq: String::new() }
    }

    /// Create a record from the given attributes.
    pub fn with_attrs(id: &str, desc: Option<&str>, seq: &str) -> (r: FastaSequence)
        ensures
            r@.id == id@,
            r@.desc == match desc {
                Some(d) => Some(d@),
                None => None::<Seq<char>>,
            },
            r@.seq == seq@,
    {
        let desc = opt_to_owned(desc);
        FastaSequence { id: id.to_owned(), desc, seq: seq.to_owned() }
    }

    /// The length of the sequence, in bytes of its UTF-8 encoding (one per base
    /// for an ASCII sequence).
    pub fn len(&self) -> (r: usize)
        ensures
            r == vstd::utf8::encode_utf8(self.seq@).len() as usize,
    {
        self.seq.as_str().len()
    }

    /// Whether the record is empty: no id, no description and no sequence.
    pub fn is_empty(&self) -> (r: bool)
        ensures
            r == (self@ == empty_record()),
    {
        let r = self.id.as_str().is_empty() && self.desc.is_none() && self.seq.as_str().is_empty();
        proof {
            if r {
                assert(self@.id =~= Seq::<char>::empty());
                assert(self@.seq =~= Seq::<char>::empty());
            }
        }
        r
    }

    /// Check that the record has an id and an ASCII sequence.
    pub fn check(&self) -> (r: Result<(), CheckError>)
        ensures
            r == check_model(self@),
    {
        if self.id.as_str().is_empty() {
            return Err(CheckError::MissingId);
        }
        if !self.seq.as_str().is_ascii() {
            return Err(CheckError::NonAsciiSequence);
        }
        Ok(())
    }

    /// The record as FASTA text: `>`, the id, a space and the description
    /// where there is one, a newline, the sequence on one line and a newline.
    pub fn to_fasta_string(&self) -> (r: String)
        ensures
            r@ == format_model(self@),
    {
        let mut out = String::new();
        let marker = ">";
        let space = " ";
        let newline = "\n";
        proof {
            reveal_strlit(">");
            reveal_strlit(" ");
            reveal_strlit("\n");
        }
        out.append(marker);
        out.append(self.id.as_str());
        match &self.desc {
            Some(d) => {
                out.append(space);
                out.append(d.as_str());
            },
            None => {},
        }
        out.append(newline);
        out.append(self.seq.as_str());
        out.append(newline);
        assert(out@ =~= format_model(self@));
        out
    }

    /// Reset the record to the empty one.
    pub fn clear(&mut self)
        ensures
            final(self)@ == empty_record(),
    {
        self.id = String::new();
        self.desc = None;
        self.seq = String::new();
    }
}

} // verus!
