use vstd::prelude::*;

verus! {

/// Unicode white space, the characters for which `char::is_whitespace` holds.
pub open spec fn is_ws(c: char) -> bool {
    let u = c as u32;
    (0x09 <= u && u <= 0x0D) || u == 0x20 || u == 0x85 || u == 0xA0 || u == 0x1680 || (0x2000 <= u
        && u <= 0x200A) || u == 0x2028 || u == 0x2029 || u == 0x202F || u == 0x205F || u == 0x3000
}

/// A character that ends a line.
pub open spec fn is_eol(c: char) -> bool {
    c == '\n' || c == '\r'
}

/// The line with its trailing line-terminator characters removed.
pub open spec fn trim_eol(s: Seq<char>) -> Seq<char>
    decreases s.len(),
{
    if s.len() > 0 && is_eol(s.last()) {
        trim_eol(s.drop_last())
    } else {
        s
    }
}

/// The length of the leading run of non-white-space characters.
pub open spec fn token_len(s: Seq<char>) -> nat
    decreases s.len(),
{
    if s.len() == 0 || is_ws(s[0]) {
        0
    } else {
        1 + token_len(s.drop_first())
    }
}

/// The text with its leading white space removed.
pub open spec fn skip_ws(s: Seq<char>) -> Seq<char>
    decreases s.len(),
{
    if s.len() > 0 && is_ws(s[0]) {
        skip_ws(s.drop_first())
    } else {
        s
    }
}

/// The text of a header line after the marker, without its terminator.
pub open spec fn header_text(line: Seq<char>) -> Seq<char> {
    trim_eol(line).drop_first()
}

/// The id of a header: everything up to the first white space.
pub open spec fn header_id(h: Seq<char>) -> Seq<char> {
    h.take(token_len(h) as int)
}

/// The description of a header: what follows the first run of white space,
/// absent where nothing follows it.
pub open spec fn header_desc(h: Seq<char>) -> Option<Seq<char>> {
    let rest = skip_ws(h.skip(token_len(h) as int));
    if rest.len() == 0 {
        None
    } else {
        Some(rest)
    }
}

/// Whether the line starts a record.
pub open spec fn is_header(line: Seq<char>) -> bool {
    line.len() > 0 && line[0] == '>'
}

/// Trimming the terminator keeps a prefix of the line, and keeps the first
/// character where that is no terminator.
pub proof fn lemma_trim_eol_prefix(s: Seq<char>)
    ensures
        trim_eol(s).len() <= s.len(),
        trim_eol(s) =~= s.take(trim_eol(s).len() as int),
        s.len() > 0 && !is_eol(s[0]) ==> trim_eol(s).len() > 0,
    decreases s.len(),
{
    if s.len() > 0 && is_eol(s.last()) {
        lemma_trim_eol_prefix(s.drop_last());
    }
}

/// Whether the character is white space.
pub fn is_space(c: char) -> (r: bool)
    ensures
        r == is_ws(c),
{
    let u = c as u32;
    (0x09 <= u && u <= 0x0D) || u == 0x20 || u == 0x85 || u == 0xA0 || u == 0x1680 || (0x2000 <= u
        && u <= 0x200A) || u == 0x2028 || u == 0x2029 || u == 0x202F || u == 0x205F || u == 0x3000
}

/// The line without its trailing line-terminator characters.
pub fn strip_eol(line: &str) -> (r: &str)
    ensures
        r@ == trim_eol(line@),
{
    let mut e = line.unicode_len();
    assert(line@.take(e as int) =~= line@);
    while e > 0 && (line.get_char(e - 1) == '\n' || line.get_char(e - 1) == '\r')
        invariant
            e <= line@.len(),
            trim_eol(line@) == trim_eol(line@.take(e as int)),
        decreases e,
    {
        assert(line@.take(e as int).drop_last() =~= line@.take(e - 1));
        e = e - 1;
    }
    assert(line@.take(e as int) =~= line@.subrange(0, e as int));
    line.substring_char(0, e)
}

/// Whether the line starts a record.
pub fn starts_record(line: &str) -> (r: bool)
    ensures
        r == is_header(line@),
{
    !line.is_empty() && line.get_char(0) == '>'
}

/// Split a header line into its id and its description.
pub fn parse_header(line: &str) -> (r: (String, Option<String>))
    requires
        is_header(line@),
    ensures
        r.0@ == header_id(header_text(line@)),
        crate::record::opt_view(r.1) == header_desc(header_text(line@)),
{
    let t = strip_eol(line);
    proof {
        lemma_trim_eol_prefix(line@);
    }
    let n = t.unicode_len();
    let h = t.substring_char(1, n);
    assert(h@ =~= header_text(line@));
    let hn = h.unicode_len();
    let mut i: usize = 0;
    assert(h@.skip(0) =~= h@);
    while i < hn && !is_space(h.get_char(i))
        invariant
            i <= hn,
            hn == h@.len(),
            token_len(h@) == i + token_len(h@.skip(i as int)),
        decreases hn - i,
    {
        assert(h@.skip(i as int).drop_first() =~= h@.skip(i + 1));
        i = i + 1;
    }
    assert(token_len(h@.skip(i as int)) == 0);
    let id = h.substring_char(0, i).to_owned();
    let mut j: usize = i;
    while j < hn && is_space(h.get_char(j))
        invariant
            i <= j <= hn,
            hn == h@.len(),
            skip_ws(h@.skip(i as int)) == skip_ws(h@.skip(j as int)),
        decreases hn - j,
    {
        assert(h@.skip(j as int).drop_first() =~= h@.skip(j + 1));
        j = j + 1;
    }
    assert(skip_ws(h@.skip(j as int)) == h@.skip(j as int));
    assert(h@.take(i as int) =~= h@.subrange(0, i as int));
    if j < hn {
        assert(h@.skip(j as int) =~= h@.subrange(j as int, hn as int));
        (id, Some(h.substring_char(j, hn).to_owned()))
    } else {
        (id, None)
    }
}

} // verus!
