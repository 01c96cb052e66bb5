//! Header lines.

use crate::text::{
    after, before, colon_space, crlf, cut, first_match, has_match, lemma_separator_texts,
    lemma_split_unfold, lemma_text_of_bytes, split, text_of,
};
use vstd::prelude::*;
use vstd::string::*;
use vstd::utf8::*;

verus! {

/// One header of a message: a name and a value.
#[derive(Debug)]
pub struct HttpHeader {
    pub name: String,
    pub value: String,
}

impl View for HttpHeader {
    type V = (Seq<char>, Seq<char>);

    open spec fn view(&self) -> (Seq<char>, Seq<char>) {
        (self.name@, self.value@)
    }
}

impl Clone for HttpHeader {
    fn clone(&self) -> (r: Self)
        ensures
            r@ == self@,
    {
        HttpHeader { name: self.name.clone(), value: self.value.clone() }
    }
}

/// A character that can stand in a header's name or value: an ASCII
/// character other than carriage return and line feed.
pub open spec fn is_field_char(c: char) -> bool {
    '\0' <= c <= '\u{7f}' && c != '\r' && c != '\n'
}

/// A text that can stand in a header: every character of it can.
pub open spec fn is_field_text(text: Seq<char>) -> bool {
    forall|i: int| 0 <= i < text.len() ==> is_field_char(#[trigger] text[i])
}

/// A header that keeps to its line: name and value are ASCII text without
/// carriage return or line feed.
pub open spec fn is_well_formed(header: (Seq<char>, Seq<char>)) -> bool {
    is_field_text(header.0) && is_field_text(header.1)
}

/// Every one of `headers` keeps to its line.
pub open spec fn all_well_formed(headers: Seq<(Seq<char>, Seq<char>)>) -> bool {
    forall|i: int| 0 <= i < headers.len() ==> is_well_formed(#[trigger] headers[i])
}

/// Tells whether `text` can stand in a header.
pub fn is_field(text: &str) -> (r: bool)
    ensures
        r == is_field_text(text@),
{
    if !text.is_ascii() {
        assert(!is_field_text(text@)) by {
            if is_field_text(text@) {
                assert forall|i: int| 0 <= i < text@.len() implies '\0' <= #[trigger] text@[i]
                    <= '\u{7f}' by {
                    assert(is_field_char(text@[i]));
                }
            }
        }
        return false;
    }
    proof {
        is_ascii_chars_encode_utf8(text@);
    }
    let bytes = text.as_bytes();
    let mut i: usize = 0;
    while i < bytes.len()
        invariant
            i <= bytes.len(),
            bytes@ == encode_utf8(text@),
            bytes@.len() == text@.len(),
            is_ascii_chars(text@),
            forall|j: int| 0 <= j < text@.len() ==> #[trigger] text@[j] as u8 == bytes@[j],
            forall|j: int| 0 <= j < i ==> is_field_char(#[trigger] text@[j]),
        decreases bytes.len() - i,
    {
        if bytes[i] == 0x0d || bytes[i] == 0x0a {
            assert(!is_field_char(text@[i as int]));
            return false;
        }
        assert(is_field_char(text@[i as int]));
        i = i + 1;
    }
    true
}

/// The header that a line holds: the line is cut at its first colon-space,
/// the name is the text before it and the value the text after it. A line
/// without colon-space holds no header.
pub open spec fn parse_header(line: Seq<u8>) -> Option<(Seq<char>, Seq<char>)> {
    match after(line, colon_space()) {
        Some(value) => Some((text_of(before(line, colon_space())), text_of(value))),
        None => None,
    }
}

/// A header as it is written on a line of its own, without the line's end.
pub open spec fn header_text(header: (Seq<char>, Seq<char>)) -> Seq<char> {
    header.0 + ": "@ + header.1
}

/// The views of a run of headers, in order.
pub open spec fn header_views(headers: Seq<HttpHeader>) -> Seq<(Seq<char>, Seq<char>)> {
    Seq::new(headers.len(), |i: int| headers[i]@)
}

/// The first of `headers` that is named `name`, letter for letter.
pub open spec fn find_header(headers: Seq<(Seq<char>, Seq<char>)>, name: Seq<char>) -> Option<
    (Seq<char>, Seq<char>),
>
    decreases headers.len(),
{
    if headers.len() == 0 {
        None
    } else if headers[0].0 == name {
        Some(headers[0])
    } else {
        find_header(headers.drop_first(), name)
    }
}

impl HttpHeader {
    /// A header with the given name and value.
    pub fn new(name: String, value: String) -> (r: HttpHeader)
        ensures
            r@ == (name@, value@),
    {
        HttpHeader { name, value }
    }

    /// Reads a header off one line. The line yields a header exactly when
    /// it holds a colon-space; the name is then what stands before the
    /// first one and the value what stands after it, byte for byte.
    pub fn from(header_line: &str) -> (r: Option<HttpHeader>)
        ensures
            r is Some <==> has_match(header_line.spec_bytes(), colon_space()),
            match r {
                Some(header) => {
                    let line = header_line.spec_bytes();
                    let at = first_match(line, colon_space());
                    &&& parse_header(line) == Some(header@)
                    &&& encode_utf8(header.name@) == line.subrange(0, at)
                    &&& encode_utf8(header.value@) == line.subrange(at + 2, line.len() as int)
                },
                None => parse_header(header_line.spec_bytes()) is None,
            },
    {
        proof {
            lemma_separator_texts();
        }
        let (name, rest) = cut(header_line, ": ");
        match rest {
            Some(value) => {
                proof {
                    lemma_text_of_bytes(name);
                    lemma_text_of_bytes(value);
                }
                Some(HttpHeader { name: name.to_owned(), value: value.to_owned() })
            },
            None => None,
        }
    }

    /// Tells whether the header keeps to its line: whether name and value
    /// are ASCII text without carriage return or line feed.
    pub fn is_well_formed(&self) -> (r: bool)
        ensures
            r == is_well_formed(self@),
    {
        is_field(self.name.as_str()) && is_field(self.value.as_str())
    }

    /// The header as it is written on a line: name, colon-space, value.
    pub fn to_string(&self) -> (r: String)
        ensures
            r@ == header_text(self@),
    {
        let mut out = self.name.clone();
        out.append(": ");
        out.append(self.value.as_str());
        out
    }
}

/// The headers that a run of lines holds, in order; lines that hold none
/// are passed over.
pub open spec fn parse_header_lines(lines: Seq<Seq<u8>>) -> Seq<(Seq<char>, Seq<char>)>
    decreases lines.len(),
{
    if lines.len() == 0 {
        seq![]
    } else {
        let rest = parse_header_lines(lines.drop_first());
        match parse_header(lines[0]) {
            Some(header) => seq![header] + rest,
            None => rest,
        }
    }
}

/// A run of headers as it is written in a message head: each on a line of
/// its own, each line ended by carriage return and line feed.
pub open spec fn header_lines_text(headers: Seq<(Seq<char>, Seq<char>)>) -> Seq<char>
    decreases headers.len(),
{
    if headers.len() == 0 {
        seq![]
    } else {
        header_lines_text(headers.drop_last()) + header_text(headers.last()) + "\r\n"@
    }
}

/// Reads the headers off the lines of `text`, which are parted by carriage
/// return and line feed; `None` stands for no lines at all.
pub fn read_header_lines(text: Option<&str>) -> (r: Vec<HttpHeader>)
    ensures
        header_views(r@) == parse_header_lines(
            match text {
                Some(t) => split(t.spec_bytes(), crlf()),
                None => seq![],
            },
        ),
{
    let mut headers: Vec<HttpHeader> = Vec::new();
    let mut remaining = text;
    let ghost all = match text {
        Some(t) => split(t.spec_bytes(), crlf()),
        None => seq![],
    };
    assert(header_views(headers@) =~= seq![]);
    loop
        invariant
            parse_header_lines(all) == header_views(headers@) + parse_header_lines(
                match remaining {
                    Some(t) => split(t.spec_bytes(), crlf()),
                    None => seq![],
                },
            ),
        ensures
            parse_header_lines(all) == header_views(headers@),
        decreases
            match remaining {
                Some(t) => t.spec_bytes().len() + 1,
                None => 0,
            },
    {
        match remaining {
            None => {
                break ;
            },
            Some(t) => {
                proof {
                    lemma_separator_texts();
                    lemma_split_unfold(t.spec_bytes(), crlf());
                    if has_match(t.spec_bytes(), crlf()) {
                        crate::text::lemma_first_match_exists(t.spec_bytes(), crlf());
                    }
                }
                let ghost lines = split(t.spec_bytes(), crlf());
                let ghost seen = header_views(headers@);
                let (line, rest) = cut(t, "\r\n");
                let ghost tail = match rest {
                    Some(t) => split(t.spec_bytes(), crlf()),
                    None => seq![],
                };
                assert(lines.drop_first() =~= tail);
                assert(lines[0] == line.spec_bytes());
                match HttpHeader::from(line) {
                    Some(header) => {
                        headers.push(header);
                        assert(header_views(headers@) =~= seen + seq![header@]);
                        assert(parse_header_lines(lines) == seq![header@] + parse_header_lines(
                            tail,
                        ));
                        assert(seen + (seq![header@] + parse_header_lines(tail)) =~= (seen
                            + seq![header@]) + parse_header_lines(tail));
                    },
                    None => {
                        assert(parse_header_lines(lines) == parse_header_lines(tail));
                    },
                }
                remaining = rest;
            },
        }
    }
    headers
}

/// Appends the lines of `headers` to `out`.
pub fn push_header_lines(out: &mut String, headers: &Vec<HttpHeader>)
    ensures
        final(out)@ == old(out)@ + header_lines_text(header_views(headers@)),
{
    let mut i: usize = 0;
    assert(header_views(headers@).subrange(0, 0) =~= seq![]);
    assert(out@ =~= old(out)@ + header_lines_text(seq![]));
    while i < headers.len()
        invariant
            i <= headers.len(),
            out@ == old(out)@ + header_lines_text(header_views(headers@).subrange(0, i as int)),
        decreases headers.len() - i,
    {
        let ghost views = header_views(headers@);
        let ghost seen = views.subrange(0, i + 1);
        assert(seen.drop_last() =~= views.subrange(0, i as int));
        assert(seen.last() == headers@[i as int]@);
        out.append(headers[i].name.as_str());
        out.append(": ");
        out.append(headers[i].value.as_str());
        out.append("\r\n");
        i = i + 1;
        assert(out@ =~= old(out)@ + header_lines_text(seen));
    }
    assert(header_views(headers@).subrange(0, i as int) =~= header_views(headers@));
}

/// Copies a run of headers.
pub fn clone_headers(headers: &Vec<HttpHeader>) -> (r: Vec<HttpHeader>)
    ensures
        header_views(r@) == header_views(headers@),
{
    let mut copy: Vec<HttpHeader> = Vec::new();
    let mut i: usize = 0;
    while i < headers.len()
        invariant
            i <= headers.len(),
            header_views(copy@) == header_views(headers@).subrange(0, i as int),
        decreases headers.len() - i,
    {
        let ghost copied = header_views(copy@);
        let header = headers[i].clone();
        copy.push(header);
        i = i + 1;
        assert(header_views(copy@) =~= copied.push(header@));
        assert(header_views(copy@) =~= header_views(headers@).subrange(0, i as int));
    }
    assert(header_views(copy@) =~= header_views(headers@));
    copy
}

/// A header that is written on a line and read back is the same header,
/// provided its name holds no colon-space: the line is then cut where the
/// name ends, whatever the value holds.
pub proof fn lemma_header_round_trip(name: Seq<char>, value: Seq<char>)
    requires
        !has_match(encode_utf8(name), colon_space()),
    ensures
        parse_header(encode_utf8(header_text((name, value)))) == Some((name, value)),
{
    let n = encode_utf8(name);
    let v = encode_utf8(value);
    let guard = n + colon_space().drop_last();
    lemma_separator_texts();
    crate::text::lemma_encode_concat(name, ": "@);
    crate::text::lemma_encode_concat(name + ": "@, value);
    if has_match(guard, colon_space()) {
        let i = choose|i: int| crate::text::matches_at(guard, colon_space(), i);
        crate::text::lemma_match_bytes(guard, colon_space(), i);
        assert(guard[i + 0] == 0x3au8);
        assert(guard[i + 1] == 0x20u8);
        assert(i + 1 < n.len());
        assert(guard[i + 0] == n[i + 0]);
        assert(guard[i + 1] == n[i + 1]);
        crate::text::lemma_match_bytes(n, colon_space(), i);
    }
    crate::text::lemma_cut_concat(n, colon_space(), v);
    encode_utf8_decode_utf8(name);
    encode_utf8_decode_utf8(value);
}

} // verus!
