//! Responses, and their wire form.

use crate::http_body::{body_view, HttpBody};
use crate::http_header::{
    all_well_formed, clone_headers, header_lines_text, header_views, is_field_char,
    is_field_text, is_well_formed, push_header_lines, HttpHeader,
};
use crate::http_version::HttpVersion;
use crate::decimal::{decimal_string, decimal_text, push_decimal};
use crate::text::{
    option_text,
    first_match, has_match, head_end, lemma_first_match_is, lemma_match_bytes, matches_at,
};
use vstd::prelude::*;
use vstd::string::*;
use vstd::utf8::*;

verus! {

/// A response as a handler or the server builds it.
#[derive(Debug)]
pub struct HttpResponse {
    status: u16,
    headers: Vec<HttpHeader>,
    version: HttpVersion,
    body: Option<HttpBody>,
}

/// What a response holds, as mathematical values.
pub ghost struct HttpResponseView {
    pub status: u16,
    /// The headers in the order in which they are written.
    pub headers: Seq<(Seq<char>, Seq<char>)>,
    pub version: HttpVersion,
    pub body: Option<Seq<u8>>,
}

impl View for HttpResponse {
    type V = HttpResponseView;

    closed spec fn view(&self) -> HttpResponseView {
        HttpResponseView {
            status: self.status,
            headers: header_views(self.headers@),
            version: self.version,
            body: body_view(self.body),
        }
    }
}

impl Clone for HttpResponse {
    fn clone(&self) -> (r: Self)
        ensures
            r@ == self@,
    {
        proof {
            use_type_invariant(self);
        }
        let headers = clone_headers(&self.headers);
        HttpResponse {
            status: self.status,
            headers,
            version: self.version,
            body: match &self.body {
                Some(body) => Some(body.clone()),
                None => None,
            },
        }
    }
}

/// The number of body bytes that a response with this body declares.
pub open spec fn body_length(body: Option<Seq<u8>>) -> nat {
    match body {
        Some(bytes) => bytes.len(),
        None => 0,
    }
}

/// The headers that every new response starts with: the server's name,
/// the time the response was built at where that time is known, and the
/// length of its body.
pub open spec fn baseline_headers(date: Option<Seq<char>>, body: Option<Seq<u8>>) -> Seq<
    (Seq<char>, Seq<char>),
> {
    seq![("Server"@, "Hyperion"@)] + (match date {
        Some(date) => seq![("Date"@, date)],
        None => seq![],
    }) + seq![("Content-Length"@, decimal_text(body_length(body)))]
}

/// The response that is built for `status` and `body` at the time that
/// `date` writes; without a date where the time is not known.
pub open spec fn fresh_response(status: u16, body: Option<Seq<u8>>, date: Option<Seq<char>>)
    -> HttpResponseView {
    HttpResponseView {
        status,
        headers: baseline_headers(date, body),
        version: HttpVersion::Http1_1,
        body,
    }
}

/// The date that a new response with these headers was stamped with: the
/// value of its second header where it has three, and none where it has
/// fewer.
pub open spec fn stamp_of(headers: Seq<(Seq<char>, Seq<char>)>) -> Option<Seq<char>> {
    if headers.len() >= 3 {
        Some(headers[1].1)
    } else {
        None
    }
}

/// The reason phrase that the status line shows for `status`. A status that
/// the table does not know is shown with the phrase of 500.
pub open spec fn reason_phrase(status: u16) -> Seq<char> {
    if status == 200 {
        "OK"@
    } else if status == 201 {
        "Created"@
    } else if status == 204 {
        "No Content"@
    } else if status == 205 {
        "Reset Content"@
    } else if status == 301 {
        "Moved Permanently"@
    } else if status == 304 {
        "Not Modified"@
    } else if status == 307 {
        "Temporary Redirect"@
    } else if status == 400 {
        "Bad Request"@
    } else if status == 401 {
        "Unauthorized"@
    } else if status == 403 {
        "Forbidden"@
    } else if status == 404 {
        "Not Found"@
    } else if status == 405 {
        "Method Not Allowed"@
    } else if status == 418 {
        "I'm a teapot"@
    } else if status == 429 {
        "Too Many Requests"@
    } else if status == 501 {
        "Not Implemented"@
    } else if status == 502 {
        "Bad Gateway"@
    } else if status == 503 {
        "Service Unavailable"@
    } else {
        "Internal Server Error"@
    }
}

/// The head of a response as text: the status line, one line per header,
/// and an empty line; every line ends in carriage return and line feed.
pub open spec fn response_head_text(response: HttpResponseView) -> Seq<char> {
    "HTTP/"@ + response.version.text() + " "@ + decimal_text(response.status as nat) + " "@
        + reason_phrase(response.status) + "\r\n"@ + header_lines_text(response.headers) + "\r\n"@
}

/// A response as it goes onto the wire: the head in UTF-8, then the bytes
/// of the body as they are.
pub open spec fn response_bytes(response: HttpResponseView) -> Seq<u8> {
    encode_utf8(response_head_text(response)) + match response.body {
        Some(bytes) => bytes,
        None => seq![],
    }
}

/// A character that an RFC 3339 time stamp in UTC is written with.
pub open spec fn is_timestamp_char(c: char) -> bool {
    ||| '0' <= c <= '9'
    ||| c == '-'
    ||| c == ':'
    ||| c == '.'
    ||| c == '+'
    ||| c == 'T'
}

/// `text` is written with the characters of a time stamp only.
pub open spec fn is_timestamp_text(text: Seq<char>) -> bool {
    forall|i: int| 0 <= i < text.len() ==> is_timestamp_char(#[trigger] text[i])
}

/// A date that may be missing is written with the characters of a time
/// stamp only.
pub open spec fn is_stamp(date: Option<Seq<char>>) -> bool {
    date matches Some(text) ==> is_timestamp_text(text)
}

/// `std::time::SystemTime::elapsed` on `UNIX_EPOCH`: the time that has
/// passed since the start of 1970 by the system clock, as whole seconds and
/// the nanoseconds beyond them; `None` where the clock stands before 1970.
/// Which time comes back depends on the clock, so nothing is claimed of it.
#[verifier::external_body]
fn time_since_epoch() -> (r: Option<(u64, u32)>) {
    let passed = std::time::UNIX_EPOCH.elapsed().ok()?;
    Some((passed.as_secs(), passed.subsec_nanos()))
}

/// The date and time that the calendar gives for a point in time, written
/// as RFC 3339 writes it for UTC; `None` for a point in time that chrono's
/// calendar does not reach.
pub uninterp spec fn rfc3339_text(seconds: int, nanoseconds: int) -> Option<Seq<char>>;

/// chrono's `DateTime::<Utc>::from_timestamp`, and on the date it gives
/// `to_rfc3339`: the result is the text named `rfc3339_text`, and there is
/// none where `from_timestamp` gives no date. The text is written with
/// digits, `-`, `:`, `.`, `+` and `T` only.
#[verifier::external_body]
fn rfc3339_stamp(seconds: i64, nanoseconds: u32) -> (r: Option<String>)
    ensures
        option_text(r) == rfc3339_text(seconds as int, nanoseconds as int),
        r matches Some(text) ==> is_timestamp_text(text@),
{
    let time = chrono::DateTime::<chrono::Utc>::from_timestamp(seconds, nanoseconds)?;
    Some(time.to_rfc3339())
}

/// The date that a response built `seconds` and `nanoseconds` after the
/// start of 1970 is stamped with; none where the calendar does not reach
/// that time.
pub open spec fn date_at(seconds: u64, nanoseconds: u32) -> Option<Seq<char>> {
    if seconds <= i64::MAX {
        rfc3339_text(seconds as int, nanoseconds as int)
    } else {
        None
    }
}

impl HttpResponse {
    #[verifier::type_invariant]
    spec fn speaks_the_default_version(&self) -> bool {
        self.version == HttpVersion::Http1_1
    }

    /// A response with `status` and `body`, stamped with the current time.
    /// It starts with the baseline headers and speaks version 1.1. Where
    /// the clock cannot be read, or stands at a time that the calendar does
    /// not reach, the response carries no date.
    pub fn new(status: u16, body: Option<HttpBody>) -> (r: HttpResponse)
        ensures
            r@ == fresh_response(status, body_view(body), stamp_of(r@.headers)),
            is_stamp(stamp_of(r@.headers)),
            all_well_formed(r@.headers),
    {
        match time_since_epoch() {
            Some((seconds, nanoseconds)) => HttpResponse::at(status, body, seconds, nanoseconds),
            None => {
                proof {
                    lemma_baseline_headers_are_well_formed(None, body_view(body));
                }
                HttpResponse::with_date(status, body, None)
            },
        }
    }

    /// A response with `status` and `body` that is built `seconds` and
    /// `nanoseconds` after the start of 1970: it is stamped with the date
    /// that the calendar gives for that time, and carries no date where
    /// the calendar does not reach it.
    pub fn at(status: u16, body: Option<HttpBody>, seconds: u64, nanoseconds: u32) -> (r:
        HttpResponse)
        ensures
            r@ == fresh_response(status, body_view(body), date_at(seconds, nanoseconds)),
            stamp_of(r@.headers) == date_at(seconds, nanoseconds),
            is_stamp(date_at(seconds, nanoseconds)),
            all_well_formed(r@.headers),
    {
        let date = if seconds <= i64::MAX as u64 {
            rfc3339_stamp(seconds as i64, nanoseconds)
        } else {
            None
        };
        proof {
            lemma_baseline_headers_are_well_formed(option_text(date), body_view(body));
        }
        HttpResponse::with_date(status, body, date)
    }

    /// A response with `status` and `body` that is stamped with `date`, or
    /// carries no date where there is none.
    pub fn with_date(status: u16, body: Option<HttpBody>, date: Option<String>) -> (r:
        HttpResponse)
        ensures
            r@ == fresh_response(status, body_view(body), option_text(date)),
            stamp_of(r@.headers) == option_text(date),
    {
        let length: usize = match &body {
            Some(body) => body.len(),
            None => 0,
        };
        let mut headers: Vec<HttpHeader> = Vec::new();
        headers.push(HttpHeader::new("Server".to_owned(), "Hyperion".to_owned()));
        match date {
            Some(date) => {
                headers.push(HttpHeader::new("Date".to_owned(), date));
            },
            None => {},
        }
        headers.push(HttpHeader::new("Content-Length".to_owned(), decimal_string(length)));
        assert(header_views(headers@) =~= baseline_headers(option_text(date), body_view(body)));
        HttpResponse { status, headers, version: HttpVersion::Http1_1, body }
    }

    /// The reason phrase that goes with `status_code` on the status line.
    pub fn get_status_text(status_code: u16) -> (r: &'static str)
        ensures
            r@ == reason_phrase(status_code),
    {
        match status_code {
            200 => "OK",
            201 => "Created",
            204 => "No Content",
            205 => "Reset Content",
            301 => "Moved Permanently",
            304 => "Not Modified",
            307 => "Temporary Redirect",
            400 => "Bad Request",
            401 => "Unauthorized",
            403 => "Forbidden",
            404 => "Not Found",
            405 => "Method Not Allowed",
            418 => "I'm a teapot",
            429 => "Too Many Requests",
            501 => "Not Implemented",
            502 => "Bad Gateway",
            503 => "Service Unavailable",
            _ => "Internal Server Error",
        }
    }

    /// The status code.
    pub fn status(&self) -> (r: u16)
        ensures
            r == self@.status,
    {
        self.status
    }

    /// The headers in the order in which they are written.
    pub fn headers(&self) -> (r: &Vec<HttpHeader>)
        ensures
            header_views(r@) == self@.headers,
    {
        &self.headers
    }

    /// The protocol version of the status line: always 1.1, the server's
    /// default.
    pub fn version(&self) -> (r: HttpVersion)
        ensures
            r == self@.version,
            r == HttpVersion::Http1_1,
    {
        proof {
            use_type_invariant(self);
        }
        self.version
    }

    /// The body, if the response has one.
    pub fn body(&self) -> (r: Option<&HttpBody>)
        ensures
            match r {
                Some(body) => self@.body == Some(body@),
                None => self@.body is None,
            },
    {
        self.body.as_ref()
    }

    /// Adds `header` after the headers that are already there.
    pub fn add_header(&mut self, header: HttpHeader)
        ensures
            final(self)@ == (HttpResponseView {
                headers: old(self)@.headers.push(header@),
                ..old(self)@
            }),
    {
        proof {
            use_type_invariant(&*self);
        }
        let ghost before = header_views(self.headers@);
        let mut headers: Vec<HttpHeader> = Vec::new();
        std::mem::swap(&mut self.headers, &mut headers);
        headers.push(header);
        self.headers = headers;
        assert(header_views(self.headers@) =~= before.push(header@));
    }

    /// The head of the response as text: status line, headers, empty line.
    pub fn to_string(&self) -> (r: String)
        ensures
            r@ == response_head_text(self@),
            self@.version == HttpVersion::Http1_1,
    {
        proof {
            use_type_invariant(self);
        }
        let mut out = String::new();
        out.append("HTTP/");
        out.append(self.version.as_str());
        out.append(" ");
        push_decimal(&mut out, self.status as usize);
        out.append(" ");
        out.append(HttpResponse::get_status_text(self.status));
        out.append("\r\n");
        push_header_lines(&mut out, &self.headers);
        out.append("\r\n");
        assert(out@ =~= response_head_text(self@));
        out
    }

    /// The response as it goes onto the wire.
    pub fn as_bytes(&self) -> (r: Vec<u8>)
        ensures
            r@ == response_bytes(self@),
            self@.version == HttpVersion::Http1_1,
    {
        let head = self.to_string();
        let mut response = head.as_str().as_bytes_vec();
        if let Some(body) = &self.body {
            let mut bytes = body.as_bytes();
            response.append(&mut bytes);
        }
        assert(response@ =~= response_bytes(self@));
        response
    }
}

/// The status line of a response, without the end of the line.
pub open spec fn status_line_text(response: HttpResponseView) -> Seq<char> {
    "HTTP/"@ + response.version.text() + " "@ + decimal_text(response.status as nat) + " "@
        + reason_phrase(response.status)
}

/// Text that is made of whole lines none of which is empty: it is ASCII, it
/// ends with the end of a line unless it is empty, and no end of a line is
/// followed by a carriage return.
spec fn is_whole_lines(text: Seq<char>) -> bool {
    &&& is_ascii_chars(text)
    &&& text.len() == 0 || (text.len() >= 2 && text[text.len() - 2] == '\r' && text[text.len()
        - 1] == '\n')
    &&& forall|i: int|
        0 <= i && i + 2 < text.len() ==> !(#[trigger] text[i] == '\r' && text[i + 1] == '\n'
            && text[i + 2] == '\r')
}

proof fn lemma_add_line(text: Seq<char>, line: Seq<char>)
    requires
        is_whole_lines(text),
        is_field_text(line),
        line.len() > 0,
    ensures
        is_whole_lines(text + line + "\r\n"@),
{
    reveal_strlit("\r\n");
    let end = "\r\n"@;
    let more = text + line + end;
    assert(end.len() == 2 && end[0] == '\r' && end[1] == '\n');
    assert forall|i: int| 0 <= i < more.len() implies '\0' <= #[trigger] more[i] <= '\u{7f}' by {
        if i < text.len() {
            assert(more[i] == text[i]);
        } else if i < text.len() + line.len() {
            assert(more[i] == line[i - text.len()]);
            assert(is_field_char(line[i - text.len()]));
        } else {
            assert(more[i] == end[i - text.len() - line.len()]);
        }
    }
    assert forall|i: int| 0 <= i && i + 2 < more.len() implies !(#[trigger] more[i] == '\r'
        && more[i + 1] == '\n' && more[i + 2] == '\r') by {
        let k = i + 2;
        if k < text.len() {
            assert(more[i] == text[i] && more[i + 1] == text[i + 1] && more[k] == text[k]);
        } else if k < text.len() + line.len() {
            assert(more[k] == line[k - text.len()]);
            assert(is_field_char(line[k - text.len()]));
        } else if k == text.len() + line.len() {
            if i >= text.len() {
                assert(more[i] == line[i - text.len()]);
                assert(is_field_char(line[i - text.len()]));
            } else {
                assert(i == text.len() - 1);
                assert(more[i] == text[i]);
            }
        } else {
            assert(more[k] == end[1]);
        }
    }
}

proof fn lemma_add_header_lines(text: Seq<char>, headers: Seq<(Seq<char>, Seq<char>)>)
    requires
        is_whole_lines(text),
        all_well_formed(headers),
    ensures
        is_whole_lines(text + header_lines_text(headers)),
    decreases headers.len(),
{
    if headers.len() == 0 {
        assert(text + header_lines_text(headers) =~= text);
    } else {
        let first = headers.drop_last();
        let last = headers.last();
        assert forall|i: int| 0 <= i < first.len() implies is_well_formed(#[trigger] first[i]) by {
            assert(first[i] == headers[i]);
        }
        lemma_add_header_lines(text, first);
        let line = crate::http_header::header_text(last);
        reveal_strlit(": ");
        assert(is_well_formed(last));
        assert forall|i: int| 0 <= i < line.len() implies is_field_char(#[trigger] line[i]) by {
            if i < last.0.len() {
                assert(line[i] == last.0[i]);
            } else if i < last.0.len() + 2 {
                assert(line[i] == ": "@[i - last.0.len()]);
            } else {
                assert(line[i] == last.1[i - last.0.len() - 2]);
            }
        }
        lemma_add_line(text + header_lines_text(first), line);
        assert(text + header_lines_text(headers) =~= text + header_lines_text(first) + line
            + "\r\n"@);
    }
}

proof fn lemma_decimal_is_field_text(n: nat)
    ensures
        is_field_text(decimal_text(n)),
        decimal_text(n).len() > 0,
    decreases n,
{
    if n >= 10 {
        lemma_decimal_is_field_text(n / 10);
        let front = decimal_text(n / 10);
        let all = decimal_text(n);
        assert forall|i: int| 0 <= i < all.len() implies is_field_char(#[trigger] all[i]) by {
            if i < front.len() {
                assert(all[i] == front[i]);
            }
        }
    }
}

proof fn lemma_field_text_concat(a: Seq<char>, b: Seq<char>)
    requires
        is_field_text(a),
        is_field_text(b),
    ensures
        is_field_text(a + b),
{
    assert forall|i: int| 0 <= i < (a + b).len() implies is_field_char(#[trigger] (a + b)[i]) by {
        if i < a.len() {
            assert((a + b)[i] == a[i]);
        } else {
            assert((a + b)[i] == b[i - a.len()]);
        }
    }
}

proof fn lemma_reason_is_field_text(status: u16)
    ensures
        is_field_text(reason_phrase(status)),
{
    reveal_strlit("OK");
    reveal_strlit("Created");
    reveal_strlit("No Content");
    reveal_strlit("Reset Content");
    reveal_strlit("Moved Permanently");
    reveal_strlit("Not Modified");
    reveal_strlit("Temporary Redirect");
    reveal_strlit("Bad Request");
    reveal_strlit("Unauthorized");
    reveal_strlit("Forbidden");
    reveal_strlit("Not Found");
    reveal_strlit("Method Not Allowed");
    reveal_strlit("I'm a teapot");
    reveal_strlit("Too Many Requests");
    reveal_strlit("Not Implemented");
    reveal_strlit("Bad Gateway");
    reveal_strlit("Service Unavailable");
    reveal_strlit("Internal Server Error");
}

proof fn lemma_status_line_is_field_text(response: HttpResponseView)
    ensures
        is_field_text(status_line_text(response)),
        status_line_text(response).len() > 0,
{
    reveal_strlit("HTTP/");
    reveal_strlit(" ");
    reveal_strlit("1.0");
    reveal_strlit("1.1");
    lemma_decimal_is_field_text(response.status as nat);
    lemma_reason_is_field_text(response.status);
    let a = "HTTP/"@ + response.version.text();
    let b = a + " "@;
    let c = b + decimal_text(response.status as nat);
    let d = c + " "@;
    assert(is_field_text("HTTP/"@));
    assert(is_field_text(" "@));
    assert(is_field_text(response.version.text()));
    lemma_field_text_concat("HTTP/"@, response.version.text());
    lemma_field_text_concat(a, " "@);
    lemma_field_text_concat(b, decimal_text(response.status as nat));
    lemma_field_text_concat(c, " "@);
    lemma_field_text_concat(d, reason_phrase(response.status));
}

/// The head of a written response ends at the first empty line: when every
/// header of the response keeps to its line, the four bytes that end a head
/// are found in the written response for the first time where its head
/// ends, and the body, whatever it holds, begins right behind them.
pub proof fn lemma_head_is_framed(response: HttpResponseView)
    requires
        all_well_formed(response.headers),
    ensures
        has_match(response_bytes(response), head_end()),
        first_match(response_bytes(response), head_end()) + 4 == encode_utf8(
            response_head_text(response),
        ).len(),
{
    let end = "\r\n"@;
    reveal_strlit("\r\n");
    let lines = status_line_text(response) + end + header_lines_text(response.headers);
    let head = response_head_text(response);
    let body = match response.body {
        Some(bytes) => bytes,
        None => seq![],
    };
    assert(head == lines + end);
    lemma_status_line_is_field_text(response);
    assert(is_whole_lines(Seq::<char>::empty()));
    lemma_add_line(Seq::<char>::empty(), status_line_text(response));
    assert(Seq::<char>::empty() + status_line_text(response) + end =~= status_line_text(response)
        + end);
    lemma_add_header_lines(status_line_text(response) + end, response.headers);
    assert(is_whole_lines(lines));
    assert(is_ascii_chars(head)) by {
        assert forall|i: int| 0 <= i < head.len() implies '\0' <= #[trigger] head[i]
            <= '\u{7f}' by {
            if i < lines.len() {
                assert(head[i] == lines[i]);
            } else {
                assert(head[i] == end[i - lines.len()]);
            }
        }
    }
    is_ascii_chars_encode_utf8(head);
    let wire = encode_utf8(head);
    let all = response_bytes(response);
    assert(all == wire + body);
    let at = lines.len() - 2;
    assert forall|k: int| 0 <= k < wire.len() implies #[trigger] all[k] == head[k] as u8 by {
        assert(all[k] == wire[k]);
    }
    assert(head[at] == lines[at] && head[at + 1] == lines[at + 1]);
    assert(head[at + 2] == end[0] && head[at + 3] == end[1]);
    assert(matches_at(all, head_end(), at)) by {
        lemma_match_bytes(all, head_end(), at);
        assert forall|k: int| 0 <= k < head_end().len() implies #[trigger] all[at + k]
            == head_end()[k] by {
            assert(all[at + k] == head[at + k] as u8);
        }
    }
    assert forall|j: int| 0 <= j < at implies !matches_at(all, head_end(), j) by {
        if matches_at(all, head_end(), j) {
            lemma_match_bytes(all, head_end(), j);
            assert(all[j + 0] == 0x0du8);
            assert(all[j + 1] == 0x0au8);
            assert(all[j + 2] == 0x0du8);
            assert(all[j + 0] == head[j] as u8);
            assert(all[j + 1] == head[j + 1] as u8);
            assert(all[j + 2] == head[j + 2] as u8);
            assert(head[j] == lines[j] && head[j + 1] == lines[j + 1] && head[j + 2] == lines[j
                + 2]);
            assert(lines[j] == '\r' && lines[j + 1] == '\n' && lines[j + 2] == '\r');
        }
    }
    lemma_first_match_is(all, head_end(), at);
}

/// The headers that a new response starts with keep to their lines, as long
/// as the date, where there is one, is written with the characters of a
/// time stamp.
pub proof fn lemma_baseline_headers_are_well_formed(
    date: Option<Seq<char>>,
    body: Option<Seq<u8>>,
)
    requires
        is_stamp(date),
    ensures
        all_well_formed(baseline_headers(date, body)),
{
    reveal_strlit("Server");
    reveal_strlit("Hyperion");
    reveal_strlit("Date");
    reveal_strlit("Content-Length");
    lemma_decimal_is_field_text(body_length(body));
    let headers = baseline_headers(date, body);
    assert(is_well_formed(("Server"@, "Hyperion"@)));
    assert(is_well_formed(("Content-Length"@, decimal_text(body_length(body)))));
    match date {
        Some(text) => {
            assert forall|i: int| 0 <= i < text.len() implies is_field_char(#[trigger] text[i]) by {
                assert(is_timestamp_char(text[i]));
            }
            assert(is_well_formed(("Date"@, text)));
            assert(headers =~= seq![
                ("Server"@, "Hyperion"@),
                ("Date"@, text),
                ("Content-Length"@, decimal_text(body_length(body))),
            ]);
        },
        None => {
            assert(headers =~= seq![
                ("Server"@, "Hyperion"@),
                ("Content-Length"@, decimal_text(body_length(body))),
            ]);
        },
    }
}

} // verus!
