//! Requests, and the parser that reads a request's head.

use crate::http_body::{body_view, HttpBody};
use crate::http_cookie::{parse_cookie, HttpCookie, HttpCookieView};
use crate::http_error::HttpError;
use crate::http_header::{
    clone_headers, find_header, header_lines_text, header_views, parse_header_lines,
    push_header_lines, read_header_lines, HttpHeader,
};
use crate::http_method::{method_not_allowed, uppercase_text, HttpMethod};
use crate::http_version::HttpVersion;
use crate::decimal::{decimal_value, parse_decimal};
use crate::text::{
    after, before, crlf, cut, first_match, has_match, lemma_cut_concat, lemma_encode_concat,
    lemma_match_bytes, lemma_match_in_part, lemma_separator_texts, lemma_split_unfold,
    lemma_text_of_bytes, matches_at, option_text, space, split, text_eq, text_of, utf8_text,
};
use vstd::prelude::*;
use vstd::string::*;
use vstd::utf8::*;

verus! {

/// A request as the server holds it after reading its head.
#[derive(Debug)]
pub struct HttpRequest {
    version: HttpVersion,
    method: HttpMethod,
    headers: Vec<HttpHeader>,
    path: String,
    body: Option<HttpBody>,
}

/// What a request holds, as mathematical values.
pub ghost struct HttpRequestView {
    pub version: HttpVersion,
    pub method: HttpMethod,
    /// The headers in the order in which they stood on the wire.
    pub headers: Seq<(Seq<char>, Seq<char>)>,
    /// The request target as it was received, query string included.
    pub path: Seq<char>,
    pub body: Option<Seq<u8>>,
}

impl View for HttpRequest {
    type V = HttpRequestView;

    closed spec fn view(&self) -> HttpRequestView {
        HttpRequestView {
            version: self.version,
            method: self.method,
            headers: header_views(self.headers@),
            path: self.path@,
            body: body_view(self.body),
        }
    }
}

/// The message of the error for a head that is not well-formed UTF-8.
pub open spec fn invalid_encoding() -> Seq<char> {
    "Invalid UTF-8 Sequence in headers"@
}

/// The message of the error for a request line without a second token.
pub open spec fn invalid_path() -> Seq<char> {
    "Invalid Path"@
}

/// The message of the error for a request line without a third token.
pub open spec fn invalid_version() -> Seq<char> {
    "Invalid HTTP Version"@
}

/// The first token of the first line of a head: the one that names the
/// method.
pub open spec fn method_token(head: Seq<u8>) -> Seq<u8> {
    split(split(head, crlf())[0], space())[0]
}

/// The request that a head holds when its method token, put into upper
/// case, reads `upper`; or the message of the error the head is rejected
/// with.
///
/// The head must be well-formed UTF-8. Its lines are parted by carriage
/// return and line feed. The first line is cut at single spaces: the first
/// token names the method, the second is the path and the third gives the
/// version; further tokens are not looked at. Every other line gives a
/// header, or nothing.
pub open spec fn parse_request_as(head: Seq<u8>, upper: Seq<char>) -> Result<
    HttpRequestView,
    Seq<char>,
> {
    let lines = split(head, crlf());
    let tokens = split(lines[0], space());
    if !valid_utf8(head) {
        Err(invalid_encoding())
    } else if HttpMethod::of_upper(upper) is None {
        Err(method_not_allowed())
    } else if tokens.len() < 2 {
        Err(invalid_path())
    } else if tokens.len() < 3 {
        Err(invalid_version())
    } else {
        Ok(
            HttpRequestView {
                version: HttpVersion::of_token(tokens[2]),
                method: HttpMethod::of_upper(upper)->0,
                headers: parse_header_lines(lines.skip(1)),
                path: text_of(tokens[1]),
                body: None,
            },
        )
    }
}

/// The request that a head holds, or the message of the error it is
/// rejected with: see [`parse_request_as`]. The method token is read
/// without regard to the case of its letters.
pub open spec fn parse_request(head: Seq<u8>) -> Result<HttpRequestView, Seq<char>> {
    parse_request_as(head, uppercase_text(text_of(method_token(head))))
}

/// The body length that `headers` declare: the value of the first
/// `Content-Length` header, where it writes a non-negative integer that a
/// `usize` can hold.
pub open spec fn declared_length(headers: Seq<(Seq<char>, Seq<char>)>) -> Option<nat> {
    match find_header(headers, "Content-Length"@) {
        Some(header) => match decimal_value(encode_utf8(header.1)) {
            Some(n) => if n <= usize::MAX {
                Some(n)
            } else {
                None
            },
            None => None,
        },
        None => None,
    }
}

/// Whether `headers` ask to keep the connection open: the value of the
/// first `Connection` header is `keep-alive`, letter for letter.
pub open spec fn asks_keep_alive(headers: Seq<(Seq<char>, Seq<char>)>) -> bool {
    find_header(headers, "Connection"@) matches Some(header) && header.1 == "keep-alive"@
}

/// The value of the first `Content-Type` header among `headers`.
pub open spec fn content_type(headers: Seq<(Seq<char>, Seq<char>)>) -> Option<Seq<char>> {
    match find_header(headers, "Content-Type"@) {
        Some(header) => Some(header.1),
        None => None,
    }
}

/// How Rust's `Debug` formatting writes a text that may be absent.
pub uninterp spec fn debug_text(value: Option<Seq<char>>) -> Seq<char>;

/// `format!` with `{:?}` on an `Option<String>`: the result is the text
/// named `debug_text`.
#[verifier::external_body]
fn debug_string(value: &Option<String>) -> (r: String)
    ensures
        r@ == debug_text(option_text(*value)),
{
    format!("{:?}", value)
}

/// What a request shows of its body: the body as text where it is
/// well-formed UTF-8, and else the content type in `Debug` form.
pub open spec fn body_text(request: HttpRequestView) -> Seq<char> {
    match request.body {
        None => seq![],
        Some(bytes) => if valid_utf8(bytes) {
            text_of(bytes)
        } else {
            debug_text(content_type(request.headers))
        },
    }
}

/// The first line of a request: method, path and version, parted by single
/// spaces.
pub open spec fn request_line_text(method: HttpMethod, path: Seq<char>, version: HttpVersion)
    -> Seq<char> {
    method.name() + " "@ + path + " HTTP/"@ + version.text()
}

/// The head of a request as text: the request line, one line per header,
/// and an empty line; every line ends in carriage return and line feed.
pub open spec fn request_head_text(request: HttpRequestView) -> Seq<char> {
    request_line_text(request.method, request.path, request.version) + "\r\n"@
        + header_lines_text(request.headers) + "\r\n"@
}

/// A request as text: its head, and what the request shows of its body.
pub open spec fn request_text(request: HttpRequestView) -> Seq<char> {
    request_head_text(request) + body_text(request)
}

/// The cookie that a header carries, with no attributes.
pub open spec fn cookie_of(header: (Seq<char>, Seq<char>)) -> HttpCookieView {
    let (name, value) = parse_cookie(encode_utf8(header.1));
    HttpCookieView {
        name,
        value,
        secure: false,
        domain: None,
        path: None,
        expires: None,
        same_site: None,
    }
}

/// The cookies that the headers named `Cookie` carry, one per header, in
/// the order of the headers.
pub open spec fn cookies_of(headers: Seq<(Seq<char>, Seq<char>)>) -> Seq<HttpCookieView>
    decreases headers.len(),
{
    if headers.len() == 0 {
        seq![]
    } else if headers.last().0 == "Cookie"@ {
        cookies_of(headers.drop_last()).push(cookie_of(headers.last()))
    } else {
        cookies_of(headers.drop_last())
    }
}

/// The first of `cookies` that is named `name`.
pub open spec fn find_cookie(cookies: Seq<HttpCookieView>, name: Seq<char>) -> Option<
    HttpCookieView,
>
    decreases cookies.len(),
{
    if cookies.len() == 0 {
        None
    } else if cookies[0].name == name {
        Some(cookies[0])
    } else {
        find_cookie(cookies.drop_first(), name)
    }
}

/// The views of a run of cookies.
pub open spec fn cookie_views(cookies: Seq<HttpCookie>) -> Seq<HttpCookieView> {
    Seq::new(cookies.len(), |i: int| cookies[i]@)
}

impl Clone for HttpRequest {
    fn clone(&self) -> (r: Self)
        ensures
            r@ == self@,
    {
        HttpRequest {
            version: self.version,
            method: self.method,
            headers: clone_headers(&self.headers),
            path: self.path.clone(),
            body: match &self.body {
                Some(body) => Some(body.clone()),
                None => None,
            },
        }
    }
}

impl HttpRequest {
    /// Reads a request off the bytes of its head. See [`parse_request`] for
    /// what is accepted; a rejected head gives a bad-request error with the
    /// message that names the fault.
    pub fn new(request_bytes: Vec<u8>) -> (r: Result<HttpRequest, HttpError>)
        ensures
            match r {
                Ok(request) => parse_request(request_bytes@) == Ok::<HttpRequestView, Seq<char>>(
                    request@,
                ),
                Err(error) => {
                    &&& error matches HttpError::BadRequest { message }
                    &&& parse_request(request_bytes@) == Err::<HttpRequestView, Seq<char>>(
                        message@,
                    )
                },
            },
    {
        HttpRequest::read(request_bytes, None)
    }

    /// Reads a request off the bytes of its head, taking `upper` for the
    /// upper-case form of the method token. See [`parse_request_as`].
    pub fn with_method_text(request_bytes: Vec<u8>, upper: &str) -> (r: Result<
        HttpRequest,
        HttpError,
    >)
        ensures
            match r {
                Ok(request) => parse_request_as(request_bytes@, upper@) == Ok::<
                    HttpRequestView,
                    Seq<char>,
                >(request@),
                Err(error) => {
                    &&& error matches HttpError::BadRequest { message }
                    &&& parse_request_as(request_bytes@, upper@) == Err::<
                        HttpRequestView,
                        Seq<char>,
                    >(message@)
                },
            },
    {
        HttpRequest::read(request_bytes, Some(upper))
    }

    /// Reads a request off the bytes of its head. The method is read off
    /// `upper` where that is given, and off the method token where not.
    fn read(request_bytes: Vec<u8>, upper: Option<&str>) -> (r: Result<HttpRequest, HttpError>)
        ensures
            ({
                let expected = match upper {
                    Some(text) => parse_request_as(request_bytes@, text@),
                    None => parse_request(request_bytes@),
                };
                match r {
                    Ok(request) => expected == Ok::<HttpRequestView, Seq<char>>(request@),
                    Err(error) => {
                        &&& error matches HttpError::BadRequest { message }
                        &&& expected == Err::<HttpRequestView, Seq<char>>(message@)
                    },
                }
            }),
    {
        let head = match utf8_text(request_bytes.as_slice()) {
            Some(text) => text,
            None => {
                return Err(HttpError::bad_request("Invalid UTF-8 Sequence in headers"));
            },
        };
        proof {
            lemma_separator_texts();
            lemma_split_unfold(head.spec_bytes(), crlf());
        }
        let (request_line, header_block) = cut(head, "\r\n");
        proof {
            lemma_split_unfold(request_line.spec_bytes(), space());
        }
        let (method_token, after_method) = cut(request_line, " ");
        proof {
            lemma_text_of_bytes(method_token);
        }
        let read_method = match upper {
            Some(text) => HttpMethod::from_upper(text),
            None => HttpMethod::new(method_token),
        };
        let method = match read_method {
            Ok(method) => method,
            Err(error) => {
                return Err(error);
            },
        };
        let after_method = match after_method {
            Some(text) => text,
            None => {
                return Err(HttpError::bad_request("Invalid Path"));
            },
        };
        proof {
            lemma_split_unfold(after_method.spec_bytes(), space());
        }
        let (path_token, after_path) = cut(after_method, " ");
        let after_path = match after_path {
            Some(text) => text,
            None => {
                return Err(HttpError::bad_request("Invalid HTTP Version"));
            },
        };
        proof {
            lemma_split_unfold(after_path.spec_bytes(), space());
            lemma_text_of_bytes(path_token);
        }
        let (version_token, _) = cut(after_path, " ");
        let version = HttpVersion::from_token(version_token);
        let headers = read_header_lines(header_block);
        Ok(HttpRequest { version, method, headers, path: path_token.to_owned(), body: None })
    }

    /// The protocol version the request asked for.
    pub fn version(&self) -> (r: HttpVersion)
        ensures
            r == self@.version,
    {
        self.version
    }

    /// The request's method.
    pub fn method(&self) -> (r: HttpMethod)
        ensures
            r == self@.method,
    {
        self.method
    }

    /// The request target as it was received.
    pub fn path(&self) -> (r: &str)
        ensures
            r@ == self@.path,
    {
        self.path.as_str()
    }

    /// The headers in wire order.
    pub fn headers(&self) -> (r: &Vec<HttpHeader>)
        ensures
            header_views(r@) == self@.headers,
    {
        &self.headers
    }

    /// The body, once one has been attached.
    pub fn body(&self) -> (r: Option<&HttpBody>)
        ensures
            match r {
                Some(body) => self@.body == Some(body@),
                None => self@.body is None,
            },
    {
        self.body.as_ref()
    }

    /// Attaches `body` to the request, in place of any earlier one.
    pub fn set_body(&mut self, body: HttpBody)
        ensures
            final(self)@ == (HttpRequestView { body: Some(body@), ..old(self)@ }),
    {
        self.body = Some(body);
    }

    /// The first header named `name`, letter for letter.
    pub fn get_header(&self, name: &str) -> (r: Option<&HttpHeader>)
        ensures
            match r {
                Some(header) => find_header(self@.headers, name@) == Some(header@),
                None => find_header(self@.headers, name@) is None,
            },
    {
        let ghost views = header_views(self.headers@);
        let mut i: usize = 0;
        assert(views.skip(0) =~= views);
        while i < self.headers.len()
            invariant
                i <= self.headers.len(),
                views == header_views(self.headers@),
                find_header(views, name@) == find_header(views.skip(i as int), name@),
            decreases self.headers.len() - i,
        {
            let ghost rest = views.skip(i as int);
            assert(rest[0] == self.headers@[i as int]@);
            assert(rest.drop_first() =~= views.skip(i + 1));
            if text_eq(self.headers[i].name.as_str(), name) {
                return Some(&self.headers[i]);
            }
            i = i + 1;
        }
        None
    }

    /// The body length that the request declares, if it declares one.
    pub fn get_content_length(&self) -> (r: Option<usize>)
        ensures
            match r {
                Some(n) => declared_length(self@.headers) == Some(n as nat),
                None => declared_length(self@.headers) is None,
            },
    {
        match self.get_header("Content-Length") {
            Some(header) => parse_decimal(header.value.as_str().as_bytes()),
            None => None,
        }
    }

    /// Whether the request asks to keep the connection open after the
    /// response.
    pub fn keep_alive(&self) -> (r: bool)
        ensures
            r == asks_keep_alive(self@.headers),
    {
        match self.get_header("Connection") {
            Some(header) => text_eq(header.value.as_str(), "keep-alive"),
            None => false,
        }
    }

    /// The value of the first `Content-Type` header.
    pub fn get_content_type(&self) -> (r: Option<String>)
        ensures
            option_text(r) == content_type(self@.headers),
    {
        match self.get_header("Content-Type") {
            Some(header) => Some(header.value.clone()),
            None => None,
        }
    }

    /// The cookies of the request: one for each header named `Cookie`.
    pub fn get_cookies(&self) -> (r: Vec<HttpCookie>)
        ensures
            cookie_views(r@) == cookies_of(self@.headers),
    {
        let ghost views = header_views(self.headers@);
        let mut cookies: Vec<HttpCookie> = Vec::new();
        let mut i: usize = 0;
        assert(views.subrange(0, 0) =~= seq![]);
        assert(cookie_views(cookies@) =~= seq![]);
        while i < self.headers.len()
            invariant
                i <= self.headers.len(),
                views == header_views(self.headers@),
                cookie_views(cookies@) == cookies_of(views.subrange(0, i as int)),
            decreases self.headers.len() - i,
        {
            let ghost seen = views.subrange(0, i + 1);
            let ghost found = cookie_views(cookies@);
            assert(seen.drop_last() =~= views.subrange(0, i as int));
            assert(seen.last() == self.headers@[i as int]@);
            if text_eq(self.headers[i].name.as_str(), "Cookie") {
                let cookie = HttpCookie::from_header(&self.headers[i]);
                cookies.push(cookie);
                assert(cookie_views(cookies@) =~= found.push(cookie@));
            }
            i = i + 1;
        }
        assert(views.subrange(0, i as int) =~= views);
        cookies
    }

    /// The first cookie of the request that is named `name`.
    pub fn get_cookie(&self, name: String) -> (r: Option<HttpCookie>)
        ensures
            match r {
                Some(cookie) => find_cookie(cookies_of(self@.headers), name@) == Some(cookie@),
                None => find_cookie(cookies_of(self@.headers), name@) is None,
            },
    {
        let cookies = self.get_cookies();
        let ghost views = cookie_views(cookies@);
        let mut i: usize = 0;
        assert(views.skip(0) =~= views);
        while i < cookies.len()
            invariant
                i <= cookies.len(),
                views == cookie_views(cookies@),
                views == cookies_of(self@.headers),
                find_cookie(views, name@) == find_cookie(views.skip(i as int), name@),
            decreases cookies.len() - i,
        {
            let ghost rest = views.skip(i as int);
            assert(rest[0] == cookies@[i as int]@);
            assert(rest.drop_first() =~= views.skip(i + 1));
            if text_eq(cookies[i].name(), name.as_str()) {
                return Some(cookies[i].clone());
            }
            i = i + 1;
        }
        None
    }

    /// The head of the request as text: see [`request_head_text`].
    pub fn head_to_string(&self) -> (r: String)
        ensures
            r@ == request_head_text(self@),
    {
        let mut out = String::new();
        out.append(self.method.as_str());
        out.append(" ");
        out.append(self.path.as_str());
        out.append(" HTTP/");
        out.append(self.version.as_str());
        out.append("\r\n");
        push_header_lines(&mut out, &self.headers);
        out.append("\r\n");
        assert(out@ =~= request_head_text(self@));
        out
    }

    /// The request as text: see [`request_text`].
    pub fn to_string(&self) -> (r: String)
        ensures
            r@ == request_text(self@),
    {
        let mut out = self.head_to_string();
        if let Some(body) = &self.body {
            let bytes = body.as_bytes();
            match utf8_text(bytes.as_slice()) {
                Some(text) => {
                    proof {
                        lemma_text_of_bytes(text);
                    }
                    out.append(text);
                },
                None => {
                    let shown = debug_string(&self.get_content_type());
                    out.append(shown.as_str());
                },
            }
        }
        assert(out@ =~= request_text(self@));
        out
    }
}

/// A head as it is written from its parts: the request line, and, where
/// there is more, the end of the line and the lines that follow.
pub open spec fn head_bytes(
    method: HttpMethod,
    path: Seq<char>,
    version: HttpVersion,
    more: Option<Seq<u8>>,
) -> Seq<u8> {
    encode_utf8(request_line_text(method, path, version)) + match more {
        Some(lines) => crlf() + lines,
        None => seq![],
    }
}

/// A path that can stand in a request line: its UTF-8 form holds no space
/// and no end of line.
pub open spec fn is_request_target(path: Seq<char>) -> bool {
    !has_match(encode_utf8(path), space()) && !has_match(encode_utf8(path), crlf())
}

proof fn lemma_no_byte(text: Seq<u8>, byte: u8)
    requires
        forall|i: int| 0 <= i < text.len() ==> #[trigger] text[i] != byte,
    ensures
        !has_match(text, seq![byte]),
{
    if has_match(text, seq![byte]) {
        let i = choose|i: int| matches_at(text, seq![byte], i);
        lemma_match_bytes(text, seq![byte], i);
        assert(text[i + 0] == seq![byte][0]);
    }
}

/// No byte of `text` is `byte`.
spec fn lacks_byte(text: Seq<u8>, byte: u8) -> bool {
    forall|i: int| 0 <= i < text.len() ==> #[trigger] text[i] != byte
}

/// A request line as bytes, from the bytes of its three tokens.
spec fn line_of(first: Seq<u8>, second: Seq<u8>, third: Seq<u8>) -> Seq<u8> {
    first + space() + (second + space() + third)
}

proof fn lemma_line_tokens(first: Seq<u8>, second: Seq<u8>, third: Seq<u8>)
    requires
        lacks_byte(first, 0x20u8),
        !has_match(second, space()),
        lacks_byte(third, 0x20u8),
    ensures
        split(line_of(first, second, third), space()) == seq![first, second, third],
{
    let line = line_of(first, second, third);
    let second_on = second + space() + third;
    assert(space().drop_last() =~= seq![]);
    assert(first + space().drop_last() =~= first);
    assert(second + space().drop_last() =~= second);
    lemma_no_byte(first, 0x20u8);
    lemma_no_byte(third, 0x20u8);
    lemma_cut_concat(first, space(), second_on);
    lemma_cut_concat(second, space(), third);
    lemma_split_unfold(line, space());
    lemma_split_unfold(second_on, space());
    lemma_split_unfold(third, space());
    let tokens = split(line, space());
    let after_first = tokens.skip(1);
    let after_second = split(second_on, space()).skip(1);
    assert(after_first == split(second_on, space()));
    assert(after_second == split(third, space()));
    assert(tokens[1] == after_first[0]);
    assert(tokens[2] == after_first[1]);
    assert(after_first[1] == after_second[0]);
    assert(after_first.len() == after_second.len() + 1);
    assert(tokens.len() == after_first.len() + 1);
    assert(tokens =~= seq![first, second, third]);
}

proof fn lemma_line_is_one_line(first: Seq<u8>, second: Seq<u8>, third: Seq<u8>)
    requires
        lacks_byte(first, 0x0au8),
        !has_match(second, crlf()),
        lacks_byte(third, 0x0au8),
    ensures
        !has_match(line_of(first, second, third) + crlf().drop_last(), crlf()),
        !has_match(line_of(first, second, third), crlf()),
{
    let line = line_of(first, second, third);
    let guard = line + crlf().drop_last();
    if has_match(guard, crlf()) {
        let i = choose|i: int| matches_at(guard, crlf(), i);
        lemma_match_bytes(guard, crlf(), i);
        assert(guard[i + 0] == 0x0du8);
        assert(guard[i + 1] == 0x0au8);
        let from = first.len() + 1;
        let to = from + second.len();
        if i + 1 < first.len() {
            assert(guard[i + 1] == first[i + 1]);
        } else if i + 1 == first.len() {
            assert(guard[i + 1] == 0x20u8);
        } else if i + 1 == from {
            assert(guard[i + 0] == 0x20u8);
        } else if i + 1 < to {
            assert(second[i - from] == guard[i + 0]);
            assert(second[i + 1 - from] == guard[i + 1]);
            lemma_match_bytes(second, crlf(), i - from);
        } else if i + 1 == to {
            assert(guard[i + 1] == 0x20u8);
        } else if i + 1 < line.len() {
            assert(guard[i + 1] == third[i + 1 - to - 1]);
        } else {
            assert(guard[i + 1] == 0x0du8);
        }
    }
    if has_match(line, crlf()) {
        assert(guard.subrange(0, line.len() as int) =~= line);
        lemma_match_in_part(guard, 0, line.len() as int, crlf());
    }
}

proof fn lemma_head_lines(line: Seq<u8>, more: Option<Seq<u8>>)
    requires
        !has_match(line + crlf().drop_last(), crlf()),
        !has_match(line, crlf()),
    ensures
        ({
            let head = line + match more {
                Some(lines) => crlf() + lines,
                None => seq![],
            };
            &&& split(head, crlf())[0] == line
            &&& split(head, crlf()).skip(1) == match more {
                Some(lines) => split(lines, crlf()),
                None => seq![],
            }
        }),
{
    let head = line + match more {
        Some(lines) => crlf() + lines,
        None => seq![],
    };
    lemma_split_unfold(head, crlf());
    match more {
        Some(lines) => {
            assert(head =~= line + crlf() + lines);
            lemma_cut_concat(line, crlf(), lines);
        },
        None => {
            assert(head =~= line);
            assert(split(head, crlf()).skip(1) =~= seq![]);
        },
    }
}

proof fn lemma_request_line_bytes(method: HttpMethod, path: Seq<char>, version: HttpVersion)
    ensures
        ({
            let first = encode_utf8(method.name());
            let third = seq![0x48u8, 0x54u8, 0x54u8, 0x50u8, 0x2fu8] + encode_utf8(
                version.text(),
            );
            &&& encode_utf8(request_line_text(method, path, version)) == line_of(
                first,
                encode_utf8(path),
                third,
            )
            &&& lacks_byte(first, 0x20u8)
            &&& lacks_byte(first, 0x0au8)
            &&& lacks_byte(third, 0x20u8)
            &&& lacks_byte(third, 0x0au8)
            &&& HttpMethod::of_upper(method.name()) == Some(method)
            &&& HttpVersion::of_token(third) == version
        }),
{
    let word = seq![0x48u8, 0x54u8, 0x54u8, 0x50u8, 0x2fu8];
    let first = encode_utf8(method.name());
    let second = encode_utf8(path);
    let number = encode_utf8(version.text());
    let third = word + number;
    lemma_separator_texts();
    crate::http_method::lemma_method_name_reads_back(method);
    crate::http_version::lemma_version_text_round_trip(version, word);
    assert(encode_utf8(" HTTP/"@) =~= space() + word) by {
        reveal_strlit(" HTTP/");
        is_ascii_chars_encode_utf8(" HTTP/"@);
    }
    let a = method.name() + " "@;
    let b = a + path;
    let c = b + " HTTP/"@;
    lemma_encode_concat(method.name(), " "@);
    lemma_encode_concat(a, path);
    lemma_encode_concat(b, " HTTP/"@);
    lemma_encode_concat(c, version.text());
    assert(first + space() + second + (space() + word) + number =~= line_of(
        first,
        second,
        third,
    ));
    assert forall|i: int| 0 <= i < first.len() implies #[trigger] first[i] != 0x20u8 && first[i]
        != 0x0au8 by {
        assert(crate::http_method::is_upper_letter(first[i]));
    }
}

/// The request that is read back from a head that was written for
/// `method`, `path` and `version`, with `more` behind the request line.
pub open spec fn written_request(
    method: HttpMethod,
    path: Seq<char>,
    version: HttpVersion,
    more: Option<Seq<u8>>,
) -> HttpRequestView {
    HttpRequestView {
        version,
        method,
        headers: parse_header_lines(
            match more {
                Some(lines) => split(lines, crlf()),
                None => seq![],
            },
        ),
        path,
        body: None,
    }
}

/// Writing a request line and reading it back gives the same method, path
/// and version: for every method, every version and every path that can
/// stand in a request line, the head written from them is read as a request
/// with that method, that version, and that path, byte for byte. What
/// follows the request line is read as header lines.
///
/// The method token of such a head is the method's name. Read with the
/// name for its upper-case form, the head gives the request without any
/// condition; read as it stands, it does so as far as putting the name
/// into upper case leaves it as it is.
pub proof fn lemma_request_line_round_trip(
    method: HttpMethod,
    path: Seq<char>,
    version: HttpVersion,
    more: Option<Seq<u8>>,
)
    requires
        is_request_target(path),
        more matches Some(lines) ==> valid_utf8(lines),
    ensures
        method_token(head_bytes(method, path, version, more)) == encode_utf8(method.name()),
        parse_request_as(head_bytes(method, path, version, more), method.name()) == Ok::<
            HttpRequestView,
            Seq<char>,
        >(written_request(method, path, version, more)),
        uppercase_text(method.name()) == method.name() ==> parse_request(
            head_bytes(method, path, version, more),
        ) == Ok::<HttpRequestView, Seq<char>>(written_request(method, path, version, more)),
{
    let first = encode_utf8(method.name());
    let second = encode_utf8(path);
    let third = seq![0x48u8, 0x54u8, 0x54u8, 0x50u8, 0x2fu8] + encode_utf8(version.text());
    let line = encode_utf8(request_line_text(method, path, version));
    let head = head_bytes(method, path, version, more);
    lemma_request_line_bytes(method, path, version);
    lemma_line_tokens(first, second, third);
    lemma_line_is_one_line(first, second, third);
    lemma_head_lines(line, more);
    assert(valid_utf8(head)) by {
        lemma_separator_texts();
        encode_utf8_valid_utf8(request_line_text(method, path, version));
        encode_utf8_valid_utf8("\r\n"@);
        match more {
            Some(lines) => {
                valid_utf8_concat(crlf(), lines);
                valid_utf8_concat(line, crlf() + lines);
            },
            None => {
                assert(head =~= line);
            },
        }
    }
    assert(text_of(second) == path) by {
        encode_utf8_decode_utf8(path);
    }
    assert(text_of(first) == method.name()) by {
        encode_utf8_decode_utf8(method.name());
    }
}

/// What stands before and after the first occurrence of a well-formed
/// separator in well-formed UTF-8 is well-formed UTF-8.
proof fn lemma_cut_is_valid(text: Seq<u8>, sep: Seq<u8>)
    requires
        valid_utf8(text),
        valid_utf8(sep),
        sep.len() > 0,
    ensures
        valid_utf8(before(text, sep)),
        after(text, sep) matches Some(rest) ==> valid_utf8(rest),
{
    if has_match(text, sep) {
        crate::text::lemma_first_match_exists(text, sep);
        crate::text::lemma_match_on_boundaries(text, sep, first_match(text, sep));
    }
}

/// The path of a request that was read is the second token of the request
/// line, byte for byte, and it can stand in a request line again.
pub proof fn lemma_path_is_passed_through(head: Seq<u8>)
    requires
        parse_request(head) is Ok,
    ensures
        encode_utf8(parse_request(head)->Ok_0.path) == split(
            split(head, crlf())[0],
            space(),
        )[1],
        is_request_target(parse_request(head)->Ok_0.path),
{
    lemma_separator_texts();
    encode_utf8_valid_utf8("\r\n"@);
    encode_utf8_valid_utf8(" "@);
    let line = split(head, crlf())[0];
    lemma_split_unfold(head, crlf());
    lemma_cut_is_valid(head, crlf());
    crate::text::lemma_before_has_no_match(head, crlf());
    lemma_split_unfold(line, space());
    lemma_cut_is_valid(line, space());
    crate::text::lemma_first_match_exists(line, space());
    let at = first_match(line, space());
    let rest = after(line, space())->0;
    lemma_split_unfold(rest, space());
    lemma_cut_is_valid(rest, space());
    crate::text::lemma_before_has_no_match(rest, space());
    crate::text::lemma_first_match_exists(rest, space());
    let token = before(rest, space());
    let to = first_match(rest, space());
    assert(split(line, space())[1] == split(line, space()).skip(1)[0]);
    assert(split(line, space())[1] == token);
    decode_utf8_encode_utf8(token);
    assert(token =~= line.subrange(at + 1, at + 1 + to));
    if has_match(token, crlf()) {
        lemma_match_in_part(line, at + 1, at + 1 + to, crlf());
    }
}

/// Reading a head, writing the request line of what was read, and reading
/// that line again gives the same method, the same path and the same
/// version. The method is written as the upper-case form of the token it
/// was read from, and the written line is read again with that text for its
/// upper-case form; read as it stands, it gives the same request as far as
/// putting the method's name into upper case leaves it as it is.
pub proof fn lemma_read_write_read(head: Seq<u8>)
    requires
        parse_request(head) is Ok,
    ensures
        ({
            let request = parse_request(head)->Ok_0;
            let written = encode_utf8(
                request_line_text(request.method, request.path, request.version),
            );
            &&& request.method.name() == uppercase_text(text_of(method_token(head)))
            &&& parse_request_as(written, request.method.name()) matches Ok(again)
            &&& again.method == request.method
            &&& again.path == request.path
            &&& again.version == request.version
            &&& uppercase_text(request.method.name()) == request.method.name()
                ==> parse_request(written) == parse_request_as(written, request.method.name())
        }),
{
    let request = parse_request(head)->Ok_0;
    lemma_path_is_passed_through(head);
    lemma_request_line_round_trip(request.method, request.path, request.version, None);
    assert(head_bytes(request.method, request.path, request.version, None) =~= encode_utf8(
        request_line_text(request.method, request.path, request.version),
    ));
}

} // verus!
