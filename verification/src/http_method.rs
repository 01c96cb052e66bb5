//! Request methods.

use crate::http_error::HttpError;
use crate::text::{text_eq, text_of};
use vstd::prelude::*;
use vstd::string::*;
use vstd::utf8::*;

verus! {

/// The request methods the server accepts.
#[derive(Debug, Clone, Copy, PartialEq, Eq, Structural)]
pub enum HttpMethod {
    GET,
    POST,
    PUT,
    DELETE,
    HEAD,
}

impl Default for HttpMethod {
    fn default() -> (r: HttpMethod)
        ensures
            r == HttpMethod::GET,
    {
        HttpMethod::GET
    }
}

/// What `str::to_uppercase` makes of a text: its upper-case form by the
/// rules of Unicode.
pub uninterp spec fn uppercase_text(text: Seq<char>) -> Seq<char>;

/// `str::to_uppercase`: the result is the text named `uppercase_text`.
#[verifier::external_body]
fn to_upper(text: &str) -> (r: String)
    ensures
        r@ == uppercase_text(text@),
{
    text.to_uppercase()
}

/// The message of the error that an unknown method is rejected with.
pub open spec fn method_not_allowed() -> Seq<char> {
    "Method Not allowed"@
}

impl HttpMethod {
    /// The method's name as it is written in a request line.
    pub open spec fn name(self) -> Seq<char> {
        match self {
            HttpMethod::GET => "GET"@,
            HttpMethod::POST => "POST"@,
            HttpMethod::PUT => "PUT"@,
            HttpMethod::DELETE => "DELETE"@,
            HttpMethod::HEAD => "HEAD"@,
        }
    }

    /// The method that `upper` names, letter for letter.
    pub open spec fn of_upper(upper: Seq<char>) -> Option<HttpMethod> {
        if upper == "GET"@ {
            Some(HttpMethod::GET)
        } else if upper == "POST"@ {
            Some(HttpMethod::POST)
        } else if upper == "PUT"@ {
            Some(HttpMethod::PUT)
        } else if upper == "DELETE"@ {
            Some(HttpMethod::DELETE)
        } else if upper == "HEAD"@ {
            Some(HttpMethod::HEAD)
        } else {
            None
        }
    }

    /// The method that `text` names when the case of its letters is
    /// ignored: the method that its upper-case form names.
    pub open spec fn of_text(text: Seq<char>) -> Option<HttpMethod> {
        HttpMethod::of_upper(uppercase_text(text))
    }

    /// The method that the token `token` of a request line names.
    pub open spec fn of_token(token: Seq<u8>) -> Option<HttpMethod> {
        HttpMethod::of_text(text_of(token))
    }

    /// Reads a method name that is already in upper case. Any other text
    /// is rejected as a bad request.
    pub fn from_upper(upper: &str) -> (r: Result<HttpMethod, HttpError>)
        ensures
            match r {
                Ok(method) => HttpMethod::of_upper(upper@) == Some(method),
                Err(error) => {
                    &&& HttpMethod::of_upper(upper@) is None
                    &&& error matches HttpError::BadRequest { message }
                    &&& message@ == method_not_allowed()
                },
            },
    {
        if text_eq(upper, "GET") {
            Ok(HttpMethod::GET)
        } else if text_eq(upper, "POST") {
            Ok(HttpMethod::POST)
        } else if text_eq(upper, "PUT") {
            Ok(HttpMethod::PUT)
        } else if text_eq(upper, "DELETE") {
            Ok(HttpMethod::DELETE)
        } else if text_eq(upper, "HEAD") {
            Ok(HttpMethod::HEAD)
        } else {
            Err(HttpError::bad_request("Method Not allowed"))
        }
    }

    /// Reads a method name, ignoring the case of its letters: the text is
    /// put into upper case and then read as [`HttpMethod::from_upper`]
    /// reads it.
    pub fn new(method_string: &str) -> (r: Result<HttpMethod, HttpError>)
        ensures
            match r {
                Ok(method) => HttpMethod::of_text(method_string@) == Some(method),
                Err(error) => {
                    &&& HttpMethod::of_text(method_string@) is None
                    &&& error matches HttpError::BadRequest { message }
                    &&& message@ == method_not_allowed()
                },
            },
    {
        let upper = to_upper(method_string);
        HttpMethod::from_upper(upper.as_str())
    }

    /// The method's name as it is written in a request line.
    pub fn as_str(&self) -> (r: &'static str)
        ensures
            r@ == self.name(),
    {
        match self {
            HttpMethod::GET => "GET",
            HttpMethod::POST => "POST",
            HttpMethod::PUT => "PUT",
            HttpMethod::DELETE => "DELETE",
            HttpMethod::HEAD => "HEAD",
        }
    }

    /// The method's name as an owned text.
    pub fn to_string(&self) -> (r: String)
        ensures
            r@ == self.name(),
    {
        self.as_str().to_owned()
    }
}

/// An upper-case ASCII letter.
pub open spec fn is_upper_letter(b: u8) -> bool {
    0x41 <= b <= 0x5a
}

/// A method's name, taken as text in upper case, names that method and no
/// other; it is written in upper-case ASCII letters only.
pub proof fn lemma_method_name_reads_back(method: HttpMethod)
    ensures
        HttpMethod::of_upper(method.name()) == Some(method),
        forall|i: int|
            0 <= i < encode_utf8(method.name()).len() ==> is_upper_letter(
                #[trigger] encode_utf8(method.name())[i],
            ),
{
    reveal_strlit("GET");
    reveal_strlit("POST");
    reveal_strlit("PUT");
    reveal_strlit("DELETE");
    reveal_strlit("HEAD");
    is_ascii_chars_encode_utf8("GET"@);
    is_ascii_chars_encode_utf8("POST"@);
    is_ascii_chars_encode_utf8("PUT"@);
    is_ascii_chars_encode_utf8("DELETE"@);
    is_ascii_chars_encode_utf8("HEAD"@);
    assert("PUT"@[1] != "GET"@[1]);
    assert("HEAD"@[0] != "POST"@[0]);
}

/// A method is written as the upper-case text that it was read from.
pub proof fn lemma_method_is_written_as_read(upper: Seq<char>)
    ensures
        HttpMethod::of_upper(upper) matches Some(method) ==> method.name() == upper,
{
}

} // verus!
