//! Protocol versions.

use vstd::prelude::*;
use vstd::string::*;

verus! {

/// The protocol versions the server speaks.
#[derive(Debug, Clone, Copy, PartialEq, Eq, Structural)]
pub enum HttpVersion {
    Http1_0,
    Http1_1,
}

impl Default for HttpVersion {
    /// The version used when none is asked for: 1.1.
    fn default() -> (r: HttpVersion)
        ensures
            r == HttpVersion::Http1_1,
    {
        HttpVersion::Http1_1
    }
}

impl HttpVersion {
    /// The version number as it is written after `HTTP/`.
    pub open spec fn text(self) -> Seq<char> {
        match self {
            HttpVersion::Http1_0 => "1.0"@,
            HttpVersion::Http1_1 => "1.1"@,
        }
    }

    /// The version that a request line's third token asks for: 1.0 when the
    /// token ends in `1.0`, and 1.1 for every other token.
    pub open spec fn of_token(token: Seq<u8>) -> HttpVersion {
        if token.len() >= 3 && token.subrange(token.len() - 3, token.len() as int)
            == vstd::utf8::encode_utf8("1.0"@) {
            HttpVersion::Http1_0
        } else {
            HttpVersion::Http1_1
        }
    }

    /// The version number as it is written after `HTTP/`.
    pub fn as_str(&self) -> (r: &'static str)
        ensures
            r@ == self.text(),
    {
        match self {
            HttpVersion::Http1_0 => "1.0",
            HttpVersion::Http1_1 => "1.1",
        }
    }

    /// The version number as an owned text.
    pub fn to_string(&self) -> (r: String)
        ensures
            r@ == self.text(),
    {
        self.as_str().to_owned()
    }

    /// Reads the version off the third token of a request line.
    pub fn from_token(token: &str) -> (r: HttpVersion)
        ensures
            r == HttpVersion::of_token(token.spec_bytes()),
    {
        let bytes = token.as_bytes();
        let n = bytes.len();
        if n >= 3 && crate::text::bytes_eq(
            vstd::slice::slice_subrange(bytes, n - 3, n),
            "1.0".as_bytes(),
        ) {
            HttpVersion::Http1_0
        } else {
            HttpVersion::Http1_1
        }
    }
}

/// A version number reads back as the version, whatever stands before it
/// in the token; it is written in three bytes, digits and a dot.
pub proof fn lemma_version_text_round_trip(version: HttpVersion, prefix: Seq<u8>)
    ensures
        HttpVersion::of_token(prefix + vstd::utf8::encode_utf8(version.text())) == version,
        vstd::utf8::encode_utf8(version.text()) == (match version {
            HttpVersion::Http1_0 => seq![0x31u8, 0x2eu8, 0x30u8],
            HttpVersion::Http1_1 => seq![0x31u8, 0x2eu8, 0x31u8],
        }),
{
    reveal_strlit("1.0");
    reveal_strlit("1.1");
    vstd::utf8::is_ascii_chars_encode_utf8("1.0"@);
    vstd::utf8::is_ascii_chars_encode_utf8("1.1"@);
    let old = vstd::utf8::encode_utf8("1.0"@);
    let new = vstd::utf8::encode_utf8("1.1"@);
    assert(old =~= seq![0x31u8, 0x2eu8, 0x30u8]);
    assert(new =~= seq![0x31u8, 0x2eu8, 0x31u8]);
    let number = vstd::utf8::encode_utf8(version.text());
    let token = prefix + number;
    assert(token.subrange(token.len() - 3, token.len() as int) =~= number);
    assert(new[2] != old[2]);
}

} // verus!
