//! Cookies.

use crate::http_header::HttpHeader;
use crate::text::{
    after, before, cut, equals_sign, has_match, joined, lemma_cut_concat, lemma_encode_concat,
    lemma_match_bytes, lemma_separator_texts, lemma_text_of_bytes, matches_at, option_text,
    semicolon_space, text_of,
};
use vstd::prelude::*;
use vstd::string::*;
use vstd::utf8::*;

verus! {

/// A point in time that the calendar reaches: seconds since the start of
/// 1970 in UTC, and the nanoseconds that have passed since the last full
/// second.
#[derive(Debug, Clone, Copy, PartialEq, Eq, Structural)]
pub struct Expiry {
    seconds: i64,
    nanoseconds: u32,
}

impl View for Expiry {
    type V = (int, int);

    closed spec fn view(&self) -> (int, int) {
        (self.seconds as int, self.nanoseconds as int)
    }
}

/// A cookie: a name, a value, and what is known of its attributes.
#[derive(Debug)]
pub struct HttpCookie {
    pub name: String,
    value: String,
    secure: bool,
    domain: Option<String>,
    path: Option<String>,
    expires: Option<Expiry>,
    same_site: Option<String>,
}

/// What a cookie holds, as mathematical values.
pub ghost struct HttpCookieView {
    pub name: Seq<char>,
    pub value: Seq<char>,
    pub secure: bool,
    pub domain: Option<Seq<char>>,
    pub path: Option<Seq<char>>,
    /// The expiry as seconds and nanoseconds since the start of 1970.
    pub expires: Option<(int, int)>,
    pub same_site: Option<Seq<char>>,
}

impl View for HttpCookie {
    type V = HttpCookieView;

    closed spec fn view(&self) -> HttpCookieView {
        HttpCookieView {
            name: self.name@,
            value: self.value@,
            secure: self.secure,
            domain: option_text(self.domain),
            path: option_text(self.path),
            expires: match self.expires {
                Some(expiry) => Some(expiry@),
                None => None,
            },
            same_site: option_text(self.same_site),
        }
    }
}

/// The date and time that the calendar gives for a point in time, written
/// as chrono writes it for the format `%+`; `None` for a point in time
/// that chrono's calendar does not reach.
pub uninterp spec fn expiry_text(seconds: int, nanoseconds: int) -> Option<Seq<char>>;

/// chrono's `DateTime::<Utc>::from_timestamp`, and on the date it gives
/// `format("%+")`: the result is the text named `expiry_text`, and there is
/// none where `from_timestamp` gives no date.
#[verifier::external_body]
fn format_expiry(seconds: i64, nanoseconds: u32) -> (r: Option<String>)
    ensures
        option_text(r) == expiry_text(seconds as int, nanoseconds as int),
{
    let time = chrono::DateTime::<chrono::Utc>::from_timestamp(seconds, nanoseconds)?;
    Some(time.format("%+").to_string())
}

impl Expiry {
    #[verifier::type_invariant]
    spec fn is_on_the_calendar(&self) -> bool {
        expiry_text(self.seconds as int, self.nanoseconds as int) is Some
    }

    /// The point in time `seconds` and `nanoseconds` after the start of
    /// 1970, where the calendar reaches it.
    pub fn new(seconds: i64, nanoseconds: u32) -> (r: Option<Expiry>)
        ensures
            r is Some <==> expiry_text(seconds as int, nanoseconds as int) is Some,
            r matches Some(expiry) ==> expiry@ == (seconds as int, nanoseconds as int),
    {
        match format_expiry(seconds, nanoseconds) {
            Some(_) => Some(Expiry { seconds, nanoseconds }),
            None => None,
        }
    }

    /// The whole seconds since the start of 1970.
    pub fn seconds(&self) -> (r: i64)
        ensures
            r as int == self@.0,
    {
        self.seconds
    }

    /// The nanoseconds since the last full second.
    pub fn nanoseconds(&self) -> (r: u32)
        ensures
            r as int == self@.1,
    {
        self.nanoseconds
    }

    /// The date and time as the calendar writes it.
    pub fn to_string(&self) -> (r: String)
        ensures
            expiry_text(self@.0, self@.1) == Some(r@),
    {
        proof {
            use_type_invariant(self);
        }
        match format_expiry(self.seconds, self.nanoseconds) {
            Some(text) => text,
            None => String::new(),
        }
    }
}

/// The attributes that a cookie shows when its expiry is written as
/// `expires`, in the order in which they are written: `Secure`,
/// `Same-Site`, `Domain`, `Path`, `Expires`.
pub open spec fn shown_attributes(cookie: HttpCookieView, expires: Option<Seq<char>>) -> Seq<
    (Seq<char>, Seq<char>),
> {
    (if cookie.secure {
        seq![("Secure"@, Seq::<char>::empty())]
    } else {
        seq![]
    }) + (match cookie.same_site {
        Some(policy) => seq![("Same-Site"@, policy)],
        None => seq![],
    }) + (match cookie.domain {
        Some(domain) => seq![("Domain"@, domain)],
        None => seq![],
    }) + (match cookie.path {
        Some(path) => seq![("Path"@, path)],
        None => seq![],
    }) + (match expires {
        Some(text) => seq![("Expires"@, text)],
        None => seq![],
    })
}

/// The expiry of a cookie as the calendar writes it; none for a cookie
/// without expiry.
pub open spec fn expires_text(cookie: HttpCookieView) -> Option<Seq<char>> {
    match cookie.expires {
        Some(expiry) => expiry_text(expiry.0, expiry.1),
        None => None,
    }
}

/// The attributes that a cookie shows.
pub open spec fn cookie_attributes(cookie: HttpCookieView) -> Seq<(Seq<char>, Seq<char>)> {
    shown_attributes(cookie, expires_text(cookie))
}

/// Attributes as they are written in a header: each as name, equals sign,
/// value.
pub open spec fn attribute_texts(attributes: Seq<(Seq<char>, Seq<char>)>) -> Seq<Seq<char>> {
    Seq::new(attributes.len(), |i: int| attributes[i].0 + "="@ + attributes[i].1)
}

/// The value of the header that carries a cookie: name, equals sign, value,
/// semicolon-space, and the attributes with semicolon-space between them.
pub open spec fn cookie_text(cookie: HttpCookieView) -> Seq<char> {
    cookie.name + "="@ + cookie.value + "; "@ + joined(
        attribute_texts(cookie_attributes(cookie)),
        "; "@,
    )
}

/// The name and the value that the value of a `Cookie` header gives: what
/// stands before the first semicolon-space is the pair; in it the name
/// stands before the first equals sign and the value after it. A pair
/// without equals sign is a name with an empty value.
pub open spec fn parse_cookie(value: Seq<u8>) -> (Seq<char>, Seq<char>) {
    let pair = before(value, semicolon_space());
    (
        text_of(before(pair, equals_sign())),
        match after(pair, equals_sign()) {
            Some(value) => text_of(value),
            None => seq![],
        },
    )
}

/// The views of a run of attributes.
pub open spec fn pair_views(pairs: Seq<(String, String)>) -> Seq<(Seq<char>, Seq<char>)> {
    Seq::new(pairs.len(), |i: int| (pairs[i].0@, pairs[i].1@))
}

fn clone_text(text: &Option<String>) -> (r: Option<String>)
    ensures
        option_text(r) == option_text(*text),
{
    match text {
        Some(text) => Some(text.clone()),
        None => None,
    }
}

impl Clone for HttpCookie {
    fn clone(&self) -> (r: Self)
        ensures
            r@ == self@,
    {
        HttpCookie {
            name: self.name.clone(),
            value: self.value.clone(),
            secure: self.secure,
            domain: clone_text(&self.domain),
            path: clone_text(&self.path),
            expires: self.expires,
            same_site: clone_text(&self.same_site),
        }
    }
}

impl HttpCookie {
    /// A cookie with a name and a value and no attributes.
    pub fn new(name: String, value: String) -> (r: HttpCookie)
        ensures
            r@ == (HttpCookieView {
                name: name@,
                value: value@,
                secure: false,
                domain: None,
                path: None,
                expires: None,
                same_site: None,
            }),
    {
        HttpCookie {
            name,
            value,
            secure: false,
            domain: None,
            path: None,
            expires: None,
            same_site: None,
        }
    }

    /// The cookie's name.
    pub fn name(&self) -> (r: &str)
        ensures
            r@ == self@.name,
    {
        self.name.as_str()
    }

    /// The cookie's value.
    pub fn value(&self) -> (r: &str)
        ensures
            r@ == self@.value,
    {
        self.value.as_str()
    }

    /// The cookie with its `Secure` flag set to `secure`.
    pub fn with_secure(self, secure: bool) -> (r: HttpCookie)
        ensures
            r@ == (HttpCookieView { secure, ..self@ }),
    {
        let mut cookie = self;
        cookie.secure = secure;
        cookie
    }

    /// The cookie with `domain` for its `Domain` attribute.
    pub fn with_domain(self, domain: String) -> (r: HttpCookie)
        ensures
            r@ == (HttpCookieView { domain: Some(domain@), ..self@ }),
    {
        let mut cookie = self;
        cookie.domain = Some(domain);
        cookie
    }

    /// The cookie with `path` for its `Path` attribute.
    pub fn with_path(self, path: String) -> (r: HttpCookie)
        ensures
            r@ == (HttpCookieView { path: Some(path@), ..self@ }),
    {
        let mut cookie = self;
        cookie.path = Some(path);
        cookie
    }

    /// The cookie with `policy` for its `Same-Site` attribute.
    pub fn with_same_site(self, policy: String) -> (r: HttpCookie)
        ensures
            r@ == (HttpCookieView { same_site: Some(policy@), ..self@ }),
    {
        let mut cookie = self;
        cookie.same_site = Some(policy);
        cookie
    }

    /// The cookie with `expiry` as the time at which it expires.
    pub fn with_expires(self, expiry: Expiry) -> (r: HttpCookie)
        ensures
            r@ == (HttpCookieView { expires: Some(expiry@), ..self@ }),
    {
        let mut cookie = self;
        cookie.expires = Some(expiry);
        cookie
    }

    /// The attributes that the cookie shows when its expiry is written as
    /// `expires`, each as a name and a value.
    pub fn attributes_with(&self, expires: Option<String>) -> (r: Vec<(String, String)>)
        ensures
            pair_views(r@) == shown_attributes(self@, option_text(expires)),
    {
        let mut attributes: Vec<(String, String)> = Vec::new();
        assert(pair_views(attributes@) =~= seq![]);
        let ghost mut shown = pair_views(attributes@);

        if self.secure {
            attributes.push(("Secure".to_owned(), String::new()));
            assert(pair_views(attributes@) =~= shown + seq![("Secure"@, Seq::<char>::empty())]);
        }
        proof {
            shown = pair_views(attributes@);
        }
        if let Some(policy) = &self.same_site {
            attributes.push(("Same-Site".to_owned(), policy.clone()));
            assert(pair_views(attributes@) =~= shown + seq![("Same-Site"@, policy@)]);
        }
        proof {
            shown = pair_views(attributes@);
        }
        if let Some(domain) = &self.domain {
            attributes.push(("Domain".to_owned(), domain.clone()));
            assert(pair_views(attributes@) =~= shown + seq![("Domain"@, domain@)]);
        }
        proof {
            shown = pair_views(attributes@);
        }
        if let Some(path) = &self.path {
            attributes.push(("Path".to_owned(), path.clone()));
            assert(pair_views(attributes@) =~= shown + seq![("Path"@, path@)]);
        }
        proof {
            shown = pair_views(attributes@);
        }
        if let Some(text) = expires {
            attributes.push(("Expires".to_owned(), text));
            assert(pair_views(attributes@) =~= shown + seq![("Expires"@, text@)]);
        }
        assert(pair_views(attributes@) =~= shown_attributes(self@, option_text(expires)));
        attributes
    }

    /// The attributes that the cookie shows, each as a name and a value. The
    /// expiry, where the cookie has one, is written as the calendar writes
    /// it.
    pub fn get_attributes(&self) -> (r: Vec<(String, String)>)
        ensures
            pair_views(r@) == cookie_attributes(self@),
            self@.expires is Some ==> expires_text(self@) is Some,
    {
        let expires = match &self.expires {
            Some(expiry) => Some(expiry.to_string()),
            None => None,
        };
        self.attributes_with(expires)
    }

    /// The header that carries the cookie: it is named `Cookie`, and its
    /// value is the cookie's pair followed by its attributes.
    pub fn to_header(&self) -> (r: HttpHeader)
        ensures
            r@ == ("Cookie"@, cookie_text(self@)),
    {
        let attributes = self.get_attributes();
        let ghost texts = attribute_texts(pair_views(attributes@));
        let mut value = self.name.clone();
        value.append("=");
        value.append(self.value.as_str());
        value.append("; ");
        let ghost start = value@;
        let mut i: usize = 0;
        assert(texts.subrange(0, 0) =~= Seq::<Seq<char>>::empty());
        assert(value@ =~= start + joined(texts.subrange(0, 0), "; "@));
        while i < attributes.len()
            invariant
                i <= attributes.len(),
                texts == attribute_texts(pair_views(attributes@)),
                value@ == start + joined(texts.subrange(0, i as int), "; "@),
            decreases attributes.len() - i,
        {
            let ghost seen = texts.subrange(0, i + 1);
            assert(seen.drop_last() =~= texts.subrange(0, i as int));
            assert(seen.last() == attributes@[i as int].0@ + "="@ + attributes@[i as int].1@);
            if i > 0 {
                value.append("; ");
            }
            value.append(attributes[i].0.as_str());
            value.append("=");
            value.append(attributes[i].1.as_str());
            i = i + 1;
            assert(value@ =~= start + joined(seen, "; "@));
        }
        assert(texts.subrange(0, i as int) =~= texts);
        HttpHeader::new("Cookie".to_owned(), value)
    }

    /// Reads a cookie off the value of a header: its name and its value.
    /// Attributes are not read back: the cookie that comes out has none.
    pub fn from_header(header: &HttpHeader) -> (r: HttpCookie)
        ensures
            r@ == ({
                let (name, value) = parse_cookie(encode_utf8(header.value@));
                HttpCookieView {
                    name,
                    value,
                    secure: false,
                    domain: None,
                    path: None,
                    expires: None,
                    same_site: None,
                }
            }),
    {
        proof {
            lemma_separator_texts();
        }
        let (pair, _) = cut(header.value.as_str(), "; ");
        let (name, value) = cut(pair, "=");
        proof {
            lemma_text_of_bytes(name);
        }
        let value = match value {
            Some(value) => {
                proof {
                    lemma_text_of_bytes(value);
                }
                value.to_owned()
            },
            None => String::new(),
        };
        HttpCookie::new(name.to_owned(), value)
    }

    /// The cookie as a header line: see [`HttpCookie::to_header`].
    pub fn to_string(&self) -> (r: String)
        ensures
            r@ == crate::http_header::header_text(("Cookie"@, cookie_text(self@))),
    {
        self.to_header().to_string()
    }
}

/// The name and the value of a cookie that is written into a header are
/// read back from it, provided neither holds a semicolon-space and the
/// name holds no equals sign. The attributes are not read back.
pub proof fn lemma_cookie_round_trip(cookie: HttpCookieView)
    requires
        !has_match(encode_utf8(cookie.name), semicolon_space()),
        !has_match(encode_utf8(cookie.value), semicolon_space()),
        !has_match(encode_utf8(cookie.name), equals_sign()),
    ensures
        parse_cookie(encode_utf8(cookie_text(cookie))) == (cookie.name, cookie.value),
{
    let n = encode_utf8(cookie.name);
    let v = encode_utf8(cookie.value);
    let rest = encode_utf8(joined(attribute_texts(cookie_attributes(cookie)), "; "@));
    let pair = n + equals_sign() + v;
    lemma_separator_texts();
    let a = cookie.name + "="@;
    let b = a + cookie.value;
    let c = b + "; "@;
    lemma_encode_concat(cookie.name, "="@);
    lemma_encode_concat(a, cookie.value);
    lemma_encode_concat(b, "; "@);
    lemma_encode_concat(c, joined(attribute_texts(cookie_attributes(cookie)), "; "@));
    assert(encode_utf8(cookie_text(cookie)) == pair + semicolon_space() + rest);

    let guard = pair + semicolon_space().drop_last();
    if has_match(guard, semicolon_space()) {
        let i = choose|i: int| matches_at(guard, semicolon_space(), i);
        lemma_match_bytes(guard, semicolon_space(), i);
        assert(guard[i + 0] == 0x3bu8);
        assert(guard[i + 1] == 0x20u8);
        if i + 1 < n.len() {
            assert(guard[i + 0] == n[i + 0] && guard[i + 1] == n[i + 1]);
            lemma_match_bytes(n, semicolon_space(), i);
        } else if i + 1 == n.len() {
            assert(guard[i + 1] == 0x3du8);
        } else if i == n.len() {
            assert(guard[i + 0] == 0x3du8);
        } else if i + 1 < pair.len() {
            let from = n.len() + 1;
            assert(guard[i + 0] == v[i - from + 0] && guard[i + 1] == v[i - from + 1]);
            lemma_match_bytes(v, semicolon_space(), i - from);
        } else {
            assert(guard[i + 1] == 0x3bu8);
        }
    }
    lemma_cut_concat(pair, semicolon_space(), rest);
    assert(equals_sign().drop_last() =~= seq![]);
    assert(n + equals_sign().drop_last() =~= n);
    lemma_cut_concat(n, equals_sign(), v);
    encode_utf8_decode_utf8(cookie.name);
    encode_utf8_decode_utf8(cookie.value);
}

} // verus!
