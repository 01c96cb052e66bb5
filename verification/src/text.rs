//! Byte-level text utilities: pattern search, cutting at separators, and the
//! bridge between UTF-8 bytes and `str` values.

use vstd::prelude::*;
use vstd::string::*;
use vstd::utf8::*;

verus! {

/// `pat` occurs in `hay` at offset `i`.
pub open spec fn matches_at(hay: Seq<u8>, pat: Seq<u8>, i: int) -> bool {
    &&& 0 <= i
    &&& i + pat.len() <= hay.len()
    &&& hay.subrange(i, i + pat.len()) == pat
}

/// `pat` occurs somewhere in `hay`.
pub open spec fn has_match(hay: Seq<u8>, pat: Seq<u8>) -> bool {
    exists|i: int| matches_at(hay, pat, i)
}

/// `i` is the offset of the leftmost occurrence of `pat` in `hay`.
pub open spec fn is_first_match(hay: Seq<u8>, pat: Seq<u8>, i: int) -> bool {
    &&& matches_at(hay, pat, i)
    &&& forall|j: int| 0 <= j < i ==> !matches_at(hay, pat, j)
}

/// Offset of the leftmost occurrence of `pat` in `hay`; meaningful only when
/// `has_match(hay, pat)`.
pub open spec fn first_match(hay: Seq<u8>, pat: Seq<u8>) -> int {
    choose|i: int| is_first_match(hay, pat, i)
}

/// An occurrence at `i` with none before it is the one `first_match` names.
pub proof fn lemma_first_match_is(hay: Seq<u8>, pat: Seq<u8>, i: int)
    requires
        is_first_match(hay, pat, i),
    ensures
        has_match(hay, pat),
        first_match(hay, pat) == i,
{
    let k = first_match(hay, pat);
    assert(is_first_match(hay, pat, k));
    if k < i {
        assert(!matches_at(hay, pat, k));
    } else if i < k {
        assert(!matches_at(hay, pat, i));
    }
}

/// Whenever `pat` occurs in `hay`, `first_match` names its leftmost occurrence.
pub proof fn lemma_first_match_exists(hay: Seq<u8>, pat: Seq<u8>)
    requires
        has_match(hay, pat),
    ensures
        is_first_match(hay, pat, first_match(hay, pat)),
{
    let w = choose|i: int| matches_at(hay, pat, i);
    lemma_least_match(hay, pat, w, 0);
}

proof fn lemma_least_match(hay: Seq<u8>, pat: Seq<u8>, w: int, from: int)
    requires
        matches_at(hay, pat, w),
        0 <= from <= w,
        forall|j: int| 0 <= j < from ==> !matches_at(hay, pat, j),
    ensures
        exists|i: int| is_first_match(hay, pat, i),
    decreases w - from,
{
    if matches_at(hay, pat, from) {
        assert(is_first_match(hay, pat, from));
    } else {
        lemma_least_match(hay, pat, w, from + 1);
    }
}

/// An occurrence of a pattern, byte by byte.
pub proof fn lemma_match_bytes(hay: Seq<u8>, pat: Seq<u8>, i: int)
    ensures
        matches_at(hay, pat, i) <==> (0 <= i && i + pat.len() <= hay.len() && forall|k: int|
            0 <= k < pat.len() ==> #[trigger] hay[i + k] == pat[k]),
{
    if 0 <= i && i + pat.len() <= hay.len() {
        let sub = hay.subrange(i, i + pat.len());
        if matches_at(hay, pat, i) {
            assert forall|k: int| 0 <= k < pat.len() implies #[trigger] hay[i + k] == pat[k] by {
                assert(sub[k] == hay[i + k]);
            }
        }
        if forall|k: int| 0 <= k < pat.len() ==> #[trigger] hay[i + k] == pat[k] {
            assert forall|k: int| 0 <= k < pat.len() implies sub[k] == pat[k] by {
                assert(hay[i + k] == pat[k]);
            }
            assert(sub =~= pat);
        }
    }
}

/// A pattern that occurs in a part of a text occurs in the text.
pub proof fn lemma_match_in_part(text: Seq<u8>, from: int, to: int, pat: Seq<u8>)
    requires
        0 <= from <= to <= text.len(),
        has_match(text.subrange(from, to), pat),
    ensures
        has_match(text, pat),
{
    let part = text.subrange(from, to);
    let j = choose|j: int| matches_at(part, pat, j);
    assert(part.subrange(j, j + pat.len()) =~= text.subrange(from + j, from + j + pat.len()));
    assert(matches_at(text, pat, from + j));
}

/// Compares `pat` with the bytes of `hay` that start at `at`.
pub fn starts_at(hay: &[u8], pat: &[u8], at: usize) -> (r: bool)
    ensures
        r == matches_at(hay@, pat@, at as int),
{
    if pat.len() > hay.len() || at > hay.len() - pat.len() {
        return false;
    }
    let mut k: usize = 0;
    while k < pat.len()
        invariant
            k <= pat.len(),
            at + pat.len() <= hay.len(),
            forall|j: int| 0 <= j < k ==> hay@[at + j] == pat@[j],
        decreases pat.len() - k,
    {
        if hay[at + k] != pat[k] {
            proof {
                let sub = hay@.subrange(at as int, at + pat@.len());
                assert(sub[k as int] == hay@[at + k]);
            }
            return false;
        }
        k = k + 1;
    }
    assert(hay@.subrange(at as int, at + pat@.len()) =~= pat@);
    true
}

/// Finds the leftmost occurrence of `pat` in `hay`.
pub fn find_first(hay: &[u8], pat: &[u8]) -> (r: Option<usize>)
    ensures
        r is Some <==> has_match(hay@, pat@),
        r matches Some(i) ==> i as int == first_match(hay@, pat@) && is_first_match(
            hay@,
            pat@,
            i as int,
        ),
{
    if pat.len() > hay.len() {
        return None;
    }
    let last: usize = hay.len() - pat.len();
    let mut i: usize = 0;
    loop
        invariant
            i <= last,
            last == hay.len() - pat.len(),
            forall|j: int| 0 <= j < i ==> !matches_at(hay@, pat@, j),
        decreases last - i,
    {
        if starts_at(hay, pat, i) {
            proof {
                lemma_first_match_is(hay@, pat@, i as int);
            }
            return Some(i);
        }
        if i == last {
            return None;
        }
        i = i + 1;
    }
}

/// Tells whether two byte strings are equal.
pub fn bytes_eq(a: &[u8], b: &[u8]) -> (r: bool)
    ensures
        r == (a@ == b@),
{
    if a.len() != b.len() {
        return false;
    }
    let mut k: usize = 0;
    while k < a.len()
        invariant
            k <= a.len(),
            a.len() == b.len(),
            forall|j: int| 0 <= j < k ==> a@[j] == b@[j],
        decreases a.len() - k,
    {
        if a[k] != b[k] {
            return false;
        }
        k = k + 1;
    }
    assert(a@ =~= b@);
    true
}

/// The bytes of `text` that stand before the leftmost occurrence of `sep`;
/// all of `text` when `sep` does not occur.
pub open spec fn before(text: Seq<u8>, sep: Seq<u8>) -> Seq<u8> {
    if has_match(text, sep) {
        text.subrange(0, first_match(text, sep))
    } else {
        text
    }
}

/// The bytes of `text` that follow the leftmost occurrence of `sep`, if `sep`
/// occurs at all.
pub open spec fn after(text: Seq<u8>, sep: Seq<u8>) -> Option<Seq<u8>> {
    if has_match(text, sep) {
        Some(text.subrange(first_match(text, sep) + sep.len(), text.len() as int))
    } else {
        None
    }
}

/// The pieces that `text` falls into when it is cut at every occurrence of
/// `sep`, taken from the left and without overlap. There is always at least
/// one piece; `sep` is meant to be non-empty.
pub open spec fn split(text: Seq<u8>, sep: Seq<u8>) -> Seq<Seq<u8>>
    decreases text.len(),
    via split_decreases
{
    if sep.len() > 0 && has_match(text, sep) {
        seq![before(text, sep)] + split(after(text, sep)->0, sep)
    } else {
        seq![text]
    }
}

#[via_fn]
proof fn split_decreases(text: Seq<u8>, sep: Seq<u8>) {
    if sep.len() > 0 && has_match(text, sep) {
        lemma_first_match_exists(text, sep);
    }
}

/// How `split` unfolds: the first piece is what stands before the first
/// separator, and the other pieces are those of what follows it.
pub proof fn lemma_split_unfold(text: Seq<u8>, sep: Seq<u8>)
    requires
        sep.len() > 0,
    ensures
        split(text, sep).len() >= 1,
        split(text, sep)[0] == before(text, sep),
        match after(text, sep) {
            Some(rest) => split(text, sep).skip(1) == split(rest, sep),
            None => split(text, sep).len() == 1,
        },
{
    if has_match(text, sep) {
        let rest = after(text, sep)->0;
        assert(split(text, sep).skip(1) =~= split(rest, sep));
    }
}

/// What stands before the first occurrence of a separator holds no
/// occurrence of it, provided the separator is not empty.
pub proof fn lemma_before_has_no_match(text: Seq<u8>, sep: Seq<u8>)
    requires
        sep.len() > 0,
    ensures
        !has_match(before(text, sep), sep),
{
    if has_match(text, sep) {
        lemma_first_match_exists(text, sep);
        let at = first_match(text, sep);
        let head = text.subrange(0, at);
        if has_match(head, sep) {
            let j = choose|j: int| matches_at(head, sep, j);
            assert(head.subrange(j, j + sep.len()) =~= text.subrange(j, j + sep.len()));
            assert(matches_at(text, sep, j));
        }
    }
}

/// Cutting a text that was put together from a front part, a separator and
/// a back part gives the two parts back, provided the separator cannot be
/// found earlier: it does not occur in the front part followed by all but
/// the last byte of the separator itself.
pub proof fn lemma_cut_concat(front: Seq<u8>, sep: Seq<u8>, back: Seq<u8>)
    requires
        sep.len() > 0,
        !has_match(front + sep.drop_last(), sep),
    ensures
        has_match(front + sep + back, sep),
        first_match(front + sep + back, sep) == front.len(),
        before(front + sep + back, sep) == front,
        after(front + sep + back, sep) == Some(back),
{
    let text = front + sep + back;
    let guard = front + sep.drop_last();
    let at = front.len() as int;
    assert(text.subrange(at, at + sep.len()) =~= sep);
    assert forall|j: int| 0 <= j < front.len() implies !matches_at(text, sep, j) by {
        if matches_at(text, sep, j) {
            assert(guard.subrange(j, j + sep.len()) =~= text.subrange(j, j + sep.len()));
            assert(matches_at(guard, sep, j));
        }
    }
    lemma_first_match_is(text, sep, at);
    assert(text.subrange(0, at) =~= front);
    assert(text.subrange(at + sep.len(), text.len() as int) =~= back);
}

/// The text that `bytes` encode, for well-formed UTF-8.
pub open spec fn text_of(bytes: Seq<u8>) -> Seq<char> {
    decode_utf8(bytes)
}

/// The text of a text that may be absent.
pub open spec fn option_text(text: Option<String>) -> Option<Seq<char>> {
    match text {
        Some(text) => Some(text@),
        None => None,
    }
}

/// A text is the one that its own bytes encode.
pub proof fn lemma_text_of_bytes(s: &str)
    ensures
        text_of(s.spec_bytes()) == s@,
{
    encode_utf8_decode_utf8(s@);
}

/// The UTF-8 form of two texts written one after the other is the UTF-8
/// form of the first followed by that of the second.
pub proof fn lemma_encode_concat(a: Seq<char>, b: Seq<char>)
    ensures
        encode_utf8(a + b) == encode_utf8(a) + encode_utf8(b),
    decreases a.len(),
{
    if a.len() == 0 {
        assert(a + b =~= b);
        assert(encode_utf8(a) + encode_utf8(b) =~= encode_utf8(b));
    } else {
        assert((a + b).drop_first() =~= a.drop_first() + b);
        assert((a + b)[0] == a[0]);
        lemma_encode_concat(a.drop_first(), b);
        assert(encode_scalar(a[0] as u32) + (encode_utf8(a.drop_first()) + encode_utf8(b))
            =~= (encode_scalar(a[0] as u32) + encode_utf8(a.drop_first())) + encode_utf8(b));
    }
}

/// In well-formed UTF-8 that begins with a well-formed prefix, the prefix
/// ends on a character boundary.
pub proof fn lemma_prefix_ends_on_boundary(prefix: Seq<u8>, rest: Seq<u8>)
    requires
        valid_utf8(prefix),
        valid_utf8(prefix + rest),
    ensures
        is_char_boundary(prefix + rest, prefix.len() as int),
    decreases prefix.len(),
{
    let whole = prefix + rest;
    if prefix.len() > 0 {
        assert(whole[0] == prefix[0]);
        assert(valid_first_scalar(prefix));
        let n = length_of_first_scalar(prefix);
        assert(n == length_of_first_scalar(whole));
        assert(n <= prefix.len());
        assert(pop_first_scalar(whole) =~= pop_first_scalar(prefix) + rest);
        lemma_prefix_ends_on_boundary(pop_first_scalar(prefix), rest);
    }
}

/// A well-formed, non-empty pattern can only occur in well-formed text
/// between two character boundaries (an empty one is looked at where it is
/// first found, at offset 0).
pub proof fn lemma_match_on_boundaries(text: Seq<u8>, pat: Seq<u8>, i: int)
    requires
        valid_utf8(text),
        valid_utf8(pat),
        matches_at(text, pat, i),
        pat.len() > 0 || i == 0,
    ensures
        is_char_boundary(text, i),
        valid_utf8(text.subrange(0, i)),
        valid_utf8(text.subrange(i, text.len() as int)),
        is_char_boundary(text.subrange(i, text.len() as int), pat.len() as int),
        valid_utf8(text.subrange(i + pat.len(), text.len() as int)),
{
    broadcast use group_utf8_lib;

    if pat.len() > 0 {
        assert(text.subrange(i, i + pat.len())[0] == text[i]);
        assert(valid_first_scalar(pat));
        assert(is_char_boundary(text, i));
    }
    let tail = text.subrange(i, text.len() as int);
    let rest = text.subrange(i + pat.len(), text.len() as int);
    assert(is_char_boundary(text, i));
    valid_utf8_split(text, i);
    assert(tail =~= pat + rest);
    lemma_prefix_ends_on_boundary(pat, rest);
    assert(tail.subrange(pat.len() as int, tail.len() as int) =~= rest);
}

/// `std::str::from_utf8`: the bytes are accepted exactly when they are
/// well-formed UTF-8, and the text handed back is the one they encode.
#[verifier::external_body]
pub(crate) fn utf8_text(bytes: &[u8]) -> (r: Option<&str>)
    ensures
        r is Some <==> valid_utf8(bytes@),
        r matches Some(s) ==> s.spec_bytes() == bytes@,
{
    std::str::from_utf8(bytes).ok()
}

/// Cuts `text` at the leftmost occurrence of `sep`: the part before it, and
/// the part after it when `sep` occurs.
pub fn cut<'a>(text: &'a str, sep: &str) -> (r: (&'a str, Option<&'a str>))
    ensures
        r.0.spec_bytes() == before(text.spec_bytes(), sep.spec_bytes()),
        match r.1 {
            Some(rest) => after(text.spec_bytes(), sep.spec_bytes()) == Some(rest.spec_bytes()),
            None => after(text.spec_bytes(), sep.spec_bytes()) is None,
        },
{
    broadcast use group_utf8_lib;

    let pat = sep.as_bytes();
    match find_first(text.as_bytes(), pat) {
        None => (text, None),
        Some(i) => {
            proof {
                if pat@.len() == 0 {
                    assert(matches_at(text.spec_bytes(), pat@, 0)) by {
                        assert(text.spec_bytes().subrange(0, 0) =~= pat@);
                    }
                }
                lemma_match_on_boundaries(text.spec_bytes(), pat@, i as int);
            }
            let (head, tail) = text.split_at(i);
            let (_, rest) = tail.split_at(pat.len());
            (head, Some(rest))
        },
    }
}

/// Tells whether two texts are equal, character for character.
pub fn text_eq(a: &str, b: &str) -> (r: bool)
    ensures
        r == (a@ == b@),
{
    proof {
        encode_utf8_decode_utf8(a@);
        encode_utf8_decode_utf8(b@);
    }
    bytes_eq(a.as_bytes(), b.as_bytes())
}

/// `parts` written one after the other with `sep` between each two.
pub open spec fn joined(parts: Seq<Seq<char>>, sep: Seq<char>) -> Seq<char>
    decreases parts.len(),
{
    if parts.len() == 0 {
        seq![]
    } else if parts.len() == 1 {
        parts[0]
    } else {
        joined(parts.drop_last(), sep) + sep + parts.last()
    }
}

/// The two bytes that end a line: carriage return, line feed.
pub open spec fn crlf() -> Seq<u8> {
    seq![0x0du8, 0x0au8]
}

/// The four bytes that end a message head: an empty line after a line.
pub open spec fn head_end() -> Seq<u8> {
    seq![0x0du8, 0x0au8, 0x0du8, 0x0au8]
}

/// The one byte that parts the tokens of a request line: a space.
pub open spec fn space() -> Seq<u8> {
    seq![0x20u8]
}

/// The two bytes that part a header's name from its value: colon, space.
pub open spec fn colon_space() -> Seq<u8> {
    seq![0x3au8, 0x20u8]
}

/// The two bytes that part a cookie's pair from its attributes:
/// semicolon, space.
pub open spec fn semicolon_space() -> Seq<u8> {
    seq![0x3bu8, 0x20u8]
}

/// The one byte that parts a cookie's name from its value: an equals sign.
pub open spec fn equals_sign() -> Seq<u8> {
    seq![0x3du8]
}

/// The separators as bytes are the UTF-8 form of the separators as text.
pub proof fn lemma_separator_texts()
    ensures
        encode_utf8("; "@) == semicolon_space(),
        encode_utf8("="@) == equals_sign(),
        encode_utf8("\r\n"@) == crlf(),
        encode_utf8(" "@) == space(),
        encode_utf8(": "@) == colon_space(),
        encode_utf8("\r\n\r\n"@) == head_end(),
{
    reveal_strlit("; ");
    reveal_strlit("=");
    is_ascii_chars_encode_utf8("; "@);
    is_ascii_chars_encode_utf8("="@);
    assert(encode_utf8("; "@) =~= semicolon_space());
    assert(encode_utf8("="@) =~= equals_sign());
    reveal_strlit("\r\n");
    reveal_strlit(" ");
    reveal_strlit(": ");
    reveal_strlit("\r\n\r\n");
    is_ascii_chars_encode_utf8("\r\n"@);
    is_ascii_chars_encode_utf8(" "@);
    is_ascii_chars_encode_utf8(": "@);
    is_ascii_chars_encode_utf8("\r\n\r\n"@);
    assert(encode_utf8("\r\n\r\n"@) =~= head_end());
    assert(encode_utf8("\r\n"@) =~= crlf());
    assert(encode_utf8(" "@) =~= space());
    assert(encode_utf8(": "@) =~= colon_space());
}

} // verus!
