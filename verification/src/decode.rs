//! Wire codec, decode side: turning the raw bytes of one connection into a
//! structured request.
//!
//! The header block is everything up to and including the four-byte terminator
//! `\r\n\r\n`; the reader accumulates whole lines and asks
//! [`header_block_complete`] after each one. The block is then parsed into a
//! request line (method, path, version, separated by single spaces) and at
//! most [`MAX_HEADERS`] header lines, each a blank-free name, a colon, and a
//! value stripped of leading and trailing spaces and tabs. Every field must be
//! valid UTF-8, the method and version tokens must be recognized, and the
//! body — read separately, and only when a `Content-Length` header announces
//! it — must be valid UTF-8 as well. Anything else is a [`MalformedRequest`].

use vstd::prelude::*;
use vstd::slice::{slice_subrange, slice_to_vec};
use vstd::utf8::{decode_utf8, valid_utf8};
use crate::message::{
    spec_method_of, spec_version_of, headers_view, method_of, version_of, MalformedRequest,
    Request, RequestView,
};

verus! {

/// Carriage return.
pub const CR: u8 = 13;

/// Line feed.
pub const LF: u8 = 10;

/// Space, the request-line separator.
pub const SP: u8 = 32;

/// Horizontal tab, allowed as optional blank before a header value.
pub const HT: u8 = 9;

/// The colon ending a header name.
pub const COLON: u8 = 58;

/// The most header fields a request may carry.
pub const MAX_HEADERS: usize = 16;

/// The four-byte header terminator stands at position `i` of `s`.
pub open spec fn is_terminator_at(s: Seq<u8>, i: int) -> bool {
    &&& 0 <= i
    &&& i + 4 <= s.len()
    &&& s[i] == CR
    &&& s[i + 1] == LF
    &&& s[i + 2] == CR
    &&& s[i + 3] == LF
}

/// The buffered bytes end with the header terminator.
pub open spec fn ends_with_terminator(s: Seq<u8>) -> bool {
    s.len() >= 4 && is_terminator_at(s, s.len() - 4)
}

/// Decision point of the header-read loop: after appending one line, the
/// accumulated bytes form a complete header block exactly when their last four
/// bytes are the terminator.
pub fn header_block_complete(buf: &Vec<u8>) -> (r: bool)
    ensures
        r == ends_with_terminator(buf@),
{
    let n = buf.len();
    n >= 4 && buf[n - 4] == CR && buf[n - 3] == LF && buf[n - 2] == CR && buf[n - 1] == LF
}

/// The lowest index at or after `from` holding byte `b`, if any.
pub open spec fn spec_find(s: Seq<u8>, b: u8, from: int) -> Option<int>
    decreases s.len() - from,
{
    if from < 0 || from >= s.len() {
        None
    } else if s[from] == b {
        Some(from)
    } else {
        spec_find(s, b, from + 1)
    }
}

/// The lowest index at or after `from` where a CRLF pair begins, if any.
pub open spec fn spec_find_crlf(s: Seq<u8>, from: int) -> Option<int>
    decreases s.len() - from,
{
    if from < 0 || from + 2 > s.len() {
        None
    } else if s[from] == CR && s[from + 1] == LF {
        Some(from)
    } else {
        spec_find_crlf(s, from + 1)
    }
}

/// What a found CRLF index satisfies: in range with room for the pair, holding it.
pub proof fn lemma_spec_find_crlf_bounds(s: Seq<u8>, from: int)
    ensures
        match spec_find_crlf(s, from) {
            Some(i) => from <= i && i + 2 <= s.len() && s[i] == CR && s[i + 1] == LF,
            None => true,
        },
    decreases s.len() - from,
{
    if 0 <= from && from + 2 <= s.len() && !(s[from] == CR && s[from + 1] == LF) {
        lemma_spec_find_crlf_bounds(s, from + 1);
    }
}

/// The first index in `[from, end)` that is not a space or tab, or `end`.
pub open spec fn spec_skip_blanks(s: Seq<u8>, from: int, end: int) -> int
    decreases end - from,
{
    if 0 <= from < end <= s.len() && (s[from] == SP || s[from] == HT) {
        spec_skip_blanks(s, from + 1, end)
    } else {
        from
    }
}

/// No byte in `[from, end)` is a space or tab.
pub open spec fn blank_free(s: Seq<u8>, from: int, end: int) -> bool {
    forall|j: int| from <= j < end ==> (#[trigger] s[j]) != SP && s[j] != HT
}

/// The end of `[from, end)` after dropping trailing spaces and tabs.
pub open spec fn spec_trim_blanks_end(s: Seq<u8>, from: int, end: int) -> int
    decreases end - from,
{
    if 0 <= from < end <= s.len() && (s[end - 1] == SP || s[end - 1] == HT) {
        spec_trim_blanks_end(s, from, end - 1)
    } else {
        end
    }
}

/// The byte-level fields of a parsed header block, before any UTF-8 decoding.
#[verifier::ext_equal]
pub struct RawHeadView {
    pub method: Seq<u8>,
    pub path: Seq<u8>,
    pub version: Seq<u8>,
    pub headers: Seq<(Seq<u8>, Seq<u8>)>,
}

/// Parses the header lines from position `from`, having already taken `count`
/// of them. Each line is a nonempty name free of spaces and tabs, a colon, and
/// a value with leading and trailing blanks stripped; a bare CRLF ends the
/// block and must end the buffer. More than [`MAX_HEADERS`] lines, or any line
/// that does not fit this shape, fails the parse.
pub open spec fn spec_parse_header_lines(s: Seq<u8>, from: int, count: int) -> Option<
    Seq<(Seq<u8>, Seq<u8>)>,
>
    decreases s.len() - from,
    via spec_parse_header_lines_decreases
{
    if from < 0 || from + 2 > s.len() {
        None
    } else if s[from] == CR && s[from + 1] == LF {
        if from + 2 == s.len() {
            Some(Seq::empty())
        } else {
            None
        }
    } else if count >= MAX_HEADERS {
        None
    } else {
        match spec_find_crlf(s, from) {
            None => None,
            Some(e) => match spec_find(s, COLON, from) {
                None => None,
                Some(c) => if from < c && c < e && blank_free(s, from, c) {
                    let name = s.subrange(from, c);
                    let v0 = spec_skip_blanks(s, c + 1, e);
                    let v1 = spec_trim_blanks_end(s, v0, e);
                    let value = s.subrange(v0, v1);
                    match spec_parse_header_lines(s, e + 2, count + 1) {
                        None => None,
                        Some(rest) => Some(seq![(name, value)] + rest),
                    }
                } else {
                    None
                },
            },
        }
    }
}

#[via_fn]
proof fn spec_parse_header_lines_decreases(s: Seq<u8>, from: int, count: int) {
    lemma_spec_find_crlf_bounds(s, from);
}

/// Parses a whole header block: a request line of exactly three nonempty
/// space-separated tokens ending in CRLF, then the header lines. The block
/// must end exactly at the terminator.
pub open spec fn spec_parse_head_bytes(s: Seq<u8>) -> Option<RawHeadView> {
    match spec_find_crlf(s, 0) {
        None => None,
        Some(e) => match spec_find(s, SP, 0) {
            None => None,
            Some(sp1) => match spec_find(s, SP, sp1 + 1) {
                None => None,
                Some(sp2) => if 0 < sp1 && sp1 + 1 < sp2 && sp2 + 1 < e {
                    match spec_parse_header_lines(s, e + 2, 0) {
                        None => None,
                        Some(hs) => Some(
                            RawHeadView {
                                method: s.subrange(0, sp1),
                                path: s.subrange(sp1 + 1, sp2),
                                version: s.subrange(sp2 + 1, e),
                                headers: hs,
                            },
                        ),
                    }
                } else {
                    None
                },
            },
        },
    }
}

/// Both fields of one header pair are valid UTF-8.
pub open spec fn header_fields_utf8(h: (Seq<u8>, Seq<u8>)) -> bool {
    valid_utf8(h.0) && valid_utf8(h.1)
}

/// Every textual field of the raw head is valid UTF-8.
pub open spec fn all_fields_utf8(raw: RawHeadView) -> bool {
    &&& valid_utf8(raw.method)
    &&& valid_utf8(raw.path)
    &&& valid_utf8(raw.version)
    &&& forall|i: int| 0 <= i < raw.headers.len() ==> #[trigger] header_fields_utf8(raw.headers[i])
}

/// The headers of a raw head, each field decoded from UTF-8.
pub open spec fn decoded_headers(raw: Seq<(Seq<u8>, Seq<u8>)>) -> Seq<(Seq<char>, Seq<char>)> {
    raw.map_values(|h: (Seq<u8>, Seq<u8>)| (decode_utf8(h.0), decode_utf8(h.1)))
}

/// The request (with an empty body, to be attached separately) that a header
/// block decodes to: the parsed fields, each valid UTF-8, with a recognized
/// method and version token.
pub open spec fn spec_decode_head(s: Seq<u8>) -> Option<RequestView> {
    match spec_parse_head_bytes(s) {
        None => None,
        Some(raw) => if all_fields_utf8(raw) {
            match (spec_method_of(decode_utf8(raw.method)), spec_version_of(
                decode_utf8(raw.version),
            )) {
                (Some(m), Some(v)) => Some(
                    RequestView {
                        method: m,
                        path: decode_utf8(raw.path),
                        version: v,
                        headers: decoded_headers(raw.headers),
                        body: Seq::empty(),
                    },
                ),
                _ => None,
            }
        } else {
            None
        },
    }
}

/// Relies on String::from_utf8: it returns the decoded string exactly when the
/// bytes are valid UTF-8, as vstd's UTF-8 model states it.
#[verifier::external_body]
fn utf8_to_string(bytes: Vec<u8>) -> (r: Option<String>)
    ensures
        r is Some <==> valid_utf8(bytes@),
        r matches Some(s) ==> s@ == decode_utf8(bytes@),
{
    String::from_utf8(bytes).ok()
}

/// Finds the lowest index at or after `from` holding `b`.
fn find_byte(s: &[u8], b: u8, from: usize) -> (r: Option<usize>)
    ensures
        match r {
            Some(i) => from <= i < s@.len() && spec_find(s@, b, from as int) == Some(i as int),
            None => spec_find(s@, b, from as int) is None,
        },
{
    let mut i = from;
    while i < s.len()
        invariant
            from <= i,
            spec_find(s@, b, from as int) == spec_find(s@, b, i as int),
        decreases s@.len() - i,
    {
        if *vstd::slice::slice_index_get(s, i) == b {
            return Some(i);
        }
        i += 1;
    }
    None
}

/// Finds the lowest index at or after `from` where a CRLF pair begins.
fn find_crlf(s: &[u8], from: usize) -> (r: Option<usize>)
    ensures
        match r {
            Some(i) => from <= i && i + 2 <= s@.len() && spec_find_crlf(s@, from as int) == Some(
                i as int,
            ),
            None => spec_find_crlf(s@, from as int) is None,
        },
{
    let mut i = from;
    while i < s.len() && i + 1 < s.len()
        invariant
            from <= i,
            spec_find_crlf(s@, from as int) == spec_find_crlf(s@, i as int),
        decreases s@.len() - i,
    {
        if *vstd::slice::slice_index_get(s, i) == CR && *vstd::slice::slice_index_get(s, i + 1)
            == LF {
            return Some(i);
        }
        i += 1;
    }
    None
}

/// Skips spaces and tabs within `[from, end)`.
fn skip_blanks(s: &[u8], from: usize, end: usize) -> (r: usize)
    requires
        from <= end <= s@.len(),
    ensures
        r as int == spec_skip_blanks(s@, from as int, end as int),
        from <= r <= end,
{
    let mut i = from;
    while i < end && (*vstd::slice::slice_index_get(s, i) == SP || *vstd::slice::slice_index_get(
        s,
        i,
    ) == HT)
        invariant
            from <= i <= end <= s@.len(),
            spec_skip_blanks(s@, from as int, end as int) == spec_skip_blanks(
                s@,
                i as int,
                end as int,
            ),
        decreases end - i,
    {
        i += 1;
    }
    i
}

/// Decides whether `[from, end)` holds no space or tab.
fn blank_free_range(s: &[u8], from: usize, end: usize) -> (r: bool)
    requires
        from <= end <= s@.len(),
    ensures
        r == blank_free(s@, from as int, end as int),
{
    let mut j = from;
    while j < end
        invariant
            from <= j <= end <= s@.len(),
            forall|k: int| from <= k < j ==> (#[trigger] s@[k]) != SP && s@[k] != HT,
        decreases end - j,
    {
        let b = *vstd::slice::slice_index_get(s, j);
        if b == SP || b == HT {
            return false;
        }
        j += 1;
    }
    true
}

/// Drops trailing spaces and tabs from `[from, end)`.
fn trim_blanks_end(s: &[u8], from: usize, end: usize) -> (r: usize)
    requires
        from <= end <= s@.len(),
    ensures
        r as int == spec_trim_blanks_end(s@, from as int, end as int),
        from <= r <= end,
{
    let mut k = end;
    while k > from && (*vstd::slice::slice_index_get(s, k - 1) == SP
        || *vstd::slice::slice_index_get(s, k - 1) == HT)
        invariant
            from <= k <= end <= s@.len(),
            spec_trim_blanks_end(s@, from as int, end as int) == spec_trim_blanks_end(
                s@,
                from as int,
                k as int,
            ),
        decreases k,
    {
        k -= 1;
    }
    k
}

/// The view of byte-level header pairs.
pub open spec fn raw_headers_view(hs: Seq<(Vec<u8>, Vec<u8>)>) -> Seq<(Seq<u8>, Seq<u8>)> {
    hs.map_values(|h: (Vec<u8>, Vec<u8>)| (h.0@, h.1@))
}

/// Parses the header lines from `from`, mirroring [`spec_parse_header_lines`].
fn parse_header_lines(s: &[u8], from: usize, count: usize) -> (r: Option<Vec<(Vec<u8>, Vec<u8>)>>)
    ensures
        match r {
            Some(hs) => spec_parse_header_lines(s@, from as int, count as int) == Some(
                raw_headers_view(hs@),
            ),
            None => spec_parse_header_lines(s@, from as int, count as int) is None,
        },
    decreases s@.len() - from,
{
    if s.len() < 2 || from > s.len() - 2 {
        return None;
    }
    if *vstd::slice::slice_index_get(s, from) == CR && *vstd::slice::slice_index_get(s, from + 1)
        == LF {
        if from + 2 == s.len() {
            let hs: Vec<(Vec<u8>, Vec<u8>)> = Vec::new();
            proof {
                assert(raw_headers_view(hs@) =~= Seq::<(Seq<u8>, Seq<u8>)>::empty());
            }
            return Some(hs);
        } else {
            return None;
        }
    }
    if count >= MAX_HEADERS {
        return None;
    }
    let e = match find_crlf(s, from) {
        Some(e) => e,
        None => {
            return None;
        },
    };
    let c = match find_byte(s, COLON, from) {
        Some(c) => c,
        None => {
            return None;
        },
    };
    if !(from < c && c < e) {
        return None;
    }
    if !blank_free_range(s, from, c) {
        return None;
    }
    let name = slice_to_vec(slice_subrange(s, from, c));
    let v0 = skip_blanks(s, c + 1, e);
    let v1 = trim_blanks_end(s, v0, e);
    let value = slice_to_vec(slice_subrange(s, v0, v1));
    match parse_header_lines(s, e + 2, count + 1) {
        None => None,
        Some(mut rest) => {
            let ghost tail = raw_headers_view(rest@);
            rest.insert(0, (name, value));
            proof {
                assert(raw_headers_view(rest@) =~= seq![(name@, value@)] + tail);
            }
            Some(rest)
        },
    }
}

/// Decodes a complete header block into a request with an empty body: the
/// request line's method, path and version, and the header fields in wire
/// order. Returns `Ok` exactly when the block parses, every field is valid
/// UTF-8, and the method and version tokens are recognized; any other block is
/// a framing failure.
pub fn parse_head(buf: &Vec<u8>) -> (r: Result<Request, MalformedRequest>)
    ensures
        match r {
            Ok(req) => spec_decode_head(buf@) == Some(req@),
            Err(e) => spec_decode_head(buf@) is None && e == MalformedRequest::Framing,
        },
{
    let s = buf.as_slice();
    let n = s.len();
    let e = match find_crlf(s, 0) {
        Some(e) => e,
        None => {
            return Err(MalformedRequest::Framing);
        },
    };
    let sp1 = match find_byte(s, SP, 0) {
        Some(i) => i,
        None => {
            return Err(MalformedRequest::Framing);
        },
    };
    let sp2 = match find_byte(s, SP, sp1 + 1) {
        Some(i) => i,
        None => {
            return Err(MalformedRequest::Framing);
        },
    };
    if !(0 < sp1 && sp1 + 1 < sp2 && sp2 + 1 < e) {
        return Err(MalformedRequest::Framing);
    }
    let raw_headers = match parse_header_lines(s, e + 2, 0) {
        Some(hs) => hs,
        None => {
            return Err(MalformedRequest::Framing);
        },
    };
    let ghost raw = RawHeadView {
        method: buf@.subrange(0, sp1 as int),
        path: buf@.subrange(sp1 + 1, sp2 as int),
        version: buf@.subrange(sp2 + 1, e as int),
        headers: raw_headers_view(raw_headers@),
    };
    proof {
        assert(spec_parse_head_bytes(buf@) == Some(raw));
    }
    let method_str = match utf8_to_string(slice_to_vec(slice_subrange(s, 0, sp1))) {
        Some(t) => t,
        None => {
            return Err(MalformedRequest::Framing);
        },
    };
    let path_str = match utf8_to_string(slice_to_vec(slice_subrange(s, sp1 + 1, sp2))) {
        Some(t) => t,
        None => {
            return Err(MalformedRequest::Framing);
        },
    };
    let version_str = match utf8_to_string(slice_to_vec(slice_subrange(s, sp2 + 1, e))) {
        Some(t) => t,
        None => {
            return Err(MalformedRequest::Framing);
        },
    };
    let method = match method_of(&method_str) {
        Some(m) => m,
        None => {
            return Err(MalformedRequest::Framing);
        },
    };
    let version = match version_of(&version_str) {
        Some(v) => v,
        None => {
            return Err(MalformedRequest::Framing);
        },
    };
    let mut headers: Vec<(String, String)> = Vec::new();
    let mut remaining = raw_headers;
    let ghost all_raw = raw_headers_view(remaining@);
    let total = remaining.len();
    proof {
        assert(all_raw.len() == total);
    }
    let mut taken: usize = 0;
    while remaining.len() > 0
        invariant
            all_raw.len() <= usize::MAX,
            taken + remaining@.len() == all_raw.len(),
            raw_headers_view(remaining@) =~= all_raw.skip(taken as int),
            spec_parse_head_bytes(buf@) is Some,
            spec_parse_head_bytes(buf@)->0.headers == all_raw,
            headers@.len() == taken,
            forall|i: int| 0 <= i < taken ==> #[trigger] header_fields_utf8(all_raw[i]),
            headers_view(headers@) =~= decoded_headers(all_raw.take(taken as int)),
        decreases remaining@.len(),
    {
        let ghost rem0 = remaining@;
        let (nb, vb) = remaining.remove(0);
        proof {
            assert((nb@, vb@) == raw_headers_view(rem0)[0]);
            assert(raw_headers_view(rem0)[0] == all_raw[taken as int]);
        }
        let name = match utf8_to_string(nb) {
            Some(t) => t,
            None => {
                proof {
                    let w = spec_parse_head_bytes(buf@)->0;
                    assert(taken < all_raw.len());
                    assert(!header_fields_utf8(w.headers[taken as int]));
                    assert(!all_fields_utf8(w));
                    assert(spec_decode_head(buf@) is None);
                }
                return Err(MalformedRequest::Framing);
            },
        };
        let value = match utf8_to_string(vb) {
            Some(t) => t,
            None => {
                proof {
                    let w = spec_parse_head_bytes(buf@)->0;
                    assert(taken < all_raw.len());
                    assert(!header_fields_utf8(w.headers[taken as int]));
                    assert(!all_fields_utf8(w));
                    assert(spec_decode_head(buf@) is None);
                }
                return Err(MalformedRequest::Framing);
            },
        };
        let ghost hdrs0 = headers@;
        headers.push((name, value));
        taken += 1;
        proof {
            let t = taken as int;
            assert(header_fields_utf8(all_raw[t - 1]));
            assert forall|i: int| 0 <= i < t implies #[trigger] headers_view(headers@)[i]
                == decoded_headers(all_raw.take(t))[i] by {
                if i < t - 1 {
                    assert(headers_view(hdrs0)[i] == decoded_headers(all_raw.take(t - 1))[i]);
                    assert(headers_view(headers@)[i] == headers_view(hdrs0)[i]);
                    assert(all_raw.take(t - 1)[i] == all_raw.take(t)[i]);
                } else {
                    assert(headers_view(headers@)[i] == (name@, value@));
                    assert(all_raw.take(t)[i] == all_raw[i]);
                }
            }
            assert(headers_view(headers@) =~= decoded_headers(all_raw.take(t)));
            assert forall|i: int| 0 <= i < remaining@.len() implies #[trigger] raw_headers_view(
                remaining@,
            )[i] == all_raw.skip(t)[i] by {
                assert(remaining@[i] == rem0[i + 1]);
                assert(raw_headers_view(rem0)[i + 1] == all_raw.skip(t - 1)[i + 1]);
                assert(all_raw.skip(t - 1)[i + 1] == all_raw[t + i]);
            }
            assert(raw_headers_view(remaining@) =~= all_raw.skip(t));
        }
    }
    let req = Request { method, path: path_str, version, headers, body: String::new() };
    proof {
        assert(all_raw.take(taken as int) =~= all_raw);
        assert(all_fields_utf8(raw));
        assert(spec_method_of(decode_utf8(raw.method)) == Some(req.method));
        assert(spec_version_of(decode_utf8(raw.version)) == Some(req.version));
        assert(req@.headers =~= decoded_headers(raw.headers));
        assert(spec_decode_head(buf@) is Some);
        assert(req@ =~= spec_decode_head(buf@)->0);
    }
    Ok(req)
}

/// The value of the first `Content-Length` header, if any is present. The
/// match is exact and case-sensitive, and only the first occurrence governs
/// the body length.
pub open spec fn spec_content_length_header(hs: Seq<(Seq<char>, Seq<char>)>) -> Option<Seq<char>>
    decreases hs.len(),
{
    if hs.len() == 0 {
        None
    } else if hs[0].0 == "Content-Length"@ {
        Some(hs[0].1)
    } else {
        spec_content_length_header(hs.drop_first())
    }
}

/// A decimal digit.
pub open spec fn is_digit(c: char) -> bool {
    '0' as u32 <= c as u32 && c as u32 <= '9' as u32
}

/// Every character of the token is a decimal digit.
pub open spec fn all_digits(s: Seq<char>) -> bool {
    forall|i: int| 0 <= i < s.len() ==> is_digit(#[trigger] s[i])
}

/// The numeric value of one digit.
pub open spec fn digit_value(c: char) -> int {
    c as u32 - '0' as u32
}

/// The value an all-digit token denotes, most significant digit first.
pub open spec fn dec_value(s: Seq<char>) -> int
    decreases s.len(),
{
    if s.len() == 0 {
        0
    } else {
        dec_value(s.drop_last()) * 10 + digit_value(s.last())
    }
}

/// The non-negative decimal integer a token denotes, when it is nonempty, all
/// digits, and fits the machine's size type.
pub open spec fn spec_parse_decimal(s: Seq<char>) -> Option<usize> {
    if s.len() > 0 && all_digits(s) && dec_value(s) <= usize::MAX as int {
        Some(dec_value(s) as usize)
    } else {
        None
    }
}

/// An all-digit token's value never shrinks when digits are appended.
proof fn lemma_dec_value_take_le(s: Seq<char>, i: int)
    requires
        all_digits(s),
        0 <= i <= s.len(),
    ensures
        0 <= dec_value(s.take(i)) <= dec_value(s),
    decreases s.len() - i,
{
    if i == s.len() {
        assert(s.take(i) =~= s);
        lemma_dec_value_nonneg(s.take(i));
    } else {
        lemma_dec_value_take_le(s, i + 1);
        assert(s.take(i + 1).drop_last() =~= s.take(i));
        lemma_dec_value_nonneg(s.take(i));
        assert(is_digit(s[i]));
        assert(dec_value(s.take(i + 1)) == dec_value(s.take(i)) * 10 + digit_value(s[i]));
    }
}

/// An all-digit token denotes a non-negative value.
proof fn lemma_dec_value_nonneg(s: Seq<char>)
    requires
        forall|i: int| 0 <= i < s.len() ==> is_digit(#[trigger] s[i]),
    ensures
        dec_value(s) >= 0,
    decreases s.len(),
{
    if s.len() > 0 {
        assert forall|i: int| 0 <= i < s.drop_last().len() implies is_digit(
            #[trigger] s.drop_last()[i],
        ) by {
            assert(s.drop_last()[i] == s[i]);
        }
        lemma_dec_value_nonneg(s.drop_last());
        assert(is_digit(s.last()));
    }
}

/// Parses a token as a non-negative decimal integer: nonempty, digits only,
/// within the machine's size type.
fn parse_decimal(v: &String) -> (r: Option<usize>)
    ensures
        r == spec_parse_decimal(v@),
{
    let s = v.as_str();
    let n = s.unicode_len();
    if n == 0 {
        return None;
    }
    let mut acc: usize = 0;
    let mut i: usize = 0;
    while i < n
        invariant
            s@ == v@,
            n == v@.len(),
            i <= n,
            forall|j: int| 0 <= j < i ==> is_digit(#[trigger] v@[j]),
            acc as int == dec_value(v@.take(i as int)),
        decreases n - i,
    {
        let c = s.get_char(i);
        let u = c as u32;
        if u < 48 || u > 57 {
            proof {
                assert(!is_digit(v@[i as int]));
                assert(!all_digits(v@));
            }
            return None;
        }
        let d = (u - 48) as usize;
        if acc > usize::MAX / 10 || (acc == usize::MAX / 10 && d > usize::MAX % 10) {
            proof {
                assert(v@.take(i + 1 as int).drop_last() =~= v@.take(i as int));
                assert(v@.take(i + 1 as int).last() == v@[i as int]);
                assert(dec_value(v@.take(i + 1 as int)) > usize::MAX as int);
                if all_digits(v@) {
                    lemma_dec_value_take_le(v@, i + 1 as int);
                    assert(dec_value(v@) > usize::MAX as int);
                }
            }
            return None;
        }
        acc = acc * 10 + d;
        proof {
            assert(v@.take(i + 1 as int).drop_last() =~= v@.take(i as int));
            assert(v@.take(i + 1 as int).last() == v@[i as int]);
        }
        i += 1;
    }
    proof {
        assert(v@.take(n as int) =~= v@);
    }
    Some(acc)
}

/// Finds the first `Content-Length` header and parses its value. No such
/// header means no body at all; a header whose value does not parse is a
/// decode failure.
pub fn content_length(req: &Request) -> (r: Result<Option<usize>, MalformedRequest>)
    ensures
        match spec_content_length_header(req@.headers) {
            None => r == Ok::<Option<usize>, MalformedRequest>(None),
            Some(v) => match spec_parse_decimal(v) {
                Some(k) => r == Ok::<Option<usize>, MalformedRequest>(Some(k)),
                None => r == Err::<Option<usize>, MalformedRequest>(
                    MalformedRequest::ContentLength,
                ),
            },
        },
{
    let cl = String::from_str("Content-Length");
    let n = req.headers.len();
    let mut i: usize = 0;
    proof {
        assert(req@.headers.skip(0) =~= req@.headers);
    }
    while i < n
        invariant
            cl@ == "Content-Length"@,
            n == req.headers@.len(),
            i <= n,
            spec_content_length_header(req@.headers) == spec_content_length_header(
                req@.headers.skip(i as int),
            ),
        decreases n - i,
    {
        let h = &req.headers[i];
        proof {
            assert(req@.headers.skip(i as int)[0] == req@.headers[i as int]);
            assert(req@.headers[i as int] == (req.headers@[i as int].0@, req.headers@[i as int].1@));
        }
        if h.0 == cl {
            return match parse_decimal(&h.1) {
                Some(k) => Ok(Some(k)),
                None => Err(MalformedRequest::ContentLength),
            };
        }
        proof {
            assert(req@.headers.skip(i as int).drop_first() =~= req@.headers.skip(i + 1 as int));
        }
        i += 1;
    }
    proof {
        assert(req@.headers.skip(n as int) =~= Seq::<(Seq<char>, Seq<char>)>::empty());
    }
    Ok(None)
}

/// Attaches the body read off the wire to a decoded head. No announced body
/// means an empty one; announced body bytes must be valid UTF-8.
pub fn with_body(head: Request, body: Option<Vec<u8>>) -> (r: Result<Request, MalformedRequest>)
    ensures
        match body {
            None => r matches Ok(q) && q@ == RequestView {
                body: Seq::<char>::empty(),
                ..head@
            },
            Some(b) => if valid_utf8(b@) {
                r matches Ok(q) && q@ == RequestView { body: decode_utf8(b@), ..head@ }
            } else {
                r == Err::<Request, MalformedRequest>(MalformedRequest::BodyUtf8)
            },
        },
{
    match body {
        None => Ok(
            Request {
                method: head.method,
                path: head.path,
                version: head.version,
                headers: head.headers,
                body: String::new(),
            },
        ),
        Some(b) => match utf8_to_string(b) {
            Some(text) => Ok(
                Request {
                    method: head.method,
                    path: head.path,
                    version: head.version,
                    headers: head.headers,
                    body: text,
                },
            ),
            None => Err(MalformedRequest::BodyUtf8),
        },
    }
}

/// Every successfully parsed header block reaches the terminator.
proof fn lemma_header_lines_reach_terminator(s: Seq<u8>, from: int, count: int)
    requires
        2 <= from,
        s[from - 2] == CR,
        s[from - 1] == LF,
        spec_parse_header_lines(s, from, count) is Some,
    ensures
        exists|i: int| is_terminator_at(s, i),
    decreases s.len() - from,
{
    if s[from] == CR && s[from + 1] == LF {
        assert(is_terminator_at(s, from - 2));
    } else {
        lemma_spec_find_crlf_bounds(s, from);
        let e = spec_find_crlf(s, from)->0;
        lemma_header_lines_reach_terminator(s, e + 2, count + 1);
    }
}

/// Law: a byte stream whose header block never reaches the terminator
/// `\r\n\r\n` — a stream that closed too early — never decodes into a
/// request. The wire codec rejects it as malformed, so the routing table is
/// never consulted for such a stream, whatever routes it holds, and the
/// response synthesized for the failure is a 500.
pub proof fn lemma_no_terminator_never_decodes(s: Seq<u8>)
    requires
        forall|i: int| !is_terminator_at(s, i),
    ensures
        spec_decode_head(s) is None,
        crate::encode::error_response_view(MalformedRequest::Framing.text()).status == 500,
{
    if spec_parse_head_bytes(s) is Some {
        lemma_spec_find_crlf_bounds(s, 0);
        let e = spec_find_crlf(s, 0)->0;
        lemma_header_lines_reach_terminator(s, e + 2, 0);
        assert(false);
    }
}

/// Law: a decoded request whose headers carry no `Content-Length` has an
/// empty body, regardless of what bytes may still follow on the wire: no
/// other mechanism supplies a body.
pub proof fn lemma_no_content_length_empty_body(s: Seq<u8>, rv: RequestView)
    requires
        spec_decode_head(s) == Some(rv),
        spec_content_length_header(rv.headers) is None,
    ensures
        rv.body == Seq::<char>::empty(),
{
}

} // verus!
