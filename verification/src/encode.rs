//! Wire codec, encode side: serializing a structured response into bytes, and
//! the two responses the connection handler synthesizes itself — the 500 for a
//! decode or handler failure and the empty-bodied 404 for a missed route.
//!
//! A response is emitted as the status line `HTTP/1.1 <code> <reason>\r\n`,
//! each stored header in order as `Name: Value\r\n`, a blank line, and the raw
//! body bytes. The encoder is a pure serializer: it adds no header of its own.

use vstd::prelude::*;
use vstd::string::{StrSliceExecFns, StringExecFns, StringSliceAdditionalSpecFns};
use vstd::utf8::encode_utf8;
use crate::message::{Response, ResponseView};

verus! {

/// What http's status table answers for a numeric code: the canonical reason
/// phrase, a function of the code alone.
pub uninterp spec fn reason_of(code: u16) -> Option<Seq<char>>;

/// Relies on http::StatusCode::canonical_reason, reached through
/// http::StatusCode::from_u16: the canonical reason phrase for a status code,
/// looked up in a fixed table keyed on the code alone. The table pins
/// `OK`, `Not Found` and `Internal Server Error` for the three codes this
/// library emits itself.
#[verifier::external_body]
fn canonical_reason(code: u16) -> (r: Option<String>)
    ensures
        r is Some <==> reason_of(code) is Some,
        r is Some <== code == 200 || code == 404 || code == 500,
        r matches Some(p) ==> p@ == reason_of(code)->0,
        r matches Some(p) ==> (code == 200 ==> p@ == "OK"@) && (code == 404 ==> p@
            == "Not Found"@) && (code == 500 ==> p@ == "Internal Server Error"@),
{
    match http::StatusCode::from_u16(code) {
        Ok(status) => status.canonical_reason().map(|p| p.to_string()),
        Err(_) => None,
    }
}

/// The character of one decimal digit.
pub open spec fn digit_char(d: int) -> char {
    if d == 0 {
        '0'
    } else if d == 1 {
        '1'
    } else if d == 2 {
        '2'
    } else if d == 3 {
        '3'
    } else if d == 4 {
        '4'
    } else if d == 5 {
        '5'
    } else if d == 6 {
        '6'
    } else if d == 7 {
        '7'
    } else if d == 8 {
        '8'
    } else {
        '9'
    }
}

/// The decimal rendering of a non-negative number, most significant digit
/// first, with no leading zeroes (a lone zero for zero itself).
pub open spec fn dec_chars(n: int) -> Seq<char>
    decreases n,
{
    if n < 10 {
        seq![digit_char(n)]
    } else {
        dec_chars(n / 10) + seq![digit_char(n % 10)]
    }
}

/// Appends the decimal rendering of `n`.
fn append_dec(out: &mut String, n: usize)
    ensures
        final(out)@ == old(out)@ + dec_chars(n as int),
    decreases n,
{
    if n >= 10 {
        append_dec(out, n / 10);
    }
    let d = n % 10;
    match d {
        0 => out.append("0"),
        1 => out.append("1"),
        2 => out.append("2"),
        3 => out.append("3"),
        4 => out.append("4"),
        5 => out.append("5"),
        6 => out.append("6"),
        7 => out.append("7"),
        8 => out.append("8"),
        _ => out.append("9"),
    }
    proof {
        reveal_strlit("0");
        reveal_strlit("1");
        reveal_strlit("2");
        reveal_strlit("3");
        reveal_strlit("4");
        reveal_strlit("5");
        reveal_strlit("6");
        reveal_strlit("7");
        reveal_strlit("8");
        reveal_strlit("9");
        assert(final(out)@ =~= old(out)@ + dec_chars(n as int));
    }
}

/// The status line for a code whose reason phrase is known.
pub open spec fn status_line_text(status: u16) -> Seq<char> {
    "HTTP/1.1 "@ + dec_chars(status as int) + " "@ + reason_of(status)->0 + "\r\n"@
}

/// One emitted header line.
pub open spec fn header_line_text(h: (Seq<char>, Seq<char>)) -> Seq<char> {
    h.0 + ": "@ + h.1 + "\r\n"@
}

/// All emitted header lines, in stored order.
pub open spec fn headers_text(hs: Seq<(Seq<char>, Seq<char>)>) -> Seq<char>
    decreases hs.len(),
{
    if hs.len() == 0 {
        Seq::empty()
    } else {
        headers_text(hs.drop_last()) + header_line_text(hs.last())
    }
}

/// The full text of an encoded response: status line, header lines, blank
/// line, body.
pub open spec fn response_text(r: ResponseView) -> Seq<char> {
    status_line_text(r.status) + headers_text(r.headers) + "\r\n"@ + r.body
}

/// Serializes a response: the UTF-8 bytes of its response text. Succeeds
/// exactly when the status code has a canonical reason phrase; the encoder
/// emits the stored headers verbatim and synthesizes none.
pub fn encode_response(resp: &Response) -> (r: Option<Vec<u8>>)
    ensures
        match r {
            Some(bytes) => reason_of(resp.status) is Some && bytes@ == encode_utf8(
                response_text(resp@),
            ),
            None => reason_of(resp.status) is None,
        },
        resp.status == 200 ==> reason_of(200) == Some("OK"@),
        resp.status == 404 ==> reason_of(404) == Some("Not Found"@),
        resp.status == 500 ==> reason_of(500) == Some("Internal Server Error"@),
{
    let reason = match canonical_reason(resp.status) {
        Some(p) => p,
        None => {
            return None;
        },
    };
    let mut text = String::new();
    text.append("HTTP/1.1 ");
    append_dec(&mut text, resp.status as usize);
    text.append(" ");
    text.append(reason.as_str());
    text.append("\r\n");
    proof {
        assert(text@ =~= status_line_text(resp.status));
        assert(resp@.headers.take(0) =~= Seq::<(Seq<char>, Seq<char>)>::empty());
    }
    let n = resp.headers.len();
    let mut i: usize = 0;
    while i < n
        invariant
            n == resp.headers@.len(),
            i <= n,
            text@ == status_line_text(resp.status) + headers_text(resp@.headers.take(i as int)),
        decreases n - i,
    {
        let h = &resp.headers[i];
        text.append(h.0.as_str());
        text.append(": ");
        text.append(h.1.as_str());
        text.append("\r\n");
        proof {
            assert(resp@.headers.take(i + 1 as int).drop_last() =~= resp@.headers.take(i as int));
            assert(resp@.headers.take(i + 1 as int).last() == (resp.headers@[i as int].0@,
            resp.headers@[i as int].1@));
            assert(text@ =~= status_line_text(resp.status) + headers_text(
                resp@.headers.take(i + 1 as int),
            ));
        }
        i += 1;
    }
    text.append("\r\n");
    text.append(resp.body.as_str());
    proof {
        assert(resp@.headers.take(n as int) =~= resp@.headers);
        assert(text@ =~= response_text(resp@));
    }
    Some(text.as_str().as_bytes_vec())
}

/// The response synthesized for a failure description: a 500 carrying the
/// description as its body, with its UTF-8 byte length announced in
/// `Content-Length`, a plain-text content type, and `Connection: close`.
pub open spec fn error_response_view(msg: Seq<char>) -> ResponseView {
    ResponseView {
        status: 500,
        headers: seq![
            ("Content-Length"@, dec_chars(encode_utf8(msg).len() as int)),
            ("Content-Type"@, "text/plain"@),
            ("Connection"@, "close"@),
        ],
        body: msg,
    }
}

/// Synthesizes the 500 response for a failure — a request that would not
/// decode, or a handler that reported an error — with the failure's textual
/// description as the body.
pub fn error_response(msg: String) -> (r: Response)
    ensures
        r@ == error_response_view(msg@),
{
    let len = msg.as_str().as_bytes_vec().len();
    let mut content_length = String::new();
    append_dec(&mut content_length, len);
    proof {
        assert(content_length@ =~= dec_chars(len as int));
        assert(len as int == encode_utf8(msg@).len() as int);
    }
    let mut headers: Vec<(String, String)> = Vec::new();
    headers.push((String::from_str("Content-Length"), content_length));
    headers.push((String::from_str("Content-Type"), String::from_str("text/plain")));
    headers.push((String::from_str("Connection"), String::from_str("close")));
    let r = Response { status: 500, headers, body: msg };
    proof {
        let hv = error_response_view(r.body@).headers;
        assert(r@.headers.len() == 3 && hv.len() == 3);
        assert(r@.headers[0] == hv[0]);
        assert(r@.headers[1] == hv[1]);
        assert(r@.headers[2] == hv[2]);
        assert(r@.headers =~= hv);
        assert(r@ =~= error_response_view(r.body@));
    }
    r
}

/// The empty-bodied 404: no headers, nothing synthesized beyond the status.
pub open spec fn not_found_view() -> ResponseView {
    ResponseView { status: 404, headers: Seq::empty(), body: Seq::empty() }
}

/// Synthesizes the 404 response sent when no route matches a decoded request,
/// whether the path is unknown or the path is known under another method only.
pub fn not_found_response() -> (r: Response)
    ensures
        r@ == not_found_view(),
{
    let r = Response { status: 404, headers: Vec::new(), body: String::new() };
    proof {
        assert(r@.headers =~= not_found_view().headers);
        assert(r@ =~= not_found_view());
    }
    r
}

/// The connection handler's reply for a dispatched handler's outcome: a
/// successful handler's response is encoded verbatim; a reported failure
/// becomes the 500 carrying the failure's description.
pub fn handler_outcome_response(outcome: Result<Response, String>) -> (r: Response)
    ensures
        match outcome {
            Ok(resp) => r == resp,
            Err(msg) => r@ == error_response_view(msg@),
        },
{
    match outcome {
        Ok(resp) => resp,
        Err(msg) => error_response(msg),
    }
}

} // verus!
