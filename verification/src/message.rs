//! The structured forms of an HTTP request and response, the method and
//! version enumerations the codec recognizes, and the decode-time error kind.

use vstd::prelude::*;
use vstd::string::StringExecFns;

verus! {

/// The request methods the routing table distinguishes.
#[derive(Clone, Copy, PartialEq, Eq, Structural, Debug, Hash)]
pub enum Method {
    Get,
    Head,
    Post,
    Put,
    Delete,
    Connect,
    Options,
    Trace,
    Patch,
}

/// The protocol versions the codec accepts on a request line.
#[derive(Clone, Copy, PartialEq, Eq, Structural, Debug)]
pub enum Version {
    Http10,
    Http11,
}

/// The mathematical shape of a request: every textual field as a sequence of
/// characters.
#[verifier::ext_equal]
pub struct RequestView {
    pub method: Method,
    pub path: Seq<char>,
    pub version: Version,
    pub headers: Seq<(Seq<char>, Seq<char>)>,
    pub body: Seq<char>,
}

/// A decoded request: the method, the exact path string from the request line,
/// the protocol version, the header name/value pairs in the order they stood
/// on the wire (duplicates preserved), and the body as UTF-8 text (empty when
/// the request carried no `Content-Length` header).
pub struct Request {
    pub method: Method,
    pub path: String,
    pub version: Version,
    pub headers: Vec<(String, String)>,
    pub body: String,
}

/// The view of a sequence of header pairs: each name and value as characters.
pub open spec fn headers_view(headers: Seq<(String, String)>) -> Seq<(Seq<char>, Seq<char>)> {
    headers.map_values(|p: (String, String)| (p.0@, p.1@))
}

impl View for Request {
    type V = RequestView;

    open spec fn view(&self) -> RequestView {
        RequestView {
            method: self.method,
            path: self.path@,
            version: self.version,
            headers: headers_view(self.headers@),
            body: self.body@,
        }
    }
}

/// The mathematical shape of a response.
#[verifier::ext_equal]
pub struct ResponseView {
    pub status: u16,
    pub headers: Seq<(Seq<char>, Seq<char>)>,
    pub body: Seq<char>,
}

/// A response: a status code, header name/value pairs in the order they are to
/// be written, and a body of UTF-8 text. The encoder serializes exactly these
/// fields and synthesizes nothing on its own.
pub struct Response {
    pub status: u16,
    pub headers: Vec<(String, String)>,
    pub body: String,
}

impl View for Response {
    type V = ResponseView;

    open spec fn view(&self) -> ResponseView {
        ResponseView {
            status: self.status,
            headers: headers_view(self.headers@),
            body: self.body@,
        }
    }
}

/// Why a raw byte stream failed to decode into a request. Each kind carries a
/// fixed textual description that the connection handler sends back as the
/// body of a 500 response.
#[derive(Clone, Copy, PartialEq, Eq, Structural, Debug)]
pub enum MalformedRequest {
    /// The header block never parsed: no terminator reached, a broken request
    /// line, a broken header line, or more header fields than the parser admits.
    Framing,
    /// A `Content-Length` header was present but its value is not a
    /// non-negative decimal integer that fits the machine's size type.
    ContentLength,
    /// The body bytes are not valid UTF-8.
    BodyUtf8,
}

impl MalformedRequest {
    /// The textual description of this failure.
    pub open spec fn text(self) -> Seq<char> {
        match self {
            MalformedRequest::Framing => "Malformed http header"@,
            MalformedRequest::ContentLength => "invalid content-length value"@,
            MalformedRequest::BodyUtf8 => "request body is not valid utf-8"@,
        }
    }

    /// The textual description, as an owned string.
    pub fn message(&self) -> (r: String)
        ensures
            r@ == self.text(),
    {
        match self {
            MalformedRequest::Framing => String::from_str("Malformed http header"),
            MalformedRequest::ContentLength => String::from_str("invalid content-length value"),
            MalformedRequest::BodyUtf8 => String::from_str("request body is not valid utf-8"),
        }
    }
}

/// The method named by a request-line token, if it is one of the recognized set.
pub open spec fn spec_method_of(s: Seq<char>) -> Option<Method> {
    if s == "GET"@ {
        Some(Method::Get)
    } else if s == "HEAD"@ {
        Some(Method::Head)
    } else if s == "POST"@ {
        Some(Method::Post)
    } else if s == "PUT"@ {
        Some(Method::Put)
    } else if s == "DELETE"@ {
        Some(Method::Delete)
    } else if s == "CONNECT"@ {
        Some(Method::Connect)
    } else if s == "OPTIONS"@ {
        Some(Method::Options)
    } else if s == "TRACE"@ {
        Some(Method::Trace)
    } else if s == "PATCH"@ {
        Some(Method::Patch)
    } else {
        None
    }
}

/// Maps a request-line method token to the method it names.
pub fn method_of(s: &String) -> (r: Option<Method>)
    ensures
        r == spec_method_of(s@),
{
    if *s == String::from_str("GET") {
        Some(Method::Get)
    } else if *s == String::from_str("HEAD") {
        Some(Method::Head)
    } else if *s == String::from_str("POST") {
        Some(Method::Post)
    } else if *s == String::from_str("PUT") {
        Some(Method::Put)
    } else if *s == String::from_str("DELETE") {
        Some(Method::Delete)
    } else if *s == String::from_str("CONNECT") {
        Some(Method::Connect)
    } else if *s == String::from_str("OPTIONS") {
        Some(Method::Options)
    } else if *s == String::from_str("TRACE") {
        Some(Method::Trace)
    } else if *s == String::from_str("PATCH") {
        Some(Method::Patch)
    } else {
        None
    }
}

/// The version named by a request-line token: exactly `HTTP/1.0` or `HTTP/1.1`.
/// Any other token is unsupported and fails the parse.
pub open spec fn spec_version_of(s: Seq<char>) -> Option<Version> {
    if s == "HTTP/1.0"@ {
        Some(Version::Http10)
    } else if s == "HTTP/1.1"@ {
        Some(Version::Http11)
    } else {
        None
    }
}

/// Maps a request-line version token to the version it names.
pub fn version_of(s: &String) -> (r: Option<Version>)
    ensures
        r == spec_version_of(s@),
{
    if *s == String::from_str("HTTP/1.0") {
        Some(Version::Http10)
    } else if *s == String::from_str("HTTP/1.1") {
        Some(Version::Http11)
    } else {
        None
    }
}

} // verus!
