use vstd::prelude::*;

use crate::http::StatusCodes;
use crate::text::{append_bytes, append_decimal, append_str, decimal, utf8};

verus! {

/// An outgoing response: a status, an optional content type and an optional body.
#[derive(Debug, PartialEq, Eq)]
pub struct Response {
    pub body: Option<String>,
    pub content_type: Option<String>,
    pub status_code: StatusCodes,
}

/// The status line's code and reason phrase.
pub open spec fn status_text(c: StatusCodes) -> Seq<char> {
    match c {
        StatusCodes::OK => "200 OK"@,
        StatusCodes::Created => "201 Created"@,
        StatusCodes::NotFound => "404 Not Found"@,
        StatusCodes::InternalServerError => "500 Internal Server Error"@,
    }
}

/// The characters of an optional string.
pub open spec fn opt_chars(o: Option<String>) -> Option<Seq<char>> {
    match o {
        Some(s) => Some(s@),
        None => None,
    }
}

/// The bytes of a serialized response: the status line, a `Content-Type`
/// header iff a content type is given, a `Content-Length` header (the body's
/// byte count) and the body iff a body is given, and a closing CRLF.
pub open spec fn wire_bytes(
    status: StatusCodes,
    content_type: Option<Seq<char>>,
    body: Option<Seq<char>>,
) -> Seq<u8> {
    let head = utf8("HTTP/1.1 "@) + utf8(status_text(status)) + utf8("\r\n"@);
    let ct = match content_type {
        Some(c) => utf8("Content-Type: "@) + utf8(c) + utf8("\r\n"@),
        None => Seq::empty(),
    };
    let bd = match body {
        Some(b) => utf8("Content-Length: "@) + decimal(utf8(b).len()) + utf8("\r\n\r\n"@) + utf8(b),
        None => Seq::empty(),
    };
    head + ct + bd + utf8("\r\n"@)
}

impl Response {
    /// The serialized form of this response.
    pub open spec fn wire(&self) -> Seq<u8> {
        wire_bytes(self.status_code, opt_chars(self.content_type), opt_chars(self.body))
    }

    /// The serialized form of a response with a status and nothing else.
    pub open spec fn bare_wire(status: StatusCodes) -> Seq<u8> {
        wire_bytes(status, None, None)
    }

    pub fn new(status_code: StatusCodes, content_type: Option<String>, body: Option<String>) -> (r:
        Response)
        ensures
            r.status_code == status_code,
            r.content_type == content_type,
            r.body == body,
    {
        Response { body, content_type, status_code }
    }

    /// Serializes the response into the bytes written on the wire.
    pub fn build(self) -> (r: Vec<u8>)
        ensures
            r@ == self.wire(),
    {
        let mut out: Vec<u8> = Vec::new();
        append_str(&mut out, "HTTP/1.1 ");
        match self.status_code {
            StatusCodes::OK => append_str(&mut out, "200 OK"),
            StatusCodes::Created => append_str(&mut out, "201 Created"),
            StatusCodes::NotFound => append_str(&mut out, "404 Not Found"),
            StatusCodes::InternalServerError => append_str(&mut out, "500 Internal Server Error"),
        }
        append_str(&mut out, "\r\n");
        let ghost after_head = out@;
        match &self.content_type {
            Some(c) => {
                append_str(&mut out, "Content-Type: ");
                append_str(&mut out, c.as_str());
                append_str(&mut out, "\r\n");
            },
            None => {},
        }
        let ghost after_ct = out@;
        match &self.body {
            Some(b) => {
                let bytes = b.as_str().as_bytes();
                assert(bytes@ == utf8(b@)) by {
                    reveal(utf8);
                }
                append_str(&mut out, "Content-Length: ");
                append_decimal(&mut out, bytes.len());
                append_str(&mut out, "\r\n\r\n");
                append_bytes(&mut out, bytes);
            },
            None => {},
        }
        append_str(&mut out, "\r\n");
        assert(out@ =~= after_ct + match opt_chars(self.body) {
            Some(b) => utf8("Content-Length: "@) + decimal(utf8(b).len()) + utf8("\r\n\r\n"@) + utf8(b),
            None => Seq::empty(),
        } + utf8("\r\n"@));
        assert(out@ =~= self.wire());
        out
    }
}

} // verus!
