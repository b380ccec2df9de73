//! Response framing: a status line, an optional header block and an optional
//! body block, concatenated in that order.
use vstd::prelude::*;

use crate::headers::{string_opt_view, Headers, HeadersView};
use crate::text::{decimal_spec, push_decimal};

verus! {

/// The three statuses that the server answers with.
#[derive(Clone, Copy, Debug, PartialEq, Eq, Structural)]
pub enum HttpStatusCode {
    OK,
    NotFound,
    ServerError,
}

/// What follows `HTTP/1.1 ` on the status line.
pub open spec fn status_text(status: HttpStatusCode) -> Seq<char> {
    match status {
        HttpStatusCode::OK => "200 OK"@,
        HttpStatusCode::NotFound => "404 Not Found"@,
        HttpStatusCode::ServerError => "500 Internal Server Error"@,
    }
}

pub open spec fn first_line_spec(status: HttpStatusCode) -> Seq<char> {
    "HTTP/1.1 "@ + status_text(status) + "\r\n"@
}

/// The header block: one `X-Data-Version` line, 0 where the version is unset.
pub open spec fn headers_block_spec(headers: Option<HeadersView>) -> Option<Seq<char>> {
    match headers {
        Some(h) => {
            let v = match h.x_data_version {
                Some(v) => v,
                None => 0,
            };
            Some("X-Data-Version: "@ + decimal_spec(v) + "\r\n"@)
        },
        None => None,
    }
}

/// The length of `s` in bytes, encoded as UTF-8.
pub open spec fn byte_len(s: Seq<char>) -> nat {
    vstd::utf8::encode_utf8(s).len()
}

/// The body block: its byte length, a blank line, the body and a line break.
pub open spec fn body_block_spec(body: Option<Seq<char>>) -> Option<Seq<char>> {
    match body {
        Some(b) => Some(
            "Content-Length: "@ + decimal_spec(byte_len(b)) + "\r\n\r\n"@ + b + "\r\n"@,
        ),
        None => None,
    }
}

pub open spec fn or_empty(s: Option<Seq<char>>) -> Seq<char> {
    match s {
        Some(t) => t,
        None => Seq::empty(),
    }
}

pub open spec fn headers_opt_view(headers: Option<Headers>) -> Option<HeadersView> {
    match headers {
        Some(h) => Some(h@),
        None => None,
    }
}

/// The whole response text.
pub open spec fn response_spec(
    status: HttpStatusCode,
    headers: Option<HeadersView>,
    body: Option<Seq<char>>,
) -> Seq<char> {
    first_line_spec(status) + or_empty(headers_block_spec(headers)) + or_empty(
        body_block_spec(body),
    )
}

/// Builds the full response text.
pub fn build_response(status: HttpStatusCode, headers: Option<Headers>, body: Option<String>) -> (r:
    String)
    ensures
        r@ == response_spec(status, headers_opt_view(headers), string_opt_view(body)),
{
    let ghost hv = headers_opt_view(headers);
    let ghost bv = string_opt_view(body);
    let mut response = build_first_line(status);
    match build_headers(headers) {
        Some(h) => response.append(h.as_str()),
        None => {},
    }
    match build_response_body(body) {
        Some(b) => response.append(b.as_str()),
        None => {},
    }
    assert(response@ =~= response_spec(status, hv, bv));
    response
}

/// Builds the status line.
pub fn build_first_line(status: HttpStatusCode) -> (r: String)
    ensures
        r@ == first_line_spec(status),
{
    let text = match status {
        HttpStatusCode::OK => "200 OK",
        HttpStatusCode::NotFound => "404 Not Found",
        HttpStatusCode::ServerError => "500 Internal Server Error",
    };
    let mut line = String::from_str("HTTP/1.1 ");
    line.append(text);
    line.append("\r\n");
    line
}

/// Builds the header block, if there are headers.
pub fn build_headers(headers: Option<Headers>) -> (r: Option<String>)
    ensures
        string_opt_view(r) == headers_block_spec(headers_opt_view(headers)),
{
    match headers {
        Some(h) => {
            let v: usize = match h.x_data_version {
                Some(v) => v,
                None => 0,
            };
            let mut block = String::from_str("X-Data-Version: ");
            push_decimal(&mut block, v);
            block.append("\r\n");
            Some(block)
        },
        None => None,
    }
}

/// Builds the body block, if there is a body.
pub fn build_response_body(body: Option<String>) -> (r: Option<String>)
    ensures
        string_opt_view(r) == body_block_spec(string_opt_view(body)),
{
    match body {
        Some(b) => {
            let len = b.as_str().as_bytes().len();
            let mut block = String::from_str("Content-Length: ");
            push_decimal(&mut block, len);
            block.append("\r\n\r\n");
            block.append(b.as_str());
            block.append("\r\n");
            assert(block@ =~= "Content-Length: "@ + decimal_spec(byte_len(b@)) + "\r\n\r\n"@ + b@
                + "\r\n"@);
            Some(block)
        },
        None => None,
    }
}

/// A response before framing.
pub struct Response {
    pub status: HttpStatusCode,
    pub headers: Option<Headers>,
    pub body: Option<String>,
}

pub struct ResponseView {
    pub status: HttpStatusCode,
    pub headers: Option<HeadersView>,
    pub body: Option<Seq<char>>,
}

impl View for Response {
    type V = ResponseView;

    open spec fn view(&self) -> ResponseView {
        ResponseView {
            status: self.status,
            headers: headers_opt_view(self.headers),
            body: string_opt_view(self.body),
        }
    }
}

impl Response {
    /// The wire text of this response.
    pub fn to_text(self) -> (r: String)
        ensures
            r@ == response_spec(self@.status, self@.headers, self@.body),
    {
        build_response(self.status, self.headers, self.body)
    }
}

} // verus!
