//! The header record of a request or response, and the parser of the two
//! request headers that the server reads.
use vstd::prelude::*;

use crate::text::{parse_usize, parse_usize_spec, split_ws, starts_with, starts_with_spec, tokens_spec};

verus! {

/// The recognised headers; each is absent until set.
#[derive(Clone, Debug)]
pub struct Headers {
    pub content_type: Option<String>,
    pub content_length: Option<usize>,
    pub x_data_version: Option<usize>,
}

pub struct HeadersView {
    pub content_type: Option<Seq<char>>,
    pub content_length: Option<nat>,
    pub x_data_version: Option<nat>,
}

pub open spec fn string_opt_view(o: Option<String>) -> Option<Seq<char>> {
    match o {
        Some(s) => Some(s@),
        None => None,
    }
}

pub open spec fn usize_opt_view(o: Option<usize>) -> Option<nat> {
    match o {
        Some(n) => Some(n as nat),
        None => None,
    }
}

impl View for Headers {
    type V = HeadersView;

    open spec fn view(&self) -> HeadersView {
        HeadersView {
            content_type: string_opt_view(self.content_type),
            content_length: usize_opt_view(self.content_length),
            x_data_version: usize_opt_view(self.x_data_version),
        }
    }
}

/// The second whitespace-separated token of `line`, if there is one.
pub open spec fn second_token(line: Seq<char>) -> Option<Seq<char>> {
    let t = tokens_spec(line);
    if t.len() >= 2 {
        Some(t[1])
    } else {
        None
    }
}

/// The content type that a `Content-Type` line gives: its value token, else
/// `text/html`.
pub open spec fn content_type_of(line: Seq<char>) -> Seq<char> {
    match second_token(line) {
        Some(t) => t,
        None => "text/html"@,
    }
}

/// The length that a `Content-Length` line gives: its value token read as a
/// `usize`, else 0.
pub open spec fn content_length_of(line: Seq<char>) -> nat {
    let t = match second_token(line) {
        Some(t) => t,
        None => Seq::empty(),
    };
    match parse_usize_spec(t) {
        Some(v) => v,
        None => 0,
    }
}

/// The record after reading one header line: lines that start with
/// `Content-Type` or `Content-Length` set that field; any other line changes
/// nothing.
pub open spec fn after_line(h: HeadersView, line: Seq<char>) -> HeadersView {
    let h1 = if starts_with_spec(line, "Content-Type"@) {
        HeadersView { content_type: Some(content_type_of(line)), ..h }
    } else {
        h
    };
    if starts_with_spec(line, "Content-Length"@) {
        HeadersView { content_length: Some(content_length_of(line)), ..h1 }
    } else {
        h1
    }
}

impl Headers {
    /// A record with every header absent.
    pub fn new() -> (r: Headers)
        ensures
            r@.content_type is None,
            r@.content_length is None,
            r@.x_data_version is None,
    {
        Headers { content_type: None, content_length: None, x_data_version: None }
    }

    /// Reads one header line into the record.
    pub fn parse_line(&mut self, line: &str)
        ensures
            final(self)@ == after_line(old(self)@, line@),
    {
        if starts_with(line, "Content-Type") {
            self.content_type = Headers::parse_content_type(line);
        }
        if starts_with(line, "Content-Length") {
            self.content_length = Headers::parse_content_length(line);
        }
    }

    /// The value of a `Content-Length` line; 0 where it is missing or is not
    /// a number.
    pub fn parse_content_length(content_length: &str) -> (r: Option<usize>)
        ensures
            r matches Some(v) && v as nat == content_length_of(content_length@),
    {
        let tokens = split_ws(content_length);
        let value = if tokens.len() >= 2 {
            tokens[1]
        } else {
            ""
        };
        proof {
            reveal_strlit("");
            assert(tokens.len() >= 2 ==> value@ == tokens_spec(content_length@)[1]);
        }
        match parse_usize(value) {
            Some(v) => Some(v),
            None => Some(0),
        }
    }

    /// The value of a `Content-Type` line; `text/html` where it is missing.
    pub fn parse_content_type(content_type: &str) -> (r: Option<String>)
        ensures
            r matches Some(s) && s@ == content_type_of(content_type@),
    {
        let tokens = split_ws(content_type);
        let value = if tokens.len() >= 2 {
            tokens[1]
        } else {
            "text/html"
        };
        proof {
            assert(tokens.len() >= 2 ==> value@ == tokens_spec(content_type@)[1]);
        }
        Some(String::from_str(value))
    }
}

} // verus!
