//! The request parser: the request line, the query string, the headers and
//! the body of one request text. Malformed parts fall back to defaults; the
//! parser never fails.
use vstd::prelude::*;

use crate::assoc::Assoc;
use crate::headers::{after_line, Headers, HeadersView};
use crate::text::{
    join_lines, lines_spec, split_char, split_lines, split_spec, split_ws, str_eq, tokens_spec,
    views,
};

verus! {

/// The methods that the server tells apart.
#[derive(Clone, Copy, Debug, PartialEq, Eq, Structural)]
pub enum Method {
    Delete,
    Get,
    Post,
}

/// Query parameters, by name.
pub type Query = Assoc<String>;

/// The method that a request-line token names: anything but `DELETE`, `GET`
/// or `POST`, or no token at all, is `Get`.
pub open spec fn method_of(token: Option<Seq<char>>) -> Method {
    match token {
        Some(t) => if t == "DELETE"@ {
            Method::Delete
        } else if t == "POST"@ {
            Method::Post
        } else {
            Method::Get
        },
        None => Method::Get,
    }
}

pub open spec fn method_name(m: Method) -> Seq<char> {
    match m {
        Method::Delete => "DELETE"@,
        Method::Get => "GET"@,
        Method::Post => "POST"@,
    }
}

impl Method {
    /// The method's name as it stands on the wire.
    pub fn as_str(&self) -> (r: &'static str)
        ensures
            r@ == method_name(*self),
    {
        match self {
            Method::Delete => "DELETE",
            Method::Get => "GET",
            Method::Post => "POST",
        }
    }
}

/// The parameters of a query string: each `&`-separated segment with exactly
/// one `=` sets its key to its value, later segments overwriting earlier ones;
/// every other segment is dropped.
pub open spec fn segments_map(segments: Seq<Seq<char>>) -> Map<Seq<char>, Seq<char>>
    decreases segments.len(),
{
    if segments.len() == 0 {
        Map::empty()
    } else {
        let m = segments_map(segments.drop_last());
        let kv = split_spec(segments.last(), '=');
        if kv.len() == 2 {
            m.insert(kv[0], kv[1])
        } else {
            m
        }
    }
}

pub open spec fn query_spec(q: Seq<char>) -> Map<Seq<char>, Seq<char>> {
    segments_map(split_spec(q, '&'))
}

/// A query map as keys and character sequences.
pub open spec fn query_view(q: Query) -> Map<Seq<char>, Seq<char>> {
    q@.map_values(|v: String| v@)
}

pub open spec fn query_opt_view(q: Option<Query>) -> Option<Map<Seq<char>, Seq<char>>> {
    match q {
        Some(m) => Some(query_view(m)),
        None => None,
    }
}

pub open spec fn query_opt_wf(q: Option<Query>) -> bool {
    match q {
        Some(m) => m.wf(),
        None => true,
    }
}

/// Where the first `c` stands in `s`, if anywhere.
pub open spec fn first_index(s: Seq<char>, c: char) -> Option<int> {
    if exists|i: int| 0 <= i < s.len() && s[i] == c {
        Some(choose|i: int| 0 <= i < s.len() && s[i] == c && forall|j: int| 0 <= j < i ==> s[j] != c)
    } else {
        None
    }
}

/// A path without its trailing slash, unless it is the root.
pub open spec fn path_spec(p: Seq<char>) -> Seq<char> {
    if p.len() > 0 && p.last() == '/' && p != seq!['/'] {
        p.drop_last()
    } else {
        p
    }
}

/// The URI, `/` when missing.
pub open spec fn uri_or_root(uri: Option<Seq<char>>) -> Seq<char> {
    match uri {
        Some(u) => u,
        None => seq!['/'],
    }
}

/// The path of a URI: what precedes its first `?`, trailing slash removed.
pub open spec fn uri_path(u: Seq<char>) -> Seq<char> {
    match first_index(u, '?') {
        Some(i) => path_spec(u.subrange(0, i)),
        None => path_spec(u),
    }
}

/// The query of a URI: the parameters after its first `?`, none without one.
pub open spec fn uri_query(u: Seq<char>) -> Option<Map<Seq<char>, Seq<char>>> {
    match first_index(u, '?') {
        Some(i) => Some(query_spec(u.subrange(i + 1, u.len() as int))),
        None => None,
    }
}

pub open spec fn nth_token(line: Seq<char>, n: int) -> Option<Seq<char>> {
    let t = tokens_spec(line);
    if n < t.len() {
        Some(t[n])
    } else {
        None
    }
}

/// The request line, `GET /` when missing.
pub open spec fn line_or_default(line: Option<Seq<char>>) -> Seq<char> {
    match line {
        Some(l) => l,
        None => "GET /"@,
    }
}

/// Where the run of lines from `start` ends: at the first empty line, else
/// at the end.
pub open spec fn run_end(lines: Seq<Seq<char>>, start: int) -> int
    decreases lines.len() - start,
{
    if start >= lines.len() {
        lines.len() as int
    } else if lines[start].len() == 0 {
        start
    } else {
        run_end(lines, start + 1)
    }
}

/// The header record after reading `lines` in order into `h`.
pub open spec fn fold_headers(h: HeadersView, lines: Seq<Seq<char>>) -> HeadersView
    decreases lines.len(),
{
    if lines.len() == 0 {
        h
    } else {
        after_line(fold_headers(h, lines.drop_last()), lines.last())
    }
}

pub open spec fn empty_headers() -> HeadersView {
    HeadersView { content_type: None, content_length: None, x_data_version: None }
}

/// The index of the end of the header lines, after the request line.
pub open spec fn headers_end(ls: Seq<Seq<char>>) -> int {
    run_end(ls, 1)
}

/// The index of the first body line: past the blank line that ends the
/// headers, if there is one.
pub open spec fn body_start(ls: Seq<Seq<char>>) -> int {
    if headers_end(ls) < ls.len() {
        headers_end(ls) + 1
    } else {
        ls.len() as int
    }
}

pub open spec fn request_headers(text: Seq<char>) -> HeadersView {
    let ls = lines_spec(text);
    if ls.len() <= 1 {
        empty_headers()
    } else {
        fold_headers(empty_headers(), ls.subrange(1, headers_end(ls)))
    }
}

pub open spec fn request_body(text: Seq<char>) -> Seq<char> {
    let ls = lines_spec(text);
    join_lines(ls.subrange(body_start(ls), run_end(ls, body_start(ls))))
}

pub open spec fn request_line(text: Seq<char>) -> Seq<char> {
    let ls = lines_spec(text);
    line_or_default(if ls.len() > 0 {
        Some(ls[0])
    } else {
        None
    })
}

/// A parsed request: what the handlers read.
pub struct Request {
    pub method: Method,
    pub uri: String,
    pub query: Query,
    pub headers: Headers,
    pub body: String,
}

proof fn lemma_run_end_bounds(lines: Seq<Seq<char>>, start: int)
    requires
        0 <= start,
    ensures
        start <= lines.len() ==> start <= run_end(lines, start) <= lines.len(),
        start > lines.len() ==> run_end(lines, start) == lines.len(),
        run_end(lines, start) < lines.len() ==> lines[run_end(lines, start)].len() == 0,
        forall|k: int| start <= k < run_end(lines, start) ==> lines[k].len() > 0,
    decreases lines.len() - start,
{
    if start < lines.len() && lines[start].len() > 0 {
        lemma_run_end_bounds(lines, start + 1);
    }
}

impl Request {
    /// Reads the method token of a request line.
    pub fn parse_method(method: Option<&str>) -> (r: Method)
        ensures
            r == method_of(
                match method {
                    Some(m) => Some(m@),
                    None => None,
                },
            ),
    {
        proof {
            reveal_strlit("DELETE");
            reveal_strlit("GET");
            reveal_strlit("POST");
            assert("GET"@.len() != "POST"@.len());
            assert("GET"@.len() != "DELETE"@.len());
        }
        match method {
            Some(m) => if str_eq(m, "DELETE") {
                Method::Delete
            } else if str_eq(m, "GET") {
                Method::Get
            } else if str_eq(m, "POST") {
                Method::Post
            } else {
                Method::Get
            },
            None => Method::Get,
        }
    }

    /// Reads a query string into its parameters.
    pub fn parse_query(query: &str) -> (r: Option<Query>)
        ensures
            r matches Some(q) && q.wf() && query_view(q) == query_spec(query@),
    {
        let segments = split_char(query, '&');
        let ghost segs = split_spec(query@, '&');
        let mut map: Query = Assoc::new();
        let mut i: usize = 0;
        assert(query_view(map) =~= segments_map(segs.subrange(0, 0)));
        while i < segments.len()
            invariant
                views(segments@) == segs,
                i <= segments@.len(),
                map.wf(),
                query_view(map) == segments_map(segs.subrange(0, i as int)),
            decreases segments@.len() - i,
        {
            let seg = segments[i];
            let kv = split_char(seg, '=');
            assert(segs.subrange(0, i + 1).drop_last() =~= segs.subrange(0, i as int));
            assert(segs.subrange(0, i + 1).last() == seg@);
            if kv.len() == 2 {
                let k = String::from_str(kv[0]);
                let v = String::from_str(kv[1]);
                map.insert(k, v);
                assert(query_view(map) =~= segments_map(segs.subrange(0, i + 1)));
            }
            i = i + 1;
        }
        assert(segs.subrange(0, segs.len() as int) =~= segs);
        Some(map)
    }

    /// Splits a URI into its path and its query.
    pub fn parse_uri(uri: Option<&str>) -> (r: (&str, Option<Query>))
        ensures
            r.0@ == uri_path(
                uri_or_root(
                    match uri {
                        Some(u) => Some(u@),
                        None => None,
                    },
                ),
            ),
            query_opt_wf(r.1),
            query_opt_view(r.1) == uri_query(
                uri_or_root(
                    match uri {
                        Some(u) => Some(u@),
                        None => None,
                    },
                ),
            ),
    {
        let u: &str = match uri {
            Some(u) => u,
            None => "/",
        };
        proof {
            reveal_strlit("/");
        }
        let n = u.unicode_len();
        let mut i: usize = 0;
        while i < n && u.get_char(i) != '?'
            invariant
                n == u@.len(),
                i <= n,
                forall|j: int| 0 <= j < i ==> u@[j] != '?',
            decreases n - i,
        {
            i = i + 1;
        }
        let (path, query) = if i < n {
            proof {
                assert(u@[i as int] == '?');
                let c = choose|c: int|
                    0 <= c < u@.len() && u@[c] == '?' && forall|j: int|
                        0 <= j < c ==> u@[j] != '?';
                assert(c == i) by {
                    if c < i {
                    } else if c > i {
                        assert(u@[i as int] != '?');
                    }
                }
            }
            (u.substring_char(0, i), Request::parse_query(u.substring_char(i + 1, n)))
        } else {
            assert(!(exists|j: int| 0 <= j < u@.len() && u@[j] == '?'));
            (u, None)
        };
        let plen = path.unicode_len();
        let stripped = if plen > 1 && path.get_char(plen - 1) == '/' {
            path.substring_char(0, plen - 1)
        } else {
            path
        };
        proof {
            let p = path@;
            if plen > 1 && p.last() == '/' {
                assert(p.subrange(0, plen - 1) =~= p.drop_last());
                assert(p.len() != 1);
            } else if p.len() > 0 && p.last() == '/' {
                assert(p =~= seq!['/']);
            }
        }
        (stripped, query)
    }

    /// Reads the request line: its method, its path and its query; any
    /// further token is ignored.
    pub fn parse_first_line(first_line: Option<&str>) -> (r: (Method, String, Option<Query>))
        ensures
            ({
                let line = line_or_default(
                    match first_line {
                        Some(l) => Some(l@),
                        None => None,
                    },
                );
                &&& r.0 == method_of(nth_token(line, 0))
                &&& r.1@ == uri_path(uri_or_root(nth_token(line, 1)))
                &&& query_opt_wf(r.2)
                &&& query_opt_view(r.2) == uri_query(uri_or_root(nth_token(line, 1)))
            }),
    {
        let line: &str = match first_line {
            Some(l) => l,
            None => "GET /",
        };
        let tokens = split_ws(line);
        let method = Request::parse_method(if tokens.len() > 0 {
            Some(tokens[0])
        } else {
            None
        });
        let (uri, query) = Request::parse_uri(if tokens.len() > 1 {
            Some(tokens[1])
        } else {
            None
        });
        (method, String::from_str(uri), query)
    }

    /// Parses a whole request text: the request line, then header lines up to
    /// the first blank line, then body lines up to the next blank line,
    /// joined with line feeds.
    pub fn parse(text: &str) -> (r: Request)
        ensures
            r.method == method_of(nth_token(request_line(text@), 0)),
            r.uri@ == uri_path(uri_or_root(nth_token(request_line(text@), 1))),
            r.query.wf(),
            query_view(r.query) == match uri_query(uri_or_root(nth_token(request_line(text@), 1))) {
                Some(m) => m,
                None => Map::empty(),
            },
            r.headers@ == request_headers(text@),
            r.body@ == request_body(text@),
    {
        let lines = split_lines(text);
        let ghost ls = lines_spec(text@);
        let n = lines.len();
        let (method, uri, query) = Request::parse_first_line(if n > 0 {
            Some(lines[0])
        } else {
            None
        });
        let query = match query {
            Some(q) => q,
            None => {
                let e: Query = Assoc::new();
                assert(query_view(e) =~= Map::empty());
                e
            },
        };
        let mut headers = Headers::new();
        assert(headers@ == empty_headers());
        let mut i: usize = 1;
        proof {
            lemma_run_end_bounds(ls, 1);
        }
        while i < n && lines[i].unicode_len() > 0
            invariant
                views(lines@) == ls,
                n == ls.len(),
                1 <= i,
                n > 0 ==> i <= headers_end(ls),
                n == 0 ==> i == 1,
                n > 0 ==> headers@ == fold_headers(empty_headers(), ls.subrange(1, i as int)),
                n == 0 ==> headers@ == empty_headers(),
                forall|k: int| 1 <= k < headers_end(ls) ==> ls[k].len() > 0,
                headers_end(ls) < ls.len() ==> ls[headers_end(ls)].len() == 0,
                1 <= ls.len() ==> headers_end(ls) <= ls.len(),
            decreases n - i,
        {
            assert(lines@[i as int]@ == ls[i as int]);
            headers.parse_line(lines[i]);
            assert(ls.subrange(1, i + 1).drop_last() =~= ls.subrange(1, i as int));
            i = i + 1;
        }
        proof {
            if n > 1 {
                if i < n {
                    assert(lines@[i as int]@ == ls[i as int]);
                }
                assert(i == headers_end(ls));
            } else {
                if n == 1 {
                    assert(ls.subrange(1, 1) =~= Seq::<Seq<char>>::empty());
                }
            }
        }
        let start: usize = if i < n {
            i + 1
        } else {
            n
        };
        let mut body = String::new();
        let mut j: usize = start;
        proof {
            lemma_run_end_bounds(ls, start as int);
            assert(n > 1 ==> start == body_start(ls));
            assert(ls.subrange(start as int, start as int) =~= Seq::<Seq<char>>::empty());
        }
        while j < n && lines[j].unicode_len() > 0
            invariant
                views(lines@) == ls,
                n == ls.len(),
                start <= j <= run_end(ls, start as int),
                run_end(ls, start as int) <= n,
                forall|k: int| start <= k < run_end(ls, start as int) ==> ls[k].len() > 0,
                run_end(ls, start as int) < ls.len() ==> ls[run_end(ls, start as int)].len() == 0,
                body@ == join_lines(ls.subrange(start as int, j as int)),
            decreases n - j,
        {
            let ghost sub = ls.subrange(start as int, j + 1);
            assert(sub.drop_last() =~= ls.subrange(start as int, j as int));
            assert(lines@[j as int]@ == ls[j as int]);
            if j > start {
                body.append("\n");
            }
            body.append(lines[j]);
            proof {
                reveal_strlit("\n");
                if j == start {
                    assert(sub =~= seq![ls[j as int]]);
                }
            }
            assert(body@ =~= join_lines(sub));
            j = j + 1;
        }
        proof {
            if j < n {
                assert(lines@[j as int]@ == ls[j as int]);
            }
            assert(j == run_end(ls, start as int));
        }
        Request { method, uri, query, headers, body }
    }
}

} // verus!
