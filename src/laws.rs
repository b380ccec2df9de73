//! Properties of the parser that hold for every input.
use vstd::prelude::*;

use crate::request::{method_of, nth_token, request_line, uri_path, Method};

verus! {

/// A path that ends in `/` and is not the root loses exactly that one slash;
/// the root stays as it is.
pub proof fn trailing_slash_stripped(u: Seq<char>)
    requires
        u.len() > 0,
        u.last() == '/',
        u != seq!['/'],
        forall|i: int| 0 <= i < u.len() ==> u[i] != '?',
    ensures
        uri_path(u) == u.drop_last(),
        uri_path(seq!['/']) == seq!['/'],
{
}

/// A method token other than `GET`, `POST` and `DELETE` is read as `GET`,
/// and so is a request whose request line starts with it.
pub proof fn unknown_method_is_get(text: Seq<char>, token: Seq<char>)
    requires
        token != "GET"@,
        token != "POST"@,
        token != "DELETE"@,
        nth_token(request_line(text), 0) == Some(token),
    ensures
        method_of(Some(token)) == Method::Get,
        method_of(nth_token(request_line(text), 0)) == Method::Get,
{
}

} // verus!
