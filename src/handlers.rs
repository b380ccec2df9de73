//! What each method does to the store, and the response it gives. The path
//! of the request is the key.
use vstd::prelude::*;

use crate::headers::{string_opt_view, Headers, HeadersView};
use crate::request::Request;
use crate::response::{HttpStatusCode, Response, ResponseView};
use crate::storage::{list_or_empty, Storage, StorageData};

verus! {

pub open spec fn version_headers(n: nat) -> Option<HeadersView> {
    Some(HeadersView { content_type: None, content_length: None, x_data_version: Some(n) })
}

/// A `GET`: the number of records under the key as the data version, and
/// the body of the latest record; `NotFound` for an absent key.
pub open spec fn get_spec(m: Map<Seq<char>, Seq<StorageData>>, key: Seq<char>) -> ResponseView {
    if m.contains_key(key) {
        let list = m[key];
        ResponseView {
            status: HttpStatusCode::OK,
            headers: version_headers(list.len()),
            body: if list.len() > 0 {
                string_opt_view(list.last().body)
            } else {
                None
            },
        }
    } else {
        ResponseView { status: HttpStatusCode::NotFound, headers: None, body: None }
    }
}

/// The record that a `POST` stores: the body unless empty, the content type
/// (`text/html` by default) and the content length (0 by default) of its
/// headers.
pub open spec fn record_from(rec: StorageData, request: Request) -> bool {
    &&& string_opt_view(rec.body) == (if request.body@.len() == 0 {
        None
    } else {
        Some(request.body@)
    })
    &&& rec.content_type@ == match request.headers@.content_type {
        Some(t) => t,
        None => "text/html"@,
    }
    &&& rec.content_length as nat == match request.headers@.content_length {
        Some(n) => n,
        None => 0,
    }
}

/// Answers a `GET` from the store, which it reads only.
pub fn get(request: &Request, storage: &Storage) -> (r: Response)
    requires
        storage.wf(),
    ensures
        r@ == get_spec(storage@, request.uri@),
{
    match storage.get(request.uri.as_str()) {
        Some(list) => {
            let n = list.len();
            let body = if n > 0 {
                match &list[n - 1].body {
                    Some(b) => Some(b.clone()),
                    None => None,
                }
            } else {
                None
            };
            let headers = Headers { content_type: None, content_length: None, x_data_version: Some(n) };
            Response { status: HttpStatusCode::OK, headers: Some(headers), body }
        },
        None => Response { status: HttpStatusCode::NotFound, headers: None, body: None },
    }
}

/// Stores the request as a new record at the end of the key's list, and
/// answers with the list's new length as the data version.
pub fn post(request: &Request, storage: &mut Storage) -> (r: Response)
    requires
        old(storage).wf(),
        list_or_empty(old(storage)@, request.uri@).len() < usize::MAX,
    ensures
        final(storage).wf(),
        final(storage)@.contains_key(request.uri@),
        record_from(final(storage)@[request.uri@].last(), *request),
        final(storage)@ == old(storage)@.insert(
            request.uri@,
            list_or_empty(old(storage)@, request.uri@).push(final(storage)@[request.uri@].last()),
        ),
        r@ == (ResponseView {
            status: HttpStatusCode::OK,
            headers: version_headers(list_or_empty(old(storage)@, request.uri@).len() + 1),
            body: None,
        }),
{
    let body = if request.body.as_str().unicode_len() == 0 {
        None
    } else {
        Some(request.body.clone())
    };
    let content_type = match &request.headers.content_type {
        Some(t) => t.clone(),
        None => String::from_str("text/html"),
    };
    let content_length: usize = match request.headers.content_length {
        Some(n) => n,
        None => 0,
    };
    let record = StorageData { body, content_type, content_length };
    let n = storage.post(request.uri.as_str(), record);
    let headers = Headers { content_type: None, content_length: None, x_data_version: Some(n) };
    Response { status: HttpStatusCode::OK, headers: Some(headers), body: None }
}

/// Removes the key with all its records: `OK` if it was present, else
/// `NotFound`.
pub fn delete(request: &Request, storage: &mut Storage) -> (r: Response)
    requires
        old(storage).wf(),
    ensures
        final(storage).wf(),
        final(storage)@ == old(storage)@.remove(request.uri@),
        r@ == (ResponseView {
            status: if old(storage)@.contains_key(request.uri@) {
                HttpStatusCode::OK
            } else {
                HttpStatusCode::NotFound
            },
            headers: None,
            body: None,
        }),
{
    if storage.delete(request.uri.as_str()) {
        Response { status: HttpStatusCode::OK, headers: None, body: None }
    } else {
        Response { status: HttpStatusCode::NotFound, headers: None, body: None }
    }
}

} // verus!
