use kvhttp::request::{Method, Request};

#[test]
fn test_parse_first_line_without_version() {
    let first_line = "POST /foo HTTP/1.1";
    let (method, uri, version) = Request::parse_first_line(Some(first_line));
    assert_eq!(method, Method::Post);
    assert_eq!(uri, "/foo".to_string());
    assert!(version.is_none());
}

#[test]
fn test_parse_first_line_with_version() {
    let first_line = "POST /foo?a=b HTTP/1.1";
    let (method, uri, query) = Request::parse_first_line(Some(first_line));
    assert_eq!(method, Method::Post);
    assert_eq!(uri, "/foo".to_string());
    assert_eq!(query.unwrap().get("a"), Some(&"b".to_string()));
}

#[test]
fn test_parse_method() {
    let method = "POST";
    let parsed = Request::parse_method(Some(method));
    assert_eq!(parsed, Method::Post);
}

#[test]
fn test_parse_uri() {
    let uri = "/foo";
    let parsed = Request::parse_uri(Some(uri));
    assert_eq!(parsed.0, uri);
}

#[test]
fn test_parse_uri_removes_trailing_slash() {
    let uri = "/foo/";
    let parsed = Request::parse_uri(Some(uri));
    assert_eq!(parsed.0, "/foo");
}

#[test]
fn test_parse_uri_with_query_string() {
    let uri = "/foo?a=b";
    let parsed = Request::parse_uri(Some(uri));
    assert_eq!(parsed.0, "/foo");
    assert_eq!(parsed.1.unwrap().get("a"), Some(&"b".to_string()));
}

#[test]
fn test_parse_query() {
    let query = "a=b&c=d";
    let parsed = Request::parse_query(query).unwrap();
    assert_eq!(parsed.get("a"), Some(&"b".to_string()));
}

#[test]
fn test_parse_complex_query() {
    let query = "a=b&c=d";
    let parsed = Request::parse_query(query).unwrap();
    assert_eq!(parsed.get("a"), Some(&"b".to_string()));
    assert_eq!(parsed.get("c"), Some(&"d".to_string()));
}

#[test]
fn test_parse_query_skips_unmatched_pairs() {
    let query = "a=b&c&d&e";
    let parsed = Request::parse_query(query).unwrap();
    assert_eq!(parsed.len(), 1);
}

#[test]
fn empty_query_string_is_an_empty_map() {
    let parsed = Request::parse_query("").unwrap();
    assert_eq!(parsed.len(), 0);
    let (path, query) = Request::parse_uri(Some("/foo?"));
    assert_eq!(path, "/foo");
    assert_eq!(query.unwrap().len(), 0);
}

#[test]
fn duplicate_query_keys_keep_the_last_value() {
    let parsed = Request::parse_query("a=1&b=2&a=3&x=y=z").unwrap();
    assert_eq!(parsed.len(), 2);
    assert_eq!(parsed.get("a"), Some(&"3".to_string()));
    assert_eq!(parsed.get("x"), None);
}

#[test]
fn root_path_keeps_its_slash() {
    assert_eq!(Request::parse_uri(Some("/")).0, "/");
    assert_eq!(Request::parse_uri(None).0, "/");
    assert_eq!(Request::parse_uri(Some("/a/b//")).0, "/a/b/");
    assert_eq!(Request::parse_uri(Some("/foo/?a=b")).0, "/foo");
}

#[test]
fn uri_splits_at_the_first_question_mark() {
    let (path, query) = Request::parse_uri(Some("/a?b=c?d"));
    assert_eq!(path, "/a");
    assert_eq!(query.unwrap().get("b"), Some(&"c?d".to_string()));
}

#[test]
fn unknown_or_missing_method_is_get() {
    assert_eq!(Request::parse_method(Some("PATCH")), Method::Get);
    assert_eq!(Request::parse_method(Some("post")), Method::Get);
    assert_eq!(Request::parse_method(None), Method::Get);
    assert_eq!(Request::parse_method(Some("DELETE")), Method::Delete);
    assert_eq!(Request::parse_method(Some("GET")), Method::Get);
    let (method, uri, query) = Request::parse_first_line(None);
    assert_eq!(method, Method::Get);
    assert_eq!(uri, "/");
    assert!(query.is_none());
    assert_eq!(Method::Delete.as_str(), "DELETE");
}

#[test]
fn patch_request_is_parsed_as_get() {
    let request = Request::parse("PATCH /items HTTP/1.1\r\n\r\n");
    assert_eq!(request.method, Method::Get);
    assert_eq!(request.uri, "/items");
}

#[test]
fn whole_request_is_parsed() {
    let text = "POST /foo/?a=b HTTP/1.1\r\nContent-Type: application/json\r\nContent-Length: 11\r\nHost: x\r\n\r\nhello\r\nworld\r\n\r\nignored\r\n";
    let request = Request::parse(text);
    assert_eq!(request.method, Method::Post);
    assert_eq!(request.uri, "/foo");
    assert_eq!(request.query.get("a"), Some(&"b".to_string()));
    assert_eq!(request.headers.content_type, Some("application/json".to_string()));
    assert_eq!(request.headers.content_length, Some(11));
    assert_eq!(request.body, "hello\nworld");
}

#[test]
fn request_without_headers_or_body() {
    let request = Request::parse("DELETE /k");
    assert_eq!(request.method, Method::Delete);
    assert_eq!(request.uri, "/k");
    assert_eq!(request.query.len(), 0);
    assert!(request.headers.content_type.is_none());
    assert_eq!(request.body, "");
    let empty = Request::parse("");
    assert_eq!(empty.method, Method::Get);
    assert_eq!(empty.uri, "/");
}
