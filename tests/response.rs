use kvhttp::headers::Headers;
use kvhttp::response::{
    build_first_line, build_headers, build_response, build_response_body, HttpStatusCode,
    Response,
};

#[test]
fn test_build_response() {
    let response = build_response(HttpStatusCode::ServerError, None, None);
    assert_eq!(response, "HTTP/1.1 500 Internal Server Error\r\n");
}

#[test]
fn test_build_first_line() {
    let response = build_first_line(HttpStatusCode::OK);
    assert_eq!(response, "HTTP/1.1 200 OK\r\n");
}

#[test]
fn test_build_headers() {
    let mut headers = Headers::new();
    headers.x_data_version = Some(2);
    let response = build_headers(Some(headers)).unwrap();
    assert_eq!(response, "X-Data-Version: 2\r\n");
}

#[test]
fn test_build_headers_with_none() {
    let response = build_headers(None);
    assert!(response.is_none());
}

#[test]
fn test_build_response_body() {
    let response_body = "body".to_string();
    let response = build_response_body(Some(response_body)).unwrap();
    assert_eq!(response, "Content-Length: 4\r\n\r\nbody\r\n");
}

#[test]
fn test_build_response_body_with_none() {
    let response = build_response_body(None);
    assert!(response.is_none());
}

#[test]
fn not_found_line_and_unset_version() {
    assert_eq!(build_first_line(HttpStatusCode::NotFound), "HTTP/1.1 404 Not Found\r\n");
    assert_eq!(build_headers(Some(Headers::new())).unwrap(), "X-Data-Version: 0\r\n");
}

#[test]
fn body_length_counts_bytes_and_parts_come_in_order() {
    let mut headers = Headers::new();
    headers.x_data_version = Some(1207);
    let text = build_response(HttpStatusCode::OK, Some(headers), Some("h\u{e9}".to_string()));
    assert_eq!(
        text,
        "HTTP/1.1 200 OK\r\nX-Data-Version: 1207\r\nContent-Length: 3\r\n\r\nh\u{e9}\r\n"
    );
    let empty_body = build_response_body(Some(String::new())).unwrap();
    assert_eq!(empty_body, "Content-Length: 0\r\n\r\n\r\n");
    let r = Response { status: HttpStatusCode::OK, headers: None, body: Some("x".to_string()) };
    assert_eq!(r.to_text(), "HTTP/1.1 200 OK\r\nContent-Length: 1\r\n\r\nx\r\n");
}
