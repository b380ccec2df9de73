use kvhttp::headers::Headers;

#[test]
fn test_parse_content_length() {
    let mut headers = Headers::new();
    let length = 3;
    let line = format!("Content-Length: {}", length);
    headers.parse_line(&line);
    assert_eq!(length, headers.content_length.unwrap());
}

#[test]
fn test_uses_default_content_lenght_when_empty() {
    let mut headers = Headers::new();
    headers.parse_line("Content-Length: ");
    assert_eq!(0, headers.content_length.unwrap());
}

#[test]
fn test_parse_content_type() {
    let mut headers = Headers::new();
    let content_type = "application/json";
    let line = format!("Content-Type: {}", content_type);
    headers.parse_line(&line);
    assert_eq!(content_type, headers.content_type.unwrap());
}

#[test]
fn test_uses_default_content_type_when_empty() {
    let mut headers = Headers::new();
    headers.parse_line("Content-Type: ");
    assert_eq!("text/html", headers.content_type.unwrap());
}

#[test]
fn content_length_that_is_not_a_number_is_zero() {
    let mut headers = Headers::new();
    headers.parse_line("Content-Length: abc");
    assert_eq!(Some(0), headers.content_length);
    headers.parse_line("Content-Length: 99999999999999999999999999");
    assert_eq!(Some(0), headers.content_length);
    headers.parse_line("Content-Length: +12");
    assert_eq!(Some(12), headers.content_length);
}

#[test]
fn other_header_lines_are_ignored() {
    let mut headers = Headers::new();
    headers.parse_line("Accept: text/plain");
    assert!(headers.content_type.is_none());
    assert!(headers.content_length.is_none());
    assert!(headers.x_data_version.is_none());
}

#[test]
fn content_type_takes_the_second_token() {
    assert_eq!(
        Some("a/b".to_string()),
        Headers::parse_content_type("Content-Type:\t a/b  c")
    );
    assert_eq!(Some(42), Headers::parse_content_length("Content-Length:   42 7"));
}
