use http_core::httprequest::{HttpRequest, Method, ParseError, Resource, Version};

#[test]
fn test_method_into() {
    let m: Method = "GET".into();
    assert_eq!(m, Method::Get);
}

#[test]
fn test_version_into() {
    let v: Version = "HTTP/1.1".into();
    assert_eq!(v, Version::V1_1);
}

#[test]
fn test_read_http() {
    let content = String::from("GET /sd HTTP/1.1\r\nUser-Agent: PostmanRuntime/7.28.4\r\nAccept: */*\r\nPostman-Token: 529edce1-9249-4a63-96b4-127cb0f57a83\r\nHost: 159.75.96.101:7879\r\nAccept-Encoding: gzip, deflate, br\r\nConnection: keep-alive\r\n\r\n");
    let req: HttpRequest = HttpRequest::parse(content.as_str()).unwrap();
    assert_eq!(Method::Get, req.method);
    assert_eq!(Version::V1_1, req.version);
    assert_eq!(Resource::Path("/sd".to_string()), req.resource);
    assert_eq!(req.headers.get("Host"), Some("159.75.96.101:7879".to_string()));
    assert_eq!(req.headers.get("User-Agent"), Some("PostmanRuntime/7.28.4".to_string()));
    assert_eq!(
        req.headers.get("Postman-Token"),
        Some("529edce1-9249-4a63-96b4-127cb0f57a83".to_string())
    );
    assert_eq!(req.headers.get("Accept-Encoding"), Some("gzip, deflate, br".to_string()));
    assert_eq!(req.headers.get("Connection"), Some("keep-alive".to_string()));
    assert_eq!(req.headers.get("Accept"), Some("*/*".to_string()));
}

#[test]
fn test_parse_end_to_end() {
    let req = HttpRequest::parse("GET /sd HTTP/1.1\r\nUser-Agent: X\r\n\r\n").unwrap();
    assert_eq!(req.method, Method::Get);
    assert_eq!(req.version, Version::V1_1);
    assert_eq!(req.resource, Resource::Path("/sd".to_string()));
    assert_eq!(req.headers.get("User-Agent"), Some("X".to_string()));
    assert_eq!(req.body, "");
}

#[test]
fn test_parse_missing_request_line() {
    assert_eq!(HttpRequest::parse("").unwrap_err(), ParseError::MissingRequestLine);
    assert_eq!(
        HttpRequest::parse("User-Agent: X\r\n\r\n").unwrap_err(),
        ParseError::MissingRequestLine
    );
}

#[test]
fn test_parse_malformed_request_line() {
    assert_eq!(
        HttpRequest::parse("GET HTTP/1.1\r\n\r\n").unwrap_err(),
        ParseError::MalformedRequestLine
    );
}

#[test]
fn test_parse_duplicate_header_keeps_last() {
    let req = HttpRequest::parse("GET / HTTP/1.1\r\nX-Tag: first\r\nX-Tag: second\r\n\r\n").unwrap();
    assert_eq!(req.headers.get("X-Tag"), Some("second".to_string()));
}

#[test]
fn test_parse_header_trims_whitespace() {
    let req = HttpRequest::parse("GET / HTTP/1.1\r\n  Host  :   here \r\n\r\n").unwrap();
    assert_eq!(req.headers.get("Host"), Some("here".to_string()));
}

#[test]
fn test_parse_body_last_line_wins() {
    let req = HttpRequest::parse("POST /x HTTP/1.1\r\nfirst\r\nsecond\r\n\r\n").unwrap();
    assert_eq!(req.method, Method::Post);
    assert_eq!(req.body, "second");
}

#[test]
fn test_parse_unknown_method_and_version() {
    let req = HttpRequest::parse("PUT /x HTTP/2.0\r\n\r\n").unwrap();
    assert_eq!(req.method, Method::Uninitialized);
    assert_eq!(req.version, Version::Uninitialized);
}
