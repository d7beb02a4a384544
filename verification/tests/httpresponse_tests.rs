use http_core::headers::Headers;
use http_core::httpresponse::HttpResponse;

#[test]
fn test_headers_insert_replaces_existing_name() {
    let mut h = Headers::new();
    h.insert("Content-Type".to_string(), "text/html".to_string());
    h.insert("Content-Type".to_string(), "text/css".to_string());
    assert_eq!(h.get("Content-Type"), Some("text/css".to_string()));
    let resp = HttpResponse::new("200", Some(h), None);
    assert_eq!(resp.headers(), "Content-Type:text/css\r\n");
}

#[test]
fn test_response_struct_creation_200() {
    let response_actual = HttpResponse::new("200", None, Some("xxxx".into()));
    assert_eq!(response_actual.version(), "HTTP/1.1");
    assert_eq!(response_actual.status_code(), "200");
    assert_eq!(response_actual.status_text(), "OK");
    assert_eq!(response_actual.headers(), "Content-Type:text/html\r\n");
    assert_eq!(response_actual.body(), "xxxx");
    assert_eq!(
        response_actual.serialize(),
        "HTTP/1.1 200 OK\r\nContent-Type:text/html\r\nContent-Length: 4\r\n\r\nxxxx"
    );
}

#[test]
fn test_serialize_contains_expected_parts() {
    let wire = HttpResponse::new("200", None, Some("xxxx".into())).serialize();
    assert!(wire.contains("HTTP/1.1 200 OK"));
    assert!(wire.contains("Content-Type:text/html"));
    assert!(wire.contains("Content-Length: 4"));
    assert!(wire.ends_with("xxxx"));
}

#[test]
fn test_status_text_table() {
    assert_eq!(HttpResponse::new("200", None, None).status_text(), "OK");
    assert_eq!(HttpResponse::new("400", None, None).status_text(), "Bad Request");
    assert_eq!(HttpResponse::new("404", None, None).status_text(), "Not Found");
    assert_eq!(
        HttpResponse::new("500", None, None).status_text(),
        "Internal Server Error"
    );
}

#[test]
fn test_status_text_unlisted_code() {
    assert_eq!(HttpResponse::new("999", None, None).status_text(), "Not Found");
}

#[test]
fn test_empty_body_serialization() {
    let wire = HttpResponse::new("404", None, None).serialize();
    assert_eq!(wire, "HTTP/1.1 404 Not Found\r\nContent-Type:text/html\r\nContent-Length: 0\r\n\r\n");
}

#[test]
fn test_content_length_counts_bytes_not_chars() {
    let wire = HttpResponse::new("200", None, Some("\u{e9}".into())).serialize();
    assert!(wire.contains("Content-Length: 2"));
}

#[test]
fn test_default_response() {
    let r = HttpResponse::default();
    assert_eq!(r.version(), "HTTP/1.1");
    assert_eq!(r.status_code(), "200");
    assert_eq!(r.status_text(), "OK");
    assert_eq!(r.body(), "");
}

#[test]
fn test_send_response_writes_wire_text() {
    let resp = HttpResponse::new("200", None, Some("xxxx".into()));
    let mut sink: Vec<u8> = Vec::new();
    resp.send_response(&mut sink).unwrap();
    assert_eq!(String::from_utf8(sink).unwrap(), resp.serialize());
}
