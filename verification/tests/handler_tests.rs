use http_core::handler::{OrderStatus, PageNotFoundHandler, StaticPageHandler, WebServiceHandler};
use http_core::httprequest::HttpRequest;

fn get_request(path: &str) -> HttpRequest {
    let raw = format!("GET {} HTTP/1.1\r\nHost: localhost\r\n\r\n", path);
    HttpRequest::parse(raw.as_str()).unwrap()
}

#[test]
fn test_static_root_serves_index_content() {
    let req = get_request("/");
    assert_eq!(StaticPageHandler::file_name(&req), "index.html");
    let resp = StaticPageHandler::handler(&req, Some("<h1>Hello</h1>".to_string()), None);
    assert_eq!(resp.status_code(), "200");
    assert_eq!(resp.body(), "<h1>Hello</h1>");
    assert_eq!(resp.headers(), "Content-Type:text/html\r\n");
}

#[test]
fn test_static_health_serves_health_content() {
    let req = get_request("/health");
    assert_eq!(StaticPageHandler::file_name(&req), "health.html");
    let resp = StaticPageHandler::handler(&req, Some("ok".to_string()), None);
    assert_eq!(resp.status_code(), "200");
    assert_eq!(resp.body(), "ok");
}

#[test]
fn test_static_css_content_type() {
    let req = get_request("/styles.css");
    assert_eq!(StaticPageHandler::file_name(&req), "styles.css");
    let resp = StaticPageHandler::handler(&req, Some("body{}".to_string()), None);
    assert_eq!(resp.status_code(), "200");
    assert_eq!(resp.headers(), "Content-Type:text/css\r\n");
}

#[test]
fn test_static_js_content_type() {
    let req = get_request("/app.js");
    let resp = StaticPageHandler::handler(&req, Some("let x;".to_string()), None);
    assert_eq!(resp.headers(), "Content-Type:text/javascript\r\n");
}

#[test]
fn test_static_missing_file_is_not_found() {
    let req = get_request("/nope.html");
    let resp = StaticPageHandler::handler(&req, None, Some("gone".to_string()));
    assert_eq!(resp.status_code(), "404");
    assert_eq!(resp.body(), "gone");
}

#[test]
fn test_not_found_handler_empty_body_when_page_missing() {
    let req = get_request("/whatever");
    let resp = PageNotFoundHandler::handler(&req, None);
    assert_eq!(resp.status_code(), "404");
    assert_eq!(resp.status_text(), "Not Found");
    assert_eq!(resp.body(), "");
}

#[test]
fn test_web_service_serves_orders_json() {
    let req = get_request("/api/shipping/orders");
    assert!(WebServiceHandler::needs_orders(&req));
    let orders = vec![
        OrderStatus {
            order_id: 1,
            order_date: "2021-11-01".to_string(),
            order_status: "Delivered".to_string(),
        },
        OrderStatus {
            order_id: 2,
            order_date: "2021-11-02".to_string(),
            order_status: "Pending".to_string(),
        },
    ];
    let resp = WebServiceHandler::handler(&req, Some(&orders), None);
    assert_eq!(resp.status_code(), "200");
    assert_eq!(resp.headers(), "Content-Type:application/json\r\n");
    assert_eq!(
        resp.body(),
        "[{\"order_id\":1,\"order_date\":\"2021-11-01\",\"order_status\":\"Delivered\"},\
         {\"order_id\":2,\"order_date\":\"2021-11-02\",\"order_status\":\"Pending\"}]"
    );
}

#[test]
fn test_web_service_empty_orders() {
    let req = get_request("/api/shipping/orders");
    let orders: Vec<OrderStatus> = Vec::new();
    let resp = WebServiceHandler::handler(&req, Some(&orders), None);
    assert_eq!(resp.body(), "[]");
}

#[test]
fn test_web_service_negative_order_id() {
    let req = get_request("/api/shipping/orders");
    let orders = vec![OrderStatus {
        order_id: -5,
        order_date: "d".to_string(),
        order_status: "s".to_string(),
    }];
    let resp = WebServiceHandler::handler(&req, Some(&orders), None);
    assert_eq!(resp.body(), "[{\"order_id\":-5,\"order_date\":\"d\",\"order_status\":\"s\"}]");
}

#[test]
fn test_web_service_escapes_string_fields() {
    let req = get_request("/api/shipping/orders");
    let orders = vec![OrderStatus {
        order_id: 1,
        order_date: "a\"b".to_string(),
        order_status: "c\\d".to_string(),
    }];
    let resp = WebServiceHandler::handler(&req, Some(&orders), None);
    assert_eq!(
        resp.body(),
        "[{\"order_id\":1,\"order_date\":\"a\\\"b\",\"order_status\":\"c\\\\d\"}]"
    );
}

#[test]
fn test_web_service_shallow_path_is_not_found() {
    let req = get_request("/api/x");
    assert!(!WebServiceHandler::needs_orders(&req));
    let resp = WebServiceHandler::handler(&req, None, None);
    assert_eq!(resp.status_code(), "404");
}

#[test]
fn test_web_service_wrong_segments_are_not_found() {
    let req = get_request("/api/billing/orders");
    assert!(!WebServiceHandler::needs_orders(&req));
    let resp = WebServiceHandler::handler(&req, None, Some("missing".to_string()));
    assert_eq!(resp.status_code(), "404");
    assert_eq!(resp.body(), "missing");
}
