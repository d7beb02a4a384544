use http_core::httprequest::HttpRequest;
use http_core::router::{HandlerKind, Router};

fn request(raw: &str) -> HttpRequest {
    HttpRequest::parse(raw).unwrap()
}

#[test]
fn test_route_get_api_selects_web_service() {
    let req = request("GET /api/shipping/orders HTTP/1.1\r\n\r\n");
    assert_eq!(Router::route(&req), HandlerKind::WebService);
}

#[test]
fn test_route_get_shallow_api_still_web_service() {
    let req = request("GET /api/x HTTP/1.1\r\n\r\n");
    assert_eq!(Router::route(&req), HandlerKind::WebService);
}

#[test]
fn test_route_get_other_selects_static() {
    let req = request("GET / HTTP/1.1\r\n\r\n");
    assert_eq!(Router::route(&req), HandlerKind::Static);
    let req = request("GET /health HTTP/1.1\r\n\r\n");
    assert_eq!(Router::route(&req), HandlerKind::Static);
}

#[test]
fn test_route_post_always_not_found() {
    let req = request("POST /anything HTTP/1.1\r\n\r\n");
    assert_eq!(Router::route(&req), HandlerKind::NotFound);
    let req = request("POST /api/shipping/orders HTTP/1.1\r\n\r\n");
    assert_eq!(Router::route(&req), HandlerKind::NotFound);
}

#[test]
fn test_route_unknown_method_not_found() {
    let req = request("DELETE /x HTTP/1.1\r\n\r\n");
    assert_eq!(Router::route(&req), HandlerKind::NotFound);
}
