use exercises::http::{
    build_json_response, build_response, match_route, route_request, store_headers, Request, Response,
};

#[test]
fn test_parse_request() {
    let raw = "GET /hello HTTP/1.1\r\nHost: localhost\r\nContent-Type: text/plain\r\n\r\n";
    let req = Request::parse(raw).unwrap();

    assert_eq!(req.method, "GET");
    assert_eq!(req.path, "/hello");
    assert_eq!(req.header("host"), Some(&"localhost".to_string()));
}

#[test]
fn test_route_root() {
    let response = match_route("/");
    assert!(response.contains("200 OK"));
    assert!(response.contains("Welcome"));
}

#[test]
fn test_route_hello() {
    let response = match_route("/hello/world");
    assert!(response.contains("200 OK"));
    assert!(response.contains("Hello, world!"));
}

#[test]
fn test_route_json() {
    let response = match_route("/json");
    assert!(response.contains("200"));
    assert!(response.contains("application/json"));
}

#[test]
fn test_route_not_found() {
    let response = match_route("/unknown");
    assert!(response.contains("404"));
    assert!(response.contains("Not Found"));
}

#[test]
fn test_response_builder() {
    let response = Response::new(200, "OK")
        .with_header("Content-Type", "text/plain")
        .with_body("Hello");

    let s = response.to_string();
    assert!(s.contains("HTTP/1.1 200 OK"));
    assert!(s.contains("Content-Type: text/plain"));
    assert!(s.contains("Hello"));
}

#[test]
fn response_text_exact() {
    let s = Response::new(201, "Created").with_header("X-A", "1").with_body("hé").to_string();
    assert_eq!(s, "HTTP/1.1 201 Created\r\nX-A: 1\r\nContent-Length: 3\r\n\r\nhé");
}

#[test]
fn build_response_exact() {
    assert_eq!(
        build_response(200, "OK", "hi"),
        "HTTP/1.1 200 OK\r\nContent-Type: text/plain; charset=utf-8\r\nContent-Length: 2\r\nConnection: close\r\n\r\nhi"
    );
    assert_eq!(
        build_json_response(200, "{}"),
        "HTTP/1.1 200 OK\r\nContent-Type: application/json; charset=utf-8\r\nContent-Length: 2\r\nConnection: close\r\n\r\n{}"
    );
}

#[test]
fn routes_and_errors() {
    assert!(match_route("/hello/").contains("400 Bad Request"));
    assert!(match_route("/hello/").contains("Name is required"));
    assert!(match_route("/headers").contains("200 OK"));
    assert!(match_route("/nope").contains("Path '/nope' not found"));
    assert!(route_request("POST / HTTP/1.1").contains("405 Method Not Allowed"));
    assert!(route_request("GET").contains("400 Bad Request"));
    assert!(route_request("GET /hello/ann HTTP/1.1").contains("Hello, ann!"));
}

#[test]
fn request_headers_lowercase_and_stop_at_blank_line() {
    let raw = "GET  /a  HTTP/1.1\nX-Token: one\nx-token: two\nNoColon\n\nAfter: x";
    let req = Request::parse(raw).unwrap();
    assert_eq!(req.path, "/a");
    assert_eq!(req.header("x-token"), Some(&"two".to_string()));
    assert_eq!(req.header("after"), None);
    assert_eq!(req.headers.len(), 1);
    assert!(Request::parse("").is_none());
    assert!(Request::parse("GET\r\n").is_none());
}

#[test]
fn later_header_field_replaces_value() {
    let fields = vec![
        ("host".to_string(), "a".to_string()),
        ("accept".to_string(), "x".to_string()),
        ("host".to_string(), "b".to_string()),
    ];
    let headers = store_headers(&fields);
    assert_eq!(
        headers,
        vec![("host".to_string(), "b".to_string()), ("accept".to_string(), "x".to_string())]
    );
}
