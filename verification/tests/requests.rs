use worker_pool::web_server::{handle_request, response_parts, RequestKind};

#[test]
fn the_front_page_request_is_recognised() {
    let buffer = b"GET / HTTP/1.1\r\nHost: localhost:7878\r\n\r\n";
    assert_eq!(handle_request(buffer), RequestKind::Root);
}

#[test]
fn the_slow_route_is_recognised() {
    let buffer = b"GET /sleep HTTP/1.1\r\nHost: localhost:7878\r\n\r\n";
    assert_eq!(handle_request(buffer), RequestKind::Sleep);
}

#[test]
fn anything_else_is_not_found() {
    assert_eq!(handle_request(b"GET /missing HTTP/1.1\r\n"), RequestKind::NotFound);
    assert_eq!(handle_request(b"POST / HTTP/1.1\r\n"), RequestKind::NotFound);
    assert_eq!(handle_request(b""), RequestKind::NotFound);
    // A truncated request line is not the front page.
    assert_eq!(handle_request(b"GET / HTTP/1.1"), RequestKind::NotFound);
}

#[test]
fn each_request_kind_gets_its_response() {
    assert_eq!(response_parts(RequestKind::Root), ("HTTP/1.1 200 OK", "hello.html"));
    assert_eq!(response_parts(RequestKind::Sleep), ("HTTP/1.1 200 OK", "hello.html"));
    assert_eq!(
        response_parts(RequestKind::NotFound),
        ("HTTP/1.1 404 NOT FOUND", "404.html")
    );
}
