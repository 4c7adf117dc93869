use rust_http_server::response::Response;
use rust_http_server::text::decimal_string;

fn header<'a>(response: &'a Response, i: usize) -> (&'a str, &'a str) {
    (response.headers[i].0.as_str(), response.headers[i].1.as_str())
}

#[test]
fn new_sets_length_and_server() {
    let response = Response::new(204, "No Content", Vec::new(), None);
    assert_eq!(response.status_code, 204);
    assert_eq!(response.status_text, "No Content");
    assert_eq!(response.headers.len(), 2);
    assert_eq!(header(&response, 0), ("Content-Length", "0"));
    assert_eq!(header(&response, 1), ("Server", "RustHTTPServer/0.1"));
    assert!(response.body.is_empty());
}

#[test]
fn new_adds_content_type_only_when_given() {
    let response = Response::new(200, "OK", b"hello".to_vec(), Some("text/plain"));
    assert_eq!(response.headers.len(), 3);
    assert_eq!(header(&response, 0), ("Content-Length", "5"));
    assert_eq!(header(&response, 2), ("Content-Type", "text/plain"));
    assert_eq!(response.body, b"hello");
}

#[test]
fn content_length_is_the_byte_length_of_the_body() {
    for n in [0usize, 1, 9, 10, 11, 99, 100, 255, 256, 1023, 1024, 65536, 100000] {
        let response = Response::ok(vec![7u8; n], None);
        assert_eq!(response.headers[0].0, "Content-Length");
        assert_eq!(response.headers[0].1.parse::<usize>().unwrap(), n);
        assert_eq!(response.headers[0].1, n.to_string());
    }
    let response = Response::ok("\u{e9}\u{1F4C1}".as_bytes().to_vec(), None);
    assert_eq!(response.headers[0].1, "6");
}

#[test]
fn ok_is_200() {
    let response = Response::ok(b"x".to_vec(), Some("text/html"));
    assert_eq!(response.status_code, 200);
    assert_eq!(response.status_text, "OK");
    assert_eq!(header(&response, 2), ("Content-Type", "text/html"));
}

#[test]
fn not_found_is_404_with_plain_text_body() {
    let response = Response::not_found();
    assert_eq!(response.status_code, 404);
    assert_eq!(response.status_text, "Not Found");
    assert_eq!(response.body, b"404 Not Found");
    assert_eq!(response.headers.len(), 3);
    assert_eq!(header(&response, 0), ("Content-Length", "13"));
    assert_eq!(header(&response, 2), ("Content-Type", "text/plain"));
}

#[test]
fn forbidden_is_403_with_plain_text_body() {
    let response = Response::forbidden();
    assert_eq!(response.status_code, 403);
    assert_eq!(response.status_text, "Forbidden");
    assert_eq!(response.body, b"403 Forbidden");
    assert_eq!(response.headers.len(), 3);
    assert_eq!(header(&response, 0), ("Content-Length", "13"));
    assert_eq!(header(&response, 2), ("Content-Type", "text/plain"));
}

#[test]
fn add_header_appends_in_call_order_without_deduplication() {
    let mut response = Response::ok(Vec::new(), None);
    response.add_header("X-A", "1");
    response.add_header("X-B", "2");
    response.add_header("X-A", "3");
    assert_eq!(response.headers.len(), 5);
    assert_eq!(header(&response, 2), ("X-A", "1"));
    assert_eq!(header(&response, 3), ("X-B", "2"));
    assert_eq!(header(&response, 4), ("X-A", "3"));
    assert_eq!(response.status_code, 200);
    assert!(response.body.is_empty());
}

#[test]
fn to_bytes_is_status_line_headers_blank_line_body() {
    let mut response = Response::ok(b"hi\n".to_vec(), Some("text/plain"));
    response.add_header("Content-Disposition", "inline");
    let expected = b"HTTP/1.1 200 OK\r\nContent-Length: 3\r\nServer: RustHTTPServer/0.1\r\n\
Content-Type: text/plain\r\nContent-Disposition: inline\r\n\r\nhi\n";
    assert_eq!(response.to_bytes(), expected.to_vec());
}

#[test]
fn to_bytes_of_not_found() {
    let expected = b"HTTP/1.1 404 Not Found\r\nContent-Length: 13\r\nServer: RustHTTPServer/0.1\r\n\
Content-Type: text/plain\r\n\r\n404 Not Found";
    assert_eq!(Response::not_found().to_bytes(), expected.to_vec());
}

#[test]
fn to_bytes_of_forbidden() {
    let expected = b"HTTP/1.1 403 Forbidden\r\nContent-Length: 13\r\nServer: RustHTTPServer/0.1\r\n\
Content-Type: text/plain\r\n\r\n403 Forbidden";
    assert_eq!(Response::forbidden().to_bytes(), expected.to_vec());
}

#[test]
fn to_bytes_keeps_the_body_verbatim() {
    let body: Vec<u8> = (0..=255u8).collect();
    let bytes = Response::new(200, "OK", body.clone(), None).to_bytes();
    assert!(bytes.ends_with(&body));
    let head = b"HTTP/1.1 200 OK\r\nContent-Length: 256\r\nServer: RustHTTPServer/0.1\r\n\r\n";
    assert_eq!(&bytes[..head.len()], head);
    assert_eq!(bytes.len(), head.len() + 256);
}

#[test]
fn to_bytes_repeats_a_header_added_twice() {
    let mut response = Response::new(200, "OK", Vec::new(), None);
    response.add_header("Set-Cookie", "a=1");
    response.add_header("Set-Cookie", "b=2");
    let text = String::from_utf8(response.to_bytes()).unwrap();
    assert_eq!(text.matches("Set-Cookie: ").count(), 2);
    assert!(text.ends_with("Set-Cookie: a=1\r\nSet-Cookie: b=2\r\n\r\n"));
}

#[test]
fn status_line_reads_back() {
    let cases = [
        (200u16, "OK"),
        (404, "Not Found"),
        (0, ""),
        (65535, "Way Out There"),
        (7, "r\u{e9}sum\u{e9}"),
        (8, "lone\rreturn"),
        (9, "lone\nfeed"),
        (10, "ends in return\r"),
        (11, "\n\r"),
    ];
    for (code, reason) in cases {
        let bytes = Response::new(code, reason, b"body".to_vec(), None).to_bytes();
        let text = String::from_utf8(bytes).unwrap();
        let line = text.split("\r\n").next().unwrap();
        let rest = line.strip_prefix("HTTP/1.1 ").unwrap();
        let (c, r) = rest.split_once(' ').unwrap();
        assert_eq!(c.parse::<u16>().unwrap(), code);
        assert_eq!(r, reason);
    }
}

#[test]
fn status_line_with_a_line_end_in_the_reason_reads_back_short() {
    let bytes = Response::new(200, "O\r\nK", Vec::new(), None).to_bytes();
    assert!(bytes.starts_with(b"HTTP/1.1 200 O\r\nK\r\n"));
    let text = String::from_utf8(bytes).unwrap();
    assert_eq!(text.split("\r\n").next().unwrap(), "HTTP/1.1 200 O");
}

#[test]
fn other_status_codes_through_the_generic_constructor() {
    let response = Response::new(500, "Internal Server Error", b"oops".to_vec(), Some("text/plain"));
    assert_eq!(response.status_code, 500);
    assert!(response.to_bytes().starts_with(b"HTTP/1.1 500 Internal Server Error\r\n"));
}

#[test]
fn decimal_numerals() {
    assert_eq!(decimal_string(0), "0");
    assert_eq!(decimal_string(7), "7");
    assert_eq!(decimal_string(10), "10");
    assert_eq!(decimal_string(1024), "1024");
    assert_eq!(decimal_string(9876543210), "9876543210");
    assert_eq!(decimal_string(usize::MAX), usize::MAX.to_string());
}
