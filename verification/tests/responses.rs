use rust_http_server::types::{Header, HttpVersion, Response, ResponseCode};

#[test]
fn response_text_without_headers() {
    let response = Response::new(HttpVersion::HttpV1_1, ResponseCode::Success, b"hi".to_vec());
    assert_eq!(response.as_string(), "HTTP/1.1 200 Ok\r\n\r\n\r\nhi");
}

#[test]
fn response_text_with_headers() {
    let mut response = Response::new(HttpVersion::HttpV1_0, ResponseCode::NotFound, Vec::new());
    response.add_header(" Content-type", "text/html");
    response.add_header("Content-length", "0 ");
    assert_eq!(
        response.clone().as_string(),
        "HTTP/1.0 404 Not Found\r\nContent-type:text/html\r\nContent-length:0\r\n\r\n"
    );
    assert_eq!(
        response.as_bytes(),
        b"HTTP/1.0 404 Not Found\r\nContent-type:text/html\r\nContent-length:0\r\n\r\n".to_vec()
    );
}

#[test]
fn response_bytes_keep_any_body() {
    let body = vec![0xff, 0x00, 0xc3, 0x28];
    let response = Response::new(HttpVersion::HttpV1_1, ResponseCode::Success, body.clone());
    let mut expected = b"HTTP/1.1 200 Ok\r\n\r\n\r\n".to_vec();
    expected.extend_from_slice(&body);
    assert_eq!(response.as_bytes(), expected);
    assert_eq!(response.body_length(), 4);
}

#[test]
fn response_bytes_are_the_text_in_utf8() {
    let mut response = Response::new(
        HttpVersion::HttpV2_0,
        ResponseCode::BadGateway,
        "gr\u{fc}\u{df}e \u{4e16}\u{754c}".as_bytes().to_vec(),
    );
    response.add_header("X-Note", "caf\u{e9}");
    let bytes = response.as_bytes();
    assert_eq!(response.as_string().into_bytes(), bytes);
}

#[test]
fn response_setters() {
    let mut response = Response::new(HttpVersion::HttpV1_1, ResponseCode::Success, Vec::new());
    assert_eq!(response.get_status_code(), ResponseCode::Success);
    response.status_code(ResponseCode::Forbidden);
    response.body(b"no".to_vec());
    response.add_header("A", "1");
    response.add_header("A", "2");
    assert_eq!(response.get_status_code(), ResponseCode::Forbidden);
    assert_eq!(response.body_length(), 2);
    assert_eq!(response.headers().len(), 2);
    assert_eq!(response.headers()[0], Header::new("A", "1"));
    assert_eq!(response.headers()[1], Header::new("A", "2"));
    assert_eq!(response.as_string(), "HTTP/1.1 403 Forbidden\r\nA:1\r\nA:2\r\n\r\nno");
}
