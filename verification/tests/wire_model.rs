use rust_http_server::types::{
    Header, HttpVersion, Method, Request, RequestLine, ResponseCode, StatusLine,
};

#[test]
pub fn method_to_string() {
    assert_eq!("GET", Method::Get.to_string());
    assert_eq!("HEAD", Method::Head.to_string());
    assert_eq!("POST", Method::Post.to_string());
    assert_eq!("PUT", Method::Put.to_string());
    assert_eq!("DELETE", Method::Delete.to_string());
    assert_eq!("OPTIONS", Method::Options.to_string());
}

#[test]
pub fn match_method() {
    let get = "GET";
    let post = "Post";
    let unknown = "Random";

    assert_eq!(Some(Method::Get), Method::from_string(get));
    assert_eq!(Some(Method::Post), Method::from_string(post));
    assert_eq!(None, Method::from_string(unknown));
}

#[test]
pub fn response_code_to_string() {
    let ok = ResponseCode::Success;
    let bad_request = ResponseCode::BadRequest;
    let not_found = ResponseCode::NotFound;
    let internal_server_error = ResponseCode::InternalServerError;

    assert_eq!(ResponseCode::new(200), ok);
    assert_eq!(ResponseCode::new(400), bad_request);
    assert_eq!(ResponseCode::new(404), not_found);
    assert_eq!(ResponseCode::new(500), internal_server_error);
}

#[test]
pub fn parse_request_line() {
    let request_line_string = "GET /home HTTP/1.1 ";
    let request_line = RequestLine::new(HttpVersion::HttpV1_1, Method::Get, "/home".to_string());
    assert_eq!(
        request_line,
        RequestLine::from_string(&request_line_string.to_string()).unwrap()
    )
}

#[test]
pub fn parse_status_line() {
    let status_line_string = "HTTP/1.1 200 OK";
    let status_line = StatusLine::new(HttpVersion::HttpV1_1, 200);
    assert_eq!(
        status_line_string.to_lowercase(),
        status_line.to_string().to_lowercase()
    )
}

#[test]
pub fn header_to_string() {
    let header = Header::new("Content-type", "application/json");
    assert_eq!("Content-type : application/json", header);
    assert_eq!("Content-type: application/json", header);
    assert_eq!("Content-type:application/json", header);
    assert_eq!(Header::new("Content-type", "application/json"), header);
}

#[test]
pub fn parse_string_to_request() {
    const REQUEST: &str = "GET / HTTP/1.1\r\nHost: localhost:50000\r\nConnection: keep-alive\r\nCache-Control: max-age=0\r\nsec-ch-ua: \"Not/A)Brand\";v=\"99\", \"Google Chrome\";v=\"115\", \"Chromium\";v=\"115\"\r\nsec-ch-ua-mobile: ?0\r\nsec-ch-ua-platform: \"macOS\"\r\nUpgrade-Insecure-Requests: 1\r\nUser-Agent: Mozilla/5.0 (Macintosh; Intel Mac OS X 10_15_7) AppleWebKit/537.36 (KHTML, like Gecko) Chrome/115.0.0.0 Safari/537.36\r\nAccept: text/html,application/xhtml+xml,application/xml;q=0.9,image/avif,image/webp,image/apng,*/*;q=0.8,application/signed-exchange;\r\n\r\nBody";
    let maybe_request = Request::parse_from_string(&REQUEST.to_string());
    assert_eq!(maybe_request.is_none(), false);
    assert_eq!(maybe_request.is_some(), true);
    let request = maybe_request.unwrap();
    assert_eq!(request.request_line.version, HttpVersion::HttpV1_1);
    assert_eq!(request.request_line.method, Method::Get);
    assert_eq!(request.headers.len(), 9);
    assert_eq!(
        request
            .headers
            .contains(&Header::new("Host", "localhost:50000")),
        true
    );
}

#[test]
fn method_is_read_in_any_letter_case() {
    assert_eq!(Some(Method::Get), Method::from_string("get"));
    assert_eq!(Some(Method::Head), Method::from_string("hEaD"));
    assert_eq!(Some(Method::Put), Method::from_string("put"));
    assert_eq!(Some(Method::Delete), Method::from_string("Delete"));
    assert_eq!(Some(Method::Options), Method::from_string("options"));
    assert_eq!(None, Method::from_string("PATCH"));
    assert_eq!(None, Method::from_string(""));
    assert_eq!(None, Method::from_string("GET "));
}

#[test]
fn method_is_read_through_the_unicode_upper_case() {
    // U+017F, the long s, has `S` as its upper-case form.
    assert_eq!(Some(Method::Post), Method::from_string("po\u{17f}t"));
    assert_eq!("po\u{17f}t".to_uppercase(), "POST");
}

#[test]
fn canonical_method_names_only() {
    assert_eq!(Some(Method::Post), Method::from_canonical("POST"));
    assert_eq!(None, Method::from_canonical("Post"));
    assert_eq!("DELETE", Method::Delete.as_str());
}

#[test]
fn method_name_round_trip() {
    for m in [
        Method::Get,
        Method::Head,
        Method::Post,
        Method::Put,
        Method::Delete,
        Method::Options,
    ] {
        assert_eq!(Some(m), Method::from_string(&m.to_string()));
    }
}

#[test]
fn version_names() {
    assert_eq!(Some(HttpVersion::HttpV1_0), HttpVersion::from_string("HTTP/1.0"));
    assert_eq!(Some(HttpVersion::HttpV1_1), HttpVersion::from_string("HTTP/1.1"));
    assert_eq!(Some(HttpVersion::HttpV2_0), HttpVersion::from_string("HTTP/2.0"));
    assert_eq!(Some(HttpVersion::HttpV3_0), HttpVersion::from_string("HTTP/3.0"));
    assert_eq!(None, HttpVersion::from_string("http/1.1"));
    assert_eq!(None, HttpVersion::from_string("HTTP/1.2"));
    assert_eq!(None, HttpVersion::from_string("HTTP/1.1 "));
    assert_eq!("HTTP/2.0", HttpVersion::HttpV2_0.to_string());
    for v in [
        HttpVersion::HttpV1_0,
        HttpVersion::HttpV1_1,
        HttpVersion::HttpV2_0,
        HttpVersion::HttpV3_0,
    ] {
        assert_eq!(Some(v), HttpVersion::from_string(v.to_string()));
    }
}

#[test]
fn response_code_numbers() {
    let recognised = [200, 400, 401, 403, 404, 405, 500, 501, 502, 503, 504, 505];
    for n in 0..1000usize {
        let code = ResponseCode::new(n);
        if recognised.contains(&n) {
            assert_eq!(code.code(), n);
            assert_ne!(code, ResponseCode::Unknown);
        } else {
            assert_eq!(code, ResponseCode::Unknown);
            assert_eq!(code.code(), 0);
        }
    }
    assert_eq!(ResponseCode::new(usize::MAX), ResponseCode::Unknown);
}

#[test]
fn response_code_texts() {
    assert_eq!(ResponseCode::Success.to_string(), Some("200 Ok"));
    assert_eq!(ResponseCode::NotFound.to_string(), Some("404 Not Found"));
    assert_eq!(
        ResponseCode::HttpVersionNotSupported.to_string(),
        Some("505 Http Version Not Supported")
    );
    assert_eq!(ResponseCode::Unknown.to_string(), None);
    assert_eq!(ResponseCode::Unknown.reason_phrase(), None);
    assert_eq!(
        ResponseCode::MethodNotAllowed.reason_phrase(),
        Some("Method Not Allowed".to_string())
    );
}

#[test]
fn status_text_is_number_space_phrase() {
    for n in [200usize, 400, 401, 403, 404, 405, 500, 501, 502, 503, 504, 505] {
        let code = ResponseCode::new(n);
        let expected = format!("{} {}", n, code.reason_phrase().unwrap());
        assert_eq!(code.to_string(), Some(expected.as_str()));
    }
}

#[test]
fn request_line_needs_three_words() {
    assert!(RequestLine::from_string(&"GET /home".to_string()).is_none());
    assert!(RequestLine::from_string(&"GET /home HTTP/1.1 extra".to_string()).is_none());
    assert!(RequestLine::from_string(&"".to_string()).is_none());
    assert!(RequestLine::from_string(&"   ".to_string()).is_none());
}

#[test]
fn request_line_needs_known_method_and_version() {
    assert!(RequestLine::from_string(&"PATCH / HTTP/1.1".to_string()).is_none());
    assert!(RequestLine::from_string(&"GET / HTTP/9.9".to_string()).is_none());
    assert!(RequestLine::from_string(&"GET / http/1.1".to_string()).is_none());
}

#[test]
fn request_line_words_are_parted_by_any_white_space() {
    let expected = RequestLine::new(HttpVersion::HttpV2_0, Method::Delete, "/a/b".to_string());
    let line = "\t delete \u{a0}\u{2003} /a/b\u{3000}HTTP/2.0\n".to_string();
    assert_eq!(RequestLine::from_string(&line), Some(expected));
}

#[test]
fn request_line_round_trip() {
    let parsed = RequestLine::from_string(&"  oPtIoNs   /x?y=1   HTTP/3.0 ".to_string()).unwrap();
    let written = format!(
        "{} {} {}",
        parsed.method.to_string(),
        parsed.resource,
        parsed.version.to_string()
    );
    assert_eq!(written, "OPTIONS /x?y=1 HTTP/3.0");
    assert_eq!(RequestLine::from_string(&written), Some(parsed));
}

#[test]
fn status_line_text() {
    assert_eq!(
        StatusLine::new(HttpVersion::HttpV1_1, 404).to_string(),
        "HTTP/1.1 404 Not Found"
    );
    assert_eq!(
        StatusLine::new(HttpVersion::HttpV1_0, 503).to_string(),
        "HTTP/1.0 503 Service Unavailable"
    );
    assert_eq!(
        StatusLine::new(HttpVersion::HttpV1_1, 200),
        StatusLine::new(HttpVersion::HttpV1_1, 200)
    );
    assert_ne!(
        StatusLine::new(HttpVersion::HttpV1_1, 200),
        StatusLine::new(HttpVersion::HttpV1_1, 404)
    );
    assert_eq!(
        StatusLine::new(HttpVersion::HttpV1_1, 299),
        StatusLine::new(HttpVersion::HttpV1_1, 0)
    );
}

#[test]
fn header_text_forms() {
    let header = Header::new("Host", "x");
    assert_eq!(header.to_string(), "Host:x");
    assert_eq!(header.to_display_string(), "Host : x");
    assert_eq!(header.name(), "Host");
    assert_eq!(header.value(), "x");
}

#[test]
fn header_equality_is_trimmed_and_case_sensitive() {
    let header = Header::new("Content-type", "application/json");
    assert_eq!(Header::new(" Content-type\t", "\u{a0}application/json "), header);
    assert_ne!(Header::new("content-type", "application/json"), header);
    assert_ne!(Header::new("Content-type", "application/JSON"), header);
    assert_ne!(Header::new("Content- type", "application/json"), header);
    assert!(&header == Header::new("Content-type ", " application/json"));
}

#[test]
fn header_lines_equal_each_other() {
    let a = Header::from_line("Content-type : application/json");
    let b = Header::from_line("Content-type:application/json");
    assert_eq!(a, b);
    assert_eq!(a.name(), "Content-type ");
    assert_eq!(a.value(), "application/json");
    assert_eq!(b.name(), "Content-type");
}

#[test]
fn header_line_splits_at_the_first_colon_only() {
    let header = Header::from_line("Host: localhost:50000");
    assert_eq!(header.name(), "Host");
    assert_eq!(header.value(), "localhost:50000");
    assert_eq!("Host: localhost:50000", header);
    let empty_name = Header::from_line(": v");
    assert_eq!(empty_name.name(), "");
    assert_eq!(empty_name.value(), "v");
}

#[test]
fn header_line_without_a_colon_is_a_name() {
    let header = Header::from_line("Upgrade");
    assert_eq!(header.name(), "Upgrade");
    assert_eq!(header.value(), "");
    assert_eq!(header, Header::new("Upgrade", ""));
    let only_colon = Header::from_line("Upgrade:");
    assert_eq!(only_colon.name(), "Upgrade");
    assert_eq!(only_colon.value(), "");
}

#[test]
fn request_of_the_round_trip_scenario() {
    let request = Request::parse("GET /home HTTP/1.1\r\nHost: x\r\n\r\n").unwrap();
    assert_eq!(request.request_line.method, Method::Get);
    assert_eq!(request.request_line.resource, "/home");
    assert_eq!(request.request_line.version, HttpVersion::HttpV1_1);
    assert_eq!(request.headers.len(), 1);
    assert_eq!(request.headers[0].name(), "Host");
    assert_eq!(request.headers[0].value(), "x");
    assert!(request.body.is_empty());
}

#[test]
fn request_headers_end_at_the_first_empty_line() {
    let text = "POST /f HTTP/1.0\r\nA: 1\r\nB: 2\r\nA: 3\r\n\r\nC: 4\r\nbody";
    let request = Request::parse_from_str(text).unwrap();
    assert_eq!(request.headers.len(), 3);
    assert_eq!(request.headers[0].to_string(), "A:1");
    assert_eq!(request.headers[1].to_string(), "B:2");
    assert_eq!(request.headers[2].to_string(), "A:3");
    assert!(request.body.is_empty());
}

#[test]
fn request_without_line_breaks() {
    let request = Request::parse("HEAD / HTTP/1.1").unwrap();
    assert_eq!(request.request_line.method, Method::Head);
    assert_eq!(request.headers.len(), 0);
    let bare_line_feeds = Request::parse("GET / HTTP/1.1\nHost: x\n\n");
    assert!(bare_line_feeds.is_none());
}

#[test]
fn request_with_a_bad_first_line_is_none() {
    assert!(Request::parse("").is_none());
    assert!(Request::parse("\r\nGET / HTTP/1.1\r\n\r\n").is_none());
    assert!(Request::parse("PATCH / HTTP/1.1\r\n\r\n").is_none());
    assert!(Request::parse_from_string(&"GET /\r\n\r\n".to_string()).is_none());
}

#[test]
fn request_add_header_appends() {
    let request = Request::parse("GET / HTTP/1.1\r\nA: 1\r\n\r\n").unwrap();
    let request = request.add_header(&"B".to_string(), &" 2".to_string());
    assert_eq!(request.headers.len(), 2);
    assert_eq!(request.headers[1].name(), "B");
    assert_eq!(request.headers[1].value(), " 2");
    assert_eq!(request.request_line.resource, "/");
}
