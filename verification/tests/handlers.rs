use rust_http_server::http::{
    dispatch, handle_bad_request, handle_connection, handle_connection_at, handle_failure,
    handle_get_request, handle_post_request, handle_request_string, handle_unsupported_request,
    http_date, is_stop_command, requested_file, resource_path, DATE_PATTERN,
    METHOD_NOT_FOUND_STR, METHOD_NOT_IMPLEMENTED_STR,
};
use rust_http_server::types::{Header, HttpVersion, Request, ResponseCode};

fn text(bytes: Vec<u8>) -> String {
    String::from_utf8(bytes).unwrap()
}

#[test]
fn resource_paths() {
    let root = Request::parse("GET / HTTP/1.1\r\n\r\n").unwrap();
    assert_eq!(resource_path(&root), "www/index.html");
    let home = Request::parse("GET /home HTTP/1.1\r\n\r\n").unwrap();
    assert_eq!(resource_path(&home), "www//home");
    let page = Request::parse("GET a.html HTTP/1.1\r\n\r\n").unwrap();
    assert_eq!(resource_path(&page), "www/a.html");
}

#[test]
fn requested_file_is_named_for_get_only() {
    assert_eq!(
        requested_file(b"GET / HTTP/1.1\r\nHost: x\r\n\r\n"),
        Some("www/index.html".to_string())
    );
    assert_eq!(
        requested_file(b"get /a/b.css HTTP/1.0\r\n\r\n"),
        Some("www//a/b.css".to_string())
    );
    assert_eq!(requested_file(b"POST / HTTP/1.1\r\n\r\n"), None);
    assert_eq!(requested_file(b"HEAD / HTTP/1.1\r\n\r\n"), None);
    assert_eq!(requested_file(b"PATCH / HTTP/1.1\r\n\r\n"), None);
    assert_eq!(requested_file(b"GET /\xff HTTP/1.1\r\n\r\n"), None);
    assert_eq!(requested_file(b""), None);
}

#[test]
fn get_serves_the_resource() {
    let request = Request::parse("GET /a HTTP/1.0\r\n\r\n").unwrap();
    let response = handle_get_request(&request, Some(b"<p>a</p>".to_vec()));
    assert_eq!(response.get_status_code(), ResponseCode::Success);
    assert_eq!(
        response.as_string(),
        "HTTP/1.0 200 Ok\r\nContent-type:text/html\r\nContent-length:8\r\n\r\n<p>a</p>"
    );
}

#[test]
fn get_serves_an_empty_resource() {
    let request = Request::parse("GET /a HTTP/1.1\r\n\r\n").unwrap();
    let response = handle_get_request(&request, Some(Vec::new()));
    assert_eq!(
        response.as_string(),
        "HTTP/1.1 200 Ok\r\nContent-type:text/html\r\nContent-length:0\r\n\r\n"
    );
}

#[test]
fn get_of_a_missing_resource_is_not_found() {
    let request = Request::parse("GET /home HTTP/1.1\r\nHost: x\r\n\r\n").unwrap();
    let response = handle_get_request(&request, None);
    assert_eq!(response.get_status_code(), ResponseCode::NotFound);
    assert_eq!(response.body_length(), METHOD_NOT_FOUND_STR.len());
    let expected = format!(
        "HTTP/1.1 404 Not Found\r\nContent-type:text/html\r\nContent-length:{}\r\n\r\n{}",
        METHOD_NOT_FOUND_STR.len(),
        METHOD_NOT_FOUND_STR
    );
    assert_eq!(response.as_string(), expected);
    assert_eq!(METHOD_NOT_FOUND_STR.len(), 196);
}

#[test]
fn post_is_answered_by_the_stub() {
    let request = Request::parse("POST /submit HTTP/1.0\r\n\r\n").unwrap();
    let response = handle_post_request(&request);
    assert_eq!(response.as_string(), "HTTP/1.1 200 Ok\r\n\r\n\r\n");
}

#[test]
fn other_methods_are_not_implemented() {
    for line in ["HEAD", "PUT", "DELETE", "OPTIONS"] {
        let request = Request::parse(&format!("{} / HTTP/2.0\r\n\r\n", line)).unwrap();
        let response = handle_unsupported_request(&request);
        assert_eq!(response.get_status_code(), ResponseCode::NotImplemented);
        let expected = format!(
            "HTTP/2.0 501 Not Implemented\r\nContent-type:text/html\r\nContent-length:{}\r\n\r\n{}",
            METHOD_NOT_IMPLEMENTED_STR.len(),
            METHOD_NOT_IMPLEMENTED_STR
        );
        assert_eq!(response.as_string(), expected);
        let same = dispatch(&Some(request), Some(b"ignored".to_vec()));
        assert_eq!(same.as_string(), expected);
    }
}

#[test]
fn what_is_not_a_request_is_a_bad_request() {
    let response = handle_bad_request();
    assert_eq!(response.get_status_code(), ResponseCode::BadRequest);
    assert_eq!(
        response.clone().as_string(),
        "HTTP/1.1 400 Bad Request\r\nContent-type:text/html\r\nContent-length:15\r\n\r\ninvalid request"
    );
    assert_eq!(dispatch(&None, None).as_string(), response.as_string());
}

#[test]
fn dispatch_goes_by_the_method() {
    let get = Request::parse("GET / HTTP/1.1\r\n\r\n");
    assert_eq!(dispatch(&get, None).get_status_code(), ResponseCode::NotFound);
    assert_eq!(dispatch(&get, Some(vec![1])).get_status_code(), ResponseCode::Success);
    let post = Request::parse("POST / HTTP/1.1\r\n\r\n");
    assert_eq!(dispatch(&post, None).get_status_code(), ResponseCode::Success);
    assert_eq!(dispatch(&post, Some(vec![1])).body_length(), 0);
    let put = Request::parse("PUT / HTTP/1.1\r\n\r\n");
    assert_eq!(dispatch(&put, None).get_status_code(), ResponseCode::NotImplemented);
}

#[test]
fn every_answer_gets_the_date_last() {
    let date = Some("Thu, 01 Jan 1970 00:00:00 UTC".to_string());
    let response = handle_request_string(
        "GET /home HTTP/1.1\r\nHost: x\r\n\r\n".to_string(),
        None,
        date.clone(),
    );
    assert_eq!(response.headers().len(), 3);
    assert_eq!(response.headers()[0], Header::new("Content-type", "text/html"));
    assert_eq!(response.headers()[1], Header::new("Content-length", "196"));
    assert_eq!(
        response.headers()[2],
        Header::new("Date", "Thu, 01 Jan 1970 00:00:00 UTC")
    );
    let stub = handle_request_string("POST / HTTP/1.1\r\n\r\n".to_string(), None, date);
    assert_eq!(
        stub.as_string(),
        "HTTP/1.1 200 Ok\r\nDate:Thu, 01 Jan 1970 00:00:00 UTC\r\n\r\n"
    );
    let undated = handle_request_string("POST / HTTP/1.1\r\n\r\n".to_string(), None, None);
    assert_eq!(undated.headers().len(), 0);
}

#[test]
fn round_trip_scenario_ends_in_not_found() {
    let sent = handle_connection(b"GET /home HTTP/1.1\r\nHost: x\r\n\r\n", None, None);
    assert!(text(sent).starts_with("HTTP/1.1 404 Not Found\r\n"));
}

#[test]
fn unknown_method_is_a_bad_request_not_unimplemented() {
    let sent = text(handle_connection(b"PATCH / HTTP/1.1\r\n\r\n", None, None));
    assert!(sent.starts_with("HTTP/1.1 400 Bad Request\r\n"));
    assert!(!sent.contains("501"));
    let response = handle_request_string("PATCH / HTTP/1.1\r\n\r\n".to_string(), None, None);
    assert_eq!(response.get_status_code(), ResponseCode::BadRequest);
}

#[test]
fn bytes_that_are_not_utf8_are_a_bad_request() {
    let inputs: [&[u8]; 5] = [
        b"\xff",
        b"GET / HTTP/1.1\r\n\xc3\x28\r\n\r\n",
        b"\xed\xa0\x80",
        b"\xc0\xaf",
        b"GET / HTTP/1.1\r\n\r\n\xf4\x90\x80\x80",
    ];
    for input in inputs {
        let sent = handle_connection(input, Some(b"page".to_vec()), Some("now".to_string()));
        assert_eq!(
            text(sent),
            "HTTP/1.1 400 Bad Request\r\nContent-type:text/html\r\nContent-length:15\r\nDate:now\r\n\r\ninvalid request"
        );
    }
}

#[test]
fn a_buffer_padded_with_zeros_is_answered() {
    let mut buffer = [0u8; 512];
    let request = b"GET / HTTP/1.1\r\nHost: x\r\n\r\n";
    buffer[..request.len()].copy_from_slice(request);
    assert_eq!(requested_file(&buffer), Some("www/index.html".to_string()));
    let sent = handle_connection(&buffer, Some(b"index".to_vec()), None);
    assert_eq!(
        text(sent),
        "HTTP/1.1 200 Ok\r\nContent-type:text/html\r\nContent-length:5\r\n\r\nindex"
    );
}

#[test]
fn a_resource_of_any_bytes_is_served_as_it_is() {
    let data = vec![0x89, b'P', b'N', b'G', 0xff, 0xfe];
    let sent = handle_connection(b"GET /i.png HTTP/1.1\r\n\r\n", Some(data.clone()), None);
    let mut expected =
        b"HTTP/1.1 200 Ok\r\nContent-type:text/html\r\nContent-length:6\r\n\r\n".to_vec();
    expected.extend_from_slice(&data);
    assert_eq!(sent, expected);
}

#[test]
fn date_header_of_an_instant() {
    assert_eq!(DATE_PATTERN, "%a, %d %b %Y %H:%M:%S UTC");
    assert_eq!(http_date(0), Some("Thu, 01 Jan 1970 00:00:00 UTC".to_string()));
    assert_eq!(
        http_date(1_431_648_000),
        Some("Fri, 15 May 2015 00:00:00 UTC".to_string())
    );
    assert_eq!(
        http_date(1_700_000_000),
        Some("Tue, 14 Nov 2023 22:13:20 UTC".to_string())
    );
    assert_eq!(http_date(-1), Some("Wed, 31 Dec 1969 23:59:59 UTC".to_string()));
    assert_eq!(http_date(i64::MAX), None);
    assert_eq!(http_date(i64::MIN), None);
}

#[test]
fn answer_at_an_instant_carries_its_date() {
    let sent = text(handle_connection_at(b"POST / HTTP/1.1\r\n\r\n", None, 86_400));
    assert_eq!(
        sent,
        "HTTP/1.1 200 Ok\r\nDate:Fri, 02 Jan 1970 00:00:00 UTC\r\n\r\n"
    );
    let undated = text(handle_connection_at(b"POST / HTTP/1.1\r\n\r\n", None, i64::MAX));
    assert_eq!(undated, "HTTP/1.1 200 Ok\r\n\r\n\r\n");
}

#[test]
fn stop_command_is_a_prefix_in_any_letter_case() {
    assert!(is_stop_command("exit"));
    assert!(is_stop_command("EXIT\n"));
    assert!(is_stop_command("Exit now"));
    assert!(is_stop_command("exiting"));
    assert!(!is_stop_command(" exit"));
    assert!(!is_stop_command("exi"));
    assert!(!is_stop_command(""));
    assert!(!is_stop_command("quit"));
}

#[test]
fn a_failure_is_answered_with_an_internal_error() {
    assert_eq!(
        text(handle_failure(Some("now".to_string()))),
        "HTTP/1.1 500 Internal Server Error\r\nDate:now\r\n\r\n"
    );
    assert_eq!(
        text(handle_failure(None)),
        "HTTP/1.1 500 Internal Server Error\r\n\r\n\r\n"
    );
}
