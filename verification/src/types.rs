//! The wire model: requests and responses, and the text they are read from
//! and written as.

use crate::text::{
    all_white_space, decimal, digit_char, find_char, from_utf8, lemma_lines_after_line,
    lemma_lines_of_line, lemma_position_of_is, lemma_trim_idempotent, lemma_trim_padding,
    lemma_words_after_word, lemma_words_are_words, lemma_words_of_word, lines, no_white_space,
    position_of, split_lines, split_whitespace, text_eq, texts, to_uppercase, trim, trim_text,
    uppercase_of, words,
};
use vstd::std_specs::cmp::PartialEqSpecImpl;
use vstd::string::StrSliceExecFns;
use vstd::utf8::{
    decode_utf8, decode_utf8_encode_utf8, encode_utf8, encode_utf8_decode_utf8, valid_utf8,
};
use vstd::prelude::*;
use vstd::string::StringExecFns;

verus! {

/// A request method.
#[derive(PartialEq, Eq, Structural, Debug, Clone, Copy)]
pub enum Method {
    Get,
    Head,
    Post,
    Put,
    Delete,
    Options,
}

impl Method {
    /// The canonical name of the method.
    pub open spec fn name(self) -> Seq<char> {
        match self {
            Method::Get => "GET"@,
            Method::Head => "HEAD"@,
            Method::Post => "POST"@,
            Method::Put => "PUT"@,
            Method::Delete => "DELETE"@,
            Method::Options => "OPTIONS"@,
        }
    }

    /// The method whose canonical name is `token`.
    pub open spec fn named(token: Seq<char>) -> Option<Method> {
        if token == "GET"@ {
            Some(Method::Get)
        } else if token == "HEAD"@ {
            Some(Method::Head)
        } else if token == "POST"@ {
            Some(Method::Post)
        } else if token == "PUT"@ {
            Some(Method::Put)
        } else if token == "DELETE"@ {
            Some(Method::Delete)
        } else if token == "OPTIONS"@ {
            Some(Method::Options)
        } else {
            None
        }
    }

    /// The method that `token` stands for: the one whose canonical name
    /// it is, or else the one whose canonical name its upper-case form is.
    pub open spec fn of_token(token: Seq<char>) -> Option<Method> {
        match Method::named(token) {
            Some(m) => Some(m),
            None => Method::named(uppercase_of(token)),
        }
    }

    /// The method whose canonical name is `token`, if there is one.
    pub fn from_canonical(token: &str) -> (r: Option<Method>)
        ensures
            r == Method::named(token@),
    {
        if text_eq(token, "GET") {
            Some(Method::Get)
        } else if text_eq(token, "HEAD") {
            Some(Method::Head)
        } else if text_eq(token, "POST") {
            Some(Method::Post)
        } else if text_eq(token, "PUT") {
            Some(Method::Put)
        } else if text_eq(token, "DELETE") {
            Some(Method::Delete)
        } else if text_eq(token, "OPTIONS") {
            Some(Method::Options)
        } else {
            None
        }
    }

    /// Reads a method from a token of any letter case. A canonical name is
    /// recognised as it stands; any other token is upper-cased first.
    pub fn from_string(string: &str) -> (r: Option<Method>)
        ensures
            r == Method::of_token(string@),
    {
        match Method::from_canonical(string) {
            Some(m) => Some(m),
            None => {
                let upper: String = to_uppercase(string);
                Method::from_canonical(upper.as_str())
            },
        }
    }

    /// The canonical name of the method.
    pub fn as_str(&self) -> (r: &'static str)
        ensures
            r@ == self.name(),
    {
        match self {
            Method::Get => "GET",
            Method::Head => "HEAD",
            Method::Post => "POST",
            Method::Put => "PUT",
            Method::Delete => "DELETE",
            Method::Options => "OPTIONS",
        }
    }

    /// The canonical name of the method, as an owned string.
    pub fn to_string(&self) -> (r: String)
        ensures
            r@ == self.name(),
    {
        String::from_str(self.as_str())
    }
}

/// Every method is read back from its canonical name.
pub proof fn lemma_method_name_round_trip(m: Method)
    ensures
        Method::named(m.name()) == Some(m),
        Method::of_token(m.name()) == Some(m),
{
    reveal_strlit("GET");
    reveal_strlit("HEAD");
    reveal_strlit("POST");
    reveal_strlit("PUT");
    reveal_strlit("DELETE");
    reveal_strlit("OPTIONS");
    assert("GET"@.len() == 3 && "PUT"@.len() == 3 && "GET"@[0] != "PUT"@[0]);
    assert("HEAD"@.len() == 4 && "POST"@.len() == 4 && "HEAD"@[0] != "POST"@[0]);
    assert("DELETE"@.len() == 6 && "OPTIONS"@.len() == 7);
}

/// A protocol version. It is a tag only: no behaviour depends on it.
#[derive(PartialEq, Eq, Structural, Debug, Clone, Copy)]
pub enum HttpVersion {
    HttpV1_0,
    HttpV1_1,
    HttpV2_0,
    HttpV3_0,
}

impl HttpVersion {
    /// The name of the version on the wire.
    pub open spec fn name(self) -> Seq<char> {
        match self {
            HttpVersion::HttpV1_0 => "HTTP/1.0"@,
            HttpVersion::HttpV1_1 => "HTTP/1.1"@,
            HttpVersion::HttpV2_0 => "HTTP/2.0"@,
            HttpVersion::HttpV3_0 => "HTTP/3.0"@,
        }
    }

    /// The version whose name on the wire is `token`.
    pub open spec fn named(token: Seq<char>) -> Option<HttpVersion> {
        if token == "HTTP/1.0"@ {
            Some(HttpVersion::HttpV1_0)
        } else if token == "HTTP/1.1"@ {
            Some(HttpVersion::HttpV1_1)
        } else if token == "HTTP/2.0"@ {
            Some(HttpVersion::HttpV2_0)
        } else if token == "HTTP/3.0"@ {
            Some(HttpVersion::HttpV3_0)
        } else {
            None
        }
    }

    /// Reads a version from its exact name on the wire.
    pub fn from_string(string: &str) -> (r: Option<HttpVersion>)
        ensures
            r == HttpVersion::named(string@),
    {
        if text_eq(string, "HTTP/1.0") {
            Some(HttpVersion::HttpV1_0)
        } else if text_eq(string, "HTTP/1.1") {
            Some(HttpVersion::HttpV1_1)
        } else if text_eq(string, "HTTP/2.0") {
            Some(HttpVersion::HttpV2_0)
        } else if text_eq(string, "HTTP/3.0") {
            Some(HttpVersion::HttpV3_0)
        } else {
            None
        }
    }

    /// The name of the version on the wire.
    pub fn to_string(&self) -> (r: &'static str)
        ensures
            r@ == self.name(),
    {
        match self {
            HttpVersion::HttpV1_0 => "HTTP/1.0",
            HttpVersion::HttpV1_1 => "HTTP/1.1",
            HttpVersion::HttpV2_0 => "HTTP/2.0",
            HttpVersion::HttpV3_0 => "HTTP/3.0",
        }
    }
}

/// Every version is read back from its name on the wire.
pub proof fn lemma_version_name_round_trip(v: HttpVersion)
    ensures
        HttpVersion::named(v.name()) == Some(v),
{
    reveal_strlit("HTTP/1.0");
    reveal_strlit("HTTP/1.1");
    reveal_strlit("HTTP/2.0");
    reveal_strlit("HTTP/3.0");
    assert("HTTP/1.0"@[5] == '1' && "HTTP/1.0"@[7] == '0');
    assert("HTTP/1.1"@[5] == '1' && "HTTP/1.1"@[7] == '1');
    assert("HTTP/2.0"@[5] == '2');
    assert("HTTP/3.0"@[5] == '3');
}

/// A response status. `Unknown` stands for every number outside the
/// recognised set and has no text on the wire.
#[derive(PartialEq, Eq, Structural, Debug, Clone, Copy)]
pub enum ResponseCode {
    Unknown,
    Success,
    BadRequest,
    Unauthorized,
    Forbidden,
    NotFound,
    MethodNotAllowed,
    InternalServerError,
    NotImplemented,
    BadGateway,
    ServiceUnavailable,
    GatewayTimeout,
    HttpVersionNotSupported,
}

impl ResponseCode {
    /// The number of the status; zero for `Unknown`.
    pub open spec fn number(self) -> nat {
        match self {
            ResponseCode::Unknown => 0,
            ResponseCode::Success => 200,
            ResponseCode::BadRequest => 400,
            ResponseCode::Unauthorized => 401,
            ResponseCode::Forbidden => 403,
            ResponseCode::NotFound => 404,
            ResponseCode::MethodNotAllowed => 405,
            ResponseCode::InternalServerError => 500,
            ResponseCode::NotImplemented => 501,
            ResponseCode::BadGateway => 502,
            ResponseCode::ServiceUnavailable => 503,
            ResponseCode::GatewayTimeout => 504,
            ResponseCode::HttpVersionNotSupported => 505,
        }
    }

    /// The status that a number stands for.
    pub open spec fn of_number(n: nat) -> ResponseCode {
        if n == 200 {
            ResponseCode::Success
        } else if n == 400 {
            ResponseCode::BadRequest
        } else if n == 401 {
            ResponseCode::Unauthorized
        } else if n == 403 {
            ResponseCode::Forbidden
        } else if n == 404 {
            ResponseCode::NotFound
        } else if n == 405 {
            ResponseCode::MethodNotAllowed
        } else if n == 500 {
            ResponseCode::InternalServerError
        } else if n == 501 {
            ResponseCode::NotImplemented
        } else if n == 502 {
            ResponseCode::BadGateway
        } else if n == 503 {
            ResponseCode::ServiceUnavailable
        } else if n == 504 {
            ResponseCode::GatewayTimeout
        } else if n == 505 {
            ResponseCode::HttpVersionNotSupported
        } else {
            ResponseCode::Unknown
        }
    }

    /// The reason phrase of the status; `Unknown` has none.
    pub open spec fn phrase(self) -> Seq<char> {
        match self {
            ResponseCode::Unknown => Seq::empty(),
            ResponseCode::Success => "Ok"@,
            ResponseCode::BadRequest => "Bad Request"@,
            ResponseCode::Unauthorized => "Unauthorized"@,
            ResponseCode::Forbidden => "Forbidden"@,
            ResponseCode::NotFound => "Not Found"@,
            ResponseCode::MethodNotAllowed => "Method Not Allowed"@,
            ResponseCode::InternalServerError => "Internal Server Error"@,
            ResponseCode::NotImplemented => "Not Implemented"@,
            ResponseCode::BadGateway => "Bad Gateway"@,
            ResponseCode::ServiceUnavailable => "Service Unavailable"@,
            ResponseCode::GatewayTimeout => "Gateway Timeout"@,
            ResponseCode::HttpVersionNotSupported => "Http Version Not Supported"@,
        }
    }

    /// The status as it stands in a status line: its number in decimal, a
    /// space, and its reason phrase.
    pub open spec fn status_text(self) -> Seq<char> {
        decimal(self.number()) + seq![' '] + self.phrase()
    }

    /// The status that `value` stands for; `Unknown` for every number
    /// outside the recognised set.
    pub fn new(value: usize) -> (r: ResponseCode)
        ensures
            r == ResponseCode::of_number(value as nat),
    {
        if value == 200 {
            ResponseCode::Success
        } else if value == 400 {
            ResponseCode::BadRequest
        } else if value == 401 {
            ResponseCode::Unauthorized
        } else if value == 403 {
            ResponseCode::Forbidden
        } else if value == 404 {
            ResponseCode::NotFound
        } else if value == 405 {
            ResponseCode::MethodNotAllowed
        } else if value == 500 {
            ResponseCode::InternalServerError
        } else if value == 501 {
            ResponseCode::NotImplemented
        } else if value == 502 {
            ResponseCode::BadGateway
        } else if value == 503 {
            ResponseCode::ServiceUnavailable
        } else if value == 504 {
            ResponseCode::GatewayTimeout
        } else if value == 505 {
            ResponseCode::HttpVersionNotSupported
        } else {
            ResponseCode::Unknown
        }
    }

    /// The number of the status; zero for `Unknown`.
    pub fn code(&self) -> (r: usize)
        ensures
            r == self.number(),
    {
        match self {
            ResponseCode::Unknown => 0,
            ResponseCode::Success => 200,
            ResponseCode::BadRequest => 400,
            ResponseCode::Unauthorized => 401,
            ResponseCode::Forbidden => 403,
            ResponseCode::NotFound => 404,
            ResponseCode::MethodNotAllowed => 405,
            ResponseCode::InternalServerError => 500,
            ResponseCode::NotImplemented => 501,
            ResponseCode::BadGateway => 502,
            ResponseCode::ServiceUnavailable => 503,
            ResponseCode::GatewayTimeout => 504,
            ResponseCode::HttpVersionNotSupported => 505,
        }
    }

    /// The status as it stands in a status line, or `None` for `Unknown`,
    /// which has no text on the wire.
    pub fn to_string(&self) -> (r: Option<&'static str>)
        ensures
            r is None <==> self == ResponseCode::Unknown,
            r matches Some(s) ==> s@ == self.status_text(),
    {
        proof {
            lemma_status_texts();
        }
        match self {
            ResponseCode::Success => Some("200 Ok"),
            ResponseCode::BadRequest => Some("400 Bad Request"),
            ResponseCode::Unauthorized => Some("401 Unauthorized"),
            ResponseCode::Forbidden => Some("403 Forbidden"),
            ResponseCode::NotFound => Some("404 Not Found"),
            ResponseCode::MethodNotAllowed => Some("405 Method Not Allowed"),
            ResponseCode::InternalServerError => Some("500 Internal Server Error"),
            ResponseCode::NotImplemented => Some("501 Not Implemented"),
            ResponseCode::BadGateway => Some("502 Bad Gateway"),
            ResponseCode::ServiceUnavailable => Some("503 Service Unavailable"),
            ResponseCode::GatewayTimeout => Some("504 Gateway Timeout"),
            ResponseCode::HttpVersionNotSupported => Some("505 Http Version Not Supported"),
            ResponseCode::Unknown => None,
        }
    }

    /// The reason phrase of the status, or `None` for `Unknown`.
    pub fn reason_phrase(&self) -> (r: Option<String>)
        ensures
            r is None <==> self == ResponseCode::Unknown,
            r matches Some(s) ==> s@ == self.phrase(),
    {
        match self {
            ResponseCode::Success => Some(String::from_str("Ok")),
            ResponseCode::BadRequest => Some(String::from_str("Bad Request")),
            ResponseCode::Unauthorized => Some(String::from_str("Unauthorized")),
            ResponseCode::Forbidden => Some(String::from_str("Forbidden")),
            ResponseCode::NotFound => Some(String::from_str("Not Found")),
            ResponseCode::MethodNotAllowed => Some(String::from_str("Method Not Allowed")),
            ResponseCode::InternalServerError => Some(String::from_str("Internal Server Error")),
            ResponseCode::NotImplemented => Some(String::from_str("Not Implemented")),
            ResponseCode::BadGateway => Some(String::from_str("Bad Gateway")),
            ResponseCode::ServiceUnavailable => Some(String::from_str("Service Unavailable")),
            ResponseCode::GatewayTimeout => Some(String::from_str("Gateway Timeout")),
            ResponseCode::HttpVersionNotSupported => Some(
                String::from_str("Http Version Not Supported"),
            ),
            ResponseCode::Unknown => None,
        }
    }
}

/// The numeral of a number of three digits.
proof fn lemma_decimal_three_digits(n: nat)
    requires
        100 <= n < 1000,
    ensures
        decimal(n) == seq![digit_char(n / 100), digit_char((n / 10) % 10), digit_char(n % 10)],
{
    reveal_with_fuel(decimal, 3);
    assert(decimal(n) =~= seq![
        digit_char(n / 100),
        digit_char((n / 10) % 10),
        digit_char(n % 10),
    ]);
}

/// The text of each status in a status line, written out.
proof fn lemma_status_texts()
    ensures
        "200 Ok"@ == ResponseCode::Success.status_text(),
        "400 Bad Request"@ == ResponseCode::BadRequest.status_text(),
        "401 Unauthorized"@ == ResponseCode::Unauthorized.status_text(),
        "403 Forbidden"@ == ResponseCode::Forbidden.status_text(),
        "404 Not Found"@ == ResponseCode::NotFound.status_text(),
        "405 Method Not Allowed"@ == ResponseCode::MethodNotAllowed.status_text(),
        "500 Internal Server Error"@ == ResponseCode::InternalServerError.status_text(),
        "501 Not Implemented"@ == ResponseCode::NotImplemented.status_text(),
        "502 Bad Gateway"@ == ResponseCode::BadGateway.status_text(),
        "503 Service Unavailable"@ == ResponseCode::ServiceUnavailable.status_text(),
        "504 Gateway Timeout"@ == ResponseCode::GatewayTimeout.status_text(),
        "505 Http Version Not Supported"@ == ResponseCode::HttpVersionNotSupported.status_text(),
{
    lemma_decimal_three_digits(200);
    lemma_decimal_three_digits(400);
    lemma_decimal_three_digits(401);
    lemma_decimal_three_digits(403);
    lemma_decimal_three_digits(404);
    lemma_decimal_three_digits(405);
    lemma_decimal_three_digits(500);
    lemma_decimal_three_digits(501);
    lemma_decimal_three_digits(502);
    lemma_decimal_three_digits(503);
    lemma_decimal_three_digits(504);
    lemma_decimal_three_digits(505);
    assert("200 Ok"@ =~= ResponseCode::Success.status_text()) by {
        reveal_strlit("200 Ok");
        reveal_strlit("Ok");
    }
    assert("400 Bad Request"@ =~= ResponseCode::BadRequest.status_text()) by {
        reveal_strlit("400 Bad Request");
        reveal_strlit("Bad Request");
    }
    assert("401 Unauthorized"@ =~= ResponseCode::Unauthorized.status_text()) by {
        reveal_strlit("401 Unauthorized");
        reveal_strlit("Unauthorized");
    }
    assert("403 Forbidden"@ =~= ResponseCode::Forbidden.status_text()) by {
        reveal_strlit("403 Forbidden");
        reveal_strlit("Forbidden");
    }
    assert("404 Not Found"@ =~= ResponseCode::NotFound.status_text()) by {
        reveal_strlit("404 Not Found");
        reveal_strlit("Not Found");
    }
    assert("405 Method Not Allowed"@ =~= ResponseCode::MethodNotAllowed.status_text()) by {
        reveal_strlit("405 Method Not Allowed");
        reveal_strlit("Method Not Allowed");
    }
    assert("500 Internal Server Error"@ =~= ResponseCode::InternalServerError.status_text()) by {
        reveal_strlit("500 Internal Server Error");
        reveal_strlit("Internal Server Error");
    }
    assert("501 Not Implemented"@ =~= ResponseCode::NotImplemented.status_text()) by {
        reveal_strlit("501 Not Implemented");
        reveal_strlit("Not Implemented");
    }
    assert("502 Bad Gateway"@ =~= ResponseCode::BadGateway.status_text()) by {
        reveal_strlit("502 Bad Gateway");
        reveal_strlit("Bad Gateway");
    }
    assert("503 Service Unavailable"@ =~= ResponseCode::ServiceUnavailable.status_text()) by {
        reveal_strlit("503 Service Unavailable");
        reveal_strlit("Service Unavailable");
    }
    assert("504 Gateway Timeout"@ =~= ResponseCode::GatewayTimeout.status_text()) by {
        reveal_strlit("504 Gateway Timeout");
        reveal_strlit("Gateway Timeout");
    }
    assert("505 Http Version Not Supported"@
        =~= ResponseCode::HttpVersionNotSupported.status_text()) by {
        reveal_strlit("505 Http Version Not Supported");
        reveal_strlit("Http Version Not Supported");
    }
}

/// A status other than `Unknown` is read back from its number, and a number
/// stands for `Unknown` exactly when it is outside the recognised set.
pub proof fn lemma_response_code_round_trip(c: ResponseCode, n: nat)
    ensures
        ResponseCode::of_number(c.number()) == c,
        ResponseCode::of_number(n) != ResponseCode::Unknown ==> ResponseCode::of_number(
            n,
        ).number() == n,
{
}

/// What a request line holds.
pub struct RequestLineView {
    pub version: HttpVersion,
    pub method: Method,
    pub resource: Seq<char>,
}

/// What a status line holds.
pub struct StatusLineView {
    pub version: HttpVersion,
    pub code: ResponseCode,
}

/// What a header holds: its name and its value, as they were given.
pub struct HeaderView {
    pub name: Seq<char>,
    pub value: Seq<char>,
}

/// What a request holds.
pub struct RequestView {
    pub request_line: RequestLineView,
    pub headers: Seq<HeaderView>,
    pub body: Seq<u8>,
}

/// What a response holds.
pub struct ResponseView {
    pub status_line: StatusLineView,
    pub headers: Seq<HeaderView>,
    pub body: Seq<u8>,
}

/// The request line that a line of text states, if it states one: exactly
/// three words, of which the first stands for a method and the third names
/// a version. The second is the resource.
pub open spec fn request_line_of(line: Seq<char>) -> Option<RequestLineView> {
    let w: Seq<Seq<char>> = words(line);
    if w.len() != 3 {
        None
    } else {
        match (Method::of_token(w[0]), HttpVersion::named(w[2])) {
            (Some(method), Some(version)) => Some(
                RequestLineView { version, method, resource: w[1] },
            ),
            _ => None,
        }
    }
}

/// The header that a line of text states. The first colon parts the name
/// from the value; the name is kept as it stands and the value is
/// trimmed. A line without a colon is a name with an empty value.
pub open spec fn header_of(line: Seq<char>) -> HeaderView {
    let i: nat = position_of(line, ':');
    if i < line.len() {
        HeaderView { name: line.take(i as int), value: trim(line.skip((i + 1) as int)) }
    } else {
        HeaderView { name: line, value: Seq::empty() }
    }
}

/// The lines of a header block: those before the first empty line.
pub open spec fn header_block(ls: Seq<Seq<char>>) -> Seq<Seq<char>>
    decreases ls.len(),
{
    if ls.len() == 0 || ls[0].len() == 0 {
        Seq::empty()
    } else {
        seq![ls[0]] + header_block(ls.skip(1))
    }
}

/// The headers that the lines of a header block state, in order.
pub open spec fn headers_of(block: Seq<Seq<char>>) -> Seq<HeaderView> {
    Seq::new(block.len(), |i: int| header_of(block[i]))
}

/// The request that a text states, if it states one. The first line is the
/// request line; the lines after it, up to the first empty line, are the
/// headers. What follows the empty line is not read: the body is empty.
pub open spec fn request_of(text: Seq<char>) -> Option<RequestView> {
    let ls: Seq<Seq<char>> = lines(text);
    match request_line_of(ls[0]) {
        Some(request_line) => Some(
            RequestView {
                request_line,
                headers: headers_of(header_block(ls.skip(1))),
                body: Seq::empty(),
            },
        ),
        None => None,
    }
}

/// Two headers are equal when their trimmed names and their trimmed values
/// are. The comparison is sensitive to letter case.
pub open spec fn header_eq(a: HeaderView, b: HeaderView) -> bool {
    trim(a.name) == trim(b.name) && trim(a.value) == trim(b.value)
}

/// A header as one line of text: name, colon, value.
pub open spec fn header_text(h: HeaderView) -> Seq<char> {
    h.name + seq![':'] + h.value
}

/// A status line as text: version, space, status.
pub open spec fn status_line_text(s: StatusLineView) -> Seq<char> {
    s.version.name() + seq![' '] + s.code.status_text()
}

/// The line break of the wire format.
pub open spec fn line_break() -> Seq<char> {
    seq!['\r', '\n']
}

/// The header lines of a message: each header as trimmed text, with a line
/// break between one and the next.
pub open spec fn header_lines_text(hs: Seq<HeaderView>) -> Seq<char>
    decreases hs.len(),
{
    if hs.len() == 0 {
        Seq::empty()
    } else if hs.len() == 1 {
        trim(header_text(hs[0]))
    } else {
        header_lines_text(hs.drop_last()) + line_break() + trim(header_text(hs.last()))
    }
}

/// All of a response that stands before its body: status line, line break,
/// header lines, and two line breaks.
pub open spec fn response_head(r: ResponseView) -> Seq<char> {
    status_line_text(r.status_line) + line_break() + header_lines_text(r.headers) + line_break()
        + line_break()
}

/// A response as text, where its body is well-formed UTF-8.
pub open spec fn response_text(r: ResponseView) -> Seq<char> {
    response_head(r) + decode_utf8(r.body)
}

/// A response as bytes: its head in UTF-8, then its body as it stands.
pub open spec fn response_bytes(r: ResponseView) -> Seq<u8> {
    encode_utf8(response_head(r)) + r.body
}

/// The views of the headers of `v`, in order.
pub open spec fn header_views(v: Seq<Header>) -> Seq<HeaderView> {
    Seq::new(v.len(), |i: int| v[i]@)
}

/// The first line of a request.
#[derive(Debug, Clone)]
pub struct RequestLine {
    pub version: HttpVersion,
    pub method: Method,
    pub resource: String,
}

impl View for RequestLine {
    type V = RequestLineView;

    open spec fn view(&self) -> RequestLineView {
        RequestLineView { version: self.version, method: self.method, resource: self.resource@ }
    }
}

impl RequestLine {
    pub fn new(version: HttpVersion, method: Method, resource: String) -> (r: RequestLine)
        ensures
            r@ == (RequestLineView { version, method, resource: resource@ }),
    {
        RequestLine { version, method, resource }
    }

    /// Reads a request line. The line must hold exactly three words: a
    /// method in any letter case, a resource, and the exact name of a
    /// version.
    pub fn from_string(string: &String) -> (r: Option<RequestLine>)
        ensures
            match r {
                Some(line) => request_line_of(string@) == Some(line@),
                None => request_line_of(string@) is None,
            },
    {
        let parts: Vec<String> = split_whitespace(string.as_str());
        if parts.len() != 3 {
            return None;
        }
        proof {
            assert(texts(parts@)[0] == parts@[0]@);
            assert(texts(parts@)[1] == parts@[1]@);
            assert(texts(parts@)[2] == parts@[2]@);
        }
        let method: Option<Method> = Method::from_string(parts[0].as_str());
        let version: Option<HttpVersion> = HttpVersion::from_string(parts[2].as_str());
        match (method, version) {
            (Some(method), Some(version)) => Some(
                RequestLine { version, method, resource: parts[1].clone() },
            ),
            _ => None,
        }
    }
}

impl PartialEq for RequestLine {
    fn eq(&self, other: &RequestLine) -> (r: bool) {
        self.version == other.version && self.method == other.method && self.resource
            == other.resource
    }
}

impl PartialEqSpecImpl for RequestLine {
    open spec fn obeys_eq_spec() -> bool {
        true
    }

    open spec fn eq_spec(&self, other: &RequestLine) -> bool {
        self@ == other@
    }
}

/// The first line of a response.
#[derive(Debug, Clone)]
pub struct StatusLine {
    version: HttpVersion,
    response_code: ResponseCode,
}

impl View for StatusLine {
    type V = StatusLineView;

    closed spec fn view(&self) -> StatusLineView {
        StatusLineView { version: self.version, code: self.response_code }
    }
}

impl StatusLine {
    /// The status line of `version` with the status that `code` stands
    /// for.
    pub fn new(version: HttpVersion, code: usize) -> (r: StatusLine)
        ensures
            r@ == (StatusLineView { version, code: ResponseCode::of_number(code as nat) }),
    {
        StatusLine { version, response_code: ResponseCode::new(code) }
    }

    /// The status line as text. `Unknown` has no text on the wire.
    pub fn to_string(&self) -> (r: String)
        requires
            self@.code != ResponseCode::Unknown,
        ensures
            r@ == status_line_text(self@),
    {
        let mut s: String = String::from_str(self.version.to_string());
        s.append(" ");
        proof {
            reveal_strlit(" ");
            assert(" "@ =~= seq![' ']);
        }
        match self.response_code.to_string() {
            Some(status) => {
                s.append(status);
            },
            None => {},
        }
        s
    }
}

impl PartialEq for StatusLine {
    fn eq(&self, other: &StatusLine) -> (r: bool) {
        self.version == other.version && self.response_code == other.response_code
    }
}

impl PartialEqSpecImpl for StatusLine {
    open spec fn obeys_eq_spec() -> bool {
        true
    }

    open spec fn eq_spec(&self, other: &StatusLine) -> bool {
        self@ == other@
    }
}

/// A header: a name and a value.
#[derive(Debug, Clone)]
pub struct Header {
    field_name: String,
    field_value: String,
}

impl View for Header {
    type V = HeaderView;

    closed spec fn view(&self) -> HeaderView {
        HeaderView { name: self.field_name@, value: self.field_value@ }
    }
}

impl Header {
    /// The header with this name and this value, both kept as given.
    pub fn new(field_name: &str, field_value: &str) -> (r: Header)
        ensures
            r@ == (HeaderView { name: field_name@, value: field_value@ }),
    {
        Header {
            field_name: String::from_str(field_name),
            field_value: String::from_str(field_value),
        }
    }

    /// Reads a header from one line of text. The first colon parts the name
    /// from the value; the value is trimmed. A line without a colon gives
    /// a header with that line as its name and an empty value.
    pub fn from_line(line: &str) -> (r: Header)
        ensures
            r@ == header_of(line@),
    {
        let n: usize = line.unicode_len();
        let i: usize = find_char(line, ':');
        if i < n {
            let name: &str = line.substring_char(0, i);
            let rest: &str = line.substring_char(i + 1, n);
            let value: &str = trim_text(rest);
            Header { field_name: String::from_str(name), field_value: String::from_str(value) }
        } else {
            Header { field_name: String::from_str(line), field_value: String::new() }
        }
    }

    /// The name, as it was given.
    pub fn name(&self) -> (r: &str)
        ensures
            r@ == self@.name,
    {
        self.field_name.as_str()
    }

    /// The value, as it was given.
    pub fn value(&self) -> (r: &str)
        ensures
            r@ == self@.value,
    {
        self.field_value.as_str()
    }

    /// The header as one line of text: name, colon, value.
    pub fn to_string(&self) -> (r: String)
        ensures
            r@ == header_text(self@),
    {
        let mut s: String = self.field_name.clone();
        s.append(":");
        s.append(self.field_value.as_str());
        proof {
            reveal_strlit(":");
            assert(":"@ =~= seq![':']);
        }
        s
    }

    /// The header for display: name, a colon between two spaces, value.
    pub fn to_display_string(&self) -> (r: String)
        ensures
            r@ == self@.name + seq![' ', ':', ' '] + self@.value,
    {
        let mut s: String = self.field_name.clone();
        s.append(" : ");
        s.append(self.field_value.as_str());
        proof {
            reveal_strlit(" : ");
            assert(" : "@ =~= seq![' ', ':', ' ']);
        }
        s
    }
}

impl PartialEq for Header {
    fn eq(&self, other: &Header) -> (r: bool) {
        text_eq(trim_text(other.field_name.as_str()), trim_text(self.field_name.as_str()))
            && text_eq(
            trim_text(other.field_value.as_str()),
            trim_text(self.field_value.as_str()),
        )
    }
}

impl PartialEqSpecImpl for Header {
    open spec fn obeys_eq_spec() -> bool {
        true
    }

    open spec fn eq_spec(&self, other: &Header) -> bool {
        header_eq(self@, other@)
    }
}

impl PartialEq<Header> for &Header {
    fn eq(&self, other: &Header) -> (r: bool) {
        text_eq(trim_text(other.field_name.as_str()), trim_text(self.field_name.as_str()))
            && text_eq(
            trim_text(other.field_value.as_str()),
            trim_text(self.field_value.as_str()),
        )
    }
}

impl PartialEqSpecImpl<Header> for &Header {
    open spec fn obeys_eq_spec() -> bool {
        true
    }

    open spec fn eq_spec(&self, other: &Header) -> bool {
        header_eq(self@, other@)
    }
}

/// A line of text equals a header when the header that the line states
/// does.
impl PartialEq<Header> for &str {
    fn eq(&self, other: &Header) -> (r: bool) {
        Header::from_line(self) == *other
    }
}

impl PartialEqSpecImpl<Header> for &str {
    open spec fn obeys_eq_spec() -> bool {
        true
    }

    open spec fn eq_spec(&self, other: &Header) -> bool {
        header_eq(header_of(self@), other@)
    }
}

/// A request: its first line, its headers in the order in which they were
/// given, and its body.
#[derive(Debug)]
pub struct Request {
    pub request_line: RequestLine,
    pub headers: Vec<Header>,
    pub body: Vec<u8>,
}

impl View for Request {
    type V = RequestView;

    open spec fn view(&self) -> RequestView {
        RequestView {
            request_line: self.request_line@,
            headers: header_views(self.headers@),
            body: self.body@,
        }
    }
}

impl Request {
    /// Reads a request from text. The first line must be a request line;
    /// the lines after it, up to the first empty line, become the headers.
    /// A header line without a colon is kept, as a name with an empty
    /// value. What follows the empty line is not attached: the body is
    /// empty.
    pub fn parse_from_string(request: &String) -> (r: Option<Request>)
        ensures
            match r {
                Some(req) => request_of(request@) == Some(req@),
                None => request_of(request@) is None,
            },
    {
        Request::parse(request.as_str())
    }

    /// Reads a request from a string literal, as `parse_from_string` does
    /// from a string.
    pub fn parse_from_str(request: &'static str) -> (r: Option<Request>)
        ensures
            match r {
                Some(req) => request_of(request@) == Some(req@),
                None => request_of(request@) is None,
            },
    {
        Request::parse(request)
    }

    /// Reads a request from a string slice, as `parse_from_string` does
    /// from a string.
    pub fn parse(request: &str) -> (r: Option<Request>)
        ensures
            match r {
                Some(req) => request_of(request@) == Some(req@),
                None => request_of(request@) is None,
            },
    {
        let ls: Vec<String> = split_lines(request);
        proof {
            lemma_lines_not_empty(request@);
            assert(texts(ls@)[0] == ls@[0]@);
        }
        let request_line: RequestLine = match RequestLine::from_string(&ls[0]) {
            Some(line) => line,
            None => {
                return None;
            },
        };
        let ghost rest: Seq<Seq<char>> = lines(request@).skip(1);
        let mut headers: Vec<Header> = Vec::new();
        let n: usize = ls.len();
        let mut i: usize = 1;
        assert(rest.skip(0) =~= rest);
        assert(header_views(headers@) =~= headers_of(Seq::<Seq<char>>::empty()));
        assert(Seq::<Seq<char>>::empty() + header_block(rest) =~= header_block(rest));
        let ghost mut block: Seq<Seq<char>> = Seq::empty();
        while i < n
            invariant_except_break
                header_block(rest) == block + header_block(rest.skip(i - 1)),
            invariant
                1 <= i <= n,
                n == ls@.len(),
                texts(ls@) == lines(request@),
                rest == lines(request@).skip(1),
                header_views(headers@) == headers_of(block),
            ensures
                header_block(rest) == block,
            decreases n - i,
        {
            assert(texts(ls@)[i as int] == ls@[i as int]@);
            assert(rest.skip(i - 1)[0] == ls@[i as int]@);
            if ls[i].as_str().unicode_len() == 0 {
                assert(block + Seq::<Seq<char>>::empty() =~= block);
                break;
            }
            let header: Header = Header::from_line(ls[i].as_str());
            proof {
                let line: Seq<char> = ls@[i as int]@;
                assert(rest.skip(i - 1).skip(1) =~= rest.skip(i as int));
                assert(header_views(headers@).len() == headers_of(block).len());
                assert forall|k: int| 0 <= k < headers@.len() + 1 implies header_views(
                    headers@.push(header),
                )[k] == headers_of(block.push(line))[k] by {
                    if k < headers@.len() {
                        assert(header_views(headers@)[k] == headers_of(block)[k]);
                    }
                }
                assert(header_views(headers@.push(header)) =~= headers_of(block.push(line)));
                assert(block.push(line) + header_block(rest.skip(i as int)) =~= block + (seq![line]
                    + header_block(rest.skip(i as int))));
                block = block.push(line);
            }
            headers.push(header);
            i += 1;
            proof {
                if i == n {
                    assert(rest.skip(i - 1).len() == 0);
                    assert(block + Seq::<Seq<char>>::empty() =~= block);
                }
            }
        }
        Some(Request { request_line, headers, body: Vec::new() })
    }

    /// The request with one more header after those it has.
    pub fn add_header(self, field_name: &String, field_value: &String) -> (r: Request)
        ensures
            r@.request_line == self@.request_line,
            r@.body == self@.body,
            r@.headers == self@.headers.push(
                HeaderView { name: field_name@, value: field_value@ },
            ),
    {
        let mut request: Request = self;
        let header: Header = Header::new(field_name.as_str(), field_value.as_str());
        proof {
            assert(header_views(request.headers@.push(header)) =~= header_views(
                request.headers@,
            ).push(header@));
        }
        request.headers.push(header);
        request
    }
}

/// A text has at least one line.
pub proof fn lemma_lines_not_empty(s: Seq<char>)
    ensures
        lines(s).len() >= 1,
{
}

/// A response: its status line, its headers in the order in which they
/// were added, and its body.
#[derive(Debug, Clone)]
pub struct Response {
    status_line: StatusLine,
    headers: Vec<Header>,
    body: Vec<u8>,
}

impl View for Response {
    type V = ResponseView;

    closed spec fn view(&self) -> ResponseView {
        ResponseView {
            status_line: self.status_line@,
            headers: header_views(self.headers@),
            body: self.body@,
        }
    }
}

impl Response {
    /// The response with this version, status and body, and no header.
    pub fn new(version: HttpVersion, response_code: ResponseCode, body: Vec<u8>) -> (r: Response)
        ensures
            r@ == (ResponseView {
                status_line: StatusLineView { version, code: response_code },
                headers: Seq::empty(),
                body: body@,
            }),
    {
        let r: Response = Response {
            status_line: StatusLine { version, response_code },
            headers: Vec::new(),
            body,
        };
        assert(header_views(r.headers@) =~= Seq::<HeaderView>::empty());
        r
    }

    /// All of the response that stands before its body.
    fn head(&self) -> (r: String)
        requires
            self@.status_line.code != ResponseCode::Unknown,
        ensures
            r@ == response_head(self@),
    {
        proof {
            reveal_strlit("\r\n");
            assert("\r\n"@ =~= line_break());
        }
        let mut out: String = self.status_line.to_string();
        out.append("\r\n");
        let ghost start: Seq<char> = out@;
        let ghost hs: Seq<HeaderView> = header_views(self.headers@);
        let n: usize = self.headers.len();
        let mut i: usize = 0;
        assert(hs.take(0) =~= Seq::<HeaderView>::empty());
        assert(start + Seq::<char>::empty() =~= start);
        while i < n
            invariant
                i <= n,
                n == self.headers@.len(),
                hs == header_views(self.headers@),
                "\r\n"@ == line_break(),
                out@ == start + header_lines_text(hs.take(i as int)),
            decreases n - i,
        {
            let ghost before: Seq<char> = header_lines_text(hs.take(i as int));
            if i > 0 {
                out.append("\r\n");
            }
            let line: String = self.headers[i].to_string();
            out.append(trim_text(line.as_str()));
            proof {
                let t: Seq<HeaderView> = hs.take(i + 1);
                assert(t.drop_last() =~= hs.take(i as int));
                assert(t.last() == self.headers@[i as int]@);
                if i > 0 {
                    assert(out@ =~= start + (before + line_break() + trim(header_text(t.last()))));
                } else {
                    assert(before =~= Seq::<char>::empty());
                    assert(out@ =~= start + trim(header_text(t[0])));
                }
            }
            i += 1;
        }
        assert(hs.take(n as int) =~= hs);
        out.append("\r\n");
        out.append("\r\n");
        assert(out@ =~= response_head(self@));
        out
    }

    /// The response as text: status line, line break, the trimmed header
    /// lines with a line break between them, two line breaks, and the
    /// body. The body must be well-formed UTF-8, since it becomes text.
    pub fn as_string(self) -> (r: String)
        requires
            self@.status_line.code != ResponseCode::Unknown,
            valid_utf8(self@.body),
        ensures
            r@ == response_text(self@),
    {
        let mut out: String = self.head();
        match from_utf8(self.body.as_slice()) {
            Some(body) => {
                proof {
                    encode_utf8_decode_utf8(body@);
                }
                out.append(body);
            },
            None => {},
        }
        out
    }

    /// The response as bytes: as `as_string` gives it, but with the body
    /// as it stands, whatever bytes it holds.
    pub fn as_bytes(&self) -> (r: Vec<u8>)
        requires
            self@.status_line.code != ResponseCode::Unknown,
        ensures
            r@ == response_bytes(self@),
    {
        let head: String = self.head();
        let mut out: Vec<u8> = head.as_str().as_bytes_vec();
        let ghost start: Seq<u8> = out@;
        let n: usize = self.body.len();
        let mut i: usize = 0;
        assert(start + self.body@.take(0) =~= start);
        while i < n
            invariant
                i <= n,
                n == self.body@.len(),
                out@ == start + self.body@.take(i as int),
            decreases n - i,
        {
            out.push(self.body[i]);
            assert(out@ =~= start + self.body@.take(i + 1));
            i += 1;
        }
        assert(self.body@.take(n as int) =~= self.body@);
        out
    }

    /// Appends a header after those that the response has.
    pub fn add_header(&mut self, field_name: &str, field_value: &str)
        ensures
            final(self)@.status_line == old(self)@.status_line,
            final(self)@.body == old(self)@.body,
            final(self)@.headers == old(self)@.headers.push(
                HeaderView { name: field_name@, value: field_value@ },
            ),
    {
        let header: Header = Header::new(field_name, field_value);
        proof {
            assert(header_views(self.headers@.push(header)) =~= header_views(self.headers@).push(
                header@,
            ));
        }
        self.headers.push(header);
    }

    /// The number of bytes in the body.
    pub fn body_length(&self) -> (r: usize)
        ensures
            r == self@.body.len(),
    {
        self.body.len()
    }

    /// Replaces the body.
    pub fn body(&mut self, data: Vec<u8>)
        ensures
            final(self)@.status_line == old(self)@.status_line,
            final(self)@.headers == old(self)@.headers,
            final(self)@.body == data@,
    {
        self.body = data;
    }

    /// Replaces the status.
    pub fn status_code(&mut self, code: ResponseCode)
        ensures
            final(self)@.status_line == (StatusLineView {
                version: old(self)@.status_line.version,
                code,
            }),
            final(self)@.headers == old(self)@.headers,
            final(self)@.body == old(self)@.body,
    {
        self.status_line.response_code = code;
    }

    /// The status.
    pub fn get_status_code(&self) -> (r: ResponseCode)
        ensures
            r == self@.status_line.code,
    {
        self.status_line.response_code
    }

    /// The headers, in the order in which they were added.
    pub fn headers(&self) -> (r: &Vec<Header>)
        ensures
            header_views(r@) == self@.headers,
    {
        &self.headers
    }
}

/// A request line as text: the canonical name of the method, the resource
/// and the name of the version, with one space between them.
pub open spec fn request_line_text(l: RequestLineView) -> Seq<char> {
    l.method.name() + seq![' '] + l.resource + seq![' '] + l.version.name()
}

/// The name of a method and the name of a version are words: they hold
/// at least one character and no white space.
pub proof fn lemma_names_are_words(m: Method, v: HttpVersion)
    ensures
        m.name().len() > 0,
        no_white_space(m.name()),
        v.name().len() > 0,
        no_white_space(v.name()),
{
    reveal_strlit("GET");
    reveal_strlit("HEAD");
    reveal_strlit("POST");
    reveal_strlit("PUT");
    reveal_strlit("DELETE");
    reveal_strlit("OPTIONS");
    reveal_strlit("HTTP/1.0");
    reveal_strlit("HTTP/1.1");
    reveal_strlit("HTTP/2.0");
    reveal_strlit("HTTP/3.0");
    assert("GET"@ =~= seq!['G', 'E', 'T']);
    assert("HEAD"@ =~= seq!['H', 'E', 'A', 'D']);
    assert("POST"@ =~= seq!['P', 'O', 'S', 'T']);
    assert("PUT"@ =~= seq!['P', 'U', 'T']);
    assert("DELETE"@ =~= seq!['D', 'E', 'L', 'E', 'T', 'E']);
    assert("OPTIONS"@ =~= seq!['O', 'P', 'T', 'I', 'O', 'N', 'S']);
    assert("HTTP/1.0"@ =~= seq!['H', 'T', 'T', 'P', '/', '1', '.', '0']);
    assert("HTTP/1.1"@ =~= seq!['H', 'T', 'T', 'P', '/', '1', '.', '1']);
    assert("HTTP/2.0"@ =~= seq!['H', 'T', 'T', 'P', '/', '2', '.', '0']);
    assert("HTTP/3.0"@ =~= seq!['H', 'T', 'T', 'P', '/', '3', '.', '0']);
}

/// A request line that is written out and read again is the same request
/// line: the method and the version come back as they were, and so does
/// the resource, which must be a word.
pub proof fn lemma_request_line_round_trip(l: RequestLineView)
    requires
        l.resource.len() > 0,
        no_white_space(l.resource),
    ensures
        request_line_of(request_line_text(l)) == Some(l),
{
    lemma_names_are_words(l.method, l.version);
    lemma_method_name_round_trip(l.method);
    lemma_version_name_round_trip(l.version);
    let tail: Seq<char> = l.resource + seq![' '] + l.version.name();
    lemma_words_of_word(l.version.name());
    lemma_words_after_word(l.resource, ' ', l.version.name());
    lemma_words_after_word(l.method.name(), ' ', tail);
    assert(request_line_text(l) =~= l.method.name() + seq![' '] + tail);
    let w: Seq<Seq<char>> = words(request_line_text(l));
    assert(w =~= seq![l.method.name(), l.resource, l.version.name()]);
}

/// Reading a request line, writing out what was read and reading that
/// again gives the same method, resource and version, whatever the letter
/// case and spacing of the first line were.
pub proof fn lemma_request_line_reparse(line: Seq<char>)
    ensures
        request_line_of(line) matches Some(l) ==> request_line_of(request_line_text(l)) == Some(
            l,
        ),
{
    if let Some(l) = request_line_of(line) {
        lemma_words_are_words(line);
        assert(l.resource == words(line)[1]);
        lemma_request_line_round_trip(l);
    }
}

/// Reading a request, writing out its request line as a request without
/// headers and reading that again gives the same request line.
pub proof fn lemma_request_reparse(text: Seq<char>)
    ensures
        request_of(text) matches Some(r) ==> request_of(
            request_line_text(r.request_line) + line_break() + line_break(),
        ) == Some(
            RequestView {
                request_line: r.request_line,
                headers: Seq::empty(),
                body: Seq::empty(),
            },
        ),
{
    if let Some(r) = request_of(text) {
        let l: RequestLineView = r.request_line;
        let first: Seq<char> = lines(text)[0];
        assert(request_line_of(first) == Some(l));
        lemma_request_line_reparse(first);
        lemma_words_are_words(first);
        lemma_names_are_words(l.method, l.version);
        let written: Seq<char> = request_line_text(l);
        assert forall|i: int| 0 <= i < written.len() implies written[i] != '\r' by {
            let a: int = l.method.name().len() as int;
            let b: int = a + 1 + l.resource.len();
            if i < a {
                assert(written[i] == l.method.name()[i]);
            } else if i == a {
            } else if i < b {
                assert(written[i] == l.resource[i - a - 1]);
                assert(l.resource == words(first)[1]);
            } else if i == b {
            } else {
                assert(written[i] == l.version.name()[i - b - 1]);
            }
        }
        let empty: Seq<char> = Seq::empty();
        lemma_lines_after_line(empty, empty);
        assert(empty + line_break() + empty =~= line_break());
        lemma_lines_of_line(empty);
        lemma_lines_after_line(written, line_break());
        let again: Seq<Seq<char>> = lines(written + line_break() + line_break());
        assert(again =~= seq![written, empty, empty]);
        assert(again.skip(1)[0] == empty);
        assert(header_block(again.skip(1)) =~= Seq::<Seq<char>>::empty());
        assert(headers_of(header_block(again.skip(1))) =~= Seq::<HeaderView>::empty());
    }
}

/// Header equality is an equivalence relation.
pub proof fn lemma_header_eq_is_equivalence(a: HeaderView, b: HeaderView, c: HeaderView)
    ensures
        header_eq(a, a),
        header_eq(a, b) ==> header_eq(b, a),
        header_eq(a, b) && header_eq(b, c) ==> header_eq(a, c),
{
}

/// Header equality looks at nothing but the trimmed name and the trimmed
/// value: white space around either does not change what a header equals.
pub proof fn lemma_header_eq_ignores_padding(
    h: HeaderView,
    name_left: Seq<char>,
    name_right: Seq<char>,
    value_left: Seq<char>,
    value_right: Seq<char>,
)
    requires
        all_white_space(name_left),
        all_white_space(name_right),
        all_white_space(value_left),
        all_white_space(value_right),
    ensures
        header_eq(
            HeaderView {
                name: name_left + h.name + name_right,
                value: value_left + h.value + value_right,
            },
            h,
        ),
{
    lemma_trim_padding(name_left, h.name, name_right);
    lemma_trim_padding(value_left, h.value, value_right);
}

/// A line that states a header states, with white space around the name
/// and around the value, a header equal to it: `"Content-type :
/// application/json"` and `"Content-type:application/json"` state equal
/// headers.
pub proof fn lemma_header_of_padded_line(
    name: Seq<char>,
    value: Seq<char>,
    name_left: Seq<char>,
    name_right: Seq<char>,
    value_left: Seq<char>,
    value_right: Seq<char>,
)
    requires
        forall|i: int| 0 <= i < name.len() ==> name[i] != ':',
        all_white_space(name_left),
        all_white_space(name_right),
        all_white_space(value_left),
        all_white_space(value_right),
    ensures
        header_eq(
            header_of(
                name_left + name + name_right + seq![':'] + value_left + value + value_right,
            ),
            header_of(name + seq![':'] + value),
        ),
{
    let padded_name: Seq<char> = name_left + name + name_right;
    let padded_value: Seq<char> = value_left + value + value_right;
    assert forall|i: int| 0 <= i < padded_name.len() implies padded_name[i] != ':' by {
        if i < name_left.len() {
            assert(padded_name[i] == name_left[i]);
        } else if i < name_left.len() + name.len() {
            assert(padded_name[i] == name[i - name_left.len()]);
        } else {
            assert(padded_name[i] == name_right[i - name_left.len() - name.len()]);
        }
    }
    lemma_header_of_parts(padded_name, padded_value);
    lemma_header_of_parts(name, value);
    assert(padded_name + seq![':'] + padded_value =~= name_left + name + name_right + seq![':']
        + value_left + value + value_right);
    lemma_trim_padding(name_left, name, name_right);
    lemma_trim_padding(value_left, value, value_right);
    lemma_trim_idempotent(value);
    lemma_trim_idempotent(padded_value);
}

/// The header that a name without a colon, a colon and a value state.
pub proof fn lemma_header_of_parts(name: Seq<char>, value: Seq<char>)
    requires
        forall|i: int| 0 <= i < name.len() ==> name[i] != ':',
    ensures
        header_of(name + seq![':'] + value) == (HeaderView { name, value: trim(value) }),
{
    let line: Seq<char> = name + seq![':'] + value;
    let k: int = name.len() as int;
    assert forall|i: int| 0 <= i < k implies line[i] != ':' by {
        assert(line[i] == name[i]);
    }
    assert(line[k] == ':');
    lemma_position_of_is(line, ':', k);
    assert(line.take(k) =~= name);
    assert(line.skip(k + 1) =~= value);
}

/// The UTF-8 encoding of two texts, one after the other, is the encoding of
/// the first followed by the encoding of the second.
pub proof fn lemma_encode_utf8_concat(a: Seq<char>, b: Seq<char>)
    ensures
        encode_utf8(a + b) == encode_utf8(a) + encode_utf8(b),
    decreases a.len(),
{
    if a.len() == 0 {
        assert(a + b =~= b);
        assert(encode_utf8(a) + encode_utf8(b) =~= encode_utf8(b));
    } else {
        assert((a + b)[0] == a[0]);
        assert((a + b).drop_first() =~= a.drop_first() + b);
        lemma_encode_utf8_concat(a.drop_first(), b);
        assert(encode_utf8(a + b) =~= encode_utf8(a) + encode_utf8(b));
    }
}

/// Where the body of a response is well-formed UTF-8, the response as
/// bytes is the UTF-8 encoding of the response as text.
pub proof fn lemma_response_bytes_of_text(r: ResponseView)
    requires
        valid_utf8(r.body),
    ensures
        encode_utf8(response_text(r)) == response_bytes(r),
{
    lemma_encode_utf8_concat(response_head(r), decode_utf8(r.body));
    decode_utf8_encode_utf8(r.body);
}

} // verus!
