use minihttp::context::ServerContext;
use minihttp::http::HttpMethod;
use minihttp::http::HttpStatus;
use minihttp::http::supported_encoding;
use minihttp::request::HttpRequest;
use minihttp::request::ParseError;
use minihttp::request::RequestLine;
use minihttp::response::HttpResponse;
use minihttp::utils::split_url_into_parts;

#[test]
fn parse_simple_request() {
    let raw = b"GET /index HTTP/1.1\r\nHost: example\r\n\r\n";
    let req = HttpRequest::new(raw, ServerContext::new()).unwrap();
    assert_eq!(req.method, HttpMethod::Get);
    assert_eq!(req.url, b"/index".to_vec());
    assert_eq!(req.version, b"HTTP/1.1".to_vec());
    assert_eq!(req.get_header(b"host"), Some(&b"example".to_vec()));
    assert!(req.body.is_empty());
}

#[test]
fn parse_keeps_body_and_bare_newlines() {
    let raw = b"POST /files/data.txt HTTP/1.1\nContent-Length: 3\n\nabc";
    let req = HttpRequest::new(raw, ServerContext::new()).unwrap();
    assert_eq!(req.method, HttpMethod::Post);
    assert_eq!(req.body, b"abc".to_vec());
    assert_eq!(req.get_header(b"content-length"), Some(&b"3".to_vec()));
}

#[test]
fn header_lookup_is_case_insensitive() {
    let raw = b"GET / HTTP/1.1\r\nUser-Agent: test-client\r\n\r\n";
    let req = HttpRequest::new(raw, ServerContext::new()).unwrap();
    let expected = b"test-client".to_vec();
    assert_eq!(req.get_header(b"user-agent"), Some(&expected));
    assert_eq!(req.get_header(b"USER-AGENT"), Some(&expected));
    assert_eq!(req.get_header(b"User-Agent"), Some(&expected));
    assert_eq!(req.get_header(b"uSeR-aGeNt"), Some(&expected));
}

#[test]
fn duplicate_header_last_occurrence_wins() {
    let raw = b"GET / HTTP/1.1\r\nX-Tag: one\r\nx-tag: two\r\n\r\n";
    let req = HttpRequest::new(raw, ServerContext::new()).unwrap();
    assert_eq!(req.get_header(b"X-Tag"), Some(&b"two".to_vec()));
}

#[test]
fn header_values_keep_their_case() {
    let raw = b"GET / HTTP/1.1\r\nX-Mixed: MiXeD vAlUe\r\n\r\n";
    let req = HttpRequest::new(raw, ServerContext::new()).unwrap();
    assert_eq!(req.get_header(b"x-mixed"), Some(&b"MiXeD vAlUe".to_vec()));
}

#[test]
fn malformed_header_fails_the_request() {
    let raw = b"GET / HTTP/1.1\r\nNoSeparatorHere\r\n\r\n";
    let err = HttpRequest::new(raw, ServerContext::new()).unwrap_err();
    assert_eq!(err, ParseError::Header);
}

#[test]
fn short_buffers_fail_as_request_line_errors() {
    assert_eq!(
        HttpRequest::new(b"", ServerContext::new()).unwrap_err(),
        ParseError::RequestLine
    );
    assert_eq!(
        HttpRequest::new(b"GET / HTTP/1.1", ServerContext::new()).unwrap_err(),
        ParseError::RequestLine
    );
    assert_eq!(
        HttpRequest::new(b"GET\r\n\r\n", ServerContext::new()).unwrap_err(),
        ParseError::RequestLine
    );
}

#[test]
fn request_line_parses_tokens() {
    let rl = RequestLine::new(b"POST /files/a HTTP/1.1").unwrap();
    assert_eq!(rl.method, HttpMethod::Post);
    assert_eq!(rl.url, b"/files/a".to_vec());
    assert_eq!(rl.version, b"HTTP/1.1".to_vec());
    assert!(RequestLine::new(b"GET").is_err());
}

#[test]
fn unknown_method_parses_as_invalid() {
    let rl = RequestLine::new(b"PUT /x HTTP/1.1").unwrap();
    assert_eq!(rl.method, HttpMethod::Invalid);
    assert_eq!(HttpMethod::from_bytes(b"GET"), HttpMethod::Get);
    assert_eq!(HttpMethod::from_bytes(b"POST"), HttpMethod::Post);
    assert_eq!(HttpMethod::from_bytes(b"get"), HttpMethod::Invalid);
}

#[test]
fn status_codes_and_phrases() {
    assert_eq!(HttpStatus::OK.to_code(), 200);
    assert_eq!(HttpStatus::Created.to_code(), 201);
    assert_eq!(HttpStatus::BadRequest.to_code(), 400);
    assert_eq!(HttpStatus::NotFound.to_code(), 404);
    assert_eq!(HttpStatus::InternalServerError.to_code(), 500);
    assert_eq!(HttpStatus::OK.to_string(), "200 OK");
    assert_eq!(HttpStatus::Created.to_string(), "201 Created");
    assert_eq!(HttpStatus::NotFound.to_string(), "404 Not Found");
    assert_eq!(HttpStatus::BadRequest.to_string(), "400 Bad Request");
    assert_eq!(
        HttpStatus::InternalServerError.to_string(),
        "500 Internal Server Error"
    );
}

#[test]
fn serializes_empty_response() {
    let resp = HttpResponse::empty();
    assert_eq!(resp.into_bytes(), b"HTTP/1.1 200 OK\r\n\r\n".to_vec());
}

#[test]
fn serializes_headers_and_body() {
    let resp = HttpResponse::empty()
        .status(HttpStatus::NotFound)
        .header((b"X-One".as_slice(), b"alpha".as_slice()))
        .body(b"hi");
    assert_eq!(
        resp.into_bytes(),
        b"HTTP/1.1 404 Not Found\r\nX-One: alpha\r\ncontent-length: 2\r\n\r\nhi".to_vec()
    );
}

#[test]
fn body_sets_content_length_in_decimal() {
    let resp = HttpResponse::empty().body(b"twelve bytes");
    let bytes = resp.into_bytes();
    let text = String::from_utf8(bytes).unwrap();
    assert!(text.contains("content-length: 12\r\n"));
    assert!(text.ends_with("\r\n\r\ntwelve bytes"));
}

#[test]
fn supported_encoding_is_gzip_only() {
    assert!(supported_encoding(b"gzip"));
    assert!(!supported_encoding(b"identity"));
    assert!(!supported_encoding(b"GZIP"));
    assert!(!supported_encoding(b""));
}

#[test]
fn splits_url_into_nonempty_parts() {
    let parts = split_url_into_parts(b"/echo/hello");
    assert_eq!(parts, vec![b"echo".to_vec(), b"hello".to_vec()]);
    assert_eq!(split_url_into_parts(b"///").len(), 0);
    assert_eq!(split_url_into_parts(b"").len(), 0);
    assert_eq!(split_url_into_parts(b"a//b"), vec![b"a".to_vec(), b"b".to_vec()]);
}
