use http_server::{HttpMethod, HttpRequest, HttpRequestParseError};

fn parse(text: &str) -> Result<HttpRequest, HttpRequestParseError> {
    HttpRequest::from_bytes(&text.as_bytes().to_vec())
}

#[test]
fn end_to_end_query_last_duplicate_wins() {
    let request = parse("GET /params?a=1&a=2&b=hello+world HTTP/1.1\r\nHost: x\r\n\r\n").unwrap();
    assert_eq!(request.method, HttpMethod::GET);
    assert_eq!(request.uri.path, "/params");
    assert_eq!(request.uri.query.len(), 2);
    assert_eq!(request.uri.query.get("a"), Some(&String::from("2")));
    assert_eq!(request.uri.query.get("b"), Some(&String::from("hello world")));
    assert_eq!(request.headers.get("Host").unwrap().as_string(), "x");
    assert!(request.body.is_none());
}

#[test]
fn content_length_reads_exact_body() {
    let request = parse("POST /upload HTTP/1.1\r\nContent-Length: 5\r\nContent-Type: text/plain\r\n\r\nhelloEXTRA").unwrap();
    assert_eq!(request.method, HttpMethod::POST);
    let body = request.body.unwrap();
    assert_eq!(body.as_buffer().len(), 5);
    assert_eq!(body.as_buffer(), b"hello".to_vec());
    assert_eq!(body.as_text().unwrap(), "hello");
    assert!(body.content_disposition().is_none());
}

#[test]
fn content_length_with_fewer_bytes_is_incomplete() {
    let result = parse("POST / HTTP/1.1\r\nContent-Length: 5\r\n\r\nabc");
    assert_eq!(result.err(), Some(HttpRequestParseError::IncompleteMessage));
}

#[test]
fn body_defaults_to_octet_stream() {
    let request = parse("POST / HTTP/1.1\r\nContent-Length: 2\r\nContent-Disposition: inline\r\n\r\nab").unwrap();
    let body = request.body.unwrap();
    assert_eq!(body.content_type().as_string(), "application/octet-stream");
    assert_eq!(body.content_disposition().unwrap().as_string(), "inline");
}

#[test]
fn zero_content_length_gives_empty_body() {
    let request = parse("POST / HTTP/1.1\r\nContent-Length: 0\r\n\r\n").unwrap();
    assert_eq!(request.body.unwrap().as_buffer().len(), 0);
}

#[test]
fn missing_blank_line_is_incomplete() {
    assert_eq!(parse("GET / HTTP/1.1\r\nHost: x\r\n").err(), Some(HttpRequestParseError::IncompleteMessage));
}

#[test]
fn request_line_with_two_tokens_is_malformed() {
    assert_eq!(parse("GET /\r\n\r\n").err(), Some(HttpRequestParseError::MalformedRequestLine));
    assert_eq!(parse("GET  / HTTP/1.1\r\n\r\n").err(), Some(HttpRequestParseError::MalformedRequestLine));
}

#[test]
fn unknown_method_is_unrecognised() {
    assert_eq!(parse("PUT / HTTP/1.1\r\n\r\n").err(), Some(HttpRequestParseError::UnrecognisedHttpMethod));
}

#[test]
fn other_version_is_unsupported() {
    assert_eq!(parse("GET / HTTP/1.0\r\n\r\n").err(), Some(HttpRequestParseError::UnsupportedVersion));
}

#[test]
fn header_without_colon_is_malformed() {
    assert_eq!(parse("GET / HTTP/1.1\r\nNoColon\r\n\r\n").err(), Some(HttpRequestParseError::MalformedHeader));
}

#[test]
fn bad_content_length_is_reported() {
    assert_eq!(
        parse("POST / HTTP/1.1\r\nContent-Length: five\r\n\r\nhello").err(),
        Some(HttpRequestParseError::InvalidContentLength)
    );
    assert_eq!(
        parse("POST / HTTP/1.1\r\nContent-Length: 99999999999999999999999\r\n\r\n").err(),
        Some(HttpRequestParseError::InvalidContentLength)
    );
}

#[test]
fn invalid_utf8_head_is_reported() {
    let mut bytes = b"GET /".to_vec();
    bytes.push(0xff);
    bytes.extend_from_slice(b" HTTP/1.1\r\n\r\n");
    assert_eq!(HttpRequest::from_bytes(&bytes).err(), Some(HttpRequestParseError::InvalidEncoding));
}

#[test]
fn request_line_is_split_into_three_tokens() {
    let (method, uri, version) = HttpRequest::deserialize_request_line(String::from("POST /a?b=c HTTP/1.1")).unwrap();
    assert_eq!(method, HttpMethod::POST);
    assert_eq!(uri.path, "/a");
    assert_eq!(version, "HTTP/1.1");
}

#[test]
fn parse_head_trims_the_request_line() {
    let request = HttpRequest::parse_head(&String::from("GET /x HTTP/1.1\r\n"), &String::from("A: 1\r\n")).unwrap();
    assert_eq!(request.uri.path, "/x");
    assert_eq!(request.headers.get("A").unwrap().as_string(), "1");
    assert_eq!(request.content_length(), Ok(None));
}

#[test]
fn deserialize_header_from_lines() {
    let lines = vec![
        String::from("GET /documents/a.txt HTTP/1.1"),
        String::from("Host: example"),
        String::from("Accept:*/*"),
        String::from(""),
        String::from("ignored"),
    ];
    let request = HttpRequest::deserialize_header(lines).unwrap();
    assert_eq!(request.method, HttpMethod::GET);
    assert_eq!(request.uri.path, "/documents/a.txt");
    assert_eq!(request.headers.len(), 2);
    assert_eq!(request.headers.get("Accept").unwrap().as_string(), "*/*");
}

#[test]
fn deserialize_header_rejects_line_without_colon() {
    let lines = vec![String::from("GET / HTTP/1.1"), String::from("bad line")];
    assert_eq!(HttpRequest::deserialize_header(lines).err(), Some(HttpRequestParseError::MalformedHeader));
}

#[test]
fn deserialize_header_without_lines_is_malformed() {
    assert_eq!(HttpRequest::deserialize_header(Vec::new()).err(), Some(HttpRequestParseError::MalformedRequestLine));
}

#[test]
fn method_from_string() {
    assert_eq!(HttpMethod::from_string(String::from("GET")), Ok(HttpMethod::GET));
    assert_eq!(HttpMethod::from_string(String::from("POST")), Ok(HttpMethod::POST));
    assert_eq!(HttpMethod::from_string(String::from("get")), Err(String::from("Unrecognised HTTP method get")));
    assert_eq!(HttpMethod::GET.name(), "GET");
}

#[test]
fn request_line_is_trimmed_before_splitting() {
    let (method, uri, version) = HttpRequest::deserialize_request_line(String::from("GET /x?y=1 HTTP/1.1\r\n")).unwrap();
    assert_eq!(method, HttpMethod::GET);
    assert_eq!(uri.path, "/x");
    assert_eq!(version, "HTTP/1.1");
    let (method, uri, version) = HttpRequest::deserialize_request_line(String::from(" POST /a HTTP/1.1 ")).unwrap();
    assert_eq!(method, HttpMethod::POST);
    assert_eq!(uri.path, "/a");
    assert_eq!(version, "HTTP/1.1");
}

#[test]
fn request_line_piece_count_decides_malformed() {
    for line in ["GET /a b HTTP/1.1", "GET  / HTTP/1.1", "GET /", ""] {
        assert_eq!(
            HttpRequest::deserialize_request_line(String::from(line)).err(),
            Some(HttpRequestParseError::MalformedRequestLine)
        );
    }
}

#[test]
fn head_with_crlf_line_and_no_headers() {
    let request = HttpRequest::parse_head(&String::from("POST /plain HTTP/1.1\r\n"), &String::new()).unwrap();
    assert_eq!(request.method, HttpMethod::POST);
    assert_eq!(request.uri.path, "/plain");
    assert_eq!(request.uri.query.len(), 0);
    assert_eq!(request.headers.len(), 0);
    assert!(request.body.is_none());
}

#[test]
fn simple_message_has_method_path_and_nothing_else() {
    for (text, method, path) in [
        ("GET /index.html HTTP/1.1\r\n\r\n", HttpMethod::GET, "/index.html"),
        ("POST /ünïcode/path HTTP/1.1\r\n\r\n", HttpMethod::POST, "/ünïcode/path"),
    ] {
        let request = parse(text).unwrap();
        assert_eq!(request.method, method);
        assert_eq!(request.uri.path, path);
        assert_eq!(request.uri.query.len(), 0);
        assert_eq!(request.headers.len(), 0);
        assert!(request.body.is_none());
    }
}
