use http_server::route::path_matches;
use http_server::{HttpMethod, HttpRequest, HttpResponse, HttpRoute, HttpServer, MimeType};

fn matches(path: &str, pattern: &str) -> bool {
    path_matches(&String::from(path), &String::from(pattern))
}

#[test]
fn wildcard_spans_slashes() {
    assert!(matches("/documents/a.txt", "/documents/*.txt"));
    assert!(matches("/documents/.txt", "/documents/*.txt"));
    assert!(matches("/documents/a/b.txt", "/documents/*.txt"));
    assert!(!matches("/documents/a.txtx", "/documents/*.txt"));
}

#[test]
fn empty_pattern_matches_only_empty_path() {
    assert!(matches("", ""));
    assert!(!matches("/", ""));
    assert!(!matches("a", ""));
}

#[test]
fn star_matches_every_path() {
    for path in ["", "/", "/a/b/c", "*", "x.y", "x*", "**"] {
        assert!(matches(path, "*"), "{}", path);
    }
    assert!(matches("", "**"));
}

#[test]
fn star_matches_paths_ending_in_star() {
    assert!(matches("a*", "*"));
    assert!(matches("x*", "*"));
    assert!(matches("a*b*", "*"));
    assert!(matches("a*", "a*"));
    assert!(matches("a*", "**"));
}

#[test]
fn literal_patterns_need_equal_paths() {
    assert!(matches("/a", "/a"));
    assert!(!matches("/a", "/b"));
    assert!(matches("/a/b", "/*/b"));
    assert!(matches("a", "*a"));
    assert!(!matches("/ab", "/a"));
}

fn ok_handler(request: HttpRequest) -> HttpResponse {
    HttpResponse::new().status(200).content(request.uri.path)
}

fn created_handler(_request: HttpRequest) -> HttpResponse {
    HttpResponse::new().status(201)
}

fn request(text: &str) -> HttpRequest {
    HttpRequest::from_bytes(&text.as_bytes().to_vec()).unwrap()
}

#[test]
fn route_matches_method_and_path() {
    let route = HttpRoute { method: HttpMethod::GET, path_pattern: String::from("/documents/*.txt"), callback: ok_handler };
    assert!(route.matches(&request("GET /documents/x.txt HTTP/1.1\r\n\r\n")));
    assert!(!route.matches(&request("POST /documents/x.txt HTTP/1.1\r\n\r\n")));
    assert!(!route.matches(&request("GET /documents/x.html HTTP/1.1\r\n\r\n")));
    assert_eq!(route.describe(), "GET /documents/*.txt");
}

#[test]
fn first_registered_route_wins() {
    let mut server: HttpServer<fn(HttpRequest) -> HttpResponse> = HttpServer::new();
    server.get(String::from("/a*"), ok_handler);
    server.get(String::from("/a"), created_handler);
    server.post(String::from("/a"), created_handler);
    assert_eq!(server.route_index(&request("GET /a HTTP/1.1\r\n\r\n")), Some(0));
    let response = server.handle_request(request("GET /a HTTP/1.1\r\n\r\n")).ok().unwrap();
    assert_eq!(response.status, 200);
    assert_eq!(response.content, Some(String::from("/a")));
    let response = server.handle_request(request("POST /a HTTP/1.1\r\n\r\n")).ok().unwrap();
    assert_eq!(response.status, 201);
}

#[test]
fn unmatched_request_is_given_back() {
    let mut server: HttpServer<fn(HttpRequest) -> HttpResponse> = HttpServer::new();
    server.get(String::from("/"), ok_handler);
    server.serve_static(String::from("public"));
    let back = server.handle_request(request("GET /missing HTTP/1.1\r\n\r\n")).err().unwrap();
    assert_eq!(back.uri.path, "/missing");
    assert_eq!(server.static_directory_list(), &vec![String::from("public")]);
    assert_eq!(server.route_index(&back), None);
}

#[test]
fn mime_type_from_extension() {
    assert_eq!(MimeType::from_file_path(String::from("/docs/readme.txt")), "text/plain");
    assert_eq!(MimeType::from_file_path(String::from("index.html")), "text/html");
    assert_eq!(MimeType::from_file_path(String::from("/a.txt/archive")), "application/octet-stream");
    assert_eq!(MimeType::from_file_path(String::from("/x/y.tar.txt")), "text/plain");
    assert_eq!(MimeType::from_file_path(String::from("txt")), "application/octet-stream");
}

#[test]
fn response_serializes_with_content_length() {
    let response = HttpResponse::new().status(404);
    assert_eq!(response.serialize(), "HTTP/1.1 404 Not Found\r\nContent-Length: 0\r\n\r\n");
}

#[test]
fn response_serializes_headers_in_order() {
    let response = HttpResponse::new()
        .status(200)
        .header(String::from("Content-Type"), String::from("text/plain"))
        .header(String::from("X-A"), String::from("1"))
        .content(String::from("héllo"));
    assert_eq!(
        response.serialize(),
        "HTTP/1.1 200 OK\r\nContent-Type: text/plain\r\nX-A: 1\r\nContent-Length: 6\r\n\r\nhéllo"
    );
}

#[test]
fn response_status_text_follows_code() {
    let response = HttpResponse::new();
    assert_eq!(response.status, 200);
    assert_eq!(response.status_text, "OK");
    let response = response.status(505);
    assert_eq!(response.status_text, "HTTP Version Not Supported");
    assert_eq!(HttpResponse::new().status(100).status_text, "Continue");
}

#[test]
fn missing_response_becomes_not_found() {
    let response = HttpResponse::or_not_found(None);
    assert_eq!(response.status, 404);
    assert_eq!(response.status_text, "Not Found");
    assert_eq!(response.serialize(), "HTTP/1.1 404 Not Found\r\nContent-Length: 0\r\n\r\n");
    let found = HttpResponse::or_not_found(Some(HttpResponse::new().status(201)));
    assert_eq!(found.status, 201);
}

#[test]
fn replaced_header_keeps_its_place() {
    let response = HttpResponse::new()
        .header(String::from("A"), String::from("1"))
        .header(String::from("B"), String::from("2"))
        .header(String::from("A"), String::from("3"));
    assert_eq!(response.serialize(), "HTTP/1.1 200 OK\r\nA: 3\r\nB: 2\r\nContent-Length: 0\r\n\r\n");
}
