use http_server::headers::{parse_header_block, write_headers};
use http_server::{HttpHeaderParser, HttpHeaderValue, HttpHeaders, StringMap};

#[test]
fn parameterized_view_of_content_type() {
    let headers = HttpHeaders::from_string(String::from("Content-Type: text/plain; charset=utf-8\r\n"));
    let value = headers.get("Content-Type").unwrap();
    let view = value.as_parameterized_header_value();
    assert_eq!(view.value, "text/plain");
    assert_eq!(view.parameters.get("charset"), Some(&String::from("utf-8")));
    assert_eq!(view.parameters.len(), 1);
}

#[test]
fn parameterized_view_strips_quotes_and_blanks() {
    let value = HttpHeaderValue::new(String::from("form-data;\tname=\"field1\" ;  filename = \"a.txt\""));
    let view = value.as_parameterized_header_value();
    assert_eq!(view.value, "form-data");
    assert_eq!(view.parameters.get("name"), Some(&String::from("field1")));
    assert_eq!(view.parameters.get("filename"), Some(&String::from("a.txt")));
}

#[test]
fn parameterized_view_without_parameters() {
    let view = HttpHeaderValue::new(String::from("  42 ")).as_parameterized_header_value();
    assert_eq!(view.value, "  42 ");
    assert_eq!(view.parameters.len(), 0);
}

#[test]
fn parameterized_view_lone_quote_is_kept() {
    let view = HttpHeaderValue::new(String::from("x; q=\"")).as_parameterized_header_value();
    assert_eq!(view.parameters.get("q"), Some(&String::from("\"")));
}

#[test]
fn header_block_last_duplicate_wins() {
    let headers = parse_header_block(&String::from("Host: a\r\nX-Name:   first\r\nX-Name: second\r\n"));
    assert_eq!(headers.len(), 2);
    assert_eq!(headers.get("Host").unwrap().as_string(), "a");
    assert_eq!(headers.get("X-Name").unwrap().as_string(), "second");
}

#[test]
fn header_block_splits_on_first_colon() {
    let headers = parse_header_block(&String::from(" Host : example.com:8080 "));
    assert_eq!(headers.get("Host").unwrap().as_string(), "example.com:8080 ");
}

#[test]
fn header_names_are_case_sensitive() {
    let headers = parse_header_block(&String::from("host: a"));
    assert!(headers.get("Host").is_none());
    assert!(headers.contains_key("host"));
}

#[test]
fn headers_round_trip_through_text() {
    let mut headers: HttpHeaders = StringMap::new();
    headers.insert(String::from("Host"), HttpHeaderValue::new(String::from("x")));
    headers.insert(String::from("Accept"), HttpHeaderValue::new(String::from("text/html; q=0.9")));
    headers.insert(String::from("Empty"), HttpHeaderValue::new(String::from("")));
    let text = write_headers(&headers);
    assert_eq!(text, "Host: x\r\nAccept: text/html; q=0.9\r\nEmpty: \r\n");
    let parsed = parse_header_block(&text);
    assert_eq!(parsed.len(), 3);
    assert_eq!(parsed.get("Host").unwrap().as_string(), "x");
    assert_eq!(parsed.get("Accept").unwrap().as_string(), "text/html; q=0.9");
    assert_eq!(parsed.get("Empty").unwrap().as_string(), "");
}

#[test]
fn string_map_insert_keeps_first_position() {
    let mut map: StringMap<String> = StringMap::new();
    map.insert(String::from("a"), String::from("1"));
    map.insert(String::from("b"), String::from("2"));
    map.insert(String::from("a"), String::from("3"));
    assert_eq!(map.len(), 2);
    let (k, v) = map.entry_at(0);
    assert_eq!((k.as_str(), v.as_str()), ("a", "3"));
    let (k, v) = map.entry_at(1);
    assert_eq!((k.as_str(), v.as_str()), ("b", "2"));
}
