use http_server::{URLEncoding, URI};

#[test]
fn decode_plus_becomes_space() {
    assert_eq!(URLEncoding::decode(String::from("hello+world")), "hello world");
}

#[test]
fn decode_ascii_escapes() {
    assert_eq!(URLEncoding::decode(String::from("%41%62c")), "Abc");
    assert_eq!(URLEncoding::decode(String::from("a%2Bb")), "a+b");
    assert_eq!(URLEncoding::decode(String::from("%7e")), "~");
}

#[test]
fn decode_keeps_malformed_escapes() {
    assert_eq!(URLEncoding::decode(String::from("%zz1")), "%zz1");
    assert_eq!(URLEncoding::decode(String::from("100%")), "100%");
    assert_eq!(URLEncoding::decode(String::from("%4")), "%4");
    assert_eq!(URLEncoding::decode(String::from("%%41")), "%%41");
}

#[test]
fn decode_keeps_non_ascii_escapes() {
    assert_eq!(URLEncoding::decode(String::from("%C3%A9")), "%C3%A9");
}

#[test]
fn encode_writes_escapes() {
    assert_eq!(URLEncoding::encode(String::from("a b+c%d")), "a+b%2Bc%25d");
    assert_eq!(URLEncoding::encode(String::from("x-y_z.w*")), "x-y_z.w*");
}

#[test]
fn decode_of_encode_is_identity() {
    for text in ["a+b%c", "100% + 50%", "plain", "", "%%++", "A=1&b=2 #x"] {
        let encoded = URLEncoding::encode(String::from(text));
        assert_eq!(URLEncoding::decode(encoded), text);
    }
}

#[test]
fn uri_splits_path_query_fragment() {
    let uri = URI::from_string(String::from("/params?a=1&a=2&b=hello+world#top"));
    assert_eq!(uri.path, "/params");
    assert_eq!(uri.query.get("a"), Some(&String::from("2")));
    assert_eq!(uri.query.get("b"), Some(&String::from("hello world")));
    assert_eq!(uri.query.len(), 2);
    assert_eq!(uri.fragment, "top");
}

#[test]
fn uri_without_query() {
    let uri = URI::from_string(String::from("/a/b.txt"));
    assert_eq!(uri.path, "/a/b.txt");
    assert_eq!(uri.query.len(), 0);
    assert_eq!(uri.fragment, "");
}

#[test]
fn uri_fragment_without_query() {
    let uri = URI::from_string(String::from("/x#a?b=c"));
    assert_eq!(uri.path, "/x");
    assert_eq!(uri.query.len(), 0);
    assert_eq!(uri.fragment, "a?b=c");
}

#[test]
fn uri_query_pair_without_equals_has_empty_value() {
    let uri = URI::from_string(String::from("/s?flag&k=v=w&%41=%42"));
    assert_eq!(uri.query.get("flag"), Some(&String::from("")));
    assert_eq!(uri.query.get("k"), Some(&String::from("v=w")));
    assert_eq!(uri.query.get("A"), Some(&String::from("B")));
}

#[test]
fn uri_empty_query_string() {
    let uri = URI::from_string(String::from("/s?"));
    assert_eq!(uri.path, "/s");
    assert_eq!(uri.query.get(""), Some(&String::from("")));
}
