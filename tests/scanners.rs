use http_server::{LineParser, LineScanner, StringScanner, VecScanner};

#[test]
fn vec_scanner_consume_exact_clamps_at_end() {
    let mut scanner = VecScanner::new(vec![1u8, 2, 3]);
    assert_eq!(scanner.consume_exact(2), vec![1u8, 2]);
    assert_eq!(scanner.consume_exact(5), vec![3u8]);
    assert_eq!(scanner.consume_exact(1), Vec::<u8>::new());
    assert!(scanner.finished());
}

#[test]
fn vec_scanner_peek_does_not_consume() {
    let mut scanner = VecScanner::new(vec!['a', 'b', 'c']);
    assert_eq!(scanner.peek(2), vec!['a', 'b']);
    assert_eq!(scanner.peek(10), vec!['a', 'b', 'c']);
    assert_eq!(scanner.consume_exact(1), vec!['a']);
    assert_eq!(scanner.remaining(), 2);
}

#[test]
fn vec_scanner_consume_until_value_stops_before_target() {
    let mut scanner = VecScanner::new("key=value".chars().collect::<Vec<char>>());
    let key = scanner.consume_until_value('=');
    assert_eq!(key.into_iter().collect::<String>(), "key");
    assert_eq!(scanner.peek(1), vec!['=']);
    scanner.consume_exact(1);
    assert_eq!(scanner.consume_rest().into_iter().collect::<String>(), "value");
    assert!(scanner.finished());
}

#[test]
fn vec_scanner_consume_until_pattern_finds_first_occurrence() {
    let mut scanner = VecScanner::new(b"ab\r\ncd\r\n".to_vec());
    let pattern = b"\r\n".to_vec();
    assert_eq!(scanner.consume_until_pattern(&pattern), b"ab".to_vec());
    scanner.consume_exact(2);
    assert_eq!(scanner.consume_until_pattern(&pattern), b"cd".to_vec());
    assert_eq!(scanner.remaining(), 2);
}

#[test]
fn vec_scanner_consume_until_pattern_missing_returns_tail() {
    let mut scanner = VecScanner::new(b"abc".to_vec());
    assert_eq!(scanner.consume_until_pattern(&b"xy".to_vec()), b"abc".to_vec());
    assert!(scanner.finished());
    assert_eq!(scanner.consume_until_pattern(&b"xy".to_vec()), Vec::<u8>::new());
}

#[test]
fn vec_scanner_consume_until_predicate_gets_index() {
    let mut scanner = VecScanner::new(vec![5u8, 6, 7, 8]);
    let taken = scanner.consume_until(|_value, index| index >= 2);
    assert_eq!(taken, vec![5u8, 6]);
    let taken = scanner.consume_until(|value, _index| value == 8);
    assert_eq!(taken, vec![7u8]);
}

#[test]
fn string_scanner_operations() {
    let mut scanner = StringScanner::new(&String::from("/path?x#y"));
    assert_eq!(scanner.consume_until(|c| c == '?' || c == '#'), "/path");
    assert_eq!(scanner.consume_exact(1), "?");
    assert_eq!(scanner.consume_until_char('#'), "x");
    assert_eq!(scanner.remaining(), 2);
    assert_eq!(scanner.consume_rest(), "#y");
    assert!(scanner.finished());
    assert_eq!(scanner.consume_exact(3), "");
}

#[test]
fn line_scanner_hands_out_lines_then_none() {
    let mut scanner = LineScanner::new(vec![String::from("a"), String::from("b")]);
    assert_eq!(scanner.consume(), Some(String::from("a")));
    assert_eq!(scanner.consume(), Some(String::from("b")));
    assert_eq!(scanner.consume(), None);
    assert_eq!(scanner.consume(), None);
}

#[test]
fn line_parser_get_peeks() {
    let mut parser = LineParser::new(vec![String::from("first"), String::from("second")]);
    assert_eq!(parser.get(), Some(String::from("first")));
    assert_eq!(parser.consume(), Some(String::from("first")));
    assert_eq!(parser.get(), Some(String::from("second")));
    assert_eq!(parser.consume(), Some(String::from("second")));
    assert_eq!(parser.get(), None);
    assert_eq!(parser.consume(), None);
}
