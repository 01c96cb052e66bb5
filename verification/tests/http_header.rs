use hyperion::http_header::{clone_headers, is_field, push_header_lines, read_header_lines};
use hyperion::HttpHeader;

fn pair(header: &HttpHeader) -> (&str, &str) {
    (header.name.as_str(), header.value.as_str())
}

#[test]
fn a_line_with_a_separator_gives_one_header() {
    let header = HttpHeader::from("Host: x").unwrap();
    assert_eq!(pair(&header), ("Host", "x"));
    let header = HttpHeader::from("Content-Type: text/html; charset=utf-8").unwrap();
    assert_eq!(pair(&header), ("Content-Type", "text/html; charset=utf-8"));
}

#[test]
fn a_header_is_cut_at_the_first_separator() {
    let header = HttpHeader::from("A: b: c").unwrap();
    assert_eq!(pair(&header), ("A", "b: c"));
    let header = HttpHeader::from("Referer: http://a/b?c: d").unwrap();
    assert_eq!(pair(&header), ("Referer", "http://a/b?c: d"));
    let header = HttpHeader::from("a:: b").unwrap();
    assert_eq!(pair(&header), ("a:", "b"));
}

#[test]
fn a_line_without_separator_gives_no_header() {
    assert!(HttpHeader::from("NoSeparator").is_none());
    assert!(HttpHeader::from("Key:value").is_none());
    assert!(HttpHeader::from("Key :value").is_none());
    assert!(HttpHeader::from("").is_none());
    assert!(HttpHeader::from(":").is_none());
    assert!(HttpHeader::from(" ").is_none());
}

#[test]
fn name_and_value_may_be_empty() {
    assert_eq!(pair(&HttpHeader::from(": v").unwrap()), ("", "v"));
    assert_eq!(pair(&HttpHeader::from("k: ").unwrap()), ("k", ""));
    assert_eq!(pair(&HttpHeader::from(": ").unwrap()), ("", ""));
}

#[test]
fn text_outside_ascii_is_kept_as_it_is() {
    let header = HttpHeader::from("Ärger: grüße 日本").unwrap();
    assert_eq!(pair(&header), ("Ärger", "grüße 日本"));
}

#[test]
fn a_header_is_written_as_name_separator_value() {
    let header = HttpHeader::new("Server".to_string(), "Hyperion".to_string());
    assert_eq!(header.to_string(), "Server: Hyperion");
    assert_eq!(HttpHeader::new(String::new(), String::new()).to_string(), ": ");
}

#[test]
fn a_written_header_is_read_back() {
    let header = HttpHeader::new("X-Key".to_string(), "a: b".to_string());
    let again = HttpHeader::from(&header.to_string()).unwrap();
    assert_eq!(pair(&again), ("X-Key", "a: b"));
}

#[test]
fn clone_keeps_name_and_value() {
    let header = HttpHeader::new("A".to_string(), "b".to_string());
    let copy = header.clone();
    assert_eq!(pair(&copy), ("A", "b"));
}

#[test]
fn header_lines_are_read_in_order_and_other_lines_passed_over() {
    let headers = read_header_lines(Some("A: 1\r\nnot a header\r\nB: 2\r\n\r\nA: 3"));
    let pairs: Vec<(&str, &str)> = headers.iter().map(pair).collect();
    assert_eq!(pairs, vec![("A", "1"), ("B", "2"), ("A", "3")]);
    assert!(read_header_lines(None).is_empty());
    assert!(read_header_lines(Some("")).is_empty());
}

#[test]
fn a_lone_line_feed_does_not_end_a_line() {
    let headers = read_header_lines(Some("A: 1\nB: 2\r\nC: 3\rD: 4"));
    let pairs: Vec<(&str, &str)> = headers.iter().map(pair).collect();
    assert_eq!(pairs, vec![("A", "1\nB: 2"), ("C", "3\rD: 4")]);
}

#[test]
fn header_lines_are_written_one_per_line() {
    let headers = vec![
        HttpHeader::new("A".to_string(), "1".to_string()),
        HttpHeader::new("B".to_string(), "2".to_string()),
    ];
    let mut out = String::from(">");
    push_header_lines(&mut out, &headers);
    assert_eq!(out, ">A: 1\r\nB: 2\r\n");
    let mut out = String::from(">");
    push_header_lines(&mut out, &Vec::new());
    assert_eq!(out, ">");
}

#[test]
fn clone_headers_copies_every_header() {
    let headers = vec![
        HttpHeader::new("A".to_string(), "1".to_string()),
        HttpHeader::new("B".to_string(), "2".to_string()),
    ];
    let copy = clone_headers(&headers);
    let pairs: Vec<(&str, &str)> = copy.iter().map(pair).collect();
    assert_eq!(pairs, vec![("A", "1"), ("B", "2")]);
}

#[test]
fn a_field_is_ascii_text_without_line_breaks() {
    assert!(is_field(""));
    assert!(is_field("text/html; charset=utf-8"));
    assert!(is_field("a\tb\u{0}c\u{7f}"));
    assert!(!is_field("a\rb"));
    assert!(!is_field("a\nb"));
    assert!(!is_field("a\r\nb"));
    assert!(!is_field("\n"));
    assert!(!is_field("caf\u{e9}"));
    assert!(!is_field("\u{80}"));
    assert!(!is_field("日本"));
}

#[test]
fn a_header_is_well_formed_when_name_and_value_are_fields() {
    let header = |name: &str, value: &str| HttpHeader::new(name.to_string(), value.to_string());
    assert!(header("Host", "example.org").is_well_formed());
    assert!(header("", "").is_well_formed());
    assert!(!header("Ho\rst", "x").is_well_formed());
    assert!(!header("Host", "x\r\nInjected: y").is_well_formed());
    assert!(!header("Host", "grüße").is_well_formed());
    assert!(!header("Ärger", "x").is_well_formed());
}
