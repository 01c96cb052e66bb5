use hyperion::{HttpBody, HttpError, HttpMethod, HttpRequest, HttpVersion};

fn parse(head: &str) -> HttpRequest {
    HttpRequest::new(head.as_bytes().to_vec()).unwrap()
}

fn rejection(head: &[u8]) -> String {
    match HttpRequest::new(head.to_vec()) {
        Err(HttpError::BadRequest { message }) => message,
        Err(HttpError::IoError(error)) => panic!("unexpected transport error: {}", error),
        Ok(request) => panic!("unexpected request: {:?}", request),
    }
}

fn header_pairs(request: &HttpRequest) -> Vec<(String, String)> {
    request.headers().iter().map(|h| (h.name.clone(), h.value.clone())).collect()
}

fn owned(pairs: &[(&str, &str)]) -> Vec<(String, String)> {
    pairs.iter().map(|(n, v)| (n.to_string(), v.to_string())).collect()
}

#[test]
fn a_head_is_read_into_its_parts() {
    let request = parse("GET /hello HTTP/1.1\r\nHost: x");
    assert_eq!(request.method(), HttpMethod::GET);
    assert_eq!(request.path(), "/hello");
    assert_eq!(request.version(), HttpVersion::Http1_1);
    assert_eq!(header_pairs(&request), owned(&[("Host", "x")]));
    assert!(request.body().is_none());
}

#[test]
fn the_empty_line_at_the_end_of_a_head_gives_no_header() {
    let request = parse("GET /hello HTTP/1.1\r\nHost: x\r\n\r\n");
    assert_eq!(request.path(), "/hello");
    assert_eq!(header_pairs(&request), owned(&[("Host", "x")]));
}

#[test]
fn a_head_without_headers_is_a_request() {
    let request = parse("DELETE /item/7 HTTP/1.0");
    assert_eq!(request.method(), HttpMethod::DELETE);
    assert_eq!(request.path(), "/item/7");
    assert_eq!(request.version(), HttpVersion::Http1_0);
    assert!(request.headers().is_empty());
}

#[test]
fn method_path_and_version_round_trip() {
    let methods = [
        HttpMethod::GET,
        HttpMethod::POST,
        HttpMethod::PUT,
        HttpMethod::DELETE,
        HttpMethod::HEAD,
    ];
    let versions = [HttpVersion::Http1_0, HttpVersion::Http1_1];
    let paths = ["/", "/a/b?c=d&e=f", "*", "/caf\u{e9}", "/%20x", "/a\tb", ""];
    for method in methods {
        for version in versions {
            for path in paths {
                let line =
                    format!("{} {} HTTP/{}", method.to_string(), path, version.to_string());
                let request = parse(&line);
                assert_eq!(request.method(), method);
                assert_eq!(request.version(), version);
                assert_eq!(request.path().as_bytes(), path.as_bytes());
                let written = request.to_string();
                assert_eq!(written, format!("{}\r\n\r\n", line));
                let again = parse(&written);
                assert_eq!(again.method(), method);
                assert_eq!(again.version(), version);
                assert_eq!(again.path(), path);
            }
        }
    }
}

#[test]
fn the_method_is_read_in_any_case_and_written_in_upper_case() {
    let request = parse("get /x HTTP/1.1");
    assert_eq!(request.method(), HttpMethod::GET);
    assert_eq!(request.to_string(), "GET /x HTTP/1.1\r\n\r\n");
}

#[test]
fn put_is_a_method_and_update_is_not() {
    assert_eq!(parse("PUT /x HTTP/1.1").method(), HttpMethod::PUT);
    assert_eq!(rejection(b"UPDATE /x HTTP/1.1"), "Method Not allowed");
}

#[test]
fn the_path_keeps_its_query_string() {
    let request = parse("GET /search?q=a+b&lang=en#frag HTTP/1.1\r\nHost: x");
    assert_eq!(request.path(), "/search?q=a+b&lang=en#frag");
}

#[test]
fn bytes_that_are_not_utf8_are_rejected_first() {
    assert_eq!(rejection(&[0xff]), "Invalid UTF-8 Sequence in headers");
    assert_eq!(rejection(b"GET /\xc3 HTTP/1.1"), "Invalid UTF-8 Sequence in headers");
    assert_eq!(rejection(b"GARBAGE\r\nX: \xff"), "Invalid UTF-8 Sequence in headers");
    assert_eq!(rejection(&[0xc0, 0x80]), "Invalid UTF-8 Sequence in headers");
    assert_eq!(rejection(&[0xed, 0xa0, 0x80]), "Invalid UTF-8 Sequence in headers");
}

#[test]
fn an_unknown_method_is_rejected() {
    assert_eq!(rejection(b"GARBAGE"), "Method Not allowed");
    assert_eq!(rejection(b"GARBAGE\r\n\r\n"), "Method Not allowed");
    assert_eq!(rejection(b""), "Method Not allowed");
    assert_eq!(rejection(b" GET / HTTP/1.1"), "Method Not allowed");
    assert_eq!(rejection(b"PATCH / HTTP/1.1"), "Method Not allowed");
    assert_eq!(rejection(b"\r\nGET / HTTP/1.1"), "Method Not allowed");
}

#[test]
fn a_missing_path_is_rejected() {
    assert_eq!(rejection(b"GET"), "Invalid Path");
    assert_eq!(rejection(b"GET\r\nHost: x"), "Invalid Path");
    assert_eq!(rejection(b"POST\r\n\r\n"), "Invalid Path");
}

#[test]
fn a_missing_version_is_rejected() {
    assert_eq!(rejection(b"GET /x"), "Invalid HTTP Version");
    assert_eq!(rejection(b"GET /x\r\nHost: x"), "Invalid HTTP Version");
    assert_eq!(rejection(b"GET "), "Invalid HTTP Version");
}

#[test]
fn an_unknown_version_falls_back_to_the_default() {
    assert_eq!(parse("GET /x HTTP/2.0").version(), HttpVersion::Http1_1);
    assert_eq!(parse("GET /x FOO").version(), HttpVersion::Http1_1);
    assert_eq!(parse("GET /x ").version(), HttpVersion::Http1_1);
    assert_eq!(parse("GET /x x").version(), HttpVersion::Http1_1);
    assert_eq!(parse("GET /x \u{e9}").version(), HttpVersion::Http1_1);
    assert_eq!(parse("GET /x 1.0").version(), HttpVersion::Http1_0);
}

#[test]
fn tokens_are_parted_by_single_spaces() {
    let request = parse("GET  HTTP/1.1");
    assert_eq!(request.path(), "");
    assert_eq!(request.version(), HttpVersion::Http1_1);
    let request = parse("GET /a b c");
    assert_eq!(request.path(), "/a");
    assert_eq!(request.version(), HttpVersion::Http1_1);
    let request = parse("GET /a HTTP/1.0 trailing");
    assert_eq!(request.version(), HttpVersion::Http1_0);
    let request = parse("GET /a  HTTP/1.0");
    assert_eq!(request.path(), "/a");
    assert_eq!(request.version(), HttpVersion::Http1_1);
}

#[test]
fn headers_keep_wire_order_and_duplicates() {
    let request = parse("GET / HTTP/1.1\r\nB: 1\r\nA: 2\r\nB: 3");
    assert_eq!(header_pairs(&request), owned(&[("B", "1"), ("A", "2"), ("B", "3")]));
}

#[test]
fn lines_without_separator_are_dropped() {
    let request = parse("GET / HTTP/1.1\r\nHost: x\r\nbroken\r\nKey:value\r\nA: b: c\r\n");
    assert_eq!(header_pairs(&request), owned(&[("Host", "x"), ("A", "b: c")]));
}

#[test]
fn get_header_gives_the_first_match_letter_for_letter() {
    let request = parse("GET / HTTP/1.1\r\nX: 1\r\nx: 2\r\nX: 3");
    assert_eq!(request.get_header("X").unwrap().value, "1");
    assert_eq!(request.get_header("x").unwrap().value, "2");
    assert!(request.get_header("Y").is_none());
    assert!(request.get_header("").is_none());
}

#[test]
fn content_length_is_read_when_it_is_a_number() {
    assert_eq!(parse("POST / HTTP/1.1\r\nContent-Length: 5").get_content_length(), Some(5));
    assert_eq!(parse("POST / HTTP/1.1\r\nContent-Length: 0").get_content_length(), Some(0));
    assert_eq!(parse("POST / HTTP/1.1\r\nContent-Length: +12").get_content_length(), Some(12));
    assert_eq!(
        parse("POST / HTTP/1.1\r\nContent-Length: 18446744073709551615").get_content_length(),
        "18446744073709551615".parse::<usize>().ok()
    );
}

#[test]
fn content_length_is_absent_when_it_is_no_number() {
    assert_eq!(parse("POST / HTTP/1.1").get_content_length(), None);
    assert_eq!(parse("POST / HTTP/1.1\r\nContent-Length: abc").get_content_length(), None);
    assert_eq!(parse("POST / HTTP/1.1\r\nContent-Length: -1").get_content_length(), None);
    assert_eq!(parse("POST / HTTP/1.1\r\nContent-Length: ").get_content_length(), None);
    assert_eq!(parse("POST / HTTP/1.1\r\nContent-Length: 5 ").get_content_length(), None);
    assert_eq!(parse("POST / HTTP/1.1\r\ncontent-length: 5").get_content_length(), None);
    assert_eq!(
        parse("POST / HTTP/1.1\r\nContent-Length: 99999999999999999999999").get_content_length(),
        None
    );
}

#[test]
fn only_the_first_content_length_counts() {
    let request = parse("POST / HTTP/1.1\r\nContent-Length: x\r\nContent-Length: 5");
    assert_eq!(request.get_content_length(), None);
    let request = parse("POST / HTTP/1.1\r\nContent-Length: 3\r\nContent-Length: 5");
    assert_eq!(request.get_content_length(), Some(3));
}

#[test]
fn content_type_is_the_value_of_the_first_such_header() {
    let request = parse("POST / HTTP/1.1\r\nContent-Type: text/html\r\nContent-Type: b");
    assert_eq!(request.get_content_type(), Some("text/html".to_string()));
    assert_eq!(parse("POST / HTTP/1.1").get_content_type(), None);
}

#[test]
fn keep_alive_is_asked_for_with_the_exact_value() {
    assert!(parse("GET / HTTP/1.1\r\nConnection: keep-alive").keep_alive());
    assert!(!parse("GET / HTTP/1.1\r\nConnection: Keep-Alive").keep_alive());
    assert!(!parse("GET / HTTP/1.1\r\nConnection: close").keep_alive());
    assert!(!parse("GET / HTTP/1.1\r\nConnection: keep-alive ").keep_alive());
    assert!(!parse("GET / HTTP/1.1\r\nconnection: keep-alive").keep_alive());
    assert!(!parse("GET / HTTP/1.1").keep_alive());
    assert!(!parse("GET / HTTP/1.1\r\nConnection: close\r\nConnection: keep-alive").keep_alive());
}

#[test]
fn set_body_attaches_and_replaces_the_body() {
    let mut request = parse("POST / HTTP/1.1\r\nContent-Length: 5");
    request.set_body(HttpBody::new(b"hello".to_vec()));
    assert_eq!(request.body().unwrap().as_bytes(), b"hello".to_vec());
    assert_eq!(request.path(), "/");
    assert_eq!(request.method(), HttpMethod::POST);
    assert_eq!(header_pairs(&request), owned(&[("Content-Length", "5")]));
    request.set_body(HttpBody::new(Vec::new()));
    assert_eq!(request.body().unwrap().len(), 0);
}

#[test]
fn a_request_is_written_with_its_headers_and_body() {
    let mut request = parse("POST /x HTTP/1.0\r\nHost: x\r\nContent-Length: 5");
    assert_eq!(request.to_string(), "POST /x HTTP/1.0\r\nHost: x\r\nContent-Length: 5\r\n\r\n");
    request.set_body(HttpBody::new(b"hello".to_vec()));
    assert_eq!(
        request.to_string(),
        "POST /x HTTP/1.0\r\nHost: x\r\nContent-Length: 5\r\n\r\nhello"
    );
}

#[test]
fn a_body_that_is_no_text_is_shown_by_its_content_type() {
    let mut request = parse("POST /x HTTP/1.1\r\nContent-Type: image/png");
    request.set_body(HttpBody::new(vec![0x89, 0x50, 0xff]));
    assert_eq!(
        request.to_string(),
        "POST /x HTTP/1.1\r\nContent-Type: image/png\r\n\r\nSome(\"image/png\")"
    );
    let mut request = parse("POST /x HTTP/1.1");
    request.set_body(HttpBody::new(vec![0xff]));
    assert_eq!(request.to_string(), "POST /x HTTP/1.1\r\n\r\nNone");
}

#[test]
fn a_cloned_request_keeps_everything() {
    let mut request = parse("POST /x HTTP/1.0\r\nA: 1\r\nB: 2");
    request.set_body(HttpBody::new(b"abc".to_vec()));
    let copy = request.clone();
    assert_eq!(copy.to_string(), request.to_string());
    assert_eq!(copy.method(), HttpMethod::POST);
    assert_eq!(copy.version(), HttpVersion::Http1_0);
    assert_eq!(copy.body().unwrap().as_bytes(), b"abc".to_vec());
}

#[test]
fn cookies_are_read_from_the_headers_named_cookie() {
    let request =
        parse("GET / HTTP/1.1\r\nCookie: a=1\r\nHost: x\r\nCookie: b=2; Secure=\r\ncookie: c=3");
    let cookies = request.get_cookies();
    let pairs: Vec<(&str, &str)> = cookies.iter().map(|c| (c.name(), c.value())).collect();
    assert_eq!(pairs, vec![("a", "1"), ("b", "2")]);
    assert!(parse("GET / HTTP/1.1\r\nHost: x").get_cookies().is_empty());
}

#[test]
fn get_cookie_gives_the_first_cookie_of_that_name() {
    let request = parse("GET / HTTP/1.1\r\nCookie: a=1\r\nCookie: b=2\r\nCookie: a=3");
    assert_eq!(request.get_cookie("a".to_string()).unwrap().value(), "1");
    assert_eq!(request.get_cookie("b".to_string()).unwrap().value(), "2");
    assert!(request.get_cookie("c".to_string()).is_none());
    assert!(request.get_cookie("A".to_string()).is_none());
}

#[test]
fn the_head_of_a_request_is_written_without_its_body() {
    let mut request = parse("POST /x HTTP/1.0\r\nHost: x\r\nContent-Length: 5");
    let head = "POST /x HTTP/1.0\r\nHost: x\r\nContent-Length: 5\r\n\r\n";
    assert_eq!(request.head_to_string(), head);
    request.set_body(HttpBody::new(vec![0xff, 0xfe]));
    assert_eq!(request.head_to_string(), head);
    assert_eq!(parse("HEAD / HTTP/1.1").head_to_string(), "HEAD / HTTP/1.1\r\n\r\n");
}

#[test]
fn the_method_token_is_read_by_the_rules_of_unicode() {
    let request = parse("po\u{17f}t /x HTTP/1.1");
    assert_eq!(request.method(), HttpMethod::POST);
    assert_eq!(request.to_string(), "POST /x HTTP/1.1\r\n\r\n");
    assert_eq!(rejection("\u{ff27}\u{ff25}\u{ff34} /x HTTP/1.1".as_bytes()), "Method Not allowed");
}

#[test]
fn a_head_can_be_read_with_its_method_given_in_upper_case() {
    let read = |head: &str, upper: &str| {
        HttpRequest::with_method_text(head.as_bytes().to_vec(), upper)
    };
    let request = read("anything /x HTTP/1.0\r\nHost: y", "DELETE").unwrap();
    assert_eq!(request.method(), HttpMethod::DELETE);
    assert_eq!(request.path(), "/x");
    assert_eq!(request.version(), HttpVersion::Http1_0);
    assert_eq!(header_pairs(&request), owned(&[("Host", "y")]));
    assert!(request.body().is_none());

    let message = |result: Result<HttpRequest, HttpError>| match result {
        Err(HttpError::BadRequest { message }) => message,
        other => panic!("unexpected result: {:?}", other),
    };
    assert_eq!(message(read("GET /x HTTP/1.1", "get")), "Method Not allowed");
    assert_eq!(message(read("GET /x HTTP/1.1", "")), "Method Not allowed");
    assert_eq!(message(read("GET", "GET")), "Invalid Path");
    assert_eq!(message(read("GET /x", "GET")), "Invalid HTTP Version");
    let broken = HttpRequest::with_method_text(vec![0xff], "GET");
    assert_eq!(message(broken), "Invalid UTF-8 Sequence in headers");
}

#[test]
fn reading_with_the_upper_case_token_agrees_with_reading_the_head() {
    for head in ["get /a HTTP/1.1\r\nA: b", "Head / x", "nope / x", "put", "pOSt /p?q HTTP/1.0"] {
        let token = head.split("\r\n").next().unwrap().split(' ').next().unwrap();
        let direct = HttpRequest::new(head.as_bytes().to_vec());
        let given = HttpRequest::with_method_text(head.as_bytes().to_vec(), &token.to_uppercase());
        match (direct, given) {
            (Ok(a), Ok(b)) => assert_eq!(a.to_string(), b.to_string()),
            (Err(a), Err(b)) => assert_eq!(a.to_string(), b.to_string()),
            (a, b) => panic!("{:?} and {:?} differ", a, b),
        }
    }
}
