use http_decode::method::Method;
use http_decode::query_string::{QueryString, Value};
use http_decode::request::{ParseError, Request};
use http_decode::text::{find_char, get_next_word, same_text};

fn single(q: &QueryString, key: &str) -> Option<String> {
    match q.get(key) {
        Some(Value::Single(s)) => Some(s.to_string()),
        _ => None,
    }
}

fn multiple(q: &QueryString, key: &str) -> Option<Vec<String>> {
    match q.get(key) {
        Some(Value::Multiple(v)) => Some(v.iter().map(|s| s.to_string()).collect()),
        _ => None,
    }
}

fn error_of(buf: &[u8]) -> ParseError {
    match Request::try_from(buf) {
        Ok(r) => panic!("decoded unexpectedly: {:?}", r),
        Err(e) => e,
    }
}

#[test]
fn root_request_has_no_query() {
    let buf = b"GET / HTTP/1.1\r\n";
    let r = Request::try_from(&buf[..]).expect("decodes");
    assert_eq!(*r.method(), Method::GET);
    assert_eq!(r.path(), "/");
    assert!(r.query_string().is_none());
}

#[test]
fn search_request_with_query() {
    let buf = b"GET /search?name=abc&sort=1 HTTP/1.1\r\n";
    let r = Request::try_from(&buf[..]).expect("decodes");
    assert_eq!(r.path(), "/search");
    let q = r.query_string().expect("has a query");
    assert_eq!(single(q, "name").as_deref(), Some("abc"));
    assert_eq!(single(q, "sort").as_deref(), Some("1"));
    assert!(q.get("missing").is_none());
}

#[test]
fn well_formed_lines_decode_to_their_path() {
    let cases: [(&[u8], Method, &str); 5] = [
        (b"POST /submit HTTP/1.1\r\nHost: x\r\n\r\nbody", Method::POST, "/submit"),
        (b"DELETE /items/7?force=1 HTTP/1.1\r\n", Method::DELETE, "/items/7"),
        (b"PUT /a?b HTTP/1.1\r\n", Method::PUT, "/a"),
        (b"OPTIONS * HTTP/1.1\r\n", Method::OPTIONS, "*"),
        (b"PATCH /x? HTTP/1.1\r", Method::PATCH, "/x"),
    ];
    for (buf, method, path) in cases {
        let r = Request::try_from(buf).expect("decodes");
        assert_eq!(*r.method(), method);
        assert_eq!(r.path(), path);
    }
}

#[test]
fn empty_query_after_question_mark() {
    let r = Request::try_from(&b"GET /x? HTTP/1.1\r\n"[..]).expect("decodes");
    let q = r.query_string().expect("has a query");
    assert_eq!(single(q, "").as_deref(), Some(""));
}

#[test]
fn repeated_key_accumulates_in_documented_order() {
    let q = QueryString::from("a=1&a=2&a=3");
    assert_eq!(
        multiple(&q, "a"),
        Some(vec!["2".to_string(), "1".to_string(), "3".to_string()])
    );
}

#[test]
fn key_seen_twice_puts_newer_value_first() {
    let q = QueryString::from("k=old&k=new");
    assert_eq!(multiple(&q, "k"), Some(vec!["new".to_string(), "old".to_string()]));
}

#[test]
fn four_occurrences_append_after_the_second() {
    let q = QueryString::from("a=1&b=x&a=2&a=3&a=4");
    assert_eq!(
        multiple(&q, "a"),
        Some(vec!["2".to_string(), "1".to_string(), "3".to_string(), "4".to_string()])
    );
    assert_eq!(single(&q, "b").as_deref(), Some("x"));
}

#[test]
fn segment_without_equals_has_empty_value() {
    let q = QueryString::from("flag");
    assert_eq!(single(&q, "flag").as_deref(), Some(""));
}

#[test]
fn value_keeps_later_equals_signs() {
    let q = QueryString::from("k=v=w&e=");
    assert_eq!(single(&q, "k").as_deref(), Some("v=w"));
    assert_eq!(single(&q, "e").as_deref(), Some(""));
}

#[test]
fn empty_segments_become_empty_key() {
    let q = QueryString::from("a=1&&b=2");
    assert_eq!(single(&q, "").as_deref(), Some(""));
    assert_eq!(single(&q, "a").as_deref(), Some("1"));
    assert_eq!(single(&q, "b").as_deref(), Some("2"));
    let e = QueryString::from("");
    assert_eq!(single(&e, "").as_deref(), Some(""));
}

#[test]
fn too_few_tokens_is_invalid_request() {
    assert_eq!(error_of(b""), ParseError::InvalidRequest);
    assert_eq!(error_of(b"GET"), ParseError::InvalidRequest);
    assert_eq!(error_of(b"GET /"), ParseError::InvalidRequest);
    assert_eq!(error_of(b"GET / HTTP/1.1"), ParseError::InvalidRequest);
    assert_eq!(error_of(b"GET /\r\n"), ParseError::InvalidRequest);
}

#[test]
fn other_protocol_is_invalid_protocol() {
    assert_eq!(error_of(b"GET / HTTP/1.0\r\n"), ParseError::InvalidProtocol);
    assert_eq!(error_of(b"GET / HTTP/1.11\r\n"), ParseError::InvalidProtocol);
    assert_eq!(error_of(b"GET / http/1.1\r\n"), ParseError::InvalidProtocol);
}

#[test]
fn invalid_utf8_is_invalid_encoding() {
    assert_eq!(error_of(&[0x47, 0x45, 0x54, 0x20, 0xff, 0x20]), ParseError::InvalidEncoding);
    assert_eq!(error_of(&[0xc3]), ParseError::InvalidEncoding);
}

#[test]
fn unknown_verb_is_invalid_method() {
    assert_eq!(error_of(b"FETCH / HTTP/1.1\r\n"), ParseError::InvalidMethod);
    assert_eq!(error_of(b"get / HTTP/1.1\r\n"), ParseError::InvalidMethod);
}

#[test]
fn protocol_is_checked_before_method() {
    assert_eq!(error_of(b"FETCH / HTTP/2\r\n"), ParseError::InvalidProtocol);
}

#[test]
fn multibyte_text_is_decoded() {
    let buf = "GET /caf\u{e9}?n=\u{fc} HTTP/1.1\r\n".as_bytes();
    let r = Request::try_from(buf).expect("decodes");
    assert_eq!(r.path(), "/caf\u{e9}");
    let q = r.query_string().expect("has a query");
    assert_eq!(single(q, "n").as_deref(), Some("\u{fc}"));
}

#[test]
fn decoding_twice_gives_equal_results() {
    let buf = b"GET /search?a=1&a=2&b HTTP/1.1\r\n";
    let r1 = Request::try_from(&buf[..]).expect("decodes");
    let r2 = Request::try_from(&buf[..]).expect("decodes");
    assert_eq!(format!("{:?}", r1), format!("{:?}", r2));
    assert_eq!(r1.path(), r2.path());
    assert_eq!(r1.method(), r2.method());
    let bad = b"GET / HTTP/1.0\r\n";
    assert_eq!(error_of(bad), error_of(bad));
}

#[test]
fn error_messages_are_kind_names() {
    assert_eq!(ParseError::InvalidRequest.message(), "InvalidRequest");
    assert_eq!(ParseError::InvalidEncoding.message(), "InvalidEncoding");
    assert_eq!(ParseError::InvalidProtocol.message(), "InvalidProtocol");
    assert_eq!(ParseError::InvalidMethod.message(), "InvalidMethod");
}

#[test]
fn next_word_splits_at_space_or_carriage_return() {
    assert_eq!(get_next_word("GET / HTTP/1.1"), Some(("GET", "/ HTTP/1.1")));
    assert_eq!(get_next_word("HTTP/1.1\r\nHost"), Some(("HTTP/1.1", "\nHost")));
    assert_eq!(get_next_word(" x"), Some(("", "x")));
    assert_eq!(get_next_word("nodelimiter"), None);
    assert_eq!(get_next_word(""), None);
}

#[test]
fn text_helpers() {
    assert_eq!(find_char("a?b?c", '?', 0), Some(1));
    assert_eq!(find_char("a?b?c", '?', 2), Some(3));
    assert_eq!(find_char("abc", '?', 0), None);
    assert!(same_text("HTTP/1.1", "HTTP/1.1"));
    assert!(!same_text("HTTP/1.1", "HTTP/1.0"));
    assert!(!same_text("HTTP/1.1", "HTTP/1.1 "));
}

#[test]
fn method_classification() {
    assert_eq!(Method::from_str("GET"), Ok(Method::GET));
    assert_eq!(Method::from_str("HEAD"), Ok(Method::HEAD));
    assert_eq!(Method::from_str("CONNECT"), Ok(Method::CONNECT));
    assert_eq!(Method::from_str("TRACE"), Ok(Method::TRACE));
    assert!(Method::from_str("GETX").is_err());
    assert!(Method::from_str("").is_err());
}
