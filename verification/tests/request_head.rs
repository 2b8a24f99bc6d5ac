use http_message::err::HttpErrorKind;
use http_message::http_param::HttpParamValue;
use http_message::http_request::{parse_complex_params, parse_heading, parse_params, HttpMethod};

fn list(items: &[&str]) -> HttpParamValue {
    HttpParamValue::List(items.iter().map(|s| s.to_string()).collect())
}

fn single(item: &str) -> HttpParamValue {
    HttpParamValue::Singular(item.to_string())
}

#[test]
fn params_singular_and_list() {
    let params = parse_complex_params("/search?k1=v1&k2=a,b,c");
    assert_eq!(params.len(), 2);
    assert_eq!(params.get("k1"), Some(&single("v1")));
    assert_eq!(params.get("k2"), Some(&list(&["a", "b", "c"])));
}

#[test]
fn params_without_query_are_empty() {
    assert_eq!(parse_complex_params("/path").len(), 0);
    assert_eq!(parse_params("/path").len(), 0);
}

#[test]
fn params_of_empty_query_are_empty() {
    assert_eq!(parse_complex_params("/path?").len(), 0);
    assert_eq!(parse_params("/path?").len(), 0);
}

#[test]
fn params_take_the_last_question_mark() {
    let params = parse_params("/p?a=1?b=2");
    assert_eq!(params.len(), 1);
    assert_eq!(params.get("b").map(|s| s.as_str()), Some("2"));
}

#[test]
fn params_pair_without_equals_goes_under_empty_key() {
    let params = parse_params("/p?flag&x=1");
    assert_eq!(params.len(), 2);
    assert_eq!(params.get("").map(|s| s.as_str()), Some("flag"));
    assert_eq!(params.get("x").map(|s| s.as_str()), Some("1"));
}

#[test]
fn params_pair_with_several_equals_keeps_first_and_last() {
    let params = parse_params("/p?a=b=c=d");
    assert_eq!(params.len(), 1);
    assert_eq!(params.get("a").map(|s| s.as_str()), Some("d"));
}

#[test]
fn params_empty_values_are_never_inserted() {
    let params = parse_params("/p?a=1&a=&b=");
    assert_eq!(params.len(), 1);
    assert_eq!(params.get("a").map(|s| s.as_str()), Some("1"));
    assert!(!params.contains_key("b"));
}

#[test]
fn params_later_pair_wins() {
    let params = parse_params("/p?a=1&b=2&a=3");
    assert_eq!(params.len(), 2);
    assert_eq!(params.get("a").map(|s| s.as_str()), Some("3"));
    assert_eq!(params.key_at(0), "a");
    assert_eq!(params.key_at(1), "b");
}

#[test]
fn params_list_pieces_are_not_trimmed() {
    let params = parse_complex_params("/p?k= a,,b ");
    assert_eq!(params.get("k"), Some(&list(&[" a", "", "b "])));
}

#[test]
fn head_round_trip() {
    let request = parse_heading(b"GET /x?a=1 HTTP/1.1\r\nHost: h\r\n\r\n").unwrap();
    assert_eq!(request.method, HttpMethod::Get);
    assert_eq!(request.uri, "/x");
    assert_eq!(request.params.len(), 1);
    assert_eq!(request.params.get("a"), Some(&single("1")));
    assert_eq!(request.headers.len(), 1);
    assert_eq!(request.headers.get("Host").map(|s| s.as_str()), Some("h"));
    assert_eq!(request.body, "");
    assert!(request.files.is_empty());
}

#[test]
fn head_methods() {
    for (token, method) in [
        ("GET", HttpMethod::Get),
        ("POST", HttpMethod::Post),
        ("PUT", HttpMethod::Put),
        ("PATCH", HttpMethod::Patch),
        ("OPTION", HttpMethod::Option),
    ] {
        let head = format!("{token} / HTTP/1.1\r\n\r\n");
        assert_eq!(parse_heading(head.as_bytes()).unwrap().method, method);
    }
}

#[test]
fn head_rejects_unknown_method() {
    let e = parse_heading(b"OPTIONS / HTTP/1.1\r\n\r\n").unwrap_err();
    assert_eq!(e.kind, HttpErrorKind::UnsupportedMethod);
    assert_eq!(e.msg.as_deref(), Some("OPTIONS"));
    let e = parse_heading(b"get / HTTP/1.1\r\n\r\n").unwrap_err();
    assert_eq!(e.kind, HttpErrorKind::UnsupportedMethod);
    assert_eq!(e.msg.as_deref(), Some("get"));
}

#[test]
fn head_rejects_empty_request() {
    for head in [&b""[..], b"  \r\n\t", b"\0\0\0", b" \r\n\0\0 \n"] {
        let e = parse_heading(head).unwrap_err();
        assert_eq!(e.kind, HttpErrorKind::EmptyRequest);
        assert_eq!(e.msg, None);
    }
}

#[test]
fn head_nul_inside_whitespace_is_not_empty() {
    let e = parse_heading(b"\0 \0").unwrap_err();
    assert_eq!(e.kind, HttpErrorKind::UnsupportedMethod);
}

#[test]
fn head_rejects_malformed_header() {
    let e = parse_heading(b"GET / HTTP/1.1\r\nHost: h\r\nBadHeaderNoColon\r\n\r\n").unwrap_err();
    assert_eq!(e.kind, HttpErrorKind::MalformedHeader);
    assert_eq!(e.msg.as_deref(), Some("BadHeaderNoColon\r"));
}

#[test]
fn head_ignores_lines_after_the_blank_line() {
    let request = parse_heading(b"GET / HTTP/1.1\r\nA: 1\r\n\r\nBadHeaderNoColon").unwrap();
    assert_eq!(request.headers.len(), 1);
}

#[test]
fn head_rejects_start_line_without_target() {
    let e = parse_heading(b"GET\r\nHost: h\r\n\r\n").unwrap_err();
    assert_eq!(e.kind, HttpErrorKind::MalformedHeader);
    assert_eq!(e.msg.as_deref(), Some("GET\r"));
}

#[test]
fn head_rejects_bytes_that_are_not_utf8() {
    let e = parse_heading(b"GET /\xff HTTP/1.1\r\n\r\n").unwrap_err();
    assert_eq!(e.kind, HttpErrorKind::InvalidEncoding);
}

#[test]
fn head_headers_are_trimmed_and_later_wins() {
    let request =
        parse_heading(b"POST /a/b HTTP/1.1\r\n  Key :   v1  \r\nKey : v2: x\r\nkey: v3\r\n\r\n")
            .unwrap();
    assert_eq!(request.method, HttpMethod::Post);
    assert_eq!(request.uri, "/a/b");
    assert_eq!(request.headers.len(), 2);
    assert_eq!(request.headers.get("Key").map(|s| s.as_str()), Some("v2: x"));
    assert_eq!(request.headers.get("Key ").map(|s| s.as_str()), None);
    assert_eq!(request.headers.get("key").map(|s| s.as_str()), Some("v3"));
}

#[test]
fn head_header_name_keeps_inner_text() {
    let request = parse_heading(b"GET / HTTP/1.1\r\nA: 1\r\nA: 2: 3\r\n\r\n").unwrap();
    assert_eq!(request.headers.len(), 1);
    assert_eq!(request.headers.get("A").map(|s| s.as_str()), Some("2: 3"));
}

#[test]
fn head_uri_is_cut_at_the_first_question_mark() {
    let request = parse_heading(b"GET /p?a=1?b=2 HTTP/1.1\r\n\r\n").unwrap();
    assert_eq!(request.uri, "/p");
    assert!(!request.uri.contains('?'));
    assert_eq!(request.params.len(), 1);
    assert_eq!(request.params.get("b"), Some(&single("2")));
}

#[test]
fn head_trims_unicode_whitespace_like_std() {
    let request = parse_heading("GET / HTTP/1.1\r\nA: \u{a0}v\u{3000}\r\n\r\n".as_bytes()).unwrap();
    assert_eq!(request.headers.get("A").map(|s| s.as_str()), Some("v"));
}
