use http_message::err::{HttpError, HttpErrorKind};
use http_message::http_param::HttpParamValue;
use http_message::http_request::{classify_value, HttpMethod, HttpRequest};
use http_message::str_map::StrMap;

#[test]
fn map_starts_empty() {
    let m: StrMap<u32> = StrMap::new();
    assert_eq!(m.len(), 0);
    assert!(m.is_empty());
    assert_eq!(m.get("a"), None);
    assert!(!m.contains_key("a"));
}

#[test]
fn map_insert_and_get() {
    let mut m: StrMap<u32> = StrMap::new();
    m.insert("a".to_string(), 1);
    m.insert("b".to_string(), 2);
    assert_eq!(m.len(), 2);
    assert!(!m.is_empty());
    assert_eq!(m.get("a"), Some(&1));
    assert_eq!(m.get("b"), Some(&2));
    assert_eq!(m.get("c"), None);
    assert!(m.contains_key("b"));
    assert!(!m.contains_key("B"));
}

#[test]
fn map_insert_replaces_in_place() {
    let mut m: StrMap<u32> = StrMap::new();
    m.insert("a".to_string(), 1);
    m.insert("b".to_string(), 2);
    m.insert("a".to_string(), 3);
    assert_eq!(m.len(), 2);
    assert_eq!(m.key_at(0), "a");
    assert_eq!(*m.value_at(0), 3);
    assert_eq!(m.key_at(1), "b");
    assert_eq!(*m.value_at(1), 2);
    assert_eq!(m.into_items(), vec![("a".to_string(), 3), ("b".to_string(), 2)]);
}

#[test]
fn map_keys_are_compared_exactly() {
    let mut m: StrMap<u32> = StrMap::new();
    m.insert("".to_string(), 0);
    m.insert("k".to_string(), 1);
    m.insert("k ".to_string(), 2);
    assert_eq!(m.len(), 3);
    assert_eq!(m.get(""), Some(&0));
    assert_eq!(m.get("k "), Some(&2));
}

#[test]
fn new_request_is_empty() {
    let request = HttpRequest::new();
    assert_eq!(request.method, HttpMethod::Get);
    assert_eq!(request.uri, "");
    assert_eq!(request.body, "");
    assert_eq!(request.headers.len(), 0);
    assert_eq!(request.params.len(), 0);
    assert!(request.files.is_empty());
}

#[test]
fn get_param_returns_singular_values() {
    let mut request = HttpRequest::new();
    request.params.insert("id".to_string(), HttpParamValue::Singular("42".to_string()));
    request.params.insert(
        "tags".to_string(),
        HttpParamValue::List(vec!["a".to_string(), "b".to_string()]),
    );
    assert_eq!(request.get_param("id").unwrap(), "42");
    let e = request.get_param("tags").unwrap_err();
    assert_eq!(e.kind, HttpErrorKind::ParamNotSingular);
    assert_eq!(e.msg.as_deref(), Some("tags"));
    let e = request.get_param("none").unwrap_err();
    assert_eq!(e.kind, HttpErrorKind::MissingParam);
    assert_eq!(e.msg.as_deref(), Some("none"));
}

#[test]
fn classify_value_splits_at_commas() {
    assert_eq!(classify_value("v1"), HttpParamValue::Singular("v1".to_string()));
    assert_eq!(classify_value(""), HttpParamValue::Singular("".to_string()));
    assert_eq!(
        classify_value("a,b,c"),
        HttpParamValue::List(vec!["a".to_string(), "b".to_string(), "c".to_string()])
    );
    assert_eq!(classify_value(","), HttpParamValue::List(vec!["".to_string(), "".to_string()]));
}

#[test]
fn errors_and_their_text() {
    let e = HttpError::new();
    assert_eq!(e.kind, HttpErrorKind::Other);
    assert_eq!(e.msg, None);
    assert_eq!(e.to_string(), "HttpError {}");
    let e = HttpError::from_str("boom");
    assert_eq!(e.kind, HttpErrorKind::Other);
    assert_eq!(e.msg.as_deref(), Some("boom"));
    assert_eq!(e.to_string(), "HttpError {\n\tmsg: boom\n}");
    let e = HttpError::of_kind(HttpErrorKind::IoFailure);
    assert_eq!(e.kind, HttpErrorKind::IoFailure);
    assert_eq!(e.msg, None);
    let e = HttpError::about(HttpErrorKind::MalformedHeader, "line".to_string());
    assert_eq!(e.kind, HttpErrorKind::MalformedHeader);
    assert_eq!(e.to_string(), "HttpError {\n\tmsg: line\n}");
}
