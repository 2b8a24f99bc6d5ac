use http_message::http_response::{HttpBody, HttpResponse, HttpStatus};
use http_message::json::{Json, JsonArr, JsonObj};
use http_message::str_map::StrMap;

fn wire(response: &HttpResponse) -> Vec<u8> {
    let mut out = Vec::new();
    response.write(&mut out);
    out
}

#[test]
fn status_codes_and_names() {
    assert_eq!(HttpStatus::Okay.code(), "200");
    assert_eq!(HttpStatus::Okay.name(), "OK");
    assert_eq!(HttpStatus::NotFound.values(), ("404", "NOT_FOUND"));
    assert_eq!(HttpStatus::InternalSystemError.values(), ("500", "INTERNAL_SYSTEM_ERROR"));
    assert_eq!(HttpStatus::BadRequest.values(), ("400", "BAD_REQUEST"));
}

#[test]
fn response_without_body() {
    let response = HttpResponse::ok();
    assert_eq!(response.get_status(), HttpStatus::Okay);
    assert_eq!(response.content_len(), 0);
    assert_eq!(response.header("Content-Length").map(|s| s.as_str()), Some("0"));
    assert_eq!(response.gen_first_line(), "HTTP/1.1 200 OK\r\n");
    assert_eq!(response.gen_headers(), "Content-Length: 0\r\n");
    assert_eq!(wire(&response), b"HTTP/1.1 200 OK\r\nContent-Length: 0\r\n");
}

#[test]
fn response_with_body() {
    let response = HttpResponse::ok_from(b"hello world!".to_vec());
    assert_eq!(response.content(), b"hello world!");
    assert_eq!(response.content_len(), 12);
    assert_eq!(
        wire(&response),
        b"HTTP/1.1 200 OK\r\nContent-Length: 12\r\n\r\nhello world!"
    );
}

#[test]
fn response_constructors_set_the_status() {
    assert_eq!(HttpResponse::not_found().get_status(), HttpStatus::NotFound);
    assert_eq!(HttpResponse::not_found_from(vec![1]).get_status(), HttpStatus::NotFound);
    assert_eq!(HttpResponse::err().get_status(), HttpStatus::InternalSystemError);
    assert_eq!(HttpResponse::err_from(vec![1]).get_status(), HttpStatus::InternalSystemError);
    assert_eq!(HttpResponse::bad().get_status(), HttpStatus::BadRequest);
    assert_eq!(HttpResponse::bad_from(vec![1, 2]).get_status(), HttpStatus::BadRequest);
    assert_eq!(HttpResponse::new(HttpStatus::Okay, vec![7]).content(), &vec![7]);
    assert_eq!(wire(&HttpResponse::bad()), b"HTTP/1.1 400 BAD_REQUEST\r\nContent-Length: 0\r\n");
    assert_eq!(
        wire(&HttpResponse::err_from(b"x".to_vec())),
        b"HTTP/1.1 500 INTERNAL_SYSTEM_ERROR\r\nContent-Length: 1\r\n\r\nx"
    );
    assert_eq!(
        wire(&HttpResponse::not_found_from(b"no".to_vec())),
        b"HTTP/1.1 404 NOT_FOUND\r\nContent-Length: 2\r\n\r\nno"
    );
}

#[test]
fn response_keeps_given_headers_in_order() {
    let mut headers = StrMap::new();
    headers.insert("Content-Type".to_string(), "text/plain".to_string());
    headers.insert("X-A".to_string(), "1".to_string());
    let response = HttpResponse::new_with_headers(HttpStatus::Okay, headers, b"abc".to_vec());
    assert_eq!(response.gen_headers(), "Content-Type: text/plain\r\nX-A: 1\r\nContent-Length: 3\r\n");
    assert_eq!(response.header("X-A").map(|s| s.as_str()), Some("1"));
    assert_eq!(response.header("X-B"), None);
}

#[test]
fn response_overwrites_a_given_length() {
    let mut headers = StrMap::new();
    headers.insert("Content-Length".to_string(), "999".to_string());
    headers.insert("X-A".to_string(), "1".to_string());
    let response = HttpResponse::new_with_headers(HttpStatus::Okay, headers, b"abcd".to_vec());
    assert_eq!(response.gen_headers(), "Content-Length: 4\r\nX-A: 1\r\n");
}

#[test]
fn write_appends_to_the_sink() {
    let mut out = b"before".to_vec();
    HttpResponse::ok().write(&mut out);
    assert_eq!(out, b"beforeHTTP/1.1 200 OK\r\nContent-Length: 0\r\n");
}

#[test]
fn body_as_bytes() {
    assert_eq!(HttpBody::Text("h\u{e9}".to_string()).into_bytes(), "h\u{e9}".as_bytes());
    assert_eq!(HttpBody::Bytes(vec![0, 255]).into_bytes(), vec![0, 255]);
}

#[test]
fn json_scalars() {
    assert_eq!(Json::Num(0).to_string(), "0");
    assert_eq!(Json::Num(-17).to_string(), "-17");
    assert_eq!(Json::Num(i64::MIN).to_string(), "-9223372036854775808");
    assert_eq!(Json::Str("hi".to_string()).to_string(), "\"hi\"");
    assert_eq!(Json::Str(String::new()).to_string(), "\"\"");
}

#[test]
fn json_arrays_and_objects() {
    assert_eq!(Json::Arr(vec![]).to_string(), "[]");
    assert_eq!(Json::Obj(vec![]).to_string(), "{}");
    assert_eq!(Json::Arr(vec![Json::Num(1), Json::Str("a".to_string())]).to_string(), "[1,\"a\"]");
    let nested = Json::Obj(vec![
        ("a".to_string(), Json::Num(1)),
        ("b".to_string(), Json::Arr(vec![Json::Obj(vec![]), Json::Arr(vec![Json::Num(2)])])),
        ("c".to_string(), Json::Obj(vec![("d".to_string(), Json::Str("e".to_string()))])),
    ]);
    assert_eq!(nested.to_string(), "{\"a\":1,\"b\":[{},[2]],\"c\":{\"d\":\"e\"}}");
    assert_eq!(nested.to_bytes(), nested.to_string().into_bytes());
}

#[test]
fn json_object_builder() {
    let mut o = JsonObj::new();
    assert_eq!(o.to_string(), "{}");
    o.push("name", Json::Str("x".to_string()));
    o.push("n", Json::Num(3));
    assert_eq!(o.to_string(), "{\"name\":\"x\",\"n\":3}");
    o.push("name", Json::Num(0));
    assert_eq!(o.to_string(), "{\"name\":0,\"n\":3}");
    assert_eq!(o.to_bytes(), b"{\"name\":0,\"n\":3}");
    assert_eq!(o.into_json().to_string(), "{\"name\":0,\"n\":3}");
}

#[test]
fn json_array_of_objects() {
    assert_eq!(JsonArr::new().to_string(), "[]");
    let mut a = JsonObj::new();
    a.push("k", Json::Num(1));
    let b = JsonObj::new();
    let arr = JsonArr { items: vec![a, b] };
    assert_eq!(arr.to_string(), "[{\"k\":1},{}]");
    assert_eq!(arr.to_bytes(), b"[{\"k\":1},{}]");
}

#[test]
fn json_as_response_body() {
    let mut o = JsonObj::new();
    o.push("ok", Json::Num(1));
    let response = HttpResponse::ok_from(o.to_bytes());
    assert_eq!(wire(&response), b"HTTP/1.1 200 OK\r\nContent-Length: 8\r\n\r\n{\"ok\":1}");
}

#[test]
fn json_conversions_and_clones() {
    let mut o = JsonObj::new();
    o.push("k", Json::Arr(vec![Json::Num(1), Json::Str("s".to_string())]));
    let copy = o.clone();
    assert_eq!(copy.to_string(), o.to_string());
    let value: Json = Json::from(o);
    assert_eq!(value.to_string(), "{\"k\":[1,\"s\"]}");
    assert_eq!(value.clone().to_string(), value.to_string());
    let arr: Json = Json::from(vec![Json::Num(1), value]);
    assert_eq!(arr.to_string(), "[1,{\"k\":[1,\"s\"]}]");
    let objects = JsonArr::from(vec![copy, JsonObj::new()]);
    assert_eq!(objects.clone().to_string(), "[{\"k\":[1,\"s\"]},{}]");
}
