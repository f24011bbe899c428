use luakit::http::{
    append_capped, merge_request_cookie, multipart_form, multipart_text, parse_header_pairs,
    parse_http_version, request_cookie_update, response_headers, HttpError, HttpVersion,
};
use luakit::json::{FloatRepr, ScriptValue};
use reqwest::header::{self, HeaderName, HeaderValue};

#[test]
fn multipart_accepts_scalar_lua_fields() {
    let values = vec![
        ("nonce".to_string(), ScriptValue::String(b"token".to_vec())),
        ("attempt".to_string(), ScriptValue::Integer(1)),
    ];
    let form = multipart_form(&values).unwrap();
    let request = reqwest::Client::new()
        .post("https://example.com")
        .multipart(form)
        .build()
        .unwrap();

    assert!(request.headers()[header::CONTENT_TYPE]
        .to_str()
        .unwrap()
        .starts_with("multipart/form-data; boundary="));
}

#[test]
fn multipart_values_render_as_text() {
    assert_eq!(multipart_text(&ScriptValue::Integer(-42)).unwrap(), "-42");
    assert_eq!(multipart_text(&ScriptValue::Boolean(true)).unwrap(), "true");
    assert_eq!(multipart_text(&ScriptValue::Boolean(false)).unwrap(), "false");
    let f = 2.5f64;
    let number = ScriptValue::Number(FloatRepr { bits: f.to_bits(), text: f.to_string() });
    assert_eq!(multipart_text(&number).unwrap(), "2.5");
    assert!(matches!(multipart_text(&ScriptValue::Nil), Err(HttpError::NonScalarMultipartValue)));
    assert!(matches!(
        multipart_text(&ScriptValue::String(vec![0xff])),
        Err(HttpError::InvalidUtf8)
    ));
    let fields = vec![("t".to_string(), ScriptValue::Table(vec![], 0))];
    assert!(matches!(multipart_form(&fields), Err(HttpError::NonScalarMultipartValue)));
    let fields = vec![
        ("a".to_string(), ScriptValue::Integer(1)),
        ("b".to_string(), ScriptValue::String(vec![0xc3])),
        ("c".to_string(), ScriptValue::Other),
    ];
    assert!(matches!(multipart_form(&fields), Err(HttpError::InvalidUtf8)));
}

#[test]
fn request_cookie_is_replaced_only_when_both_headers_exist() {
    let stored = HeaderValue::from_static("a=1");
    let request = HeaderValue::from_static("b=2");
    assert!(request_cookie_update(None, Some(&stored)).unwrap().is_none());
    assert!(request_cookie_update(Some(&request), None).unwrap().is_none());
    assert!(request_cookie_update(None, None).unwrap().is_none());
    let merged = request_cookie_update(Some(&request), Some(&stored)).unwrap().unwrap();
    assert_eq!(merged.to_str().unwrap(), "a=1; b=2");
}

#[test]
fn read_capped_rejects_body_over_cap() {
    let body = vec![b'x'; 4096];
    let mut buf = Vec::new();
    assert!(append_capped(&mut buf, &body, 1000).is_err());
    let mut chunked = Vec::new();
    let mut refused = false;
    for chunk in body.chunks(512) {
        if append_capped(&mut chunked, chunk, 1000).is_err() {
            refused = true;
            break;
        }
    }
    assert!(refused);
}

#[test]
fn read_capped_passes_body_through_under_cap() {
    let mut buf = Vec::new();
    append_capped(&mut buf, b"hello world", 1_000_000).unwrap();
    assert_eq!(buf, b"hello world");
}

#[test]
fn append_capped_keeps_earlier_chunks_and_allows_exact_fit() {
    let mut buf = Vec::new();
    assert!(append_capped(&mut buf, &[b'x'; 600], 1000).is_ok());
    assert!(matches!(append_capped(&mut buf, &[b'x'; 600], 1000), Err(HttpError::BodyTooLarge)));
    assert_eq!(buf.len(), 600);
    let mut split = Vec::new();
    append_capped(&mut split, b"hello ", 1_000_000).unwrap();
    append_capped(&mut split, b"world", 1_000_000).unwrap();
    assert_eq!(split, b"hello world");
    let mut exact = Vec::new();
    append_capped(&mut exact, b"abc", 3).unwrap();
    assert!(append_capped(&mut exact, b"", 3).is_ok());
    assert!(append_capped(&mut exact, b"d", 3).is_err());
}

#[test]
fn version_names_are_exact() {
    assert_eq!(parse_http_version("HTTP/1.1").unwrap(), HttpVersion::Http11);
    assert_eq!(parse_http_version("HTTP/2").unwrap(), HttpVersion::Http2);
    assert!(matches!(parse_http_version("http/2"), Err(HttpError::UnsupportedVersion)));
    assert!(parse_http_version("HTTP/3").is_err());
}

#[test]
fn request_cookie_is_merged_with_stored_cookies() {
    let stored = HeaderValue::from_static("a=1; b=2");
    let request = HeaderValue::from_static("b=9; c=3");
    let merged = merge_request_cookie(&stored, &request).unwrap();
    assert_eq!(merged.to_str().unwrap(), "a=1; b=9; c=3");
    let opaque = HeaderValue::from_bytes(b"d=\xe2\x82\xac").unwrap();
    let merged = merge_request_cookie(&stored, &opaque).unwrap();
    assert_eq!(merged.to_str().unwrap(), "a=1; b=2");
}

#[test]
fn header_pairs_are_validated_in_order() {
    let pairs = vec![
        ("X-Token".to_string(), "abc".to_string()),
        ("accept".to_string(), "text/html".to_string()),
    ];
    let headers = parse_header_pairs(&pairs).unwrap();
    assert_eq!(headers.len(), 2);
    assert_eq!(headers[0].0.as_str(), "x-token");
    assert_eq!(headers[0].1.to_str().unwrap(), "abc");
    assert!(parse_header_pairs(&vec![("bad name".to_string(), "v".to_string())]).is_err());
    assert!(parse_header_pairs(&vec![("ok".to_string(), "bad\nvalue".to_string())]).is_err());
    assert!(parse_header_pairs(&vec![(String::new(), "v".to_string())]).is_err());
}

#[test]
fn response_headers_keep_last_visible_value() {
    let entries = vec![
        (HeaderName::from_static("set-cookie"), HeaderValue::from_static("a=1")),
        (HeaderName::from_static("x-bin"), HeaderValue::from_bytes(b"\xff").unwrap()),
        (HeaderName::from_static("set-cookie"), HeaderValue::from_static("b=2")),
        (HeaderName::from_static("content-type"), HeaderValue::from_static("text/plain")),
    ];
    let table = response_headers(&entries);
    assert_eq!(
        table,
        vec![
            ("set-cookie".to_string(), "b=2".to_string()),
            ("content-type".to_string(), "text/plain".to_string()),
        ]
    );
}
