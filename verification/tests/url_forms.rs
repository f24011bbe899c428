use luakit::url::{decode, decode_component, encode_component, host, join, parse};

#[test]
fn encode_component_uses_form_encoding() {
    assert_eq!(encode_component("a b&c=d/é*-._~"), "a+b%26c%3Dd%2F%C3%A9*-._%7E");
    assert_eq!(encode_component(""), "");
}

#[test]
fn decode_component_reads_one_value() {
    assert_eq!(decode_component("a+b%26c"), "a b&c");
    assert_eq!(decode_component("x&y=z"), "x");
    assert_eq!(decode_component(""), "");
    assert_eq!(decode_component("%zz"), "%zz");
}

#[test]
fn decode_keeps_last_value_per_name() {
    let table = decode("a=1&b=2&a=3&&c");
    assert_eq!(
        table,
        vec![
            ("a".to_string(), "3".to_string()),
            ("b".to_string(), "2".to_string()),
            ("c".to_string(), String::new()),
        ]
    );
}

#[test]
fn url_parts_and_host() {
    let parts = parse("https://user@Example.com/a/b?x=1#frag").unwrap();
    assert_eq!(parts.scheme, "https");
    assert_eq!(parts.host.as_deref(), Some("example.com"));
    assert_eq!(parts.port, Some(443));
    assert_eq!(parts.path, "/a/b");
    assert_eq!(parts.query.as_deref(), Some("x=1"));
    assert_eq!(parts.fragment.as_deref(), Some("frag"));
    assert!(parse("not a url").is_none());
    assert_eq!(host("http://localhost:8080/").as_deref(), Some("localhost"));
    assert_eq!(host("mailto:someone@example.com"), None);
    assert_eq!(host("nope"), None);
}

#[test]
fn join_resolves_against_base() {
    assert_eq!(join("https://example.com/a/b", "../c").as_deref(), Some("https://example.com/c"));
    assert_eq!(join("not a url", "c"), None);
}

#[test]
fn decoding_an_encoded_component_gives_it_back() {
    for s in ["a b&c", "x=1&y=2", "+%2B%", "é ü 😀", "", "value=other"] {
        assert_eq!(decode_component(&encode_component(s)), s);
    }
    assert_eq!(encode_component("a b&c"), "a+b%26c");
    assert_eq!(decode_component("a+b%26c"), "a b&c");
}
