use luakit::html::{element_size, query, query_one, text, ElementData, HtmlError, MAX_INPUT_BYTES, MAX_MATCHES};

fn attr<'a>(el: &'a ElementData, name: &str) -> Option<&'a str> {
    el.attrs.iter().find(|(k, _)| k == name).map(|(_, v)| v.as_str())
}

#[test]
fn query_accepts_selector_lists_and_preserves_attributes() {
    let elements = query(
        r#"<button id="account"></button>
                    <div class="option add selected" id="active"></div>
                    <div class="option" id="inactive"></div>"#,
        "#account, #active, #missing",
    )
    .unwrap();

    assert_eq!(elements.len(), 2);
    let active = &elements[1];
    assert_eq!(attr(active, "id"), Some("active"));
    assert_eq!(attr(active, "class"), Some("option add selected"));
}

#[test]
fn query_rejects_oversized_input() {
    let big = "x".repeat(MAX_INPUT_BYTES + 1);
    assert!(query(&big, "div").is_err());
}

#[test]
fn query_enforces_match_limit() {
    let at_cap = "<a></a>".repeat(MAX_MATCHES);
    let rows = query(&at_cap, "a").unwrap();
    assert_eq!(rows.len(), MAX_MATCHES);
    let over = "<a></a>".repeat(MAX_MATCHES + 1);
    assert!(query(&over, "a").is_err());
}

#[test]
fn query_rejects_oversized_output() {
    // A few large elements: well under the match limit, but their copied text +
    // html + inner_html blow past the output budget.
    let blob = "y".repeat(140 * 1024);
    let doc = format!("<p>{blob}</p>").repeat(50);
    assert!(query(&doc, "p").is_err());
}

#[test]
fn query_reports_which_limit() {
    let over = "<a></a>".repeat(MAX_MATCHES + 1);
    assert!(matches!(query(&over, "a"), Err(HtmlError::TooManyMatches)));
    let blob = "y".repeat(140 * 1024);
    let doc = format!("<p>{blob}</p>").repeat(50);
    assert!(matches!(query(&doc, "p"), Err(HtmlError::OutputTooLarge)));
    let big = "x".repeat(MAX_INPUT_BYTES + 1);
    assert!(matches!(query(&big, "div"), Err(HtmlError::InputTooLarge)));
}

#[test]
fn query_with_bad_selector_matches_nothing() {
    assert_eq!(query("<div></div>", "[[[").unwrap().len(), 0);
    assert!(query_one("<div></div>", "[[[").unwrap().is_none());
}

#[test]
fn query_copies_element_parts() {
    let rows = query(r#"<ul><li data-x="1">one <b>two</b></li></ul>"#, "li").unwrap();
    assert_eq!(rows.len(), 1);
    let li = &rows[0];
    assert_eq!(li.tag, "li");
    assert_eq!(li.text, "one two");
    assert_eq!(li.inner_html, "one <b>two</b>");
    assert_eq!(li.html, r#"<li data-x="1">one <b>two</b></li>"#);
    assert_eq!(attr(li, "data-x"), Some("1"));
    assert_eq!(element_size(li), 2 + 7 + 34 + 14 + 6 + 1);
}

#[test]
fn query_one_returns_first_match() {
    let first = query_one("<p>a</p><p>b</p>", "p").unwrap().unwrap();
    assert_eq!(first.text, "a");
    assert!(query_one("<p>a</p>", "div").unwrap().is_none());
    let big = "x".repeat(MAX_INPUT_BYTES + 1);
    assert!(matches!(query_one(&big, "p"), Err(HtmlError::InputTooLarge)));
}

#[test]
fn text_collects_document_text() {
    assert_eq!(text("<p>Hello <i>world</i></p>").unwrap(), "Hello world");
    let big = "x".repeat(MAX_INPUT_BYTES + 1);
    assert!(matches!(text(&big), Err(HtmlError::InputTooLarge)));
}
